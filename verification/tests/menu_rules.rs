use solitaire_core::button::{Button, ButtonColors, Interaction, Length, Node};
use solitaire_core::card::Card;
use solitaire_core::color::Color;
use solitaire_core::menu::{button_system, clear_main_menu, point_at, setup_main_menu, MainMenu};
use solitaire_core::state::{GameState, StateMachine};
use solitaire_core::label::{Caption, Label};
use solitaire_core::world::{Body, Camera, Slot, World};

fn grey(level: u8) -> Color {
    Color { red: level, green: level, blue: level }
}

fn button_of(world: &World, entity: usize) -> Button {
    match world.get(entity).unwrap().body {
        Body::Button(button) => button,
        other => panic!("not a button: {:?}", other),
    }
}

fn menu_machine() -> StateMachine {
    StateMachine { current: GameState::Menu, pending: None }
}

#[test]
fn menu_is_a_camera_and_a_box_with_one_labelled_button() {
    let mut world = World::new();
    let menu = setup_main_menu(&mut world);
    assert_eq!(menu, MainMenu { camera: 0, root: 1, button: 2, label: 3 });
    assert_eq!(world.len(), 4);
    assert_eq!(
        world.get(0),
        Some(Slot {
            alive: true,
            parent: None,
            destruct_menu: true,
            body: Body::Camera(Camera { antialiased: false }),
        })
    );
    assert_eq!(
        world.get(1),
        Some(Slot {
            alive: true,
            parent: None,
            destruct_menu: true,
            body: Body::Menu(Node {
                width: Length::Percent(100),
                height: Length::Percent(100),
                column: true,
                centered: true,
            }),
        })
    );
    assert_eq!(
        world.get(2),
        Some(Slot {
            alive: true,
            parent: Some(1),
            destruct_menu: false,
            body: Body::Button(Button {
                node: Node {
                    width: Length::Px(140),
                    height: Length::Px(50),
                    column: false,
                    centered: true,
                },
                corner_radius: 10,
                colors: ButtonColors::default(),
                background: grey(15),
                interaction: Interaction::Idle,
                interaction_changed: true,
                on_press: Some(GameState::Solitaire),
            }),
        })
    );
    assert_eq!(
        world.get(3),
        Some(Slot {
            alive: true,
            parent: Some(2),
            destruct_menu: false,
            body: Body::Label(Label {
                caption: Caption::PlaySolitaire,
                font_size: 15,
                color: grey(90),
                centered: false,
                layer: 0,
            }),
        })
    );
}

#[test]
fn menu_is_set_up_behind_what_is_already_there() {
    let mut world = World::new();
    world.spawn(Body::Deck, false);
    world.spawn(Body::Deck, false);
    let menu = setup_main_menu(&mut world);
    assert_eq!(menu, MainMenu { camera: 2, root: 3, button: 4, label: 5 });
    assert_eq!(world.get(4).unwrap().parent, Some(3));
    assert_eq!(world.get(5).unwrap().parent, Some(4));
}

#[test]
fn clearing_the_menu_takes_out_all_of_it_and_nothing_else() {
    let mut world = World::new();
    let deck = world.spawn(Body::Deck, false);
    let card = world.spawn_child(deck, Body::Card(Card::new(0)), false);
    let menu = setup_main_menu(&mut world);

    clear_main_menu(&mut world);

    assert!(!world.contains(menu.camera));
    assert!(!world.contains(menu.root));
    assert!(!world.contains(menu.button));
    assert!(!world.contains(menu.label));
    assert!(world.contains(deck));
    assert!(world.contains(card));
    assert_eq!(world.len(), 6);
}

#[test]
fn clearing_twice_is_clearing_once() {
    let mut world = World::new();
    let menu = setup_main_menu(&mut world);
    clear_main_menu(&mut world);
    let after_once: Vec<Slot> = (0..world.len()).map(|i| world.slot(i)).collect();
    clear_main_menu(&mut world);
    let after_twice: Vec<Slot> = (0..world.len()).map(|i| world.slot(i)).collect();
    assert_eq!(after_once, after_twice);
    assert!(!world.contains(menu.button));
}

#[test]
fn new_button_answers_its_first_frame_with_its_normal_colour() {
    let mut world = World::new();
    let menu = setup_main_menu(&mut world);
    let mut machine = menu_machine();
    button_system(&mut world, &mut machine);
    let button = button_of(&world, menu.button);
    assert_eq!(button.background, grey(15));
    assert!(!button.interaction_changed);
    assert_eq!(machine, menu_machine());
}

#[test]
fn hovering_recolours_and_requests_nothing() {
    let mut world = World::new();
    let menu = setup_main_menu(&mut world);
    let mut machine = menu_machine();
    button_system(&mut world, &mut machine);

    point_at(&mut world, menu.button, Interaction::Hovered);
    button_system(&mut world, &mut machine);

    assert_eq!(button_of(&world, menu.button).background, grey(25));
    assert_eq!(machine, menu_machine());
}

#[test]
fn pressing_recolours_and_requests_the_table() {
    let mut world = World::new();
    let menu = setup_main_menu(&mut world);
    let mut machine = menu_machine();

    point_at(&mut world, menu.button, Interaction::Pressed);
    button_system(&mut world, &mut machine);

    assert_eq!(button_of(&world, menu.button).background, grey(35));
    assert_eq!(
        machine,
        StateMachine { current: GameState::Menu, pending: Some(GameState::Solitaire) }
    );
}

#[test]
fn leaving_the_button_brings_back_the_normal_colour() {
    let mut world = World::new();
    let menu = setup_main_menu(&mut world);
    let mut machine = menu_machine();
    point_at(&mut world, menu.button, Interaction::Hovered);
    button_system(&mut world, &mut machine);
    point_at(&mut world, menu.button, Interaction::Idle);
    button_system(&mut world, &mut machine);
    assert_eq!(button_of(&world, menu.button).background, grey(15));
}

#[test]
fn held_button_asks_only_once() {
    let mut world = World::new();
    let menu = setup_main_menu(&mut world);
    let mut machine = menu_machine();
    point_at(&mut world, menu.button, Interaction::Pressed);
    button_system(&mut world, &mut machine);
    machine.pending = None;

    point_at(&mut world, menu.button, Interaction::Pressed);
    button_system(&mut world, &mut machine);
    assert_eq!(machine.pending, None);
}

#[test]
fn button_without_payload_only_changes_colour() {
    let mut world = World::new();
    let plain = Button { on_press: None, ..Button::new_play_solitaire() };
    let entity = world.spawn(Body::Button(plain), false);
    let mut machine = menu_machine();
    point_at(&mut world, entity, Interaction::Pressed);
    button_system(&mut world, &mut machine);
    assert_eq!(button_of(&world, entity).background, grey(35));
    assert_eq!(machine, menu_machine());
}

#[test]
fn of_two_pressed_buttons_the_later_one_decides() {
    let mut world = World::new();
    let to_menu = Button { on_press: Some(GameState::Menu), ..Button::new_play_solitaire() };
    let to_loading = Button { on_press: Some(GameState::Loading), ..Button::new_play_solitaire() };
    let first = world.spawn(Body::Button(to_menu), false);
    let second = world.spawn(Body::Button(to_loading), false);
    let mut machine = menu_machine();
    point_at(&mut world, first, Interaction::Pressed);
    point_at(&mut world, second, Interaction::Pressed);
    button_system(&mut world, &mut machine);
    assert_eq!(machine.pending, Some(GameState::Loading));
    assert_eq!(machine.current, GameState::Menu);
}

#[test]
fn earlier_request_stands_when_no_button_asks() {
    let mut world = World::new();
    setup_main_menu(&mut world);
    let mut machine = StateMachine { current: GameState::Menu, pending: Some(GameState::Loading) };
    button_system(&mut world, &mut machine);
    assert_eq!(machine.pending, Some(GameState::Loading));
}

#[test]
fn pointing_at_something_else_changes_nothing() {
    let mut world = World::new();
    let menu = setup_main_menu(&mut world);
    let before: Vec<Slot> = (0..world.len()).map(|i| world.slot(i)).collect();
    point_at(&mut world, menu.label, Interaction::Pressed);
    point_at(&mut world, 99, Interaction::Pressed);
    let after: Vec<Slot> = (0..world.len()).map(|i| world.slot(i)).collect();
    assert_eq!(before, after);
}

#[test]
fn removed_button_neither_answers_nor_asks() {
    let mut world = World::new();
    let menu = setup_main_menu(&mut world);
    point_at(&mut world, menu.button, Interaction::Pressed);
    clear_main_menu(&mut world);
    let mut machine = menu_machine();
    button_system(&mut world, &mut machine);
    assert_eq!(machine, menu_machine());
    match world.slot(menu.button).body {
        Body::Button(button) => assert!(button.interaction_changed),
        other => panic!("not a button: {:?}", other),
    }
}

#[test]
fn captions_read_as_written() {
    assert_eq!(Caption::PlaySolitaire.text(), "Play Solitaire");
    assert_eq!(Caption::Card(0).text(), "Card 0");
    assert_eq!(Caption::Card(3).text(), "Card 3");
    assert_eq!(Caption::Card(9).text(), "Card 9");
    assert_eq!(Caption::Card(10).text(), "Card 10");
    assert_eq!(Caption::Card(47).text(), "Card 47");
    assert_eq!(Caption::Card(99).text(), "Card 99");
    assert_eq!(Caption::Card(100).text(), "Card 100");
    assert_eq!(Caption::Card(205).text(), "Card 205");
    assert_eq!(Caption::Card(255).text(), "Card 255");
}

#[test]
fn every_card_caption_matches_the_decimal_number() {
    for number in 0..=255u8 {
        assert_eq!(Caption::Card(number).text(), format!("Card {}", number));
    }
}
