use solitaire_core::button::Interaction;
use solitaire_core::card::{Card, Position};
use solitaire_core::color::Color;
use solitaire_core::game::{run_hooks, Game};
use solitaire_core::solitaire::{finished_rotation_timer, periodic_timer_system, QuerySingleError};
use solitaire_core::state::{GameState, StateTransition};
use solitaire_core::timer::{JustFinished, TimerState, TimerUnit};
use solitaire_core::world::{Body, Slot, World};

fn snapshot(game: &Game) -> Vec<Slot> {
    let world = game.world();
    (0..world.len()).map(|i| world.slot(i)).collect()
}

fn card_at(game: &Game, entity: usize) -> Card {
    match game.world().get(entity).unwrap().body {
        Body::Card(card) => card,
        other => panic!("not a card: {:?}", other),
    }
}

fn timer_at(game: &Game, entity: usize) -> TimerUnit {
    match game.world().get(entity).unwrap().body {
        Body::Timer(unit) => unit,
        other => panic!("not a timer: {:?}", other),
    }
}

fn game_in_menu() -> Game {
    let mut game = Game::new();
    game.assets_loaded();
    game.frame(16_000_000);
    game
}

fn game_at_table() -> Game {
    let mut game = game_in_menu();
    game.point_at(2, Interaction::Pressed);
    game.frame(16_000_000);
    game.frame(0);
    game
}

const CARDS: [usize; 4] = [7, 9, 11, 13];
const TIMER: usize = 5;

#[test]
fn new_game_loads_with_an_empty_world() {
    let game = Game::new();
    assert_eq!(game.state(), GameState::Loading);
    assert_eq!(game.pending(), None);
    assert_eq!(game.world().len(), 0);
}

#[test]
fn frames_while_loading_change_nothing() {
    let mut game = Game::new();
    game.frame(1_000_000_000);
    game.frame(1_000_000_000);
    assert_eq!(game.state(), GameState::Loading);
    assert_eq!(game.pending(), None);
    assert_eq!(game.world().len(), 0);
}

#[test]
fn end_of_loading_brings_up_the_menu_at_the_next_frame() {
    let mut game = Game::new();
    game.assets_loaded();
    assert_eq!(game.state(), GameState::Loading);
    assert_eq!(game.pending(), Some(GameState::Menu));
    assert_eq!(game.world().len(), 0);

    game.frame(16_000_000);
    assert_eq!(game.state(), GameState::Menu);
    assert_eq!(game.pending(), None);
    assert_eq!(game.world().len(), 4);
    for entity in 0..4 {
        assert!(game.world().contains(entity));
    }
}

#[test]
fn commit_reports_the_transition() {
    let mut game = Game::new();
    assert_eq!(game.apply_transition(), None);
    game.assets_loaded();
    assert_eq!(
        game.apply_transition(),
        Some(StateTransition { exited: GameState::Loading, entered: GameState::Menu })
    );
    assert_eq!(game.apply_transition(), None);
    assert_eq!(game.world().len(), 4);
}

#[test]
fn pressing_play_starts_the_game_at_the_next_commit() {
    let mut game = game_in_menu();
    game.point_at(2, Interaction::Pressed);
    assert_eq!(game.pending(), None);

    game.frame(16_000_000);
    assert_eq!(game.state(), GameState::Menu);
    assert_eq!(game.pending(), Some(GameState::Solitaire));
    assert_eq!(game.world().len(), 4);
    assert!(game.world().contains(2));

    game.frame(16_000_000);
    assert_eq!(game.state(), GameState::Solitaire);
    assert_eq!(game.pending(), None);
    assert_eq!(game.world().len(), 15);
    for entity in 0..4 {
        assert!(!game.world().contains(entity));
    }
    for entity in 4..15 {
        assert!(game.world().contains(entity));
    }
    assert_eq!(game.world().get(6).unwrap().body, Body::Deck);
    for (number, entity) in CARDS.iter().enumerate() {
        let card = card_at(&game, *entity);
        assert_eq!(card.position, Position { x: 0, y: 0, z: number as i32 });
    }
}

#[test]
fn hovering_the_play_button_does_not_start_the_game() {
    let mut game = game_in_menu();
    game.point_at(2, Interaction::Hovered);
    game.frame(16_000_000);
    game.frame(16_000_000);
    assert_eq!(game.state(), GameState::Menu);
    assert_eq!(game.pending(), None);
    match game.world().get(2).unwrap().body {
        Body::Button(button) => {
            assert_eq!(button.background, Color { red: 25, green: 25, blue: 25 })
        },
        other => panic!("not a button: {:?}", other),
    }
}

#[test]
fn end_of_loading_is_ignored_once_the_menu_is_up() {
    let mut game = game_in_menu();
    game.assets_loaded();
    assert_eq!(game.pending(), None);
    let mut playing = game_at_table();
    playing.assets_loaded();
    playing.frame(0);
    assert_eq!(playing.state(), GameState::Solitaire);
    assert_eq!(playing.world().len(), 15);
}

#[test]
fn first_frame_at_the_table_starts_the_timer_and_settles_the_cards() {
    let game = game_at_table();
    let unit = timer_at(&game, TIMER);
    assert_eq!(unit.state, TimerState::Running);
    assert_eq!(unit.just_finished, None);
    for entity in CARDS {
        let card = card_at(&game, entity);
        assert_eq!(card.rotation, solitaire_core::rotation::Rotation::Up);
        assert!(!card.rotation_changed);
        assert_eq!(card.angle, 0);
    }
}

#[test]
fn timer_fires_once_a_second_and_its_marker_lasts_one_frame() {
    let mut game = game_at_table();
    game.frame(600_000_000);
    assert_eq!(timer_at(&game, TIMER).just_finished, None);
    game.frame(600_000_000);
    assert_eq!(timer_at(&game, TIMER).just_finished, Some(JustFinished { finishes: 1 }));
    game.frame(16_000_000);
    assert_eq!(timer_at(&game, TIMER).just_finished, None);
    assert_eq!(timer_at(&game, TIMER).timer.elapsed, 216_000_000);
}

#[test]
fn frame_of_two_and_a_half_seconds_counts_two_intervals() {
    let mut game = game_at_table();
    game.frame(2_500_000_000);
    assert_eq!(timer_at(&game, TIMER).just_finished, Some(JustFinished { finishes: 2 }));
    assert_eq!(timer_at(&game, TIMER).timer.elapsed, 500_000_000);
}

#[test]
fn cards_look_the_way_they_point_at_the_end_of_every_frame() {
    let mut game = game_at_table();
    for _ in 0..50 {
        game.frame(1_000_000_000);
        for entity in CARDS {
            let card = card_at(&game, entity);
            assert!(!card.rotation_changed);
            assert_eq!(card.angle, card.rotation.angle());
            assert_eq!(card.tint, card.rotation.tint());
        }
    }
}

#[test]
fn cards_keep_their_orientation_between_firings() {
    let mut game = game_at_table();
    game.frame(1_000_000_000);
    let before = snapshot(&game);
    game.frame(100_000_000);
    let after = snapshot(&game);
    for entity in CARDS {
        assert_eq!(after[entity], before[entity]);
    }
}

#[test]
fn firing_turns_cards_over_time() {
    let mut game = game_at_table();
    let mut turned = false;
    for _ in 0..200 {
        game.frame(1_000_000_000);
        for entity in CARDS {
            if card_at(&game, entity).rotation != solitaire_core::rotation::Rotation::Up {
                turned = true;
            }
        }
    }
    assert!(turned);
}

#[test]
fn dragging_a_card_in_the_game() {
    let mut game = game_at_table();
    let card = CARDS[1];
    assert!(game.drag_fits(card, 10, -5));
    game.drag(card, 10, -5);
    assert_eq!(card_at(&game, card).position, Position { x: 10, y: 5, z: 1 });
    assert!(card_at(&game, card).dragged);
    game.frame(16_000_000);
    assert!(card_at(&game, card).dragged);
    game.drag_end(card);
    assert!(!card_at(&game, card).dragged);
    assert_eq!(card_at(&game, card).position, Position { x: 10, y: 5, z: 1 });
    assert!(!game.drag_fits(2, 1, 1));
}

#[test]
fn update_alone_commits_nothing() {
    let mut game = Game::new();
    game.assets_loaded();
    game.update(16_000_000);
    assert_eq!(game.state(), GameState::Loading);
    assert_eq!(game.pending(), Some(GameState::Menu));
    assert_eq!(game.world().len(), 0);
}

fn change(exited: GameState, entered: GameState) -> StateTransition {
    StateTransition { exited, entered }
}

#[test]
fn hooks_put_up_the_menu_and_clear_it_before_the_table_is_laid() {
    let mut world = World::new();
    run_hooks(&mut world, change(GameState::Loading, GameState::Menu));
    assert_eq!(world.len(), 4);
    run_hooks(&mut world, change(GameState::Menu, GameState::Solitaire));
    assert_eq!(world.len(), 15);
    for entity in 0..4 {
        assert!(!world.contains(entity));
    }
    for entity in 4..15 {
        assert!(world.contains(entity));
    }
}

#[test]
fn transition_to_the_same_phase_runs_no_hook() {
    let mut world = World::new();
    run_hooks(&mut world, change(GameState::Loading, GameState::Menu));
    run_hooks(&mut world, change(GameState::Menu, GameState::Menu));
    assert_eq!(world.len(), 4);
    for entity in 0..4 {
        assert!(world.contains(entity));
    }
    run_hooks(&mut world, change(GameState::Solitaire, GameState::Solitaire));
    assert_eq!(world.len(), 4);
}

#[test]
fn leaving_the_table_clears_nothing() {
    let mut world = World::new();
    run_hooks(&mut world, change(GameState::Menu, GameState::Solitaire));
    assert_eq!(world.len(), 11);
    run_hooks(&mut world, change(GameState::Solitaire, GameState::Loading));
    assert_eq!(world.len(), 11);
    for entity in 0..11 {
        assert!(world.contains(entity));
    }
}

#[test]
fn entering_the_table_twice_leaves_two_timers_that_fire_together() {
    let mut world = World::new();
    run_hooks(&mut world, change(GameState::Menu, GameState::Solitaire));
    run_hooks(&mut world, change(GameState::Solitaire, GameState::Menu));
    run_hooks(&mut world, change(GameState::Menu, GameState::Solitaire));
    assert_eq!(world.len(), 26);
    periodic_timer_system(&mut world, 500_000_000);
    assert_eq!(finished_rotation_timer(&world), Err(QuerySingleError::NoEntities));
    periodic_timer_system(&mut world, 500_000_000);
    assert_eq!(finished_rotation_timer(&world), Err(QuerySingleError::MultipleEntities));
}
