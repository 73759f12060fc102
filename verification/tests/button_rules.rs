use solitaire_core::button::{
    button_response, Button, ButtonColors, ButtonResponse, Interaction, Length, Node,
};
use solitaire_core::color::Color;
use solitaire_core::state::GameState;

fn grey(level: u8) -> Color {
    Color { red: level, green: level, blue: level }
}

#[test]
fn palette_has_the_four_greys() {
    let colors = ButtonColors::default();
    assert_eq!(colors.normal, grey(15));
    assert_eq!(colors.hovered, grey(25));
    assert_eq!(colors.pressed, grey(35));
    assert_eq!(colors.text, grey(90));
}

#[test]
fn button_starts_idle() {
    assert_eq!(Interaction::default(), Interaction::Idle);
}

#[test]
fn pressed_button_turns_pressed_and_asks() {
    let colors = ButtonColors::default();
    let response = button_response(Interaction::Pressed, &colors, Some(GameState::Solitaire));
    assert_eq!(
        response,
        ButtonResponse { background: grey(35), request: Some(GameState::Solitaire) }
    );
}

#[test]
fn pressed_button_without_payload_only_turns_pressed() {
    let colors = ButtonColors::default();
    let response = button_response(Interaction::Pressed, &colors, None);
    assert_eq!(response, ButtonResponse { background: grey(35), request: None });
}

#[test]
fn hovered_button_turns_hovered_and_asks_nothing() {
    let colors = ButtonColors::default();
    let response = button_response(Interaction::Hovered, &colors, Some(GameState::Solitaire));
    assert_eq!(response, ButtonResponse { background: grey(25), request: None });
}

#[test]
fn idle_button_turns_normal_and_asks_nothing() {
    let colors = ButtonColors::default();
    let response = button_response(Interaction::Idle, &colors, Some(GameState::Menu));
    assert_eq!(response, ButtonResponse { background: grey(15), request: None });
}

#[test]
fn response_uses_the_buttons_own_palette() {
    let colors = ButtonColors {
        normal: Color { red: 1, green: 2, blue: 3 },
        hovered: Color { red: 4, green: 5, blue: 6 },
        pressed: Color { red: 7, green: 8, blue: 9 },
        text: Color { red: 10, green: 11, blue: 12 },
    };
    assert_eq!(
        button_response(Interaction::Idle, &colors, None).background,
        Color { red: 1, green: 2, blue: 3 }
    );
    assert_eq!(
        button_response(Interaction::Hovered, &colors, None).background,
        Color { red: 4, green: 5, blue: 6 }
    );
    assert_eq!(
        button_response(Interaction::Pressed, &colors, None).background,
        Color { red: 7, green: 8, blue: 9 }
    );
}

#[test]
fn play_button_is_laid_out_as_designed() {
    let button = Button::new_play_solitaire();
    assert_eq!(
        button.node,
        Node { width: Length::Px(140), height: Length::Px(50), column: false, centered: true }
    );
    assert_eq!(button.corner_radius, 10);
    assert_eq!(button.colors, ButtonColors::default());
    assert_eq!(button.background, grey(15));
    assert_eq!(button.interaction, Interaction::Idle);
    assert!(button.interaction_changed);
    assert_eq!(button.on_press, Some(GameState::Solitaire));
}

#[test]
fn pointing_records_a_change_only_when_it_is_one() {
    let (seen, _) = Button::new_play_solitaire().answer();
    assert!(!seen.interaction_changed);

    let same = seen.point_at(Interaction::Idle);
    assert_eq!(same, seen);

    let hovered = seen.point_at(Interaction::Hovered);
    assert_eq!(hovered.interaction, Interaction::Hovered);
    assert!(hovered.interaction_changed);
    assert_eq!(hovered.background, seen.background);
}

#[test]
fn button_answers_once_per_change() {
    let pressed = Button::new_play_solitaire().point_at(Interaction::Pressed);
    let (after, request) = pressed.answer();
    assert_eq!(request, Some(GameState::Solitaire));
    assert_eq!(after.background, grey(35));
    assert!(!after.interaction_changed);

    let (again, request_again) = after.answer();
    assert_eq!(again, after);
    assert_eq!(request_again, None);
}
