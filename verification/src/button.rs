//! The menu button: its palette and what it does when the pointer hovers
//! over it or presses it.

use vstd::prelude::*;
use crate::color::Color;
use crate::state::GameState;

verus! {

/// What the pointer does to a button.
#[derive(Clone, Copy, Debug, PartialEq, Eq, Structural)]
pub enum Interaction {
    /// The button is held down.
    Pressed,
    /// The pointer is over the button.
    Hovered,
    /// The pointer is elsewhere.
    Idle,
}

impl Default for Interaction {
    /// A button starts out idle.
    fn default() -> (interaction: Interaction)
        ensures
            interaction == Interaction::Idle,
    {
        Interaction::Idle
    }
}

/// The four colours of a button. They are set when the button is made and
/// never change.
#[derive(Clone, Copy, Debug, PartialEq, Eq, Structural)]
pub struct ButtonColors {
    pub normal: Color,
    pub hovered: Color,
    pub pressed: Color,
    pub text: Color,
}

impl ButtonColors {
    /// The palette of the menu: three greys that brighten from idle to
    /// pressed, and a light grey for the text.
    pub open spec fn standard() -> ButtonColors {
        ButtonColors {
            normal: Color { red: 15, green: 15, blue: 15 },
            hovered: Color { red: 25, green: 25, blue: 25 },
            pressed: Color { red: 35, green: 35, blue: 35 },
            text: Color { red: 90, green: 90, blue: 90 },
        }
    }
}

impl Default for ButtonColors {
    fn default() -> (colors: ButtonColors)
        ensures
            colors == ButtonColors::standard(),
    {
        ButtonColors {
            normal: Color::srgb(15, 15, 15),
            hovered: Color::srgb(25, 25, 25),
            pressed: Color::srgb(35, 35, 35),
            text: Color::srgb(90, 90, 90),
        }
    }
}

/// What a button does in answer to an interaction.
#[derive(Clone, Copy, Debug, PartialEq, Eq, Structural)]
pub struct ButtonResponse {
    /// The background the button takes on.
    pub background: Color,
    /// The phase the button asks for, if it asks for one.
    pub request: Option<GameState>,
}

/// The answer of a button with palette `colors` and payload `on_press` to
/// an interaction: the background follows the interaction, and only a
/// press hands on the payload.
pub open spec fn response_to(
    interaction: Interaction,
    colors: ButtonColors,
    on_press: Option<GameState>,
) -> ButtonResponse {
    match interaction {
        Interaction::Pressed => ButtonResponse { background: colors.pressed, request: on_press },
        Interaction::Hovered => ButtonResponse { background: colors.hovered, request: None },
        Interaction::Idle => ButtonResponse { background: colors.normal, request: None },
    }
}

/// Decides what a button does when its interaction has changed. A pressed
/// button turns to its pressed colour and, if it carries a payload, asks
/// for that phase; a hovered button turns to its hovered colour; an idle
/// button turns to its normal colour. A button without payload only
/// changes colour.
pub fn button_response(
    interaction: Interaction,
    colors: &ButtonColors,
    on_press: Option<GameState>,
) -> (response: ButtonResponse)
    ensures
        response == response_to(interaction, *colors, on_press),
{
    match interaction {
        Interaction::Pressed => ButtonResponse { background: colors.pressed, request: on_press },
        Interaction::Hovered => ButtonResponse { background: colors.hovered, request: None },
        Interaction::Idle => ButtonResponse { background: colors.normal, request: None },
    }
}

/// A length in the menu's layout.
#[derive(Clone, Copy, Debug, PartialEq, Eq, Structural)]
pub enum Length {
    /// So many logical pixels.
    Px(u16),
    /// So many hundredths of the parent's length.
    Percent(u16),
}

/// A box in the menu's layout.
#[derive(Clone, Copy, Debug, PartialEq, Eq, Structural)]
pub struct Node {
    pub width: Length,
    pub height: Length,
    /// Whether children are stacked from top to bottom.
    pub column: bool,
    /// Whether children are centred on both axes.
    pub centered: bool,
}

/// A button as the menu holds it.
#[derive(Clone, Copy, Debug, PartialEq, Eq, Structural)]
pub struct Button {
    pub node: Node,
    /// Radius of all four corners, in logical pixels.
    pub corner_radius: u16,
    pub colors: ButtonColors,
    pub background: Color,
    pub interaction: Interaction,
    /// Whether the interaction has changed since the button last answered.
    pub interaction_changed: bool,
    /// The phase that a press asks for.
    pub on_press: Option<GameState>,
}

impl Button {
    /// The button that starts the game, as it is first shown.
    pub open spec fn play_solitaire() -> Button {
        Button {
            node: Node { width: Length::Px(140), height: Length::Px(50), column: false, centered: true },
            corner_radius: 10,
            colors: ButtonColors::standard(),
            background: ButtonColors::standard().normal,
            interaction: Interaction::Idle,
            interaction_changed: true,
            on_press: Some(GameState::Solitaire),
        }
    }

    /// Makes the button that starts the game.
    pub fn new_play_solitaire() -> (button: Button)
        ensures
            button == Button::play_solitaire(),
    {
        let colors = ButtonColors::default();
        Button {
            node: Node { width: Length::Px(140), height: Length::Px(50), column: false, centered: true },
            corner_radius: 10,
            colors,
            background: colors.normal,
            interaction: Interaction::Idle,
            interaction_changed: true,
            on_press: Some(GameState::Solitaire),
        }
    }

    /// The button after the pointer has done `interaction` to it. Doing
    /// again what it already shows is no change.
    pub open spec fn pointed_at(self, interaction: Interaction) -> Button {
        if self.interaction == interaction {
            self
        } else {
            Button { interaction, interaction_changed: true, ..self }
        }
    }

    /// Records what the pointer does to the button.
    pub fn point_at(self, interaction: Interaction) -> (button: Button)
        ensures
            button == self.pointed_at(interaction),
    {
        if self.interaction == interaction {
            self
        } else {
            Button { interaction, interaction_changed: true, ..self }
        }
    }

    /// The button after it has answered its interaction, if that had
    /// changed: it shows the colour of the response and counts the
    /// interaction as seen.
    pub open spec fn answered(self) -> Button {
        if self.interaction_changed {
            Button {
                background: response_to(self.interaction, self.colors, self.on_press).background,
                interaction_changed: false,
                ..self
            }
        } else {
            self
        }
    }

    /// The phase the button asks for when it answers.
    pub open spec fn request(self) -> Option<GameState> {
        if self.interaction_changed {
            response_to(self.interaction, self.colors, self.on_press).request
        } else {
            None
        }
    }

    /// Lets the button answer its interaction. Returns the button as it
    /// looks afterwards and the phase it asks for, if any.
    pub fn answer(self) -> (answer: (Button, Option<GameState>))
        ensures
            answer.0 == self.answered(),
            answer.1 == self.request(),
    {
        if self.interaction_changed {
            let response = button_response(self.interaction, &self.colors, self.on_press);
            (
                Button { background: response.background, interaction_changed: false, ..self },
                response.request,
            )
        } else {
            (self, None)
        }
    }
}

} // verus!
