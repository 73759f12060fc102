//! Text on the screen: what a label says and how it is set.

use vstd::prelude::*;
use vstd::string::StringExecFns;
use crate::color::Color;

verus! {

/// What a label says.
#[derive(Clone, Copy, Debug, PartialEq, Eq, Structural)]
pub enum Caption {
    /// The words on the button that starts the game.
    PlaySolitaire,
    /// The word "Card" followed by the card's number.
    Card(u8),
}

/// A piece of text.
#[derive(Clone, Copy, Debug, PartialEq, Eq, Structural)]
pub struct Label {
    pub caption: Caption,
    /// Height of the letters, in logical pixels.
    pub font_size: u16,
    pub color: Color,
    /// Whether the lines of the text are centred.
    pub centered: bool,
    /// How far the text lies in front of what it hangs under.
    pub layer: i32,
}

/// The character that stands for a digit.
pub open spec fn digit_char(digit: int) -> char
    recommends
        0 <= digit < 10,
{
    if digit == 0 {
        '0'
    } else if digit == 1 {
        '1'
    } else if digit == 2 {
        '2'
    } else if digit == 3 {
        '3'
    } else if digit == 4 {
        '4'
    } else if digit == 5 {
        '5'
    } else if digit == 6 {
        '6'
    } else if digit == 7 {
        '7'
    } else if digit == 8 {
        '8'
    } else {
        '9'
    }
}

/// A number written in decimal, without leading zeros.
pub open spec fn decimal(number: nat) -> Seq<char>
    decreases number,
{
    if number < 10 {
        seq![digit_char(number as int)]
    } else {
        decimal(number / 10).push(digit_char((number % 10) as int))
    }
}

impl Caption {
    /// The characters of the caption.
    pub open spec fn chars(self) -> Seq<char> {
        match self {
            Caption::PlaySolitaire => "Play Solitaire"@,
            Caption::Card(number) => "Card "@ + decimal(number as nat),
        }
    }

    /// The caption as text: "Play Solitaire" for the button, and for a
    /// card the word "Card", a space and the card's number in decimal.
    pub fn text(&self) -> (text: String)
        ensures
            text@ == self.chars(),
    {
        match self {
            Caption::PlaySolitaire => String::from_str("Play Solitaire"),
            Caption::Card(number) => {
                let mut text = String::from_str("Card ");
                let number: u8 = *number;
                if number >= 100 {
                    text.append(digit(number / 100));
                }
                if number >= 10 {
                    text.append(digit((number / 10) % 10));
                }
                text.append(digit(number % 10));
                proof {
                    let n = number as nat;
                    reveal_with_fuel(decimal, 3);
                    if number >= 100 {
                        assert(decimal(n) =~= seq![
                            digit_char((n / 100) as int),
                            digit_char(((n / 10) % 10) as int),
                            digit_char((n % 10) as int),
                        ]);
                    } else if number >= 10 {
                        assert(decimal(n) =~= seq![
                            digit_char((n / 10) as int),
                            digit_char((n % 10) as int),
                        ]);
                    }
                    assert(text@ =~= "Card "@ + decimal(n));
                }
                text
            },
        }
    }
}

/// The text of one digit.
fn digit(value: u8) -> (text: &'static str)
    requires
        value < 10,
    ensures
        text@ == seq![digit_char(value as int)],
{
    proof {
        reveal_strlit("0");
        reveal_strlit("1");
        reveal_strlit("2");
        reveal_strlit("3");
        reveal_strlit("4");
        reveal_strlit("5");
        reveal_strlit("6");
        reveal_strlit("7");
        reveal_strlit("8");
        reveal_strlit("9");
    }
    let text = if value == 0 {
        "0"
    } else if value == 1 {
        "1"
    } else if value == 2 {
        "2"
    } else if value == 3 {
        "3"
    } else if value == 4 {
        "4"
    } else if value == 5 {
        "5"
    } else if value == 6 {
        "6"
    } else if value == 7 {
        "7"
    } else if value == 8 {
        "8"
    } else {
        "9"
    };
    assert(text@ =~= seq![digit_char(value as int)]);
    text
}

} // verus!
