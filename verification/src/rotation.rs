//! The four orientations of a card, the look that belongs to each, and the
//! rule that turns a random byte into an orientation.

use vstd::prelude::*;
use crate::color::Color;

verus! {

/// Which way a card points.
#[derive(Clone, Copy, Debug, PartialEq, Eq, Structural)]
pub enum Rotation {
    Up,
    Left,
    Right,
    Down,
}

impl Default for Rotation {
    /// A card starts out pointing up.
    fn default() -> (rotation: Rotation)
        ensures
            rotation == Rotation::Up,
    {
        Rotation::Up
    }
}

impl Rotation {
    /// The orientation that a drawn byte stands for: its remainder modulo
    /// four picks `Up`, `Left`, `Right`, `Down` in this order.
    pub open spec fn of_draw(draw: u8) -> Rotation {
        if draw % 4 == 0 {
            Rotation::Up
        } else if draw % 4 == 1 {
            Rotation::Left
        } else if draw % 4 == 2 {
            Rotation::Right
        } else {
            Rotation::Down
        }
    }

    /// The angle about the viewing axis, in degrees, counter-clockwise.
    pub open spec fn angle_of(self) -> int {
        match self {
            Rotation::Up => 0,
            Rotation::Left => 90,
            Rotation::Right => -90,
            Rotation::Down => 180,
        }
    }

    /// The tint that marks the orientation.
    pub open spec fn tint_of(self) -> Color {
        match self {
            Rotation::Up => Color { red: 20, green: 20, blue: 50 },
            Rotation::Left => Color { red: 20, green: 50, blue: 20 },
            Rotation::Right => Color { red: 50, green: 20, blue: 20 },
            Rotation::Down => Color { red: 50, green: 20, blue: 50 },
        }
    }

    /// Turns a drawn byte into an orientation. Every fourth byte value
    /// gives the same orientation, so a uniform byte gives each of the four
    /// with probability one quarter.
    pub fn from_draw(draw: u8) -> (rotation: Rotation)
        ensures
            rotation == Rotation::of_draw(draw),
    {
        let slot: u8 = draw % 4;
        if slot == 0 {
            Rotation::Up
        } else if slot == 1 {
            Rotation::Left
        } else if slot == 2 {
            Rotation::Right
        } else {
            Rotation::Down
        }
    }

    /// The angle of the orientation in degrees: 0, +90, -90 and 180 for
    /// `Up`, `Left`, `Right` and `Down`.
    pub fn angle(self) -> (degrees: i16)
        ensures
            degrees == self.angle_of(),
            self == Rotation::Up ==> degrees == 0,
            self == Rotation::Left ==> degrees == 90,
            self == Rotation::Right ==> degrees == -90,
            self == Rotation::Down ==> degrees == 180,
    {
        match self {
            Rotation::Up => 0,
            Rotation::Left => 90,
            Rotation::Right => -90,
            Rotation::Down => 180,
        }
    }

    /// The tint of the orientation, one distinct colour for each.
    pub fn tint(self) -> (color: Color)
        ensures
            color == self.tint_of(),
            self == Rotation::Up ==> color == (Color { red: 20, green: 20, blue: 50 }),
            self == Rotation::Left ==> color == (Color { red: 20, green: 50, blue: 20 }),
            self == Rotation::Right ==> color == (Color { red: 50, green: 20, blue: 20 }),
            self == Rotation::Down ==> color == (Color { red: 50, green: 20, blue: 50 }),
    {
        match self {
            Rotation::Up => Color::srgb(20, 20, 50),
            Rotation::Left => Color::srgb(20, 50, 20),
            Rotation::Right => Color::srgb(50, 20, 20),
            Rotation::Down => Color::srgb(50, 20, 50),
        }
    }

    /// Draws an orientation at random: one byte from the thread's generator,
    /// turned into an orientation by [`Rotation::from_draw`].
    pub fn random() -> (rotation: Rotation)
        ensures
            exists|draw: u8| rotation == Rotation::of_draw(draw),
    {
        let draw: u8 = random_byte();
        Rotation::from_draw(draw)
    }
}

/// One byte from `rand::random::<u8>()`, which asks the thread-local
/// generator for a uniformly distributed value. Nothing is claimed of the
/// byte that comes back: two calls may differ.
#[verifier::external_body]
pub(crate) fn random_byte() -> (draw: u8) {
    rand::random::<u8>()
}

/// No two orientations share an angle or a tint.
pub proof fn lemma_looks_are_distinct(a: Rotation, b: Rotation)
    requires
        a != b,
    ensures
        a.angle_of() != b.angle_of(),
        a.tint_of() != b.tint_of(),
{
}

} // verus!
