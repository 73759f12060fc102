//! A card on the table: where it lies, which way it points, how it looks,
//! and how the pointer drags it.

use vstd::prelude::*;
use crate::color::Color;
use crate::rotation::Rotation;

verus! {

/// Width of a card, in world units.
pub const CARD_WIDTH: u16 = 100;

/// Height of a card, in world units.
pub const CARD_HEIGHT: u16 = 180;

/// Thickness of a card, in world units.
pub const CARD_DEPTH: u16 = 1;

/// Number of cards in the deck.
pub const DECK_SIZE: u8 = 4;

/// A place in the world, in whole world units. `y` grows upwards.
#[derive(Clone, Copy, Debug, PartialEq, Eq, Structural)]
pub struct Position {
    pub x: i32,
    pub y: i32,
    pub z: i32,
}

/// A card.
#[derive(Clone, Copy, Debug, PartialEq, Eq, Structural)]
pub struct Card {
    /// Which way the card points.
    pub rotation: Rotation,
    /// Whether the orientation was set since the look was last brought in
    /// line with it. Setting the orientation anew counts even when the
    /// value stays the same.
    pub rotation_changed: bool,
    pub position: Position,
    /// The angle the card is drawn at, in degrees, counter-clockwise.
    pub angle: i16,
    /// The colour the card is drawn in.
    pub tint: Color,
    /// Whether a drag of the card is under way.
    pub dragged: bool,
}

impl Card {
    /// A card as it is laid out: at the origin of layer `layer`, pointing
    /// up, drawn upright in the tint of `Up`, with its look still to be
    /// brought in line.
    pub open spec fn laid_out(layer: i32) -> Card {
        Card {
            rotation: Rotation::Up,
            rotation_changed: true,
            position: Position { x: 0, y: 0, z: layer },
            angle: 0,
            tint: Rotation::Up.tint_of(),
            dragged: false,
        }
    }

    /// Lays out a card on layer `layer`.
    pub fn new(layer: i32) -> (card: Card)
        ensures
            card == Card::laid_out(layer),
    {
        Card {
            rotation: Rotation::default(),
            rotation_changed: true,
            position: Position { x: 0, y: 0, z: layer },
            angle: 0,
            tint: Rotation::Up.tint(),
            dragged: false,
        }
    }

    /// Whether the card is drawn the way it points: at the angle and in the
    /// tint that the table gives for its orientation.
    pub open spec fn looks_right(self) -> bool {
        self.angle == self.rotation.angle_of() && self.tint == self.rotation.tint_of()
    }

    /// Whether the card's look is in line with its orientation or is still
    /// to be brought in line.
    pub open spec fn settled(self) -> bool {
        self.rotation_changed || self.looks_right()
    }

    /// The card with its orientation replaced by `rotation`.
    pub open spec fn rotated_to(self, rotation: Rotation) -> Card {
        Card { rotation, rotation_changed: true, ..self }
    }

    /// Replaces the orientation. The old one is taken away and the new one
    /// put in its place, so the card counts as changed even if both are
    /// equal.
    pub fn rotate_to(self, rotation: Rotation) -> (card: Card)
        ensures
            card == self.rotated_to(rotation),
            card.rotation_changed,
    {
        Card { rotation, rotation_changed: true, ..self }
    }

    /// The card with its look brought in line with its orientation, if the
    /// orientation was set since this was last done.
    pub open spec fn synced(self) -> Card {
        if self.rotation_changed {
            Card {
                angle: self.rotation.angle_of() as i16,
                tint: self.rotation.tint_of(),
                rotation_changed: false,
                ..self
            }
        } else {
            self
        }
    }

    /// Brings the look of the card in line with its orientation: angle and
    /// tint are both taken from the orientation's entry in the table. A
    /// card whose orientation was not set since the last time is left
    /// alone.
    pub fn sync(self) -> (card: Card)
        ensures
            card == self.synced(),
            self.rotation_changed ==> card.angle == self.rotation.angle_of() && card.tint
                == self.rotation.tint_of(),
    {
        if self.rotation_changed {
            Card {
                angle: self.rotation.angle(),
                tint: self.rotation.tint(),
                rotation_changed: false,
                ..self
            }
        } else {
            self
        }
    }

    /// Whether the card can follow a pointer that moves by `(dx, dy)`
    /// without leaving the range of its coordinates.
    pub open spec fn can_follow(self, dx: i32, dy: i32) -> bool {
        &&& i32::MIN <= self.position.x + dx <= i32::MAX
        &&& i32::MIN <= self.position.y - dy <= i32::MAX
    }

    /// The card after the pointer has dragged it by `(dx, dy)`, measured on
    /// the screen, where `y` grows downwards: it moves by `dx` to the right
    /// and by `dy` against the direction of its own `y`, and is marked as
    /// dragged.
    pub open spec fn dragged_by(self, dx: i32, dy: i32) -> Card {
        Card {
            position: Position {
                x: (self.position.x + dx) as i32,
                y: (self.position.y - dy) as i32,
                z: self.position.z,
            },
            dragged: true,
            ..self
        }
    }

    /// Says whether the card can follow a pointer that moves by `(dx, dy)`.
    pub fn fits_drag(&self, dx: i32, dy: i32) -> (fits: bool)
        ensures
            fits == self.can_follow(dx, dy),
    {
        self.position.x.checked_add(dx).is_some() && self.position.y.checked_sub(dy).is_some()
    }

    /// Drags the card by the pointer's movement `(dx, dy)`.
    pub fn drag(self, dx: i32, dy: i32) -> (card: Card)
        requires
            self.can_follow(dx, dy),
        ensures
            card == self.dragged_by(dx, dy),
            card.position.x == self.position.x + dx,
            card.position.y == self.position.y - dy,
            card.position.z == self.position.z,
            card.dragged,
    {
        Card {
            position: Position {
                x: self.position.x + dx,
                y: self.position.y - dy,
                z: self.position.z,
            },
            dragged: true,
            ..self
        }
    }

    /// The card after the drag has ended.
    pub open spec fn released(self) -> Card {
        Card { dragged: false, ..self }
    }

    /// Ends the drag: the mark is taken off and the card stays where it is.
    pub fn release(self) -> (card: Card)
        ensures
            card == self.released(),
            !card.dragged,
            card.position == self.position,
    {
        Card { dragged: false, ..self }
    }
}

} // verus!
