//! Plain data for the entities that the embedding game loads from prefab
//! files: characters drawn as single glyphs, and areas.

use vstd::prelude::*;

use crate::movement::{Area, Position};

verus! {

/// A glyph that represents a character on screen.
#[derive(Clone, Copy, Debug, PartialEq, Eq, Structural)]
pub struct Glyph(pub char);

/// Whether a character is the player or a named non-player character.
#[derive(Clone, Debug, PartialEq)]
pub enum CharacterVariant {
    /// The player character.
    PlayerCharacter,
    /// A non-player character with the given name.
    NonPlayerCharacter { name: String },
}

/// The data a character is created from.
#[derive(Clone, Debug, PartialEq)]
pub struct CharacterPrefab {
    /// The glyph that draws the character.
    pub glyph: char,
    /// Its starting position, when one is given.
    pub position: Option<Position>,
    /// Which kind of character it is.
    pub variant: CharacterVariant,
}

impl CharacterPrefab {
    /// The character's starting position; the grid origin when none was
    /// given.
    pub fn position_or_default(&self) -> (r: Position)
        ensures
            r == (match self.position {
                Some(p) => p,
                None => Position { x: 0, y: 0 },
            }),
    {
        match &self.position {
            Some(p) => *p,
            None => Position { x: 0, y: 0 },
        }
    }

    /// Whether this prefab creates the player character.
    pub fn is_player(&self) -> (r: bool)
        ensures
            r == (self.variant is PlayerCharacter),
    {
        match &self.variant {
            CharacterVariant::PlayerCharacter => true,
            CharacterVariant::NonPlayerCharacter { .. } => false,
        }
    }
}

/// One entry of an area prefab file.
#[derive(Clone, Debug)]
pub enum AreaPrefab {
    /// The area itself.
    Area(Area),
    /// A character within it.
    Character(CharacterPrefab),
}

impl AreaPrefab {
    /// The grid dimensions, when this entry is the area.
    pub fn dimensions(&self) -> (r: Option<[u32; 2]>)
        ensures
            match self {
                AreaPrefab::Area(a) => r is Some && r->0 == a.dimensions,
                AreaPrefab::Character(_) => r is None,
            },
    {
        match self {
            AreaPrefab::Area(a) => Some(a.dimensions),
            AreaPrefab::Character(_) => None,
        }
    }
}

} // verus!
