//! Tabletop-combat bookkeeping: dice-roll formulas with advantage and
//! disadvantage, a hit-point state machine with temporary hit points, and a
//! name-keyed roster of combatants.

mod character;
mod hitpoints;
mod roll;
mod roster;
mod text;

pub use character::Character;
pub use character::CharacterKind;
pub use hitpoints::HitPoints;
pub use roll::Error;
pub use roll::Roll;
pub use roll::RollKind;
pub use roster::Roster;
pub use text::parse_i64;
pub use text::i64_to_string;
