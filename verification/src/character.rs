//! A combatant: a name, an initiative roll, and hit points, with death and
//! status derived from them.

use vstd::prelude::*;
use vstd::string::StringExecFns;

use crate::hitpoints::HitPoints;
use crate::hitpoints::HitPointsView;
use crate::roll::Roll;
use crate::roll::RollView;
use crate::text::dec_str;

verus! {

/// The spec-level image of a `Character`.
pub ghost struct CharacterView {
    pub name: Seq<char>,
    pub init: RollView,
    pub hp: HitPointsView,
}

/// Whether a combatant counts as dead: its maximum has been set and its
/// current hit points have run out. One whose maximum was never assigned
/// is never dead.
pub open spec fn dead_spec(c: CharacterView) -> bool {
    c.hp.max > 0 && c.hp.current < 1
}

/// The status line of a combatant: `DEAD` when dead, the current hit
/// points followed by ` HP` while the maximum is set, and nothing before
/// the maximum was ever assigned.
pub open spec fn status_spec(c: CharacterView) -> Seq<char> {
    if dead_spec(c) {
        "DEAD"@
    } else if c.hp.max > 0 {
        dec_str(c.hp.current) + " HP"@
    } else {
        Seq::<char>::empty()
    }
}

/// A combatant with unset maximum hit points is never dead, whatever its
/// current value.
pub proof fn lemma_unset_max_never_dead(c: CharacterView)
    requires
        c.hp.max == 0,
    ensures
        !dead_spec(c),
{
}

/// The classification of a combatant; it does not change any rule yet.
#[derive(Clone, Copy, Debug, PartialEq, Eq, Structural)]
pub enum CharacterKind {
    PC,
    NPC,
}

/// One tracked combatant.
#[derive(Debug)]
pub struct Character {
    pub name: String,
    pub init: Roll,
    pub hp: HitPoints,
}

impl View for Character {
    type V = CharacterView;

    open spec fn view(&self) -> CharacterView {
        CharacterView { name: self.name@, init: self.init@, hp: self.hp@ }
    }
}

impl Character {
    /// Assembles a combatant from its parts.
    pub fn new(name: &str, init: Roll, hp: HitPoints) -> (r: Character)
        ensures
            r@ == (CharacterView { name: name@, init: init@, hp: hp@ }),
    {
        Character { name: String::from_str(name), init, hp }
    }

    /// The combatant's name, the key it is tracked under.
    pub fn name(&self) -> (r: &str)
        ensures
            r@ == self@.name,
    {
        self.name.as_str()
    }

    /// Whether the combatant is dead, as `dead_spec` derives it.
    pub fn dead(&self) -> (r: bool)
        ensures
            r == dead_spec(self@),
    {
        self.hp.max() > 0 && self.hp.current() < 1
    }

    /// The status line, exactly as `status_spec` derives it.
    pub fn status(&self) -> (r: String)
        ensures
            r@ == status_spec(self@),
    {
        if self.dead() {
            String::from_str("DEAD")
        } else if self.hp.is_set() {
            let mut s = crate::text::i64_to_string(self.hp.current());
            s.append(" HP");
            s
        } else {
            String::new()
        }
    }
}

} // verus!
