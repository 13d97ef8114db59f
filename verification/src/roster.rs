//! The roster: all tracked combatants, keyed by their unique names, with
//! add-or-overwrite joining, removal, lookup, bulk initiative rolling and a
//! sweep of the dead.

use vstd::prelude::*;
use vstd::string::StringExecFns;

use crate::character::Character;
use crate::character::CharacterView;
use crate::character::dead_spec;
use crate::hitpoints::HitPoints;
use crate::hitpoints::HitPointsView;
use crate::roll::Error;
use crate::roll::Roll;
use crate::roll::formula_ok;
use crate::roll::roll_outcome_ok;

verus! {

/// Two strings hold the same characters.
fn str_eq(a: &str, b: &str) -> (r: bool)
    ensures
        r == (a@ == b@),
{
    let sa = String::from_str(a);
    let sb = String::from_str(b);
    sa == sb
}

/// Some combatant in `s` is named `n`.
pub open spec fn has_name(s: Seq<CharacterView>, n: Seq<char>) -> bool {
    exists|i: int| 0 <= i < s.len() && (#[trigger] s[i]).name == n
}

/// The position of the combatant named `n`; meaningful when names are
/// unique and `n` is present.
pub open spec fn name_index(s: Seq<CharacterView>, n: Seq<char>) -> int {
    choose|i: int| 0 <= i < s.len() && (#[trigger] s[i]).name == n
}

/// Names are unique keys and every hit-point state is well formed.
pub open spec fn wf_seq(s: Seq<CharacterView>) -> bool {
    &&& forall|i: int, j: int| 0 <= i < j < s.len() ==> s[i].name != s[j].name
    &&& forall|i: int| 0 <= i < s.len() ==> (#[trigger] s[i]).hp.wf()
}

/// With unique names, an occupant of a position named `n` is the one
/// `name_index` points at.
proof fn lemma_name_index_of(s: Seq<CharacterView>, n: Seq<char>, i: int)
    requires
        wf_seq(s),
        0 <= i < s.len(),
        s[i].name == n,
    ensures
        has_name(s, n),
        name_index(s, n) == i,
{
    assert(has_name(s, n));
    let j = name_index(s, n);
    if j < i {
        assert(s[j].name != s[i].name);
    } else if j > i {
        assert(s[i].name != s[j].name);
    }
}

/// The predicate `wipe` keeps: the combatant is not dead.
pub open spec fn live_pred() -> spec_fn(CharacterView) -> bool {
    |c: CharacterView| !dead_spec(c)
}

/// One step of filtering by `live_pred`.
proof fn lemma_live_filter_step(s: Seq<CharacterView>, p: int)
    requires
        0 <= p < s.len(),
    ensures
        !dead_spec(s[p]) ==> s.subrange(0, p + 1).filter(live_pred()) =~= s.subrange(
            0,
            p,
        ).filter(live_pred()).push(s[p]),
        dead_spec(s[p]) ==> s.subrange(0, p + 1).filter(live_pred()) =~= s.subrange(
            0,
            p,
        ).filter(live_pred()),
{
    reveal(Seq::filter);
    let a = s.subrange(0, p + 1);
    assert(a.drop_last() =~= s.subrange(0, p));
    assert(a.last() == s[p]);
}

/// Every combatant the live filter keeps stands somewhere in the base
/// sequence.
proof fn lemma_live_filter_in_base(s: Seq<CharacterView>)
    ensures
        forall|k: int|
            0 <= k < s.filter(live_pred()).len() ==> exists|m: int|
                0 <= m < s.len() && s[m] == #[trigger] s.filter(live_pred())[k],
    decreases s.len(),
{
    reveal(Seq::filter);
    if s.len() > 0 {
        let d = s.drop_last();
        lemma_live_filter_in_base(d);
        let f = s.filter(live_pred());
        let fd = d.filter(live_pred());
        assert forall|k: int| 0 <= k < f.len() implies exists|m: int|
            0 <= m < s.len() && s[m] == #[trigger] f[k] by {
            if k < fd.len() {
                assert(f[k] == fd[k]);
                let m = choose|m: int| 0 <= m < d.len() && d[m] == fd[k];
                assert(s[m] == f[k]);
            } else {
                assert(f[k] == s[s.len() - 1]);
            }
        }
    }
}

/// The live filter keeps names unique and hit points well formed.
proof fn lemma_live_filter_keeps_wf(s: Seq<CharacterView>)
    requires
        wf_seq(s),
    ensures
        wf_seq(s.filter(live_pred())),
    decreases s.len(),
{
    reveal(Seq::filter);
    if s.len() > 0 {
        let d = s.drop_last();
        assert(wf_seq(d));
        lemma_live_filter_keeps_wf(d);
        lemma_live_filter_in_base(d);
        let f = s.filter(live_pred());
        let fd = d.filter(live_pred());
        assert forall|i: int, j: int| 0 <= i < j < f.len() implies f[i].name != f[j].name by {
            if j < fd.len() {
                assert(f[i] == fd[i] && f[j] == fd[j]);
            } else {
                assert(f[j] == s[s.len() - 1]);
                assert(f[i] == fd[i]);
                let m = choose|m: int| 0 <= m < d.len() && d[m] == fd[i];
                assert(s[m] == f[i]);
                assert(s[m].name != s[s.len() - 1].name);
            }
        }
        assert forall|i: int| 0 <= i < f.len() implies (#[trigger] f[i]).hp.wf() by {
            if i < fd.len() {
                assert(f[i] == fd[i]);
            } else {
                assert(f[i] == s[s.len() - 1]);
            }
        }
    }
}

/// All tracked combatants of one session.
#[derive(Debug)]
pub struct Roster {
    chars: Vec<Character>,
}

impl View for Roster {
    type V = Seq<CharacterView>;

    closed spec fn view(&self) -> Seq<CharacterView> {
        Seq::new(self.chars@.len(), |i: int| self.chars@[i]@)
    }
}

impl Default for Roster {
    /// The empty roster.
    fn default() -> (r: Roster)
        ensures
            r@ =~= Seq::<CharacterView>::empty(),
            r.wf(),
    {
        Roster { chars: Vec::new() }
    }
}

impl Roster {
    /// Names are unique keys and every hit-point state is well formed.
    pub open spec fn wf(&self) -> bool {
        wf_seq(self@)
    }

    /// How many combatants are tracked.
    pub fn len(&self) -> (r: usize)
        ensures
            r == self@.len(),
    {
        self.chars.len()
    }

    /// The combatant at a position, in roster order.
    pub fn at(&self, i: usize) -> (r: &Character)
        requires
            i < self@.len(),
        ensures
            r@ == self@[i as int],
    {
        &self.chars[i]
    }

    /// The position of the first combatant carrying this name.
    fn find_index(&self, name: &str) -> (r: Option<usize>)
        ensures
            r matches Some(i) ==> i < self@.len() && self@[i as int].name == name@,
            r is None ==> !has_name(self@, name@),
    {
        let n = self.chars.len();
        let mut i: usize = 0;
        while i < n
            invariant
                0 <= i <= n,
                n == self@.len(),
                n == self.chars@.len(),
                forall|j: int| 0 <= j < i ==> (#[trigger] self@[j]).name != name@,
            decreases n - i,
        {
            if str_eq(self.chars[i].name(), name) {
                return Some(i);
            }
            i += 1;
        }
        None
    }

    /// A combatant of this name is tracked.
    pub fn contains(&self, name: &str) -> (r: bool)
        ensures
            r == has_name(self@, name@),
    {
        match self.find_index(name) {
            Some(i) => {
                proof {
                    assert(has_name(self@, name@));
                }
                true
            },
            None => false,
        }
    }

    /// Inserts a combatant, or overwrites the one already carrying its
    /// name.
    pub fn adopt(&mut self, ch: Character)
        requires
            old(self).wf(),
            ch@.hp.wf(),
        ensures
            final(self).wf(),
            has_name(old(self)@, ch@.name) ==> final(self)@ =~= old(self)@.update(
                name_index(old(self)@, ch@.name),
                ch@,
            ),
            !has_name(old(self)@, ch@.name) ==> final(self)@ =~= old(self)@.push(ch@),
    {
        let idx = self.find_index(ch.name());
        match idx {
            Some(i) => {
                proof {
                    lemma_name_index_of(self@, ch@.name, i as int);
                }
                self.chars[i] = ch;
                proof {
                    assert(final(self)@ =~= old(self)@.update(i as int, final(self)@[i as int]));
                    assert forall|a: int, b: int|
                        0 <= a < b < final(self)@.len() implies final(self)@[a].name
                        != final(self)@[b].name by {
                        assert(old(self)@[a].name != old(self)@[b].name);
                        assert(final(self)@[i as int].name == old(self)@[i as int].name);
                    }
                }
            },
            None => {
                self.chars.push(ch);
                proof {
                    assert(final(self)@ =~= old(self)@.push(ch@));
                }
            },
        }
    }

    /// Adds a combatant under `name` with the given initiative roll and
    /// fresh, unset hit points; an existing combatant of that name is
    /// overwritten and its hit-point state discarded.
    pub fn join(&mut self, name: &str, init: Roll)
        requires
            old(self).wf(),
        ensures
            final(self).wf(),
            has_name(old(self)@, name@) ==> final(self)@ =~= old(self)@.update(
                name_index(old(self)@, name@),
                (CharacterView {
                    name: name@,
                    init: init@,
                    hp: HitPointsView { max: 0, current: 0, temp: 0 },
                }),
            ),
            !has_name(old(self)@, name@) ==> final(self)@ =~= old(self)@.push(
                (CharacterView {
                    name: name@,
                    init: init@,
                    hp: HitPointsView { max: 0, current: 0, temp: 0 },
                }),
            ),
    {
        let ch = Character::new(name, init, HitPoints::default());
        self.adopt(ch);
    }

    /// Removes the combatant of this name; absence is a quiet no-op.
    pub fn kill(&mut self, name: &str)
        requires
            old(self).wf(),
        ensures
            final(self).wf(),
            has_name(old(self)@, name@) ==> final(self)@ =~= old(self)@.remove(
                name_index(old(self)@, name@),
            ),
            !has_name(old(self)@, name@) ==> final(self)@ =~= old(self)@,
    {
        let idx = self.find_index(name);
        match idx {
            Some(i) => {
                proof {
                    lemma_name_index_of(self@, name@, i as int);
                }
                self.chars.remove(i);
                proof {
                    assert(final(self)@ =~= old(self)@.remove(i as int));
                    assert forall|a: int, b: int|
                        0 <= a < b < final(self)@.len() implies final(self)@[a].name
                        != final(self)@[b].name by {
                        let a0 = if a < i as int {
                            a
                        } else {
                            a + 1
                        };
                        let b0 = if b < i as int {
                            b
                        } else {
                            b + 1
                        };
                        assert(final(self)@[a] == old(self)@[a0]);
                        assert(final(self)@[b] == old(self)@[b0]);
                        assert(old(self)@[a0].name != old(self)@[b0].name);
                    }
                }
            },
            None => {},
        }
    }

    /// The combatant of this name, if tracked.
    pub fn get(&self, name: &str) -> (r: Option<&Character>)
        requires
            self.wf(),
        ensures
            r is Some <==> has_name(self@, name@),
            r matches Some(c) ==> c@ == self@[name_index(self@, name@)],
    {
        match self.find_index(name) {
            Some(i) => {
                proof {
                    lemma_name_index_of(self@, name@, i as int);
                }
                Some(&self.chars[i])
            },
            None => None,
        }
    }

    /// The combatant of this name, mutably; callers check presence with
    /// `exists` or `get` first.
    pub fn get_mut(&mut self, name: &str) -> (r: Option<&mut Character>)
        requires
            old(self).wf(),
        ensures
            r is Some <==> has_name(old(self)@, name@),
            r is None ==> final(self)@ == old(self)@,
            r matches Some(c) ==> (*c)@ == old(self)@[name_index(old(self)@, name@)]
                && final(self)@ =~= old(self)@.update(name_index(old(self)@, name@), (*final(c))@),
    {
        let n = self.chars.len();
        let mut i: usize = 0;
        while i < n
            invariant
                0 <= i <= n,
                *self == *old(self),
                n == self.chars@.len(),
                old(self).wf(),
                forall|j: int| 0 <= j < i ==> (#[trigger] self@[j]).name != name@,
            decreases n - i,
        {
            if str_eq(self.chars[i].name(), name) {
                proof {
                    lemma_name_index_of(old(self)@, name@, i as int);
                }
                return Some(&mut self.chars[i]);
            }
            i += 1;
        }
        None
    }

    /// Rolls initiative once for every tracked combatant, pairing each
    /// total with the combatant's name in roster order; fails with
    /// `Format` exactly when some tracked formula does not resolve.
    pub fn roll_inits(&self) -> (r: Result<Vec<(i64, String)>, Error>)
        ensures
            r is Ok <==> (forall|j: int|
                0 <= j < self@.len() ==> formula_ok(#[trigger] self@[j].init.formula)),
            r matches Ok(v) ==> {
                &&& v@.len() == self@.len()
                &&& forall|j: int|
                    0 <= j < v@.len() ==> (#[trigger] v@[j]).1@ == self@[j].name
                        && roll_outcome_ok(self@[j].init.formula, v@[j].0 as int)
            },
            r matches Err(e) ==> e == Error::Format,
    {
        let n = self.chars.len();
        let mut out: Vec<(i64, String)> = Vec::new();
        let mut i: usize = 0;
        while i < n
            invariant
                0 <= i <= n,
                n == self.chars@.len(),
                out@.len() == i,
                forall|j: int| 0 <= j < i ==> formula_ok(#[trigger] self@[j].init.formula),
                forall|j: int|
                    0 <= j < i ==> (#[trigger] out@[j]).1@ == self@[j].name && roll_outcome_ok(
                        self@[j].init.formula,
                        out@[j].0 as int,
                    ),
            decreases n - i,
        {
            let c = &self.chars[i];
            match c.init.roll() {
                Ok(v) => {
                    out.push((v, String::from_str(c.name())));
                },
                Err(_) => {
                    proof {
                        assert(!formula_ok(self@[i as int].init.formula));
                    }
                    return Err(Error::Format);
                },
            }
            i += 1;
        }
        Ok(out)
    }

    /// Removes exactly the combatants that are dead at the moment of the
    /// call, keeping everyone else in order.
    pub fn wipe(&mut self)
        requires
            old(self).wf(),
        ensures
            final(self)@ =~= old(self)@.filter(live_pred()),
            final(self).wf(),
    {
        let ghost orig = old(self)@;
        let mut i: usize = 0;
        let ghost mut p: int = 0;
        proof {
            reveal(Seq::filter);
            assert(orig.subrange(0, 0).filter(live_pred()) =~= Seq::<CharacterView>::empty());
            assert(orig.subrange(0, orig.len() as int) =~= orig);
            assert(self@ =~= orig.subrange(0, 0).filter(live_pred()) + orig.subrange(
                0,
                orig.len() as int,
            ));
        }
        while i < self.chars.len()
            invariant
                0 <= p <= orig.len(),
                orig == old(self)@,
                wf_seq(orig),
                i as int == orig.subrange(0, p).filter(live_pred()).len(),
                self@ =~= orig.subrange(0, p).filter(live_pred()) + orig.subrange(
                    p,
                    orig.len() as int,
                ),
            decreases self.chars@.len() - i,
        {
            proof {
                assert(self@[i as int] == orig[p]);
            }
            if self.chars[i].dead() {
                let ghost prev = self@;
                let ghost prevc = self.chars@;
                proof {
                    lemma_live_filter_step(orig, p);
                }
                self.chars.remove(i);
                proof {
                    assert(self.chars@ =~= prevc.subrange(0, i as int) + prevc.subrange(
                        i as int + 1,
                        prevc.len() as int,
                    ));
                    assert forall|j: int| 0 <= j < self@.len() implies self@[j] == (if j < i as int {
                        prev[j]
                    } else {
                        prev[j + 1]
                    }) by {
                        assert(self.chars@[j] == (if j < i as int {
                            prevc[j]
                        } else {
                            prevc[j + 1]
                        }));
                    }
                    let ghost fold = orig.subrange(0, p).filter(live_pred());
                    let ghost rold = orig.subrange(p, orig.len() as int);
                    assert(prev == fold + rold);
                    p = p + 1;
                    let ghost fnew = orig.subrange(0, p).filter(live_pred());
                    let ghost rnew = orig.subrange(p, orig.len() as int);
                    assert(fnew == fold);
                    assert(fnew.len() == i as int);
                    assert(prev.len() == prevc.len());
                    assert(self@.len() == self.chars@.len());
                    assert(self.chars@.len() == prevc.len() - 1);
                    assert(rnew.len() == orig.len() - p);
                    assert(prev.len() == fold.len() + rold.len());
                    assert(self@.len() == fnew.len() + rnew.len());
                    assert forall|j: int| 0 <= j < self@.len() implies self@[j] == (fnew + rnew)[j] by {
                        if j < i as int {
                            assert(self@[j] == prev[j]);
                            assert(prev[j] == fold[j]);
                        } else {
                            assert(self@[j] == prev[j + 1]);
                            assert(prev[j + 1] == rold[j + 1 - i as int]);
                            assert(rold[j + 1 - i as int] == orig[p + j - i as int]);
                            assert((fnew + rnew)[j] == rnew[j - i as int]);
                            assert(rnew[j - i as int] == orig[p + j - i as int]);
                        }
                    }
                    assert(self@ =~= fnew + rnew);
                }
            } else {
                proof {
                    lemma_live_filter_step(orig, p);
                    p = p + 1;
                }
                i += 1;
                proof {
                    assert(self@ =~= orig.subrange(0, p).filter(live_pred()) + orig.subrange(
                        p,
                        orig.len() as int,
                    ));
                }
            }
        }
        proof {
            assert(p == orig.len());
            assert(orig.subrange(0, p).filter(live_pred()) =~= orig.filter(live_pred()));
            lemma_live_filter_keeps_wf(orig);
        }
    }
}

} // verus!
