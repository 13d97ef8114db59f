//! The hit-point state machine: a maximum (0 means "not set"), a current
//! value clamped by damage and healing, and a temporary buffer that absorbs
//! damage first and never stacks.

use vstd::prelude::*;

use crate::roll::Error;
use crate::roll::Roll;
use crate::roll::formula_ok;
use crate::roll::has_d;
use crate::roll::roll_outcome_ok;
use crate::text::int_literal_val;
use crate::text::is_int_literal;

verus! {

/// The spec-level image of a `HitPoints`.
pub ghost struct HitPointsView {
    pub max: int,
    pub current: int,
    pub temp: int,
}

impl HitPointsView {
    /// The temporary buffer is never negative.
    pub open spec fn wf(self) -> bool {
        self.temp >= 0
    }
}

/// What dealing `dmg` damage does: the temporary buffer absorbs first and
/// is floored at zero; only the part it could not absorb is subtracted
/// from the current value, which is floored at zero in turn.
pub open spec fn deal_spec(h: HitPointsView, dmg: int) -> HitPointsView {
    let new_temp = if h.temp - dmg > 0 {
        h.temp - dmg
    } else {
        0
    };
    let leftover = dmg - (h.temp - new_temp);
    let new_current = if leftover > 0 {
        if h.current - leftover > 0 {
            h.current - leftover
        } else {
            0
        }
    } else {
        h.current
    };
    HitPointsView { max: h.max, current: new_current, temp: new_temp }
}

/// What healing `amount` does: the current value rises but never beyond
/// the maximum; the temporary buffer is not restored.
pub open spec fn heal_spec(h: HitPointsView, amount: int) -> HitPointsView {
    let new_current = if h.current + amount <= h.max {
        h.current + amount
    } else {
        h.max
    };
    HitPointsView { max: h.max, current: new_current, temp: h.temp }
}

/// Damage no greater than the temporary buffer is absorbed whole and
/// leaves the current value untouched; greater damage empties the buffer
/// and reduces the current value by exactly the overflow, floored at
/// zero. The maximum is never touched.
pub proof fn lemma_temp_absorbs_first(h: HitPointsView, dmg: int)
    requires
        h.wf(),
        0 <= dmg,
    ensures
        deal_spec(h, dmg).max == h.max,
        dmg <= h.temp ==> deal_spec(h, dmg).current == h.current && deal_spec(h, dmg).temp
            == h.temp - dmg,
        dmg > h.temp ==> deal_spec(h, dmg).temp == 0 && deal_spec(h, dmg).current == (if h.current
            - (dmg - h.temp) > 0 {
            h.current - (dmg - h.temp)
        } else {
            0
        }),
{
}

/// Healing never raises the current value above the maximum, and touches
/// neither the maximum nor the temporary buffer.
pub proof fn lemma_heal_never_exceeds_max(h: HitPointsView, amount: int)
    ensures
        heal_spec(h, amount).current <= h.max,
        heal_spec(h, amount).max == h.max,
        heal_spec(h, amount).temp == h.temp,
{
}

/// Hit points of one combatant.
#[derive(Debug)]
pub struct HitPoints {
    max: i64,
    current: i64,
    temp: i64,
}

impl View for HitPoints {
    type V = HitPointsView;

    closed spec fn view(&self) -> HitPointsView {
        HitPointsView { max: self.max as int, current: self.current as int, temp: self.temp as int }
    }
}

impl Default for HitPoints {
    /// The unset state: everything zero.
    fn default() -> (r: HitPoints)
        ensures
            r@ == (HitPointsView { max: 0, current: 0, temp: 0 }),
    {
        HitPoints { max: 0, current: 0, temp: 0 }
    }
}

impl HitPoints {
    /// Resolves the formula once and starts at full health: maximum and
    /// current equal to the total, no temporary buffer.
    pub fn from(formula: &str) -> (r: Result<HitPoints, Error>)
        ensures
            r is Ok <==> formula_ok(formula@),
            r matches Ok(h) ==> {
                &&& roll_outcome_ok(formula@, h@.max)
                &&& h@.current == h@.max
                &&& h@.temp == 0
                &&& h@.wf()
            },
            r matches Err(e) ==> e == Error::Format,
    {
        match Roll::from(formula).roll() {
            Ok(total) => Ok(HitPoints { max: total, current: total, temp: 0 }),
            Err(e) => Err(e),
        }
    }

    /// Rebuilds a hit-point state from its three counters.
    pub fn from_parts(max: i64, current: i64, temp: i64) -> (r: HitPoints)
        requires
            temp >= 0,
        ensures
            r@ == (HitPointsView { max: max as int, current: current as int, temp: temp as int }),
    {
        HitPoints { max, current, temp }
    }

    /// Moves the maximum to `total`, shifting the current value by the
    /// same delta so that damage taken so far is preserved; no clamping
    /// happens here.
    pub fn set_max_value(&mut self, total: i64)
        requires
            i64::MIN <= old(self)@.current + (total as int - old(self)@.max) <= i64::MAX,
        ensures
            final(self)@.max == total as int,
            final(self)@.current == old(self)@.current + (total as int - old(self)@.max),
            final(self)@.temp == old(self)@.temp,
    {
        let shifted = (self.current as i128) + (total as i128 - self.max as i128);
        self.current = shifted as i64;
        self.max = total;
    }

    /// Resolves the formula and moves the maximum to the total, shifting
    /// the current value by the delta as `set_max_value` does. Fails with
    /// `Format` exactly on a bad formula, and with `Overflow` exactly when
    /// the total that came back shifts the current value out of `i64`; in
    /// particular a plain integer literal succeeds whenever its shift fits.
    /// On any failure nothing changes.
    pub fn set_max(&mut self, formula: &str) -> (r: Result<(), Error>)
        ensures
            r is Err ==> final(self)@ == old(self)@,
            (r == Result::<(), Error>::Err(Error::Format)) <==> !formula_ok(formula@),
            r matches Ok(u) ==> exists|t: int|
                {
                    &&& #[trigger] roll_outcome_ok(formula@, t)
                    &&& final(self)@.max == t
                    &&& final(self)@.current == old(self)@.current + (t - old(self)@.max)
                    &&& final(self)@.temp == old(self)@.temp
                },
            r == Result::<(), Error>::Err(Error::Overflow) ==> exists|t: int|
                #[trigger] roll_outcome_ok(formula@, t) && !(i64::MIN <= old(self)@.current + (t
                    - old(self)@.max) <= i64::MAX),
            !has_d(formula@) && is_int_literal(formula@) ==> (r is Ok <==> i64::MIN <= old(
                self,
            )@.current + (int_literal_val(formula@) - old(self)@.max) <= i64::MAX),
            !has_d(formula@) && r is Ok ==> {
                &&& final(self)@.max == int_literal_val(formula@)
                &&& final(self)@.current == old(self)@.current + (int_literal_val(formula@) - old(
                    self,
                )@.max)
                &&& final(self)@.temp == old(self)@.temp
            },
    {
        match Roll::from(formula).roll() {
            Ok(total) => {
                proof {
                    assert(roll_outcome_ok(formula@, total as int));
                }
                let shifted = (self.current as i128) + (total as i128 - self.max as i128);
                if shifted < i64::MIN as i128 || shifted > i64::MAX as i128 {
                    Err(Error::Overflow)
                } else {
                    self.set_max_value(total);
                    Ok(())
                }
            },
            Err(e) => Err(e),
        }
    }

    /// The maximum has been assigned.
    pub fn is_set(&self) -> (r: bool)
        ensures
            r == (self@.max > 0),
    {
        self.max > 0
    }

    /// Grants temporary hit points: the buffer keeps the higher of its
    /// current and the offered value, never stacking them.
    pub fn temp(&mut self, hp: i64)
        ensures
            final(self)@.temp == (if hp as int > old(self)@.temp {
                hp as int
            } else {
                old(self)@.temp
            }),
            final(self)@.max == old(self)@.max,
            final(self)@.current == old(self)@.current,
    {
        if hp > self.temp {
            self.temp = hp;
        }
    }

    /// Deals damage as `deal_spec` describes: the temporary buffer first,
    /// the overflow against the current value, both floored at zero.
    pub fn deal(&mut self, dmg: i64)
        requires
            old(self)@.wf(),
            old(self)@.temp - dmg <= i64::MAX,
        ensures
            final(self)@ == deal_spec(old(self)@, dmg as int),
            final(self)@.wf(),
    {
        let shrunk = (self.temp as i128) - (dmg as i128);
        let new_temp: i64 = if shrunk > 0 {
            shrunk as i64
        } else {
            0
        };
        let leftover = (dmg as i128) - ((self.temp as i128) - (new_temp as i128));
        self.temp = new_temp;
        if leftover > 0 {
            let reduced = (self.current as i128) - leftover;
            self.current = if reduced > 0 {
                reduced as i64
            } else {
                0
            };
        }
    }

    /// Heals as `heal_spec` describes: the current value rises, capped at
    /// the maximum.
    pub fn heal(&mut self, amount: i64)
        requires
            i64::MIN <= old(self)@.current + amount,
        ensures
            final(self)@ == heal_spec(old(self)@, amount as int),
    {
        let raised = (self.current as i128) + (amount as i128);
        self.current = if raised <= self.max as i128 {
            raised as i64
        } else {
            self.max
        };
    }

    /// The current hit points.
    pub fn current(&self) -> (r: i64)
        ensures
            r as int == self@.current,
    {
        self.current
    }

    /// The maximum hit points.
    pub fn max(&self) -> (r: i64)
        ensures
            r as int == self@.max,
    {
        self.max
    }

    /// The temporary hit points.
    pub fn temp_value(&self) -> (r: i64)
        ensures
            r as int == self@.temp,
    {
        self.temp
    }
}

} // verus!
