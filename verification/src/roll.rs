//! Dice-roll formulas: plain integer literals resolve deterministically,
//! `NdS+M` formulas go to the dice evaluator, and a roll can carry
//! advantage or disadvantage, which cancel when both are requested.

use vstd::prelude::*;
use vstd::string::StrSliceExecFns;
use vstd::string::StringExecFns;

use crate::text::all_digits;
use crate::text::digits_val;
use crate::text::int_literal_val;
use crate::text::is_digit;
use crate::text::is_int_literal;
use crate::text::dec_str;
use crate::text::lemma_int_literal_roundtrip;
use crate::text::parse_i64;

verus! {

/// How an operation failed.
#[derive(Clone, Copy, Debug, PartialEq, Eq, Structural)]
pub enum Error {
    /// A formula is neither a valid dice expression nor a valid integer literal.
    Format,
    /// A result would not fit in the hit-point counters.
    Overflow,
}

/// The modifier state of a roll.
#[derive(Clone, Copy, Debug, PartialEq, Eq, Structural)]
pub enum RollKind {
    Normal,
    Advantage,
    Disadvantage,
    Cancelled,
}

/// The transition rule for applying a modifier: a first modifier sticks,
/// repeating it changes nothing, and a different one cancels both.
pub open spec fn combine(k: RollKind, m: RollKind) -> RollKind {
    if k == RollKind::Normal {
        m
    } else if k != m {
        RollKind::Cancelled
    } else {
        k
    }
}

/// Opposed non-normal modifiers applied to a fresh roll, in either order,
/// always land in `Cancelled`.
pub proof fn lemma_opposed_modifiers_cancel(k1: RollKind, k2: RollKind)
    requires
        k1 != k2,
        k1 != RollKind::Normal,
        k2 != RollKind::Normal,
    ensures
        combine(combine(RollKind::Normal, k1), k2) == RollKind::Cancelled,
{
}

/// Applying the same modifier a second time never changes the kind.
pub proof fn lemma_modifier_idempotent(k: RollKind, m: RollKind)
    ensures
        combine(combine(k, m), m) == combine(k, m),
{
}

/// The formula contains a `d`, so it is treated as a dice expression.
pub open spec fn has_d(s: Seq<char>) -> bool {
    exists|i: int| 0 <= i < s.len() && s[i] == 'd'
}

/// `s` splits as a dice expression `[count]d<sides>[(+|-)modifier]` at the
/// `d` index `di` and the sign-or-end index `si`: up to 6 count digits, 1
/// to 6 sides digits denoting at least 1, and an optional sign with 1 to 9
/// modifier digits. The digit-count bounds keep every total the evaluator
/// can return far inside `i64`.
pub open spec fn dice_split_at(s: Seq<char>, di: int, si: int) -> bool {
    &&& 0 <= di < s.len()
    &&& s[di] == 'd'
    &&& di <= 6
    &&& all_digits(s.subrange(0, di))
    &&& di + 1 < si <= s.len()
    &&& si - (di + 1) <= 6
    &&& all_digits(s.subrange(di + 1, si))
    &&& digits_val(s.subrange(di + 1, si)) >= 1
    &&& (si == s.len() || ((s[si] == '+' || s[si] == '-') && 1 <= s.len() - (si + 1) <= 9
        && all_digits(s.subrange(si + 1, s.len() as int))))
}

/// `s` is a dice expression the evaluator is known to accept.
pub open spec fn valid_dice(s: Seq<char>) -> bool {
    exists|di: int, si: int| dice_split_at(s, di, si)
}

/// The split points of a valid dice expression.
pub open spec fn dice_idx(s: Seq<char>) -> (int, int) {
    choose|di: int, si: int| dice_split_at(s, di, si)
}

/// How many dice a valid dice expression throws; a missing count means one.
pub open spec fn dice_count(s: Seq<char>) -> int {
    let (di, si) = dice_idx(s);
    if di == 0 {
        1
    } else {
        digits_val(s.subrange(0, di)) as int
    }
}

/// How many sides each die of a valid dice expression has.
pub open spec fn dice_sides(s: Seq<char>) -> int {
    let (di, si) = dice_idx(s);
    digits_val(s.subrange(di + 1, si)) as int
}

/// The additive modifier of a valid dice expression.
pub open spec fn dice_mod(s: Seq<char>) -> int {
    let (di, si) = dice_idx(s);
    if si == s.len() {
        0
    } else if s[si] == '-' {
        -(digits_val(s.subrange(si + 1, s.len() as int)) as int)
    } else {
        digits_val(s.subrange(si + 1, s.len() as int)) as int
    }
}

/// The least total a valid dice expression can produce: every die shows 1.
pub open spec fn dice_min(s: Seq<char>) -> int {
    dice_count(s) + dice_mod(s)
}

/// The greatest total a valid dice expression can produce: every die shows
/// its number of sides.
pub open spec fn dice_max(s: Seq<char>) -> int {
    dice_count(s) * dice_sides(s) + dice_mod(s)
}

/// The formula resolves at all: a dice expression must be valid, anything
/// else must be an integer literal.
pub open spec fn formula_ok(f: Seq<char>) -> bool {
    if has_d(f) {
        valid_dice(f)
    } else {
        is_int_literal(f)
    }
}

/// What a single resolution of formula `f` may return: the literal's own
/// value for a plain literal, and a total between the dice expression's
/// extremes otherwise.
pub open spec fn roll_outcome_ok(f: Seq<char>, v: int) -> bool {
    if has_d(f) {
        valid_dice(f) && dice_min(f) <= v <= dice_max(f)
    } else {
        is_int_literal(f) && v == int_literal_val(f)
    }
}

/// Relies on `dice_roller::dice::Roller::parse`, `Roller::roll` and
/// `RollResult::total`: for a formula of the exact shape `valid_dice`
/// admits (bounded digit counts, at least one side), `parse` finds the
/// whole formula, `roll` draws each die in `1..=sides`, and `total` adds
/// the modifier, so the total lies between the formula's extremes.
#[verifier::external_body]
fn eval_dice(formula: &str) -> (r: i64)
    requires
        valid_dice(formula@),
    ensures
        dice_min(formula@) <= r as int <= dice_max(formula@),
{
    dice_roller::dice::Roller::parse(formula).roll().total()
}

/// In a valid split the `d` index is the first `d` of the string.
proof fn lemma_split_pins_d(s: Seq<char>, di: int, si: int, fd: int)
    requires
        dice_split_at(s, di, si),
        0 <= fd < s.len(),
        s[fd] == 'd',
        forall|j: int| 0 <= j < fd ==> s[j] != 'd',
    ensures
        di == fd,
{
    if di < fd {
        assert(s[di] == 'd');
    } else if di > fd {
        assert(is_digit(s.subrange(0, di)[fd]));
    }
}

/// In a valid split the sign-or-end index is the first non-digit after the
/// sides digits begin.
proof fn lemma_split_pins_si(s: Seq<char>, di: int, si: int, p: int)
    requires
        dice_split_at(s, di, si),
        di + 1 <= p <= s.len(),
        forall|j: int| di + 1 <= j < p ==> is_digit(#[trigger] s[j]),
        p == s.len() || !is_digit(s[p]),
    ensures
        si == p,
{
    if si < p {
        assert(is_digit(s[si]));
        assert(si < s.len());
        assert(s[si] == '+' || s[si] == '-');
    } else if si > p {
        assert(is_digit(s.subrange(di + 1, si)[p - (di + 1)]));
        assert(is_digit(s[p]));
    }
}

/// Finds the first `d` of the string, if any.
fn find_d(s: &str) -> (r: Option<usize>)
    ensures
        r matches Some(i) ==> 0 <= i < s@.len() && s@[i as int] == 'd' && (forall|j: int|
            0 <= j < i ==> s@[j] != 'd'),
        r is None <==> !has_d(s@),
{
    let n = s.unicode_len();
    let mut i: usize = 0;
    while i < n
        invariant
            0 <= i <= n,
            n == s@.len(),
            forall|j: int| 0 <= j < i ==> s@[j] != 'd',
        decreases n - i,
    {
        if s.get_char(i) == 'd' {
            return Some(i);
        }
        i += 1;
    }
    None
}

/// Decides whether the whole string is a dice expression of the accepted
/// shape, given the position of its first `d`.
fn check_dice(s: &str, di: usize) -> (r: bool)
    requires
        di < s@.len(),
        s@[di as int] == 'd',
        forall|j: int| 0 <= j < di ==> s@[j] != 'd',
    ensures
        r == valid_dice(s@),
{
    let n = s.unicode_len();
    if di > 6 {
        proof {
            assert forall|di2: int, si2: int| !dice_split_at(s@, di2, si2) by {
                if dice_split_at(s@, di2, si2) {
                    lemma_split_pins_d(s@, di2, si2, di as int);
                }
            }
        }
        return false;
    }
    let mut i: usize = 0;
    while i < di
        invariant
            0 <= i <= di,
            di < s@.len(),
            n == s@.len(),
            s@[di as int] == 'd',
            forall|j: int| 0 <= j < di ==> s@[j] != 'd',
            forall|j: int| 0 <= j < i ==> is_digit(#[trigger] s@[j]),
        decreases di - i,
    {
        let u = s.get_char(i) as u32;
        if u < 48 || u > 57 {
            proof {
                assert(!is_digit(s@[i as int]));
                assert forall|di2: int, si2: int| !dice_split_at(s@, di2, si2) by {
                    if dice_split_at(s@, di2, si2) {
                        lemma_split_pins_d(s@, di2, si2, di as int);
                        assert(is_digit(s@.subrange(0, di2)[i as int]));
                    }
                }
            }
            return false;
        }
        i += 1;
    }
    // scan the sides digits
    let mut si: usize = di + 1;
    loop
        invariant
            di + 1 <= si <= n,
            n == s@.len(),
            di < s@.len(),
            s@[di as int] == 'd',
            forall|j: int| 0 <= j < di ==> s@[j] != 'd',
            forall|j: int| 0 <= j < di ==> is_digit(#[trigger] s@[j]),
            forall|j: int| di + 1 <= j < si ==> is_digit(#[trigger] s@[j]),
        ensures
            si == n || !is_digit(s@[si as int]),
        decreases n - si,
    {
        if si >= n {
            break ;
        }
        let u = s.get_char(si) as u32;
        if u < 48 || u > 57 {
            proof {
                assert(!is_digit(s@[si as int]));
            }
            break ;
        }
        si += 1;
    }
    if si == di + 1 || si - (di + 1) > 6 {
        proof {
            assert forall|di2: int, si2: int| !dice_split_at(s@, di2, si2) by {
                if dice_split_at(s@, di2, si2) {
                    lemma_split_pins_d(s@, di2, si2, di as int);
                    lemma_split_pins_si(s@, di2, si2, si as int);
                }
            }
        }
        return false;
    }
    // the sides digits must denote at least 1
    let mut k: usize = di + 1;
    let mut sides: u64 = 0;
    while k < si
        invariant
            di + 1 <= k <= si <= n,
            n == s@.len(),
            si - (di + 1) <= 6,
            forall|j: int| di + 1 <= j < si ==> is_digit(#[trigger] s@[j]),
            sides == digits_val(s@.subrange(di as int + 1, k as int)),
            sides <= 999999,
        decreases si - k,
    {
        let u = s.get_char(k) as u32;
        proof {
            assert(is_digit(s@[k as int]));
            crate::text::lemma_digits_val_segment_step(s@, di as int + 1, k as int);
            crate::text::lemma_digits_val_bound(s@.subrange(di as int + 1, k as int));
            assert(crate::text::pow10(0) == 1);
            assert(crate::text::pow10(1) == 10);
            assert(crate::text::pow10(2) == 100);
            assert(crate::text::pow10(3) == 1000);
            assert(crate::text::pow10(4) == 10000);
            assert(crate::text::pow10(5) == 100000);
            assert(sides < 100000);
        }
        sides = sides * 10 + (u - 48) as u64;
        k += 1;
    }
    if sides == 0 {
        proof {
            assert(s@.subrange(di as int + 1, k as int) =~= s@.subrange(di as int + 1, si as int));
            assert forall|di2: int, si2: int| !dice_split_at(s@, di2, si2) by {
                if dice_split_at(s@, di2, si2) {
                    lemma_split_pins_d(s@, di2, si2, di as int);
                    lemma_split_pins_si(s@, di2, si2, si as int);
                }
            }
        }
        return false;
    }
    proof {
        assert(s@.subrange(di as int + 1, k as int) =~= s@.subrange(di as int + 1, si as int));
    }
    if si == n {
        proof {
            assert(all_digits(s@.subrange(0, di as int)));
            assert(all_digits(s@.subrange(di as int + 1, si as int)));
            assert(dice_split_at(s@, di as int, si as int));
        }
        return true;
    }
    // an explicit modifier follows
    let c = s.get_char(si);
    if !(c == '+' || c == '-') {
        proof {
            assert forall|di2: int, si2: int| !dice_split_at(s@, di2, si2) by {
                if dice_split_at(s@, di2, si2) {
                    lemma_split_pins_d(s@, di2, si2, di as int);
                    lemma_split_pins_si(s@, di2, si2, si as int);
                }
            }
        }
        return false;
    }
    if n - (si + 1) < 1 || n - (si + 1) > 9 {
        proof {
            assert forall|di2: int, si2: int| !dice_split_at(s@, di2, si2) by {
                if dice_split_at(s@, di2, si2) {
                    lemma_split_pins_d(s@, di2, si2, di as int);
                    lemma_split_pins_si(s@, di2, si2, si as int);
                }
            }
        }
        return false;
    }
    let mut m: usize = si + 1;
    while m < n
        invariant
            si + 1 <= m <= n,
            n == s@.len(),
            di < si < s@.len(),
            s@[di as int] == 'd',
            forall|j: int| 0 <= j < di ==> s@[j] != 'd',
            forall|j: int| 0 <= j < di ==> is_digit(#[trigger] s@[j]),
            forall|j: int| di + 1 <= j < si ==> is_digit(#[trigger] s@[j]),
            !is_digit(s@[si as int]),
            forall|j: int| si + 1 <= j < m ==> is_digit(#[trigger] s@[j]),
        decreases n - m,
    {
        let u = s.get_char(m) as u32;
        if u < 48 || u > 57 {
            proof {
                assert(!is_digit(s@[m as int]));
                assert forall|di2: int, si2: int| !dice_split_at(s@, di2, si2) by {
                    if dice_split_at(s@, di2, si2) {
                        lemma_split_pins_d(s@, di2, si2, di as int);
                        lemma_split_pins_si(s@, di2, si2, si as int);
                        assert(is_digit(s@.subrange(si as int + 1, s@.len() as int)[m - (si
                            + 1)]));
                    }
                }
            }
            return false;
        }
        m += 1;
    }
    proof {
        assert(all_digits(s@.subrange(0, di as int)));
        assert(all_digits(s@.subrange(di as int + 1, si as int)));
        assert(all_digits(s@.subrange(si as int + 1, s@.len() as int)));
        assert(dice_split_at(s@, di as int, si as int));
    }
    true
}

/// The spec-level image of a `Roll`.
pub ghost struct RollView {
    pub formula: Seq<char>,
    pub kind: RollKind,
}

/// A dice-roll formula together with its modifier state.
#[derive(Debug)]
pub struct Roll {
    formula: String,
    kind: RollKind,
}

impl View for Roll {
    type V = RollView;

    closed spec fn view(&self) -> RollView {
        RollView { formula: self.formula@, kind: self.kind }
    }
}

impl Roll {
    /// Wraps a formula as a plain, unmodified roll. The formula is not
    /// validated here; resolution reports a bad one.
    pub fn from(formula: &str) -> (r: Roll)
        ensures
            r@.formula == formula@,
            r@.kind == RollKind::Normal,
    {
        Roll { formula: String::from_str(formula), kind: RollKind::Normal }
    }

    /// The wrapped formula.
    pub fn formula(&self) -> (r: &str)
        ensures
            r@ == self@.formula,
    {
        self.formula.as_str()
    }

    /// The current modifier state.
    pub fn kind(&self) -> (r: RollKind)
        ensures
            r == self@.kind,
    {
        self.kind
    }

    /// Applies a modifier by the transition rule and returns the roll for
    /// chaining.
    pub fn with(&mut self, kind: RollKind) -> (r: &mut Roll)
        ensures
            (*r)@.formula == old(self)@.formula,
            (*r)@.kind == combine(old(self)@.kind, kind),
            *final(self) == *final(r),
    {
        if self.kind == RollKind::Normal {
            self.kind = kind;
        } else if self.kind != kind {
            self.kind = RollKind::Cancelled;
        }
        self
    }

    /// Resolves the formula once. A formula without a `d` is read as a
    /// plain integer literal, deterministically and without randomness; a
    /// dice expression is evaluated once for a normal or cancelled roll,
    /// and twice independently for advantage (keeping the maximum) or
    /// disadvantage (keeping the minimum), so the total always lies
    /// between the formula's extremes.
    pub fn roll(&self) -> (r: Result<i64, Error>)
        ensures
            r is Ok <==> formula_ok(self@.formula),
            r matches Ok(v) ==> roll_outcome_ok(self@.formula, v as int),
            r matches Err(e) ==> e == Error::Format,
    {
        let f: &str = self.formula.as_str();
        match find_d(f) {
            None => {
                match parse_i64(f) {
                    Some(v) => Ok(v),
                    None => Err(Error::Format),
                }
            },
            Some(di) => {
                proof {
                    assert(f@[di as int] == 'd');
                    assert(has_d(self@.formula));
                }
                if !check_dice(f, di) {
                    return Err(Error::Format);
                }
                match self.kind {
                    RollKind::Advantage => {
                        let a = eval_dice(f);
                        let b = eval_dice(f);
                        Ok(if a >= b { a } else { b })
                    },
                    RollKind::Disadvantage => {
                        let a = eval_dice(f);
                        let b = eval_dice(f);
                        Ok(if a <= b { a } else { b })
                    },
                    _ => Ok(eval_dice(f)),
                }
            },
        }
    }

    /// Resolves the formula and compares the total against a difficulty:
    /// deterministically for a plain literal, and for dice never claiming
    /// success beyond the formula's maximum nor failure below its minimum.
    pub fn check(&self, dc: i64) -> (r: Result<bool, Error>)
        ensures
            r is Ok <==> formula_ok(self@.formula),
            r matches Ok(b) ==> (!has_d(self@.formula) ==> b == (int_literal_val(self@.formula)
                >= dc as int)),
            r matches Ok(b) ==> (has_d(self@.formula) ==> ((b ==> dc as int <= dice_max(
                self@.formula,
            )) && (!b ==> dice_min(self@.formula) < dc as int))),
            r matches Err(e) ==> e == Error::Format,
    {
        match self.roll() {
            Ok(v) => Ok(v >= dc),
            Err(e) => Err(e),
        }
    }
}

/// Every integer value, rendered in decimal, is a plain formula: it has no
/// `d`, it resolves, and it resolves to the value itself. Together with
/// `Roll::roll`'s contract this makes plain-integer rolls deterministic.
pub proof fn lemma_plain_formula_roundtrip(v: i64)
    ensures
        !has_d(dec_str(v as int)),
        formula_ok(dec_str(v as int)),
        roll_outcome_ok(dec_str(v as int), v as int),
{
    lemma_int_literal_roundtrip(v as int);
    let s = dec_str(v as int);
    assert forall|i: int| 0 <= i < s.len() implies s[i] != 'd' by {
        assert(s[i] == '-' || is_digit(s[i]));
    }
}

} // verus!
