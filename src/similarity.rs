//! Similarity scores: one minus the edit distance over the longer byte length,
//! kept as an exact ratio.
use vstd::prelude::*;
use vstd::string::StringSliceAdditionalSpecFns;

use crate::distance::{
    edit_distance,
    lemma_edit_distance_le_max,
    lemma_edit_distance_self,
    lemma_edit_distance_zero,
    levenshtein_distance,
};
use crate::normalization::{normalize_string, normalized};

verus! {

/// A similarity score in `[0, 1]`, standing for `1 - distance / scale`.
#[derive(Clone, Copy, Debug, PartialEq, Eq)]
pub struct Score {
    pub distance: usize,
    pub scale: usize,
}

impl Score {
    /// The score lies in `[0, 1]`.
    pub open spec fn wf(self) -> bool {
        0 < self.scale && self.distance <= self.scale
    }

    /// The score stands for the ratio given by `parts`.
    pub open spec fn is(self, parts: (nat, nat)) -> bool {
        self.distance == parts.0 && self.scale == parts.1
    }
}

/// A non-negative rational `num / den`, used as a score threshold.
#[derive(Clone, Copy, Debug, PartialEq, Eq)]
pub struct Ratio {
    pub num: u64,
    pub den: u64,
}

impl Ratio {
    pub open spec fn wf(self) -> bool {
        self.den > 0
    }
}

/// The length of the UTF-8 encoding of `s`.
pub open spec fn byte_len(s: Seq<char>) -> nat {
    vstd::utf8::encode_utf8(s).len()
}

pub open spec fn max_nat(x: nat, y: nat) -> nat {
    if x >= y {
        x
    } else {
        y
    }
}

/// The similarity of `a` and `b` as (distance, scale): equal texts score one,
/// a text against empty text scores zero, and otherwise the edit distance is
/// taken over the larger byte length.
pub open spec fn similarity_of(a: Seq<char>, b: Seq<char>) -> (nat, nat) {
    if a == b {
        (0, 1)
    } else if a.len() == 0 || b.len() == 0 {
        (1, 1)
    } else {
        (edit_distance(a, b), max_nat(byte_len(a), byte_len(b)))
    }
}

/// Score `(d1, s1)` is at least score `(d2, s2)`.
pub open spec fn score_at_least(d1: int, s1: int, d2: int, s2: int) -> bool {
    d1 * s2 <= d2 * s1
}

/// A score `(d, s)` reaches the threshold `t`: `1 - d / s >= t.num / t.den`.
pub open spec fn meets(d: int, s: int, t: Ratio) -> bool {
    (s - d) * t.den >= t.num * s
}

/// The form in which `fuzzy` compares its arguments.
pub open spec fn fuzzy_form(s: Seq<char>, normalize: Option<bool>) -> Seq<char> {
    if normalize.unwrap_or(true) {
        normalized(s, true)
    } else {
        s
    }
}

proof fn lemma_byte_len_ge(s: Seq<char>)
    ensures
        byte_len(s) >= s.len(),
    decreases s.len(),
{
    if s.len() > 0 {
        lemma_byte_len_ge(s.drop_first());
    }
}

/// Every similarity lies in `[0, 1]`: the scale is positive and the distance
/// does not exceed it.
pub proof fn lemma_similarity_bounds(a: Seq<char>, b: Seq<char>)
    ensures
        similarity_of(a, b).1 > 0,
        similarity_of(a, b).0 <= similarity_of(a, b).1,
{
    lemma_edit_distance_le_max(a, b);
    lemma_byte_len_ge(a);
    lemma_byte_len_ge(b);
}

/// Any text is at distance zero from itself and has similarity one with itself.
pub proof fn lemma_identical(s: Seq<char>)
    ensures
        edit_distance(s, s) == 0,
        similarity_of(s, s) == (0nat, 1nat),
{
    lemma_edit_distance_self(s);
}

/// The similarity of `a` and `b`.
pub fn calculate_similarity(a: &str, b: &str) -> (r: Score)
    ensures
        r.is(similarity_of(a@, b@)),
        r.wf(),
{
    proof {
        lemma_similarity_bounds(a@, b@);
    }
    if a.is_empty() && b.is_empty() {
        assert(a@ =~= b@);
        return Score { distance: 0, scale: 1 };
    }
    if a.is_empty() || b.is_empty() {
        return Score { distance: 1, scale: 1 };
    }
    let distance = levenshtein_distance(a, b);
    proof {
        lemma_edit_distance_zero(a@, b@);
    }
    if distance == 0 {
        return Score { distance: 0, scale: 1 };
    }
    let la = a.as_bytes().len();
    let lb = b.as_bytes().len();
    let scale = if la >= lb {
        la
    } else {
        lb
    };
    Score { distance, scale }
}

/// The similarity of two strings, normalized first (with case folding) unless
/// `normalize` is `Some(false)`.
pub fn fuzzy(str1: String, str2: String, normalize: Option<bool>) -> (r: Score)
    ensures
        r.is(similarity_of(fuzzy_form(str1@, normalize), fuzzy_form(str2@, normalize))),
        r.wf(),
{
    let should_normalize = match normalize {
        Some(v) => v,
        None => true,
    };
    if should_normalize {
        let s1 = normalize_string(str1.as_str(), true);
        let s2 = normalize_string(str2.as_str(), true);
        calculate_similarity(s1.as_str(), s2.as_str())
    } else {
        calculate_similarity(str1.as_str(), str2.as_str())
    }
}

proof fn lemma_product_fits(x: int, y: int)
    requires
        0 <= x <= u64::MAX,
        0 <= y <= u64::MAX,
    ensures
        0 <= x * y <= u128::MAX,
{
    vstd::arithmetic::mul::lemma_mul_upper_bound(x, u64::MAX as int, y, u64::MAX as int);
    assert(0 <= x * y) by (nonlinear_arith)
        requires
            0 <= x,
            0 <= y,
    ;
    assert((u64::MAX as int) * (u64::MAX as int) <= u128::MAX) by (nonlinear_arith);
}

/// Whether score `x` is at least score `y`.
pub fn at_least(x: Score, y: Score) -> (r: bool)
    ensures
        r == score_at_least(x.distance as int, x.scale as int, y.distance as int, y.scale as int),
{
    proof {
        lemma_product_fits(x.distance as int, y.scale as int);
        lemma_product_fits(y.distance as int, x.scale as int);
    }
    let lhs = (x.distance as u128) * (y.scale as u128);
    let rhs = (y.distance as u128) * (x.scale as u128);
    lhs <= rhs
}

/// Whether score `x` reaches the threshold `t`.
pub fn reaches(x: Score, t: Ratio) -> (r: bool)
    requires
        x.wf(),
    ensures
        r == meets(x.distance as int, x.scale as int, t),
{
    proof {
        lemma_product_fits((x.scale - x.distance) as int, t.den as int);
        lemma_product_fits(t.num as int, x.scale as int);
    }
    let lhs = ((x.scale - x.distance) as u128) * (t.den as u128);
    let rhs = (t.num as u128) * (x.scale as u128);
    lhs >= rhs
}

} // verus!
