//! Levenshtein edit distance, with a byte path for ASCII text and a
//! scalar-value path for everything else.
use vstd::prelude::*;
use vstd::string::StringSliceAdditionalSpecFns;

use crate::text::chars_of;

verus! {

/// The least of three numbers.
pub open spec fn min3(x: nat, y: nat, z: nat) -> nat {
    if x <= y && x <= z {
        x
    } else if y <= z {
        y
    } else {
        z
    }
}

/// The least number of single-unit insertions, deletions and substitutions
/// that turn `a` into `b`.
pub open spec fn edit_distance<T>(a: Seq<T>, b: Seq<T>) -> nat
    decreases a.len() + b.len(),
{
    if a.len() == 0 {
        b.len()
    } else if b.len() == 0 {
        a.len()
    } else {
        min3(
            edit_distance(a.drop_last(), b) + 1,
            edit_distance(a, b.drop_last()) + 1,
            edit_distance(a.drop_last(), b.drop_last()) + if a.last() == b.last() {
                0nat
            } else {
                1nat
            },
        )
    }
}

/// The edit distance never exceeds the longer length.
pub proof fn lemma_edit_distance_le_max<T>(a: Seq<T>, b: Seq<T>)
    ensures
        edit_distance(a, b) <= if a.len() >= b.len() { a.len() } else { b.len() },
    decreases a.len() + b.len(),
{
    if a.len() > 0 && b.len() > 0 {
        lemma_edit_distance_le_max(a.drop_last(), b.drop_last());
    }
}

/// The edit distance is never less than the difference of the lengths.
pub proof fn lemma_edit_distance_ge_len_diff<T>(a: Seq<T>, b: Seq<T>)
    ensures
        edit_distance(a, b) + b.len() >= a.len(),
        edit_distance(a, b) + a.len() >= b.len(),
    decreases a.len() + b.len(),
{
    if a.len() > 0 && b.len() > 0 {
        lemma_edit_distance_ge_len_diff(a.drop_last(), b);
        lemma_edit_distance_ge_len_diff(a, b.drop_last());
        lemma_edit_distance_ge_len_diff(a.drop_last(), b.drop_last());
    }
}

/// A sequence is at distance zero from itself.
pub proof fn lemma_edit_distance_self<T>(s: Seq<T>)
    ensures
        edit_distance(s, s) == 0,
    decreases s.len(),
{
    if s.len() > 0 {
        lemma_edit_distance_self(s.drop_last());
    }
}

/// Only equal sequences are at distance zero.
pub proof fn lemma_edit_distance_zero<T>(a: Seq<T>, b: Seq<T>)
    ensures
        edit_distance(a, b) == 0 <==> a == b,
    decreases a.len() + b.len(),
{
    if a.len() == 0 && b.len() == 0 {
        assert(a =~= b);
    } else if a == b {
        lemma_edit_distance_self(a);
    } else if a.len() > 0 && b.len() > 0 {
        lemma_edit_distance_zero(a.drop_last(), b.drop_last());
        if edit_distance(a, b) == 0 {
            assert(a.drop_last() == b.drop_last());
            assert(a =~= a.drop_last().push(a.last()));
            assert(b =~= b.drop_last().push(b.last()));
        }
    }
}

/// The distance from `a` to `b` equals the distance from `b` to `a`.
pub proof fn lemma_edit_distance_symmetric<T>(a: Seq<T>, b: Seq<T>)
    ensures
        edit_distance(a, b) == edit_distance(b, a),
    decreases a.len() + b.len(),
{
    if a.len() > 0 && b.len() > 0 {
        lemma_edit_distance_symmetric(a.drop_last(), b);
        lemma_edit_distance_symmetric(a, b.drop_last());
        lemma_edit_distance_symmetric(a.drop_last(), b.drop_last());
    }
}

/// The distance from the empty sequence to `s` is the length of `s`.
pub proof fn lemma_edit_distance_from_empty<T>(s: Seq<T>)
    ensures
        edit_distance(Seq::<T>::empty(), s) == s.len(),
        edit_distance(s, Seq::<T>::empty()) == s.len(),
{
}

/// The edit distance obeys the triangle inequality.
pub proof fn lemma_edit_distance_triangle<T>(a: Seq<T>, b: Seq<T>, c: Seq<T>)
    ensures
        edit_distance(a, c) <= edit_distance(a, b) + edit_distance(b, c),
    decreases a.len() + b.len() + c.len(),
{
    lemma_edit_distance_ge_len_diff(a, b);
    lemma_edit_distance_ge_len_diff(b, c);
    lemma_edit_distance_le_max(a, c);
    if a.len() == 0 || b.len() == 0 || c.len() == 0 {
        return;
    }
    let a1 = a.drop_last();
    let b1 = b.drop_last();
    let c1 = c.drop_last();
    let ab = edit_distance(a, b);
    let bc = edit_distance(b, c);
    let ac = edit_distance(a, c);
    let xy: nat = if a.last() == b.last() { 0 } else { 1 };
    let yz: nat = if b.last() == c.last() { 0 } else { 1 };
    let xz: nat = if a.last() == c.last() { 0 } else { 1 };
    assert(ac <= edit_distance(a1, c) + 1);
    assert(ac <= edit_distance(a, c1) + 1);
    assert(ac <= edit_distance(a1, c1) + xz);
    if ab == edit_distance(a1, b) + 1 {
        lemma_edit_distance_triangle(a1, b, c);
    } else if bc == edit_distance(b, c1) + 1 {
        lemma_edit_distance_triangle(a, b, c1);
    } else if ab == edit_distance(a, b1) + 1 {
        if bc == edit_distance(b1, c) + 1 {
            lemma_edit_distance_triangle(a, b1, c);
        } else {
            assert(bc == edit_distance(b1, c1) + yz);
            lemma_edit_distance_triangle(a, b1, c1);
        }
    } else {
        assert(ab == edit_distance(a1, b1) + xy);
        if bc == edit_distance(b1, c) + 1 {
            lemma_edit_distance_triangle(a1, b1, c);
        } else {
            assert(bc == edit_distance(b1, c1) + yz);
            lemma_edit_distance_triangle(a1, b1, c1);
            assert(xz <= xy + yz);
        }
    }
}

/// Row `i` of the table before processing holds the distances from
/// `a.take(i)` to every prefix of `b`.
pub open spec fn row_holds<T>(row: Seq<usize>, a: Seq<T>, b: Seq<T>, i: int) -> bool {
    &&& row.len() == b.len() + 1
    &&& forall|j: int| 0 <= j <= b.len() ==> #[trigger] row[j] == edit_distance(a.take(i), b.take(j))
}

proof fn lemma_step<T>(a: Seq<T>, b: Seq<T>, i: int, j: int)
    requires
        0 <= i < a.len(),
        0 < j <= b.len(),
    ensures
        edit_distance(a.take(i + 1), b.take(j)) == min3(
            edit_distance(a.take(i), b.take(j)) + 1,
            edit_distance(a.take(i + 1), b.take(j - 1)) + 1,
            edit_distance(a.take(i), b.take(j - 1)) + if a[i] == b[j - 1] {
                0nat
            } else {
                1nat
            },
        ),
{
    assert(a.take(i + 1).drop_last() =~= a.take(i));
    assert(b.take(j).drop_last() =~= b.take(j - 1));
}

proof fn lemma_first_column<T>(a: Seq<T>, b: Seq<T>, i: int)
    requires
        0 <= i <= a.len(),
    ensures
        edit_distance(a.take(i), b.take(0)) == i,
{
}

proof fn lemma_first_row<T>(a: Seq<T>, b: Seq<T>, j: int)
    requires
        0 <= j <= b.len(),
    ensures
        edit_distance(a.take(0), b.take(j)) == j,
{
}

/// One cell of the table: the cheapest of deleting (`up + 1`), inserting
/// (`left + 1`) and substituting (`diag`, plus one unless the units match).
fn next_cell(diag: usize, up: usize, left: usize, same: bool) -> (r: usize)
    requires
        diag < usize::MAX,
    ensures
        r == min3(up as nat + 1, left as nat + 1, diag as nat + if same {
            0nat
        } else {
            1nat
        }),
{
    let mut cell = if same {
        diag
    } else {
        diag + 1
    };
    if up < cell {
        cell = up + 1;
    }
    if left < cell {
        cell = left + 1;
    }
    cell
}

/// Edit distance over raw bytes.
fn lev_bytes(a: &[u8], b: &[u8]) -> (r: usize)
    ensures
        r == edit_distance(a@, b@),
{
    let n = a.len();
    let m = b.len();
    let mut prev: Vec<usize> = Vec::new();
    let mut j: usize = 0;
    loop
        invariant_except_break
            j <= m,
            prev@.len() == j,
            forall|k: int| 0 <= k < j ==> #[trigger] prev@[k] == k,
        ensures
            prev@.len() == m + 1,
            forall|k: int| 0 <= k <= m ==> #[trigger] prev@[k] == k,
        decreases m - j,
    {
        prev.push(j);
        if j == m {
            break;
        }
        j += 1;
    }
    // The row holds `m + 1` entries, so `m + 1` fits in a `usize`.
    assert(prev.len() == m + 1);
    let mut curr: Vec<usize> = vec![0; m + 1];
    proof {
        assert forall|k: int| 0 <= k <= m implies #[trigger] prev@[k] == edit_distance(
            a@.take(0),
            b@.take(k),
        ) by {
            lemma_first_row(a@, b@, k);
        }
    }
    let mut i: usize = 0;
    while i < n
        invariant
            n == a@.len(),
            m == b@.len(),
            0 <= i <= n,
            m < usize::MAX,
            curr@.len() == m + 1,
            row_holds(prev@, a@, b@, i as int),
        decreases n - i,
    {
        curr.set(0, i + 1);
        proof {
            lemma_first_column(a@, b@, i + 1);
        }
        let ai = a[i];
        let mut j: usize = 1;
        while j <= m
            invariant
                n == a@.len(),
                m == b@.len(),
                0 <= i < n,
                1 <= j <= m + 1,
                m < usize::MAX,
                ai == a@[i as int],
                curr@.len() == m + 1,
                row_holds(prev@, a@, b@, i as int),
                forall|k: int|
                    0 <= k < j ==> #[trigger] curr@[k] == edit_distance(
                        a@.take(i + 1),
                        b@.take(k),
                    ),
            decreases m + 1 - j,
        {
            proof {
                lemma_step(a@, b@, i as int, j as int);
                lemma_edit_distance_le_max(a@.take(i as int), b@.take(j - 1));
            }
            let cell = next_cell(prev[j - 1], prev[j], curr[j - 1], ai == b[j - 1]);
            curr.set(j, cell);
            j += 1;
        }
        std::mem::swap(&mut prev, &mut curr);
        i += 1;
    }
    assert(a@.take(n as int) =~= a@);
    assert(b@.take(m as int) =~= b@);
    prev[m]
}

/// Edit distance over Unicode scalar values.
fn lev_chars(a: &[char], b: &[char]) -> (r: usize)
    ensures
        r == edit_distance(a@, b@),
{
    let n = a.len();
    let m = b.len();
    let mut prev: Vec<usize> = Vec::new();
    let mut j: usize = 0;
    loop
        invariant_except_break
            j <= m,
            prev@.len() == j,
            forall|k: int| 0 <= k < j ==> #[trigger] prev@[k] == k,
        ensures
            prev@.len() == m + 1,
            forall|k: int| 0 <= k <= m ==> #[trigger] prev@[k] == k,
        decreases m - j,
    {
        prev.push(j);
        if j == m {
            break;
        }
        j += 1;
    }
    // The row holds `m + 1` entries, so `m + 1` fits in a `usize`.
    assert(prev.len() == m + 1);
    let mut curr: Vec<usize> = vec![0; m + 1];
    proof {
        assert forall|k: int| 0 <= k <= m implies #[trigger] prev@[k] == edit_distance(
            a@.take(0),
            b@.take(k),
        ) by {
            lemma_first_row(a@, b@, k);
        }
    }
    let mut i: usize = 0;
    while i < n
        invariant
            n == a@.len(),
            m == b@.len(),
            0 <= i <= n,
            m < usize::MAX,
            curr@.len() == m + 1,
            row_holds(prev@, a@, b@, i as int),
        decreases n - i,
    {
        curr.set(0, i + 1);
        proof {
            lemma_first_column(a@, b@, i + 1);
        }
        let ai = a[i];
        let mut j: usize = 1;
        while j <= m
            invariant
                n == a@.len(),
                m == b@.len(),
                0 <= i < n,
                1 <= j <= m + 1,
                m < usize::MAX,
                ai == a@[i as int],
                curr@.len() == m + 1,
                row_holds(prev@, a@, b@, i as int),
                forall|k: int|
                    0 <= k < j ==> #[trigger] curr@[k] == edit_distance(
                        a@.take(i + 1),
                        b@.take(k),
                    ),
            decreases m + 1 - j,
        {
            proof {
                lemma_step(a@, b@, i as int, j as int);
                lemma_edit_distance_le_max(a@.take(i as int), b@.take(j - 1));
            }
            let cell = next_cell(prev[j - 1], prev[j], curr[j - 1], ai == b[j - 1]);
            curr.set(j, cell);
            j += 1;
        }
        std::mem::swap(&mut prev, &mut curr);
        i += 1;
    }
    assert(a@.take(n as int) =~= a@);
    assert(b@.take(m as int) =~= b@);
    prev[m]
}


/// Two pairs of sequences whose units agree position by position in the same
/// way have the same edit distance.
pub open spec fn same_matches<T, U>(a: Seq<T>, b: Seq<T>, c: Seq<U>, d: Seq<U>) -> bool {
    &&& a.len() == c.len()
    &&& b.len() == d.len()
    &&& forall|i: int, j: int|
        0 <= i < a.len() && 0 <= j < b.len() ==> (#[trigger] a[i] == #[trigger] b[j] <==> c[i]
            == d[j])
}

pub proof fn lemma_edit_distance_same_matches<T, U>(a: Seq<T>, b: Seq<T>, c: Seq<U>, d: Seq<U>)
    requires
        same_matches(a, b, c, d),
    ensures
        edit_distance(a, b) == edit_distance(c, d),
    decreases a.len() + b.len(),
{
    if a.len() > 0 && b.len() > 0 {
        assert(same_matches(a.drop_last(), b, c.drop_last(), d));
        assert(same_matches(a, b.drop_last(), c, d.drop_last()));
        assert(same_matches(a.drop_last(), b.drop_last(), c.drop_last(), d.drop_last()));
        lemma_edit_distance_same_matches(a.drop_last(), b, c.drop_last(), d);
        lemma_edit_distance_same_matches(a, b.drop_last(), c, d.drop_last());
        lemma_edit_distance_same_matches(a.drop_last(), b.drop_last(), c.drop_last(), d.drop_last());
        assert(a.last() == b.last() <==> c.last() == d.last());
    }
}

/// The byte path and the scalar-value path agree: on ASCII text the edit
/// distance over the UTF-8 bytes equals the edit distance over the characters.
pub proof fn lemma_byte_path_agrees(a: &str, b: &str)
    requires
        a.is_ascii(),
        b.is_ascii(),
    ensures
        edit_distance(a.spec_bytes(), b.spec_bytes()) == edit_distance(a@, b@),
{
    vstd::utf8::is_ascii_chars_encode_utf8(a@);
    vstd::utf8::is_ascii_chars_encode_utf8(b@);
    let x = a.spec_bytes();
    let y = b.spec_bytes();
    assert forall|i: int, j: int| 0 <= i < x.len() && 0 <= j < y.len() implies (#[trigger] x[i]
        == #[trigger] y[j] <==> a@[i] == b@[j]) by {
        assert(x[i] == a@[i] as u8);
        assert(y[j] == b@[j] as u8);
        assert('\0' <= a@[i] <= '\u{7f}');
        assert('\0' <= b@[j] <= '\u{7f}');
    }
    lemma_edit_distance_same_matches(x, y, a@, b@);
}

/// Whether `a` and `b` hold the same bytes.
fn same_bytes(a: &[u8], b: &[u8]) -> (r: bool)
    ensures
        r == (a@ == b@),
{
    if a.len() != b.len() {
        return false;
    }
    let mut i: usize = 0;
    while i < a.len()
        invariant
            a@.len() == b@.len(),
            i <= a@.len(),
            forall|k: int| 0 <= k < i ==> a@[k] == b@[k],
        decreases a@.len() - i,
    {
        if a[i] != b[i] {
            return false;
        }
        i += 1;
    }
    assert(a@ =~= b@);
    true
}

/// The Levenshtein distance between `a` and `b`, counted in Unicode scalar
/// values.
pub fn levenshtein_distance(a: &str, b: &str) -> (r: usize)
    ensures
        r == edit_distance(a@, b@),
{
    if same_bytes(a.as_bytes(), b.as_bytes()) {
        proof {
            vstd::utf8::encode_utf8_decode_utf8(a@);
            vstd::utf8::encode_utf8_decode_utf8(b@);
            lemma_edit_distance_self(a@);
        }
        return 0;
    }
    if a.is_empty() {
        return chars_of(b).len();
    }
    if b.is_empty() {
        return chars_of(a).len();
    }
    if a.is_ascii() && b.is_ascii() {
        proof {
            lemma_byte_path_agrees(a, b);
        }
        return lev_bytes(a.as_bytes(), b.as_bytes());
    }
    let ac = chars_of(a);
    let bc = chars_of(b);
    lev_chars(ac.as_slice(), bc.as_slice())
}

} // verus!
