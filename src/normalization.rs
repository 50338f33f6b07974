//! Text normalization: canonical decomposition, removal of combining marks,
//! optional lowercasing and whitespace collapsing.
use vstd::prelude::*;
use unicode_normalization::UnicodeNormalization;

use crate::text::{chars_of, string_from_chars};

verus! {

/// The canonical decomposition (NFD) of a character sequence.
pub uninterp spec fn nfd_of(s: Seq<char>) -> Seq<char>;

/// The lowercase mapping of a character sequence, as `str::to_lowercase`
/// gives it.
pub uninterp spec fn lowercase_of(s: Seq<char>) -> Seq<char>;

/// Relies on `unicode_normalization::UnicodeNormalization::nfd`: the canonical
/// decomposition depends on the characters alone.
#[verifier::external_body]
fn decompose(s: &str) -> (r: String)
    ensures
        r@ == nfd_of(s@),
{
    s.nfd().collect::<String>()
}

/// Relies on `str::to_lowercase`: the result depends on the characters alone.
#[verifier::external_body]
pub(crate) fn to_lower(s: &str) -> (r: String)
    ensures
        r@ == lowercase_of(s@),
{
    s.to_lowercase()
}

/// The combining-mark blocks whose characters are removed: Combining
/// Diacritical Marks, their Extended and Supplement blocks, Combining
/// Diacritical Marks for Symbols, and Combining Half Marks.
pub open spec fn combining_mark(c: char) -> bool {
    ||| '\u{0300}' <= c <= '\u{036F}'
    ||| '\u{1AB0}' <= c <= '\u{1AFF}'
    ||| '\u{1DC0}' <= c <= '\u{1DFF}'
    ||| '\u{20D0}' <= c <= '\u{20FF}'
    ||| '\u{FE20}' <= c <= '\u{FE2F}'
}

/// Characters with the Unicode `White_Space` property, the set that
/// `char::is_whitespace` recognises.
pub open spec fn whitespace(c: char) -> bool {
    ||| '\u{0009}' <= c <= '\u{000D}'
    ||| c == ' '
    ||| c == '\u{0085}'
    ||| c == '\u{00A0}'
    ||| c == '\u{1680}'
    ||| '\u{2000}' <= c <= '\u{200A}'
    ||| c == '\u{2028}'
    ||| c == '\u{2029}'
    ||| c == '\u{202F}'
    ||| c == '\u{205F}'
    ||| c == '\u{3000}'
}

/// `s` without its combining marks.
pub open spec fn without_marks(s: Seq<char>) -> Seq<char> {
    s.filter(|c: char| !combining_mark(c))
}

/// The words of `s` (its maximal runs of non-whitespace characters) joined
/// by single spaces, built one character at a time: whitespace is dropped,
/// and a character that follows whitespace is preceded by one space unless
/// nothing has been kept yet.
pub open spec fn collapse_whitespace(s: Seq<char>) -> Seq<char>
    decreases s.len(),
{
    if s.len() == 0 {
        Seq::empty()
    } else {
        let p = collapse_whitespace(s.drop_last());
        let c = s.last();
        if whitespace(c) {
            p
        } else if s.len() >= 2 && whitespace(s[s.len() - 2]) && p.len() > 0 {
            p.push(' ').push(c)
        } else {
            p.push(c)
        }
    }
}

/// What `normalize_string` returns for `s`.
pub open spec fn normalized(s: Seq<char>, to_lowercase: bool) -> Seq<char> {
    let stripped = without_marks(nfd_of(s));
    collapse_whitespace(if to_lowercase { lowercase_of(stripped) } else { stripped })
}

/// No combining mark is left in `t`.
pub open spec fn free_of_marks(t: Seq<char>) -> bool {
    forall|i: int| 0 <= i < t.len() ==> !combining_mark(#[trigger] t[i])
}

proof fn lemma_filter_keeps_free(t: Seq<char>)
    requires
        free_of_marks(t),
    ensures
        without_marks(t) == t,
    decreases t.len(),
{
    reveal(Seq::filter);
    if t.len() > 0 {
        lemma_filter_keeps_free(t.drop_last());
        assert(t =~= t.drop_last().push(t.last()));
    }
}

/// Removing combining marks twice gives what removing them once gives.
pub proof fn lemma_without_marks_idempotent(s: Seq<char>)
    ensures
        without_marks(without_marks(s)) == without_marks(s),
{
    let t = without_marks(s);
    assert forall|i: int| 0 <= i < t.len() implies !combining_mark(#[trigger] t[i]) by {
        s.lemma_filter_pred(|c: char| !combining_mark(c), i);
    }
    lemma_filter_keeps_free(t);
}

/// `t` holds no whitespace other than the ASCII space, does not start with
/// a space, and never holds two spaces in a row.
pub open spec fn spaced_words(t: Seq<char>) -> bool {
    &&& forall|i: int| 0 <= i < t.len() && whitespace(#[trigger] t[i]) ==> t[i] == ' '
    &&& t.len() > 0 ==> t[0] != ' '
    &&& forall|i: int| 0 <= i < t.len() - 1 && #[trigger] t[i] == ' ' ==> t[i + 1] != ' '
}

proof fn lemma_collapse_shape(s: Seq<char>)
    ensures
        spaced_words(collapse_whitespace(s)),
        collapse_whitespace(s).len() > 0 ==> collapse_whitespace(s).last() != ' ',
    decreases s.len(),
{
    if s.len() > 0 {
        lemma_collapse_shape(s.drop_last());
        let p = collapse_whitespace(s.drop_last());
        let r = collapse_whitespace(s);
        if !whitespace(s.last()) {
            assert forall|i: int| 0 <= i < r.len() - 1 && #[trigger] r[i] == ' ' implies r[i + 1]
                != ' ' by {
                if i < p.len() - 1 {
                    assert(r[i] == p[i] && r[i + 1] == p[i + 1]);
                }
            }
        }
    }
}

proof fn lemma_collapse_spaced(t: Seq<char>)
    requires
        spaced_words(t),
    ensures
        collapse_whitespace(t) == if t.len() > 0 && t.last() == ' ' {
            t.drop_last()
        } else {
            t
        },
    decreases t.len(),
{
    if t.len() > 0 {
        let u = t.drop_last();
        assert(spaced_words(u)) by {
            assert forall|i: int| 0 <= i < u.len() - 1 && #[trigger] u[i] == ' ' implies u[i + 1]
                != ' ' by {
                assert(t[i] == ' ');
            }
        }
        lemma_collapse_spaced(u);
        let c = t.last();
        if whitespace(c) {
            assert(u.len() > 0);
            assert(t[u.len() - 1] != ' ');
        } else if u.len() > 0 && u.last() == ' ' {
            assert(u.len() >= 2);
            assert(u.drop_last().push(' ').push(c) =~= t);
        } else {
            assert(u.push(c) =~= t);
            if u.len() > 0 {
                assert(t[t.len() - 2] == u.last());
            }
        }
    }
}

/// Collapsing whitespace twice gives what collapsing it once gives.
pub proof fn lemma_collapse_whitespace_idempotent(s: Seq<char>)
    ensures
        collapse_whitespace(collapse_whitespace(s)) == collapse_whitespace(s),
{
    lemma_collapse_shape(s);
    lemma_collapse_spaced(collapse_whitespace(s));
}

/// Whether `c` lies in one of the combining-mark blocks.
pub fn is_combining_mark(c: char) -> (r: bool)
    ensures
        r == combining_mark(c),
{
    ('\u{0300}' <= c && c <= '\u{036F}') || ('\u{1AB0}' <= c && c <= '\u{1AFF}') || ('\u{1DC0}'
        <= c && c <= '\u{1DFF}') || ('\u{20D0}' <= c && c <= '\u{20FF}') || ('\u{FE20}' <= c && c
        <= '\u{FE2F}')
}

/// Whether `c` is whitespace in the Unicode sense.
pub fn is_whitespace(c: char) -> (r: bool)
    ensures
        r == whitespace(c),
{
    ('\u{0009}' <= c && c <= '\u{000D}') || c == ' ' || c == '\u{0085}' || c == '\u{00A0}' || c
        == '\u{1680}' || ('\u{2000}' <= c && c <= '\u{200A}') || c == '\u{2028}' || c == '\u{2029}'
        || c == '\u{202F}' || c == '\u{205F}' || c == '\u{3000}'
}

/// Removes every combining mark from `s`.
pub fn strip_combining_marks(s: &str) -> (r: String)
    ensures
        r@ == without_marks(s@),
{
    let cs = chars_of(s);
    let mut out: Vec<char> = Vec::new();
    let mut i: usize = 0;
    while i < cs.len()
        invariant
            cs@ == s@,
            i <= cs@.len(),
            out@ == without_marks(cs@.take(i as int)),
        decreases cs@.len() - i,
    {
        let c = cs[i];
        proof {
            assert(cs@.take(i + 1).drop_last() =~= cs@.take(i as int));
            reveal(Seq::filter);
        }
        if !is_combining_mark(c) {
            out.push(c);
        }
        i += 1;
    }
    assert(cs@.take(cs@.len() as int) =~= cs@);
    string_from_chars(&out)
}

/// Drops leading and trailing whitespace and replaces each inner run of
/// whitespace with one ASCII space.
pub fn normalize_whitespace(s: &str) -> (r: String)
    ensures
        r@ == collapse_whitespace(s@),
{
    let cs = chars_of(s);
    let mut out: Vec<char> = Vec::new();
    let mut i: usize = 0;
    while i < cs.len()
        invariant
            cs@ == s@,
            i <= cs@.len(),
            out@ == collapse_whitespace(cs@.take(i as int)),
        decreases cs@.len() - i,
    {
        let c = cs[i];
        proof {
            assert(cs@.take(i + 1).drop_last() =~= cs@.take(i as int));
        }
        if !is_whitespace(c) {
            if i >= 1 && is_whitespace(cs[i - 1]) && out.len() > 0 {
                out.push(' ');
            }
            out.push(c);
        }
        i += 1;
    }
    assert(cs@.take(cs@.len() as int) =~= cs@);
    string_from_chars(&out)
}

/// Decomposes `input`, removes combining marks, lowercases when asked, and
/// collapses whitespace.
pub fn normalize_string(input: &str, to_lowercase: bool) -> (r: String)
    ensures
        r@ == normalized(input@, to_lowercase),
{
    let decomposed = decompose(input);
    let stripped = strip_combining_marks(decomposed.as_str());
    if to_lowercase {
        let lowered = to_lower(stripped.as_str());
        normalize_whitespace(lowered.as_str())
    } else {
        normalize_whitespace(stripped.as_str())
    }
}

} // verus!
