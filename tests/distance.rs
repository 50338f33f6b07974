use fuzzy_match::levenshtein_distance;

#[test]
fn concrete_distances() {
    assert_eq!(levenshtein_distance("kitten", "sitting"), 3);
    assert_eq!(levenshtein_distance("flaw", "lawn"), 2);
    assert_eq!(levenshtein_distance("", "abc"), 3);
    assert_eq!(levenshtein_distance("same", "same"), 0);
}

#[test]
fn distance_to_self_is_zero() {
    for s in ["", "a", "héllo wörld", "日本語"] {
        assert_eq!(levenshtein_distance(s, s), 0);
    }
}

#[test]
fn distance_is_symmetric() {
    let words = ["kitten", "sitting", "", "naïve", "naive", "日本", "日本語"];
    for a in words {
        for b in words {
            assert_eq!(levenshtein_distance(a, b), levenshtein_distance(b, a));
        }
    }
}

#[test]
fn triangle_inequality_holds() {
    let words = ["kitten", "sitting", "", "naïve", "mitten", "日本語", "abc"];
    for a in words {
        for b in words {
            for c in words {
                assert!(
                    levenshtein_distance(a, c)
                        <= levenshtein_distance(a, b) + levenshtein_distance(b, c)
                );
            }
        }
    }
}

#[test]
fn distance_from_empty_counts_scalar_values() {
    assert_eq!(levenshtein_distance("", "日本語"), 3);
    assert_eq!(levenshtein_distance("héllo", ""), 5);
    assert_eq!(levenshtein_distance("", ""), 0);
}

#[test]
fn multibyte_text_counts_scalar_values() {
    assert_eq!(levenshtein_distance("café", "cafe"), 1);
    assert_eq!(levenshtein_distance("日本語", "日本"), 1);
    assert_eq!(levenshtein_distance("kitten", "sittïng"), 3);
}

#[test]
fn byte_and_scalar_paths_agree() {
    // The second pair differs from the first only by a non-ASCII character
    // that matches nothing, which forces the scalar-value path.
    assert_eq!(levenshtein_distance("kitten", "sitting"), 3);
    assert_eq!(levenshtein_distance("kitten\u{e9}", "sitting\u{e9}"), 3);
    assert_eq!(levenshtein_distance("flaw", "lawn"), 2);
    assert_eq!(levenshtein_distance("\u{e9}flaw", "\u{e9}lawn"), 2);
}
