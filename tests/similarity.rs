use fuzzy_match::fuzzy;
use fuzzy_match::similarity::{at_least, calculate_similarity, reaches, Ratio, Score};

fn value(s: Score) -> f64 {
    1.0 - s.distance as f64 / s.scale as f64
}

#[test]
fn identical_strings_score_one() {
    for s in ["", "a", "kitten", "Crème"] {
        assert_eq!(value(calculate_similarity(s, s)), 1.0);
    }
    assert_eq!(value(fuzzy("Café".to_string(), "cafe".to_string(), None)), 1.0);
}

#[test]
fn empty_against_text_scores_zero() {
    assert_eq!(calculate_similarity("", "abc"), Score { distance: 1, scale: 1 });
    assert_eq!(value(calculate_similarity("abc", "")), 0.0);
}

#[test]
fn similarity_formula() {
    assert_eq!(calculate_similarity("kitten", "sitting"), Score { distance: 3, scale: 7 });
    // "café" is five bytes long.
    assert_eq!(calculate_similarity("café", "cafe"), Score { distance: 1, scale: 5 });
    assert!((value(calculate_similarity("apple", "applle")) - 5.0 / 6.0).abs() < 1e-12);
}

#[test]
fn similarity_stays_in_unit_interval() {
    let words = ["", "a", "abc", "xyz", "日本語", "kitten"];
    for a in words {
        for b in words {
            let v = value(calculate_similarity(a, b));
            assert!((0.0..=1.0).contains(&v));
        }
    }
}

#[test]
fn fuzzy_normalizes_unless_told_not_to() {
    assert_eq!(fuzzy("HELLO  World".to_string(), "hello world".to_string(), Some(true)), Score { distance: 0, scale: 1 });
    assert_eq!(
        fuzzy("HELLO".to_string(), "hello".to_string(), Some(false)),
        Score { distance: 5, scale: 5 }
    );
}

#[test]
fn score_comparisons() {
    let half = Score { distance: 1, scale: 2 };
    let third = Score { distance: 2, scale: 3 };
    assert!(at_least(half, third));
    assert!(!at_least(third, half));
    assert!(at_least(half, Score { distance: 2, scale: 4 }));
    assert!(reaches(half, Ratio { num: 1, den: 2 }));
    assert!(!reaches(third, Ratio { num: 1, den: 2 }));
    assert!(reaches(third, Ratio { num: 0, den: 1 }));
}
