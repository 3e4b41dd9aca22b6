use similarity_metrics::string_distances::{
    compare, damerau_levenshtein, distance_alt, join_with_spaces, similarity, Similarity,
    SimilarityError,
};

fn trace(tokens: &[&str]) -> Vec<String> {
    tokens.iter().map(|t| t.to_string()).collect()
}

fn as_float(score: &Similarity) -> f64 {
    1.0 - (score.distance as f64 / score.length as f64)
}

#[test]
fn test_damerau_levenshtein() {
    let log_one = vec!["foo".to_string(), "bar".to_string(), "baz".to_string()];
    let log_two = vec!["foo".to_string(), "bar".to_string(), "baz".to_string()];

    let distance = damerau_levenshtein(&log_one, &log_two);

    assert_eq!(distance, 0);

    let log_three = vec!["foo".to_string(), "bar".to_string(), "alice".to_string()];

    let distance = damerau_levenshtein(&log_one, &log_three);

    assert_eq!(distance, 1);
}

#[test]
fn distance_to_itself_is_zero() {
    for t in [trace(&[]), trace(&["a"]), trace(&["a", "b", "a", "c"])] {
        assert_eq!(damerau_levenshtein(&t, &t), 0);
    }
}

#[test]
fn distance_is_symmetric() {
    let a = trace(&["k", "i", "t", "t", "e", "n"]);
    let b = trace(&["s", "i", "t", "t", "i", "n", "g"]);
    assert_eq!(damerau_levenshtein(&a, &b), 3);
    assert_eq!(damerau_levenshtein(&b, &a), 3);
}

#[test]
fn distance_obeys_the_triangle_inequality() {
    let a = trace(&["open", "approve", "close"]);
    let b = trace(&["open", "close"]);
    let c = trace(&["open", "audit", "approve", "archive"]);
    let ab = damerau_levenshtein(&a, &b);
    let bc = damerau_levenshtein(&b, &c);
    let ac = damerau_levenshtein(&a, &c);
    assert_eq!(ab, 1);
    assert_eq!(bc, 3);
    assert_eq!(ac, 2);
    assert!(ac <= ab + bc);
}

#[test]
fn distance_to_the_empty_trace_is_the_length() {
    let empty = trace(&[]);
    let t = trace(&["x", "y", "z"]);
    assert_eq!(damerau_levenshtein(&empty, &t), 3);
    assert_eq!(damerau_levenshtein(&t, &empty), 3);
    assert_eq!(damerau_levenshtein(&empty, &empty), 0);
}

#[test]
fn one_substitution_costs_one() {
    let a = trace(&["a", "b", "c", "d"]);
    for at in 0..a.len() {
        let mut b = a.clone();
        b[at] = "other".to_string();
        assert_eq!(damerau_levenshtein(&a, &b), 1);
    }
}

#[test]
fn insertion_and_deletion_cost_one() {
    let a = trace(&["a", "b", "c"]);
    assert_eq!(damerau_levenshtein(&a, &trace(&["a", "x", "b", "c"])), 1);
    assert_eq!(damerau_levenshtein(&a, &trace(&["a", "c"])), 1);
}

#[test]
fn a_swap_of_neighbours_costs_two() {
    let a = trace(&["a", "b", "c", "d"]);
    let b = trace(&["a", "c", "b", "d"]);
    assert_eq!(damerau_levenshtein(&a, &b), 2);
}

#[test]
fn tokens_match_only_exactly() {
    let a = trace(&["start order"]);
    assert_eq!(damerau_levenshtein(&a, &trace(&["start order"])), 0);
    assert_eq!(damerau_levenshtein(&a, &trace(&["start order "])), 1);
    assert_eq!(damerau_levenshtein(&a, &trace(&["Start order"])), 1);
    assert_eq!(damerau_levenshtein(&a, &trace(&["start", "order"])), 2);
}

#[test]
fn longer_traces() {
    let a: Vec<String> = (0..200).map(|i| format!("event{}", i % 7)).collect();
    let b: Vec<String> = (0..150).map(|i| format!("event{}", i % 5)).collect();
    let d = damerau_levenshtein(&a, &b);
    assert!(d >= 50);
    assert!(d <= 200);
    assert_eq!(d, damerau_levenshtein(&b, &a));
}

#[test]
fn similarity_of_equal_traces_is_one() {
    let a = trace(&["foo", "bar", "baz"]);
    let b = trace(&["foo", "bar", "baz"]);
    let (distance, score) = compare(&a, &b);
    assert_eq!(distance, 0);
    let score = score.unwrap();
    assert_eq!(score, Similarity { distance: 0, length: 3 });
    assert_eq!(as_float(&score), 1.0);
}

#[test]
fn similarity_after_one_substitution() {
    let a = trace(&["foo", "bar", "baz"]);
    let b = trace(&["foo", "bar", "alice"]);
    let (distance, score) = compare(&a, &b);
    assert_eq!(distance, 1);
    let score = score.unwrap();
    assert_eq!(score, Similarity { distance: 1, length: 3 });
    assert!((as_float(&score) - 0.6667).abs() < 1e-4);
    assert!(score.same_value(&Similarity { distance: 2, length: 6 }));
}

#[test]
fn similarity_against_an_empty_reference_fails() {
    let a = trace(&[]);
    let b = trace(&["x", "y"]);
    let (distance, score) = compare(&a, &b);
    assert_eq!(distance, 2);
    assert_eq!(score, Err(SimilarityError::EmptyReference));
    assert_eq!(similarity(2, 0), Err(SimilarityError::EmptyReference));
    assert_eq!(similarity(0, 0), Err(SimilarityError::EmptyReference));
}

#[test]
fn similarity_depends_on_the_order() {
    let a = trace(&["A", "B"]);
    let b = trace(&["A", "B", "C", "D"]);
    let (d_ab, s_ab) = compare(&a, &b);
    let (d_ba, s_ba) = compare(&b, &a);
    assert_eq!(d_ab, 2);
    assert_eq!(d_ba, 2);
    let s_ab = s_ab.unwrap();
    let s_ba = s_ba.unwrap();
    assert_eq!(as_float(&s_ab), 0.0);
    assert_eq!(as_float(&s_ba), 0.5);
    assert!(!s_ab.same_value(&s_ba));
}

#[test]
fn similarity_of_equal_length_traces_does_not_depend_on_the_order() {
    let a = trace(&["A", "B", "C"]);
    let b = trace(&["A", "B", "X"]);
    let s_ab = compare(&a, &b).1.unwrap();
    let s_ba = compare(&b, &a).1.unwrap();
    assert!(s_ab.same_value(&s_ba));
    assert!((as_float(&s_ab) - 0.6667).abs() < 1e-4);
    assert!((as_float(&s_ba) - 0.6667).abs() < 1e-4);
}

#[test]
fn similarity_is_the_exact_fraction() {
    assert_eq!(similarity(1, 4), Ok(Similarity { distance: 1, length: 4 }));
    assert_eq!(as_float(&similarity(1, 4).unwrap()), 0.75);
    assert_eq!(as_float(&similarity(4, 4).unwrap()), 0.0);
}

#[test]
fn similarity_is_not_clamped() {
    let score = similarity(5, 2).unwrap();
    assert!(score.is_negative());
    assert_eq!(as_float(&score), -1.5);
    assert!(!similarity(2, 2).unwrap().is_negative());
    assert!(!similarity(0, 2).unwrap().is_negative());
    let a = trace(&["a"]);
    let b = trace(&["x", "y", "z"]);
    let (distance, score) = compare(&a, &b);
    assert_eq!(distance, 3);
    assert!(score.unwrap().is_negative());
}

#[test]
fn same_value_compares_the_numbers() {
    let half = Similarity { distance: 1, length: 2 };
    assert!(half.same_value(&Similarity { distance: 3, length: 6 }));
    assert!(!half.same_value(&Similarity { distance: 1, length: 3 }));
    let big = Similarity { distance: usize::MAX, length: usize::MAX };
    assert!(big.same_value(&Similarity { distance: 7, length: 7 }));
    assert!(!big.same_value(&Similarity { distance: usize::MAX - 1, length: usize::MAX }));
}

#[test]
fn distance_alt_counts_a_swap_of_characters_as_one() {
    assert_eq!(distance_alt(&trace(&["ab"]), &trace(&["ba"])), 1);
    assert_eq!(distance_alt(&trace(&["hannah"]), &trace(&["hannha"])), 1);
}

#[test]
fn distance_alt_compares_the_joined_texts() {
    // "foo bar" against "foobar": the space is one character to delete.
    assert_eq!(distance_alt(&trace(&["foo", "bar"]), &trace(&["foobar"])), 1);
    // "a b" against "a": two characters to delete.
    assert_eq!(distance_alt(&trace(&["a", "b"]), &trace(&["a"])), 2);
    assert_eq!(distance_alt(&trace(&[]), &trace(&["x", "y"])), 3);
    assert_eq!(distance_alt(&trace(&["foo", "bar", "baz"]), &trace(&["foo", "bar", "baz"])), 0);
    assert_eq!(distance_alt(&trace(&["foo", "bar", "baz"]), &trace(&["foo", "bar", "alice"])), 5);
}

#[test]
fn the_joined_text_has_one_space_between_tokens() {
    assert_eq!(join_with_spaces(&trace(&[])), "");
    assert_eq!(join_with_spaces(&trace(&["a"])), "a");
    assert_eq!(join_with_spaces(&trace(&["foo", "bar", "baz"])), "foo bar baz");
    assert_eq!(join_with_spaces(&trace(&["", "x", ""])), " x ");
}
