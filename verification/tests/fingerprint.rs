use replay_proxy::ngrams::Ngrams;

fn fp(s: &str) -> Ngrams {
    Ngrams::new(3, s.to_string())
}

#[test]
fn self_score_counts_shingles() {
    // "a b c d" has two 3-token windows: "a b c" and "b c d".
    let a = fp("a b c d");
    assert_eq!(a.compatibility_score(&a), 2);
}

#[test]
fn short_body_is_single_shingle() {
    // Fewer than 3 tokens: one shingle equal to the whole body.
    let a = fp("a b");
    assert_eq!(a.compatibility_score(&a), 1);
    let empty = fp("");
    assert_eq!(empty.compatibility_score(&empty), 1);
}

#[test]
fn exactly_three_tokens_is_single_shingle() {
    let a = fp("x y z");
    assert_eq!(a.compatibility_score(&a), 1);
}

#[test]
fn fingerprint_deterministic() {
    // Two fingerprints of the same body are interchangeable for scoring.
    let a = fp("SELECT 1 FROM t");
    let b = fp("SELECT 1 FROM t");
    assert_eq!(a.compatibility_score(&b), a.compatibility_score(&a));
}

#[test]
fn score_commutes() {
    let a = fp("select count from users");
    let b = fp("select count from users where id=1");
    assert_eq!(a.compatibility_score(&b), b.compatibility_score(&a));
    assert_eq!(a.compatibility_score(&b), 2);
}

#[test]
fn whitespace_insensitive() {
    let a = fp("  a \t b\nc ");
    let b = fp("a b c");
    assert_eq!(a.compatibility_score(&b), 1);
}

#[test]
fn token_order_matters() {
    let a = fp("SELECT a FROM t");
    let b = fp("FROM t SELECT a");
    assert_eq!(a.compatibility_score(&b), 0);
}

#[test]
fn repeated_shingles_do_not_inflate() {
    // "a b a b a b" windows: "a b a", "b a b", "a b a", "b a b" -> 2 distinct.
    let a = fp("a b a b a b");
    assert_eq!(a.compatibility_score(&a), 2);
}

#[test]
fn disjoint_bodies_score_zero() {
    let a = fp("one two three");
    let b = fp("four five six");
    assert_eq!(a.compatibility_score(&b), 0);
}
