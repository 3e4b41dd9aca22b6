//! Distances between traces, and the similarity score derived from them.

use crate::event_log::{has_column, EventLog};
use crate::levenshtein::{
    edit_distance, lemma_edit_distance_at_least_difference, lemma_edit_distance_at_most_longer,
    lemma_edit_distance_symmetric,
};
use crate::trace::{concatenate_columns, tokens_of};
use vstd::prelude::*;
use vstd::string::StringExecFns;

verus! {

/// A similarity score, kept exact: the rational number
/// `1 - distance / length`, where `length` is the length of the trace that
/// the distance is measured against.
///
/// The score is 1 for equal traces and falls as the distance grows. It is not
/// clamped: where the distance exceeds the length it is negative.
#[derive(Debug, Clone, Copy, PartialEq, Eq, Structural)]
pub struct Similarity {
    pub distance: usize,
    pub length: usize,
}

/// Why a similarity could not be given.
#[derive(Debug, Clone, Copy, PartialEq, Eq, Structural)]
pub enum SimilarityError {
    /// The reference trace is empty, so there is no length to divide by.
    EmptyReference,
}

impl Similarity {
    /// The numerator of the score written as one fraction over `length`.
    pub open spec fn numerator(self) -> int {
        self.length - self.distance
    }

    /// The denominator of the score written as one fraction.
    pub open spec fn denominator(self) -> int {
        self.length as int
    }

    /// Whether two scores are the same number, whatever distances and
    /// lengths they were computed from.
    pub open spec fn same_value_as(self, other: Similarity) -> bool {
        self.numerator() * other.denominator() == other.numerator() * self.denominator()
    }

    /// Whether the score is below zero: the distance exceeds the length.
    pub fn is_negative(&self) -> (negative: bool)
        ensures
            negative == (self.numerator() < 0),
    {
        self.distance > self.length
    }

    /// Whether this score and `other` are the same number.
    pub fn same_value(&self, other: &Similarity) -> (same: bool)
        ensures
            same == self.same_value_as(*other),
    {
        let ours: u128 = self.distance as u128;
        let our_length: u128 = self.length as u128;
        let theirs: u128 = other.distance as u128;
        let their_length: u128 = other.length as u128;
        assert(ours * their_length <= 0xffff_ffff_ffff_ffff * 0xffff_ffff_ffff_ffff
            && theirs * our_length <= 0xffff_ffff_ffff_ffff * 0xffff_ffff_ffff_ffff) by (nonlinear_arith)
            requires
                ours <= 0xffff_ffff_ffff_ffff,
                our_length <= 0xffff_ffff_ffff_ffff,
                theirs <= 0xffff_ffff_ffff_ffff,
                their_length <= 0xffff_ffff_ffff_ffff,
        ;
        assert((our_length - ours) * their_length == (their_length - theirs) * our_length
            <==> ours * their_length == theirs * our_length) by (nonlinear_arith);
        ours * their_length == theirs * our_length
    }
}

/// The similarity that a distance gives against a reference length, or the
/// error where the reference length is zero.
pub open spec fn normalized(distance: usize, length: usize) -> Result<Similarity, SimilarityError> {
    if length == 0 {
        Err(SimilarityError::EmptyReference)
    } else {
        Ok(Similarity { distance, length })
    }
}

/// What comparing trace `a` with trace `b` gives: their edit distance, and
/// the similarity that the distance gives against the length of `a`.
///
/// The length of a trace held in memory fits the machine's word, and so does
/// the distance, which the longer length bounds: nothing is lost where the
/// two are written as `usize`.
pub open spec fn comparison(a: Seq<Seq<char>>, b: Seq<Seq<char>>) -> (
    usize,
    Result<Similarity, SimilarityError>,
) {
    let distance = edit_distance(a, b) as usize;
    (distance, normalized(distance, a.len() as usize))
}

/// The edit distance between two traces: the least number of tokens to insert,
/// delete or substitute in `log_one` to obtain `log_two`.
///
/// Despite its name the distance has no transposition: swapping two adjacent
/// tokens costs two edits.
///
/// By `edit_path::lemma_edit_distance_is_least_number_of_edits` the result is
/// the number of edits of a shortest edit path from the one trace to the
/// other.
///
/// Only one row of the dynamic-programming table is kept, so the working
/// memory is proportional to the length of `log_two`.
pub fn damerau_levenshtein(log_one: &Vec<String>, log_two: &Vec<String>) -> (distance: usize)
    ensures
        distance == edit_distance(log_one.deep_view(), log_two.deep_view()),
{
    let m = log_one.len();
    let n = log_two.len();
    let ghost a = log_one.deep_view();
    let ghost b = log_two.deep_view();

    // row[j] is the distance between the tokens of log_one seen so far and the
    // first j + 1 tokens of log_two; column 0 is carried in `left` and `diag`.
    let mut row: Vec<usize> = Vec::new();
    let mut j: usize = 0;
    while j < n
        invariant
            j <= n,
            n == log_two.len(),
            b == log_two.deep_view(),
            row.len() == j,
            forall|k: int| 0 <= k < j ==> row[k] == edit_distance(a.take(0), #[trigger] b.take(k + 1)),
        decreases n - j,
    {
        row.push(j + 1);
        j += 1;
    }

    let mut i: usize = 0;
    while i < m
        invariant
            i <= m,
            m == log_one.len(),
            n == log_two.len(),
            a == log_one.deep_view(),
            b == log_two.deep_view(),
            row.len() == n,
            forall|k: int| 0 <= k < n ==> row[k] == edit_distance(a.take(i as int), #[trigger] b.take(k + 1)),
        decreases m - i,
    {
        let mut diag: usize = i;
        let mut left: usize = i + 1;
        let mut j: usize = 0;
        while j < n
            invariant
                j <= n,
                i < m,
                m == log_one.len(),
                n == log_two.len(),
                a == log_one.deep_view(),
                b == log_two.deep_view(),
                row.len() == n,
                diag == edit_distance(a.take(i as int), b.take(j as int)),
                left == edit_distance(a.take(i + 1), b.take(j as int)),
                forall|k: int| 0 <= k < j ==> row[k] == edit_distance(a.take(i + 1), #[trigger] b.take(k + 1)),
                forall|k: int| j <= k < n ==> row[k] == edit_distance(a.take(i as int), #[trigger] b.take(k + 1)),
            decreases n - j,
        {
            let up = row[j];
            proof {
                let head_a = a.take(i + 1);
                let head_b = b.take(j + 1);
                assert(head_a.drop_last() == a.take(i as int));
                assert(head_b.drop_last() == b.take(j as int));
                assert(head_a.last() == log_one[i as int]@);
                assert(head_b.last() == log_two[j as int]@);
                lemma_edit_distance_at_most_longer(a.take(i as int), b.take(j as int));
            }
            let cell = if log_one[i] == log_two[j] {
                diag
            } else {
                let least = if up <= left && up <= diag {
                    up
                } else if left <= diag {
                    left
                } else {
                    diag
                };
                least + 1
            };
            row.set(j, cell);
            diag = up;
            left = cell;
            j += 1;
        }
        i += 1;
    }

    proof {
        assert(a.take(m as int) == a);
        assert(b.take(n as int) == b);
        assert(b.take((n - 1) + 1) == b);
    }
    if n == 0 {
        m
    } else {
        row[n - 1]
    }
}

/// The similarity `1 - distance / length` of two traces, given their
/// distance and the length of the reference trace. The score is kept as an
/// exact fraction and is not clamped.
///
/// There is no similarity against an empty reference trace: a `length` of
/// zero gives `EmptyReference`.
pub fn similarity(distance: usize, length: usize) -> (score: Result<Similarity, SimilarityError>)
    ensures
        score == normalized(distance, length),
{
    if length == 0 {
        Err(SimilarityError::EmptyReference)
    } else {
        Ok(Similarity { distance, length })
    }
}

/// Compares two traces: their edit distance, and the similarity that it gives
/// against the length of `trace_a`. The reference length is always that of
/// the first trace, so the similarity depends on the order of the arguments
/// where the distance does not.
pub fn compare(trace_a: &Vec<String>, trace_b: &Vec<String>) -> (result: (
    usize,
    Result<Similarity, SimilarityError>,
))
    ensures
        result == comparison(trace_a.deep_view(), trace_b.deep_view()),
{
    let distance = damerau_levenshtein(trace_a, trace_b);
    (distance, similarity(distance, trace_a.len()))
}

/// For nonempty traces of different lengths the similarity depends on the
/// order of the comparison, though the distance does not: measured against
/// the one trace it is another number than measured against the other.
pub proof fn lemma_similarity_depends_on_order(a: Seq<Seq<char>>, b: Seq<Seq<char>>)
    requires
        0 < a.len() <= usize::MAX,
        0 < b.len() <= usize::MAX,
        a.len() != b.len(),
    ensures
        comparison(a, b).0 == comparison(b, a).0,
        comparison(a, b).1 is Ok,
        comparison(b, a).1 is Ok,
        !comparison(a, b).1->Ok_0.same_value_as(comparison(b, a).1->Ok_0),
{
    lemma_edit_distance_symmetric(a, b);
    lemma_edit_distance_at_most_longer(a, b);
    lemma_edit_distance_at_least_difference(a, b);
    let d = edit_distance(a, b) as int;
    let m = a.len() as int;
    let n = b.len() as int;
    assert((m - d) * n != (n - d) * m) by (nonlinear_arith)
        requires
            d > 0,
            m != n,
    ;
}

/// Compares two event logs by the columns named: each log is turned into its
/// trace, one token per event, and the traces are compared.
///
/// At least two columns have to be named, and both logs must hold each of
/// them.
pub fn damerau_levenshtein_on_logs(log_one: &EventLog, log_two: &EventLog, columns: &[&str]) -> (result:
    (usize, Result<Similarity, SimilarityError>))
    requires
        columns.len() >= 2,
        forall|i: int| 0 <= i < columns.len() ==> has_column(log_one@, (#[trigger] columns[i])@),
        forall|i: int| 0 <= i < columns.len() ==> has_column(log_two@, (#[trigger] columns[i])@),
    ensures
        result == comparison(
            tokens_of(log_one@, columns.deep_view()),
            tokens_of(log_two@, columns.deep_view()),
        ),
{
    let a_col = concatenate_columns(log_one, columns);
    let b_col = concatenate_columns(log_two, columns);
    compare(&a_col, &b_col)
}

/// The texts of the tokens, in order, with `separator` between neighbours.
pub open spec fn joined(tokens: Seq<Seq<char>>, separator: Seq<char>) -> Seq<char>
    decreases tokens.len(),
{
    if tokens.len() == 0 {
        Seq::empty()
    } else if tokens.len() == 1 {
        tokens[0]
    } else {
        joined(tokens.drop_last(), separator) + separator + tokens.last()
    }
}

/// The tokens of a trace written out as one text, a space between neighbours.
pub fn join_with_spaces(log: &Vec<String>) -> (text: String)
    ensures
        text@ == joined(log.deep_view(), seq![' ']),
{
    let ghost tokens = log.deep_view();
    let mut text = String::new();
    let mut i: usize = 0;
    while i < log.len()
        invariant
            i <= log.len(),
            tokens == log.deep_view(),
            text@ == joined(tokens.take(i as int), seq![' ']),
        decreases log.len() - i,
    {
        proof {
            reveal_strlit(" ");
            assert(" "@ =~= seq![' ']);
            assert(tokens.take(i + 1).drop_last() =~= tokens.take(i as int));
            assert(tokens.take(i + 1).last() == log[i as int]@);
        }
        if i > 0 {
            text.append(" ");
        }
        text.append(log[i].as_str());
        i += 1;
    }
    assert(tokens.take(log.len() as int) =~= tokens);
    text
}

/// What `distance::damerau_levenshtein` returns for two texts: their
/// Damerau-Levenshtein distance character by character, which counts the
/// swap of two adjacent characters as one edit.
pub uninterp spec fn char_damerau_levenshtein(s: Seq<char>, t: Seq<char>) -> usize;

/// Calls `distance::damerau_levenshtein`, which computes its result from the
/// characters of its two arguments alone, so the same texts always give the
/// same distance. Nothing more is claimed of the number. The call builds a
/// table with a counter for every pair of characters and is taken to have the
/// memory for it.
#[verifier::external_body]
fn text_distance(s: &str, t: &str) -> (d: usize)
    ensures
        d == char_damerau_levenshtein(s@, t@),
{
    distance::damerau_levenshtein(s, t)
}

/// The distance between two traces taken as texts: each trace is written out
/// with a space between its tokens, and the two texts are compared character
/// by character, a swap of two adjacent characters counting as one edit.
pub fn distance_alt(log1: &Vec<String>, log2: &Vec<String>) -> (distance: usize)
    ensures
        distance == char_damerau_levenshtein(
            joined(log1.deep_view(), seq![' ']),
            joined(log2.deep_view(), seq![' ']),
        ),
{
    let a_str = join_with_spaces(log1);
    let b_str = join_with_spaces(log2);
    text_distance(a_str.as_str(), b_str.as_str())
}

} // verus!
