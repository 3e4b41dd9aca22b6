//! Edit paths: what the edit distance counts.
//!
//! An edit path leads from one sequence to another by single edits, each of
//! which inserts, deletes or substitutes one token. This module proves that
//! the edit distance between two sequences is the number of edits of a
//! shortest edit path between them: there is a path of that many edits, and
//! none of fewer.

use crate::levenshtein::{
    edit_distance, lemma_edit_distance_drop_both, lemma_edit_distance_drop_last,
    lemma_edit_distance_identity, lemma_edit_distance_triangle,
};
use vstd::prelude::*;

verus! {

/// `b` is `a` with one token inserted somewhere.
pub open spec fn is_insertion<T>(a: Seq<T>, b: Seq<T>) -> bool {
    exists|at: int, token: T| 0 <= at <= a.len() && b == #[trigger] a.insert(at, token)
}

/// `b` is `a` with one token taken out.
pub open spec fn is_deletion<T>(a: Seq<T>, b: Seq<T>) -> bool {
    exists|at: int| 0 <= at < a.len() && b == #[trigger] a.remove(at)
}

/// `b` is `a` with one token replaced by another.
pub open spec fn is_substitution<T>(a: Seq<T>, b: Seq<T>) -> bool {
    exists|at: int, token: T| 0 <= at < a.len() && b == #[trigger] a.update(at, token)
}

/// `b` comes from `a` by one edit.
pub open spec fn is_single_edit<T>(a: Seq<T>, b: Seq<T>) -> bool {
    is_insertion(a, b) || is_deletion(a, b) || is_substitution(a, b)
}

/// Every sequence of the path comes from the one before it by one edit. A
/// path of `n` edits has `n + 1` sequences.
pub open spec fn is_edit_path<T>(path: Seq<Seq<T>>) -> bool {
    &&& path.len() > 0
    &&& forall|k: int| 0 <= k < path.len() - 1 ==> is_single_edit(#[trigger] path[k], path[k + 1])
}

/// The path with `token` added at the end of each of its sequences.
pub open spec fn with_last_token<T>(path: Seq<Seq<T>>, token: T) -> Seq<Seq<T>> {
    Seq::new(path.len(), |k: int| path[k].push(token))
}

/// A common ending does not change the distance.
pub proof fn lemma_edit_distance_common_suffix<T>(a: Seq<T>, b: Seq<T>, suffix: Seq<T>)
    ensures
        edit_distance(a + suffix, b + suffix) == edit_distance(a, b),
    decreases suffix.len(),
{
    if suffix.len() == 0 {
        assert(a + suffix =~= a);
        assert(b + suffix =~= b);
    } else {
        assert((a + suffix).drop_last() =~= a + suffix.drop_last());
        assert((b + suffix).drop_last() =~= b + suffix.drop_last());
        lemma_edit_distance_common_suffix(a, b, suffix.drop_last());
    }
}

/// Sequences one edit apart are at distance one at most.
pub proof fn lemma_single_edit_distance<T>(a: Seq<T>, b: Seq<T>)
    requires
        is_single_edit(a, b),
    ensures
        edit_distance(a, b) <= 1,
{
    if is_insertion(a, b) {
        let (at, token) = choose|at: int, token: T|
            0 <= at <= a.len() && b == #[trigger] a.insert(at, token);
        let head = a.take(at);
        let tail = a.skip(at);
        assert(a =~= head + tail);
        assert(b =~= head.push(token) + tail);
        lemma_edit_distance_common_suffix(head, head.push(token), tail);
        assert(head.push(token).drop_last() =~= head);
        lemma_edit_distance_drop_last(head, head.push(token));
        lemma_edit_distance_identity(head);
    } else if is_deletion(a, b) {
        let at = choose|at: int| 0 <= at < a.len() && b == #[trigger] a.remove(at);
        let head = a.take(at);
        let tail = a.skip(at + 1);
        assert(a =~= head.push(a[at]) + tail);
        assert(b =~= head + tail);
        lemma_edit_distance_common_suffix(head.push(a[at]), head, tail);
        assert(head.push(a[at]).drop_last() =~= head);
        lemma_edit_distance_drop_last(head.push(a[at]), head);
        lemma_edit_distance_identity(head);
    } else {
        let (at, token) = choose|at: int, token: T|
            0 <= at < a.len() && b == #[trigger] a.update(at, token);
        let head = a.take(at);
        let tail = a.skip(at + 1);
        assert(a =~= head.push(a[at]) + tail);
        assert(b =~= head.push(token) + tail);
        lemma_edit_distance_common_suffix(head.push(a[at]), head.push(token), tail);
        assert(head.push(a[at]).drop_last() =~= head);
        assert(head.push(token).drop_last() =~= head);
        lemma_edit_distance_drop_both(head.push(a[at]), head.push(token));
        lemma_edit_distance_identity(head);
    }
}

/// No edit path is shorter than the edit distance between its ends: a path
/// from `a` to `b` has at least `edit_distance(a, b)` edits.
pub proof fn lemma_edit_path_is_no_shorter<T>(path: Seq<Seq<T>>)
    requires
        is_edit_path(path),
    ensures
        edit_distance(path.first(), path.last()) <= path.len() - 1,
    decreases path.len(),
{
    if path.len() == 1 {
        lemma_edit_distance_identity(path.first());
    } else {
        let before = path.drop_last();
        assert(is_edit_path(before)) by {
            assert forall|k: int| 0 <= k < before.len() - 1 implies is_single_edit(
                #[trigger] before[k],
                before[k + 1],
            ) by {
                assert(is_single_edit(path[k], path[k + 1]));
            }
        }
        lemma_edit_path_is_no_shorter(before);
        assert(is_single_edit(path[path.len() - 2], path[path.len() - 2 + 1]));
        lemma_single_edit_distance(before.last(), path.last());
        lemma_edit_distance_triangle(path.first(), before.last(), path.last());
    }
}

/// An edit stays an edit when both sequences get the same token at the end.
pub proof fn lemma_single_edit_with_last_token<T>(a: Seq<T>, b: Seq<T>, last: T)
    requires
        is_single_edit(a, b),
    ensures
        is_single_edit(a.push(last), b.push(last)),
{
    if is_insertion(a, b) {
        let (at, token) = choose|at: int, token: T|
            0 <= at <= a.len() && b == #[trigger] a.insert(at, token);
        assert(b.push(last) =~= a.push(last).insert(at, token));
        assert(is_insertion(a.push(last), b.push(last)));
    } else if is_deletion(a, b) {
        let at = choose|at: int| 0 <= at < a.len() && b == #[trigger] a.remove(at);
        assert(b.push(last) =~= a.push(last).remove(at));
        assert(is_deletion(a.push(last), b.push(last)));
    } else {
        let (at, token) = choose|at: int, token: T|
            0 <= at < a.len() && b == #[trigger] a.update(at, token);
        assert(b.push(last) =~= a.push(last).update(at, token));
        assert(is_substitution(a.push(last), b.push(last)));
    }
}

/// An edit path stays one when all its sequences get the same token at the
/// end.
pub proof fn lemma_edit_path_with_last_token<T>(path: Seq<Seq<T>>, last: T)
    requires
        is_edit_path(path),
    ensures
        is_edit_path(with_last_token(path, last)),
{
    let longer = with_last_token(path, last);
    assert forall|k: int| 0 <= k < longer.len() - 1 implies is_single_edit(
        #[trigger] longer[k],
        longer[k + 1],
    ) by {
        assert(is_single_edit(path[k], path[k + 1]));
        lemma_single_edit_with_last_token(path[k], path[k + 1], last);
    }
}

/// An edit path with one more edit in front of it is an edit path.
pub proof fn lemma_edit_path_after<T>(start: Seq<T>, path: Seq<Seq<T>>)
    requires
        is_edit_path(path),
        is_single_edit(start, path.first()),
    ensures
        is_edit_path(seq![start] + path),
{
    let longer = seq![start] + path;
    assert forall|k: int| 0 <= k < longer.len() - 1 implies is_single_edit(
        #[trigger] longer[k],
        longer[k + 1],
    ) by {
        if k > 0 {
            assert(is_single_edit(path[k - 1], path[k - 1 + 1]));
        }
    }
}

/// An edit path with one more edit behind it is an edit path.
pub proof fn lemma_edit_path_before<T>(path: Seq<Seq<T>>, end: Seq<T>)
    requires
        is_edit_path(path),
        is_single_edit(path.last(), end),
    ensures
        is_edit_path(path.push(end)),
{
    let longer = path.push(end);
    assert forall|k: int| 0 <= k < longer.len() - 1 implies is_single_edit(
        #[trigger] longer[k],
        longer[k + 1],
    ) by {
        if k < path.len() - 1 {
            assert(is_single_edit(path[k], path[k + 1]));
        }
    }
}

/// The edit distance can be reached: there is an edit path from `a` to `b`
/// of exactly `edit_distance(a, b)` edits, and this is one.
pub proof fn lemma_shortest_edit_path<T>(a: Seq<T>, b: Seq<T>) -> (path: Seq<Seq<T>>)
    ensures
        is_edit_path(path),
        path.first() == a,
        path.last() == b,
        path.len() == edit_distance(a, b) + 1,
    decreases a.len() + b.len(),
{
    if a.len() == 0 && b.len() == 0 {
        assert(a =~= b);
        seq![a]
    } else if a.len() == 0 {
        let shorter = lemma_shortest_edit_path(a, b.drop_last());
        assert(b =~= b.drop_last().insert(b.len() - 1, b.last()));
        assert(is_insertion(b.drop_last(), b));
        lemma_edit_path_before(shorter, b);
        shorter.push(b)
    } else if b.len() == 0 {
        let shorter = lemma_shortest_edit_path(a.drop_last(), b);
        assert(a.drop_last() =~= a.remove(a.len() - 1));
        assert(is_deletion(a, a.drop_last()));
        lemma_edit_path_after(a, shorter);
        seq![a] + shorter
    } else if a.last() == b.last() {
        let shorter = lemma_shortest_edit_path(a.drop_last(), b.drop_last());
        lemma_edit_path_with_last_token(shorter, a.last());
        assert(a =~= a.drop_last().push(a.last()));
        assert(b =~= b.drop_last().push(a.last()));
        with_last_token(shorter, a.last())
    } else {
        let by_deletion = edit_distance(a.drop_last(), b);
        let by_insertion = edit_distance(a, b.drop_last());
        let by_substitution = edit_distance(a.drop_last(), b.drop_last());
        if by_deletion <= by_insertion && by_deletion <= by_substitution {
            let shorter = lemma_shortest_edit_path(a.drop_last(), b);
            assert(a.drop_last() =~= a.remove(a.len() - 1));
            assert(is_deletion(a, a.drop_last()));
            lemma_edit_path_after(a, shorter);
            seq![a] + shorter
        } else if by_insertion <= by_substitution {
            let shorter = lemma_shortest_edit_path(a, b.drop_last());
            assert(b =~= b.drop_last().insert(b.len() - 1, b.last()));
            assert(is_insertion(b.drop_last(), b));
            lemma_edit_path_before(shorter, b);
            shorter.push(b)
        } else {
            let shorter = lemma_shortest_edit_path(a.drop_last(), b.drop_last());
            lemma_edit_path_with_last_token(shorter, b.last());
            let rest = with_last_token(shorter, b.last());
            assert(a.drop_last().push(b.last()) =~= a.update(a.len() - 1, b.last()));
            assert(is_substitution(a, a.drop_last().push(b.last())));
            assert(b =~= b.drop_last().push(b.last()));
            lemma_edit_path_after(a, rest);
            seq![a] + rest
        }
    }
}

/// The edit distance is the least number of edits that turn `a` into `b`:
/// some edit path from `a` to `b` has that many edits, and none has fewer.
pub proof fn lemma_edit_distance_is_least_number_of_edits<T>(a: Seq<T>, b: Seq<T>)
    ensures
        exists|path: Seq<Seq<T>>|
            #[trigger] is_edit_path(path) && path.first() == a && path.last() == b && path.len()
                == edit_distance(a, b) + 1,
        forall|path: Seq<Seq<T>>|
            #[trigger] is_edit_path(path) && path.first() == a && path.last() == b ==> path.len()
                >= edit_distance(a, b) + 1,
{
    let shortest = lemma_shortest_edit_path(a, b);
    assert(is_edit_path(shortest));
    assert forall|path: Seq<Seq<T>>|
        #[trigger] is_edit_path(path) && path.first() == a && path.last() == b implies path.len()
        >= edit_distance(a, b) + 1 by {
        lemma_edit_path_is_no_shorter(path);
    }
}

} // verus!
