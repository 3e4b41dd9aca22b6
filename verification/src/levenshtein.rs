//! The edit distance between two sequences of tokens, as a mathematical
//! function, and the facts about it that the rest of the library relies on.

use vstd::prelude::*;

verus! {

/// The least of three integers.
pub open spec fn min3(x: int, y: int, z: int) -> int {
    if x <= y && x <= z {
        x
    } else if y <= z {
        y
    } else {
        z
    }
}

/// The edit distance between `a` and `b` under unit-cost insertion, deletion
/// and substitution of single tokens. Tokens count as equal only when they are
/// equal as values; there is no partial credit, and no transposition.
///
/// Against an empty sequence every token of the other one has to be inserted
/// or deleted. Otherwise, equal last tokens cost nothing, and unequal ones
/// cost one edit on top of the cheapest of: deleting the last token of `a`,
/// inserting the last token of `b`, or substituting one for the other.
pub open spec fn edit_distance<T>(a: Seq<T>, b: Seq<T>) -> nat
    decreases a.len() + b.len(),
{
    if a.len() == 0 {
        b.len()
    } else if b.len() == 0 {
        a.len()
    } else if a.last() == b.last() {
        edit_distance(a.drop_last(), b.drop_last())
    } else {
        (1 + min3(
            edit_distance(a.drop_last(), b) as int,
            edit_distance(a, b.drop_last()) as int,
            edit_distance(a.drop_last(), b.drop_last()) as int,
        )) as nat
    }
}

/// The larger of two lengths.
pub open spec fn longer(m: nat, n: nat) -> nat {
    if m >= n {
        m
    } else {
        n
    }
}

/// No more edits are needed than the longer sequence has tokens.
pub proof fn lemma_edit_distance_at_most_longer<T>(a: Seq<T>, b: Seq<T>)
    ensures
        edit_distance(a, b) <= longer(a.len(), b.len()),
    decreases a.len() + b.len(),
{
    if a.len() > 0 && b.len() > 0 {
        lemma_edit_distance_at_most_longer(a.drop_last(), b.drop_last());
    }
}

/// The distance of a sequence to itself is zero.
pub proof fn lemma_edit_distance_identity<T>(t: Seq<T>)
    ensures
        edit_distance(t, t) == 0,
    decreases t.len(),
{
    if t.len() > 0 {
        lemma_edit_distance_identity(t.drop_last());
    }
}

/// Only equal sequences are at distance zero.
pub proof fn lemma_edit_distance_zero<T>(a: Seq<T>, b: Seq<T>)
    ensures
        edit_distance(a, b) == 0 <==> a == b,
    decreases a.len() + b.len(),
{
    if a == b {
        lemma_edit_distance_identity(a);
    } else if a.len() == 0 || b.len() == 0 {
        assert(a.len() != b.len()) by {
            if a.len() == b.len() {
                assert(a =~= b);
            }
        }
    } else if a.last() == b.last() {
        lemma_edit_distance_zero(a.drop_last(), b.drop_last());
        if a.drop_last() == b.drop_last() {
            assert(a =~= a.drop_last().push(a.last()));
            assert(b =~= b.drop_last().push(b.last()));
        }
    }
}

/// There is no partial credit: two single tokens are at distance zero if
/// they are equal and at distance one if they differ in any way.
pub proof fn lemma_edit_distance_single_tokens<T>(s: T, t: T)
    ensures
        edit_distance(seq![s], seq![t]) == if s == t {
            0nat
        } else {
            1nat
        },
{
    let a = seq![s];
    let b = seq![t];
    assert(a.last() == s && b.last() == t);
    assert(a.drop_last().len() == 0 && b.drop_last().len() == 0);
    assert(edit_distance(a.drop_last(), b.drop_last()) == 0);
    assert(edit_distance(a.drop_last(), b) == 1);
    assert(edit_distance(a, b.drop_last()) == 1);
}

/// The distance does not depend on the direction of the comparison.
pub proof fn lemma_edit_distance_symmetric<T>(a: Seq<T>, b: Seq<T>)
    ensures
        edit_distance(a, b) == edit_distance(b, a),
    decreases a.len() + b.len(),
{
    if a.len() > 0 && b.len() > 0 {
        lemma_edit_distance_symmetric(a.drop_last(), b.drop_last());
        lemma_edit_distance_symmetric(a.drop_last(), b);
        lemma_edit_distance_symmetric(a, b.drop_last());
    }
}

/// Against the empty sequence the distance is the length of the other
/// sequence, on whichever side the empty one stands.
pub proof fn lemma_edit_distance_empty<T>(t: Seq<T>)
    ensures
        edit_distance(Seq::<T>::empty(), t) == t.len(),
        edit_distance(t, Seq::<T>::empty()) == t.len(),
{
}

/// The distance is at least the difference of the two lengths.
pub proof fn lemma_edit_distance_at_least_difference<T>(a: Seq<T>, b: Seq<T>)
    ensures
        edit_distance(a, b) >= a.len() - b.len(),
        edit_distance(a, b) >= b.len() - a.len(),
    decreases a.len() + b.len(),
{
    if a.len() > 0 && b.len() > 0 {
        lemma_edit_distance_at_least_difference(a.drop_last(), b.drop_last());
        lemma_edit_distance_at_least_difference(a.drop_last(), b);
        lemma_edit_distance_at_least_difference(a, b.drop_last());
    }
}

/// Dropping the last token of either sequence moves the distance by at most
/// one, up or down.
pub proof fn lemma_edit_distance_drop_last<T>(a: Seq<T>, b: Seq<T>)
    ensures
        a.len() > 0 ==> edit_distance(a, b) <= edit_distance(a.drop_last(), b) + 1,
        a.len() > 0 ==> edit_distance(a.drop_last(), b) <= edit_distance(a, b) + 1,
        b.len() > 0 ==> edit_distance(a, b) <= edit_distance(a, b.drop_last()) + 1,
        b.len() > 0 ==> edit_distance(a, b.drop_last()) <= edit_distance(a, b) + 1,
    decreases a.len() + b.len(),
{
    if a.len() > 0 && b.len() > 0 {
        lemma_edit_distance_drop_last(a.drop_last(), b);
        lemma_edit_distance_drop_last(a, b.drop_last());
    }
}

/// Whatever the last tokens are, the distance is at most one more than the
/// distance between the sequences without them, and no more than that
/// distance when the last tokens are equal.
pub proof fn lemma_edit_distance_drop_both<T>(a: Seq<T>, b: Seq<T>)
    requires
        a.len() > 0,
        b.len() > 0,
    ensures
        edit_distance(a, b) <= edit_distance(a.drop_last(), b.drop_last()) + 1,
        a.last() == b.last() ==> edit_distance(a, b) == edit_distance(a.drop_last(), b.drop_last()),
{
}

/// The triangle inequality: going from `a` to `c` directly takes no more
/// edits than going through `b`.
pub proof fn lemma_edit_distance_triangle<T>(a: Seq<T>, b: Seq<T>, c: Seq<T>)
    ensures
        edit_distance(a, c) <= edit_distance(a, b) + edit_distance(b, c),
    decreases a.len() + b.len() + c.len(),
{
    if a.len() == 0 {
        lemma_edit_distance_at_least_difference(b, c);
    } else if c.len() == 0 {
        lemma_edit_distance_at_least_difference(a, b);
    } else if b.len() == 0 {
        lemma_edit_distance_at_most_longer(a, c);
    } else {
        lemma_edit_distance_drop_last(a, c);
        lemma_edit_distance_drop_both(a, c);
        lemma_edit_distance_triangle(a.drop_last(), b, c);
        lemma_edit_distance_triangle(a, b, c.drop_last());
        lemma_edit_distance_triangle(a, b.drop_last(), c);
        lemma_edit_distance_triangle(a, b.drop_last(), c.drop_last());
        lemma_edit_distance_triangle(a.drop_last(), b.drop_last(), c);
        lemma_edit_distance_triangle(a.drop_last(), b.drop_last(), c.drop_last());
    }
}

/// Two sequences of one length that differ at exactly one position are at
/// distance one.
pub proof fn lemma_edit_distance_single_substitution<T>(a: Seq<T>, b: Seq<T>, at: int)
    requires
        a.len() == b.len(),
        0 <= at < a.len(),
        a[at] != b[at],
        forall|k: int| 0 <= k < a.len() && k != at ==> a[k] == b[k],
    ensures
        edit_distance(a, b) == 1,
    decreases a.len(),
{
    if at == a.len() - 1 {
        assert(a.drop_last() =~= b.drop_last());
        lemma_edit_distance_identity(a.drop_last());
    } else {
        lemma_edit_distance_single_substitution(a.drop_last(), b.drop_last(), at);
    }
}

} // verus!
