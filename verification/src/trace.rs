//! Building a trace from an event log: one token per event, made of the
//! event's values in the chosen columns, written one after the other.

use crate::event_log::{has_column, height_of, values_of, well_formed, ColumnModel, EventLog};
use vstd::prelude::*;
use vstd::string::StringExecFns;

verus! {

/// Row by row, the text of `left` followed by the text of `right`.
pub open spec fn joined_rows(left: Seq<Seq<char>>, right: Seq<Seq<char>>) -> Seq<Seq<char>> {
    Seq::new(left.len(), |row: int| left[row] + right[row])
}

/// The first column named, after the columns named at positions `1..=joined`
/// have been appended to it, one after the other and row by row.
///
/// Each step appends the column that the table holds under the name at that
/// moment. The growing column stands in the table under the first name, so
/// naming the first column again appends what has been built so far, not the
/// column as it was read.
pub open spec fn concatenated(
    columns: Seq<ColumnModel>,
    names: Seq<Seq<char>>,
    joined: nat,
) -> Seq<Seq<char>>
    decreases joined,
{
    if joined == 0 {
        values_of(columns, names[0])
    } else {
        let so_far = concatenated(columns, names, (joined - 1) as nat);
        let next = if names[joined as int] == names[0] {
            so_far
        } else {
            values_of(columns, names[joined as int])
        };
        joined_rows(so_far, next)
    }
}

/// The trace of a table under a choice of columns: for every event the
/// concatenation of its values in the columns named, in the order named.
pub open spec fn tokens_of(columns: Seq<ColumnModel>, names: Seq<Seq<char>>) -> Seq<Seq<char>> {
    concatenated(columns, names, (names.len() - 1) as nat)
}

/// The token made of these fields: their texts one after the other, with
/// nothing in between.
pub open spec fn token_of(fields: Seq<Seq<char>>) -> Seq<char>
    decreases fields.len(),
{
    if fields.len() == 0 {
        Seq::empty()
    } else {
        token_of(fields.drop_last()) + fields.last()
    }
}

/// The values of one event in the columns named, in the order named.
pub open spec fn fields_of(columns: Seq<ColumnModel>, names: Seq<Seq<char>>, row: int) -> Seq<
    Seq<char>,
> {
    Seq::new(names.len(), |i: int| values_of(columns, names[i])[row])
}

/// In a well-formed table every column has one value per event.
pub proof fn lemma_values_of_has_height(columns: Seq<ColumnModel>, name: Seq<char>)
    requires
        well_formed(columns),
        has_column(columns, name),
    ensures
        values_of(columns, name).len() == height_of(columns),
{
    let i = choose|i: int| 0 <= i < columns.len() && (#[trigger] columns[i]).name == name;
    assert(columns[i].values.len() == columns[0].values.len());
}

/// The length of a token is the sum of the lengths of its fields, so it is
/// the same for two lists of fields that agree in length field by field.
pub proof fn lemma_token_of_len(left: Seq<Seq<char>>, right: Seq<Seq<char>>)
    requires
        left.len() == right.len(),
        forall|i: int| 0 <= i < left.len() ==> (#[trigger] left[i]).len() == right[i].len(),
    ensures
        token_of(left).len() == token_of(right).len(),
    decreases left.len(),
{
    if left.len() > 0 {
        lemma_token_of_len(left.drop_last(), right.drop_last());
    }
}

/// Tokens are exact-match units. Two tokens made of equally many fields that
/// agree in length field by field are equal only if every field of the one
/// equals the field of the other at the same place; and equal fields always
/// give equal tokens.
///
/// Without the agreement in length the fields cannot be told from the token:
/// nothing separates them in it.
pub proof fn lemma_token_equal_iff_fields_equal(left: Seq<Seq<char>>, right: Seq<Seq<char>>)
    requires
        left.len() == right.len(),
        forall|i: int| 0 <= i < left.len() ==> (#[trigger] left[i]).len() == right[i].len(),
    ensures
        token_of(left) == token_of(right) <==> left == right,
    decreases left.len(),
{
    if left.len() > 0 && token_of(left) == token_of(right) {
        let left_head = token_of(left.drop_last());
        let right_head = token_of(right.drop_last());
        lemma_token_of_len(left.drop_last(), right.drop_last());
        lemma_token_equal_iff_fields_equal(left.drop_last(), right.drop_last());
        let whole = token_of(left);
        assert(left_head =~= whole.subrange(0, left_head.len() as int));
        assert(right_head =~= whole.subrange(0, right_head.len() as int));
        assert(left.last() =~= whole.subrange(left_head.len() as int, whole.len() as int));
        assert(right.last() =~= whole.subrange(right_head.len() as int, whole.len() as int));
        assert(left =~= left.drop_last().push(left.last()));
        assert(right =~= right.drop_last().push(right.last()));
    } else if left.len() == 0 {
        assert(left =~= right);
    }
}

/// Where the first column is named only once, the columns named at positions
/// `0..=joined` give, for every event, the token made of the event's values
/// in those columns.
pub proof fn lemma_concatenated_row(
    columns: Seq<ColumnModel>,
    names: Seq<Seq<char>>,
    joined: nat,
    row: int,
)
    requires
        well_formed(columns),
        joined < names.len(),
        forall|i: int| 0 <= i < names.len() ==> has_column(columns, #[trigger] names[i]),
        forall|i: int| 1 <= i < names.len() ==> #[trigger] names[i] != names[0],
        0 <= row < height_of(columns),
    ensures
        concatenated(columns, names, joined).len() == height_of(columns),
        concatenated(columns, names, joined)[row] == token_of(
            fields_of(columns, names.take(joined as int + 1), row),
        ),
    decreases joined,
{
    let fields = fields_of(columns, names.take(joined as int + 1), row);
    lemma_values_of_has_height(columns, names[joined as int]);
    if joined == 0 {
        assert(fields.drop_last() =~= Seq::<Seq<char>>::empty());
        assert(token_of(fields.drop_last()) =~= Seq::<char>::empty());
        assert(token_of(fields) =~= fields[0]);
    } else {
        lemma_concatenated_row(columns, names, (joined - 1) as nat, row);
        assert(fields.drop_last() =~= fields_of(columns, names.take(joined as int), row));
    }
}

/// Where the first column is named only once, the trace has one token per
/// event, and the token of an event is made of the event's values in the
/// columns named, in the order named.
pub proof fn lemma_tokens_of_row(columns: Seq<ColumnModel>, names: Seq<Seq<char>>, row: int)
    requires
        well_formed(columns),
        names.len() >= 1,
        forall|i: int| 0 <= i < names.len() ==> has_column(columns, #[trigger] names[i]),
        forall|i: int| 1 <= i < names.len() ==> #[trigger] names[i] != names[0],
        0 <= row < height_of(columns),
    ensures
        tokens_of(columns, names).len() == height_of(columns),
        tokens_of(columns, names)[row] == token_of(fields_of(columns, names, row)),
{
    lemma_concatenated_row(columns, names, (names.len() - 1) as nat, row);
    assert(names.take(names.len() as int) =~= names);
}

/// Row by row, `right` appended to `left`. Both hold one text per event.
fn join_rows(left: &Vec<String>, right: &Vec<String>) -> (joined: Vec<String>)
    requires
        left.len() == right.len(),
    ensures
        joined.len() == left.len(),
        joined.deep_view() == joined_rows(left.deep_view(), right.deep_view()),
{
    let mut joined: Vec<String> = Vec::new();
    let mut row: usize = 0;
    while row < left.len()
        invariant
            row <= left.len(),
            left.len() == right.len(),
            joined.len() == row,
            forall|k: int| 0 <= k < row ==> (#[trigger] joined[k])@ == left[k]@ + right[k]@,
        decreases left.len() - row,
    {
        let mut text = left[row].clone();
        text.append(right[row].as_str());
        joined.push(text);
        row += 1;
    }
    assert(joined.deep_view() =~= joined_rows(left.deep_view(), right.deep_view()));
    joined
}

/// The trace of an event log: one token per event, made by appending to the
/// event's value in the first column named its values in the columns named
/// after it, in that order.
///
/// At least two columns have to be named, and the log must hold each of them.
pub fn concatenate_columns(input: &EventLog, column_names: &[&str]) -> (tokens: Vec<String>)
    requires
        column_names.len() >= 2,
        forall|i: int|
            0 <= i < column_names.len() ==> has_column(input@, (#[trigger] column_names[i])@),
    ensures
        tokens.deep_view() == tokens_of(input@, column_names.deep_view()),
        tokens.len() == height_of(input@),
{
    let ghost names = column_names.deep_view();
    assert(forall|i: int| 0 <= i < column_names.len() ==> names[i] == (#[trigger] column_names[i])@);
    let first_name: String = column_names[0].to_owned();
    let first = input.column(column_names[0]).unwrap();
    let mut tokens: Vec<String> = first.clone();
    assert(tokens.deep_view() =~= first.deep_view());
    let mut i: usize = 1;
    while i < column_names.len()
        invariant
            1 <= i <= column_names.len(),
            names == column_names.deep_view(),
            first_name@ == names[0],
            forall|k: int|
                0 <= k < column_names.len() ==> has_column(input@, (#[trigger] column_names[k])@),
            forall|k: int| 0 <= k < column_names.len() ==> names[k] == (#[trigger] column_names[k])@,
            tokens.len() == height_of(input@),
            tokens.deep_view() == concatenated(input@, names, (i - 1) as nat),
        decreases column_names.len() - i,
    {
        let name: String = column_names[i].to_owned();
        if name == first_name {
            tokens = join_rows(&tokens, &tokens);
        } else {
            let other = input.column(column_names[i]).unwrap();
            tokens = join_rows(&tokens, other);
        }
        i += 1;
    }
    tokens
}

} // verus!
