//! Traces kept as plain text: one token per line.

use vstd::prelude::*;

verus! {

/// Where the first line of `text` ends: the position of its first line feed,
/// or the length of `text` if it has none.
pub open spec fn first_line_end(text: Seq<char>) -> nat
    decreases text.len(),
{
    if text.len() == 0 || text[0] == '\n' {
        0
    } else {
        1 + first_line_end(text.drop_first())
    }
}

/// A line without the carriage return that may stand at its end.
pub open spec fn without_carriage_return(line: Seq<char>) -> Seq<char> {
    if line.len() > 0 && line.last() == '\r' {
        line.drop_last()
    } else {
        line
    }
}

/// The lines of a text. A line ends at a line feed, or at a carriage return
/// directly followed by a line feed; neither belongs to the line. What
/// follows the last line feed is a line too, unless it is empty, and keeps a
/// carriage return at its end.
pub open spec fn lines_of(text: Seq<char>) -> Seq<Seq<char>>
    decreases text.len(),
{
    if text.len() == 0 {
        Seq::empty()
    } else {
        let end = first_line_end(text) as int;
        if end >= text.len() {
            seq![text]
        } else {
            seq![without_carriage_return(text.take(end))] + lines_of(text.skip(end + 1))
        }
    }
}

/// Whether `text` has no line feed.
pub open spec fn is_one_line(text: Seq<char>) -> bool {
    forall|k: int| 0 <= k < text.len() ==> #[trigger] text[k] != '\n'
}

/// Whether `text` is made of whole lines: it is empty or ends in a line feed.
pub open spec fn ends_lines(text: Seq<char>) -> bool {
    text.len() == 0 || text.last() == '\n'
}

/// The first line ends at the first line feed, wherever that is.
pub proof fn lemma_first_line_end(text: Seq<char>, end: int)
    requires
        0 <= end <= text.len(),
        is_one_line(text.take(end)),
        end < text.len() ==> text[end] == '\n',
    ensures
        first_line_end(text) == end,
    decreases end,
{
    if end > 0 {
        assert(text.take(end)[0] == text[0]);
        let rest = text.drop_first().take(end - 1);
        assert forall|k: int| 0 <= k < rest.len() implies #[trigger] rest[k] != '\n' by {
            assert(text.take(end)[k + 1] == rest[k]);
        }
        lemma_first_line_end(text.drop_first(), end - 1);
    }
}

/// A text without line feed that is closed by one is a single line.
pub proof fn lemma_lines_of_closed_line(line: Seq<char>)
    requires
        is_one_line(line),
    ensures
        lines_of(line.push('\n')) == seq![without_carriage_return(line)],
{
    let text = line.push('\n');
    assert(text.take(line.len() as int) =~= line);
    lemma_first_line_end(text, line.len() as int);
    assert(text.skip(line.len() as int + 1) =~= Seq::<char>::empty());
    assert(lines_of(Seq::<char>::empty()) =~= Seq::<Seq<char>>::empty());
    assert(lines_of(text) =~= seq![without_carriage_return(line)]);
}

/// A text without line feed is a single line, or none if it is empty.
pub proof fn lemma_lines_of_open_line(line: Seq<char>)
    requires
        is_one_line(line),
    ensures
        lines_of(line) == if line.len() == 0 {
            Seq::<Seq<char>>::empty()
        } else {
            seq![line]
        },
{
    assert(line.take(line.len() as int) =~= line);
    lemma_first_line_end(line, line.len() as int);
}

/// After whole lines the lines of what follows come unchanged.
pub proof fn lemma_lines_of_concat(head: Seq<char>, tail: Seq<char>)
    requires
        ends_lines(head),
    ensures
        lines_of(head + tail) == lines_of(head) + lines_of(tail),
    decreases head.len(),
{
    if head.len() == 0 {
        assert(head + tail =~= tail);
        assert(lines_of(head) + lines_of(tail) =~= lines_of(tail));
    } else {
        let end = first_line_end(head) as int;
        lemma_first_line_end_is_first(head);
        assert(end < head.len()) by {
            if end == head.len() {
                assert(head.take(end)[end - 1] == head.last());
            }
        }
        let whole = head + tail;
        assert(whole.take(end) =~= head.take(end));
        lemma_first_line_end(whole, end);
        assert(whole.skip(end + 1) =~= head.skip(end + 1) + tail);
        lemma_lines_of_concat(head.skip(end + 1), tail);
        assert(lines_of(whole) =~= lines_of(head) + lines_of(tail));
    }
}

/// No line feed stands before the end of the first line, and one stands at
/// it unless the text has none.
pub proof fn lemma_first_line_end_is_first(text: Seq<char>)
    ensures
        first_line_end(text) <= text.len(),
        is_one_line(text.take(first_line_end(text) as int)),
        first_line_end(text) < text.len() ==> text[first_line_end(text) as int] == '\n',
    decreases text.len(),
{
    if text.len() > 0 && text[0] != '\n' {
        lemma_first_line_end_is_first(text.drop_first());
        let end = first_line_end(text) as int;
        let line = text.take(end);
        assert forall|k: int| 0 <= k < line.len() implies #[trigger] line[k] != '\n' by {
            if k > 0 {
                assert(text.drop_first().take(end - 1)[k - 1] == text[k]);
            }
        }
    }
}

/// Calls `String::push`, which appends the character to the end of the
/// string.
#[verifier::external_body]
fn push_char(text: &mut String, c: char)
    ensures
        final(text)@ == old(text)@.push(c),
{
    text.push(c)
}

/// Splits a text into its lines, one token each. A line ends at a line feed,
/// or at a carriage return directly followed by a line feed; neither belongs
/// to the token. What follows the last line feed is a token too, unless it
/// is empty.
pub fn split_lines(contents: &str) -> (lines: Vec<String>)
    ensures
        lines.deep_view() == lines_of(contents@),
{
    let ghost text = contents@;
    let mut lines: Vec<String> = Vec::new();
    let mut line = String::new();
    // A carriage return that was read and not yet written to `line`: it is
    // dropped if a line feed follows it.
    let mut pending: bool = false;
    let ghost mut start: int = 0;
    assert(lines.deep_view() =~= lines_of(text.take(0)));
    for c in it: contents.chars()
        invariant
            it.seq() == text,
            0 <= start <= it.index() <= text.len(),
            ends_lines(text.take(start)),
            lines.deep_view() == lines_of(text.take(start)),
            is_one_line(text.subrange(start, it.index() as int)),
            text.subrange(start, it.index() as int) == if pending {
                line@.push('\r')
            } else {
                line@
            },
            !pending ==> line@.len() == 0 || line@.last() != '\r',
    {
        let ghost at = it.index() as int;
        let ghost current = text.subrange(start, at);
        assert(c == text[at]);
        assert(text.subrange(start, at + 1) =~= current.push(c));
        if c == '\n' {
            proof {
                lemma_lines_of_closed_line(current);
                lemma_lines_of_concat(text.take(start), current.push('\n'));
                assert(text.take(at + 1) =~= text.take(start) + current.push('\n'));
                assert(without_carriage_return(current) =~= line@);
                assert(text.subrange(at + 1, at + 1) =~= Seq::<char>::empty());
            }
            let ghost before = lines.deep_view();
            lines.push(line);
            assert(lines.deep_view() =~= before + seq![line@]);
            line = String::new();
            pending = false;
            proof {
                start = at + 1;
            }
        } else {
            if pending {
                push_char(&mut line, '\r');
            }
            if c == '\r' {
                pending = true;
            } else {
                push_char(&mut line, c);
                pending = false;
            }
        }
    }
    proof {
        let rest = text.subrange(start, text.len() as int);
        assert(rest =~= text.skip(start));
        assert(text =~= text.take(start) + rest);
        lemma_lines_of_concat(text.take(start), rest);
        lemma_lines_of_open_line(rest);
    }
    if pending {
        push_char(&mut line, '\r');
    }
    if !line.as_str().is_empty() {
        let ghost before = lines.deep_view();
        lines.push(line);
        assert(lines.deep_view() =~= before + seq![line@]);
    } else {
        assert(lines.deep_view() + Seq::<Seq<char>>::empty() =~= lines.deep_view());
    }
    lines
}

} // verus!
