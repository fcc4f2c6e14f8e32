//! The lines of a file that grows.

use vstd::prelude::*;

verus! {

/// The byte that ends a line.
pub const NEWLINE: u8 = 10;

/// The bytes that follow the last newline.
pub open spec fn open_line(bytes: Seq<u8>) -> Seq<u8>
    decreases bytes.len(),
{
    if bytes.len() == 0 || bytes.last() == NEWLINE {
        Seq::empty()
    } else {
        open_line(bytes.drop_last()).push(bytes.last())
    }
}

/// The lines that a newline ends, in order and without those that are empty.
pub open spec fn lines(bytes: Seq<u8>) -> Seq<Seq<u8>>
    decreases bytes.len(),
{
    if bytes.len() == 0 {
        Seq::empty()
    } else {
        let before = bytes.drop_last();
        if bytes.last() == NEWLINE && open_line(before).len() > 0 {
            lines(before).push(open_line(before))
        } else {
            lines(before)
        }
    }
}

/// The number of bytes up to and with the last newline.
pub open spec fn complete_bytes(bytes: Seq<u8>) -> nat
    decreases bytes.len(),
{
    if bytes.len() == 0 || bytes.last() == NEWLINE {
        bytes.len()
    } else {
        complete_bytes(bytes.drop_last())
    }
}

/// The views of some lines.
pub open spec fn line_views(lines: Seq<Vec<u8>>) -> Seq<Seq<u8>> {
    lines.map_values(|line: Vec<u8>| line@)
}

/// Counts the bytes up to and with the last newline.
pub fn complete_length(bytes: &[u8]) -> (result: usize)
    ensures
        result == complete_bytes(bytes@),
{
    let mut end: usize = bytes.len();
    proof {
        assert(bytes@.take(end as int) == bytes@);
    }
    while end > 0 && bytes[end - 1] != NEWLINE
        invariant
            end <= bytes.len(),
            complete_bytes(bytes@) == complete_bytes(bytes@.take(end as int)),
        decreases end,
    {
        proof {
            assert(bytes@.take(end as int).drop_last() =~= bytes@.take(end - 1));
        }
        end = end - 1;
    }
    end
}

/// Splits bytes into the lines that a newline ends.
pub fn split_lines(bytes: &[u8]) -> (result: Vec<Vec<u8>>)
    ensures
        line_views(result@) == lines(bytes@),
{
    let mut result: Vec<Vec<u8>> = Vec::new();
    let mut line: Vec<u8> = Vec::new();
    let mut i: usize = 0;
    proof {
        assert(line_views(result@) =~= Seq::<Seq<u8>>::empty());
    }
    while i < bytes.len()
        invariant
            i <= bytes.len(),
            line_views(result@) == lines(bytes@.take(i as int)),
            line@ == open_line(bytes@.take(i as int)),
        decreases bytes.len() - i,
    {
        proof {
            assert(bytes@.take(i + 1).drop_last() =~= bytes@.take(i as int));
        }
        let byte: u8 = bytes[i];
        if byte == NEWLINE {
            if line.len() > 0 {
                let ghost before = result@;
                let ghost closed = line@;
                result.push(line);
                line = Vec::new();
                proof {
                    assert(line_views(result@) =~= line_views(before).push(closed));
                }
            }
        } else {
            line.push(byte);
        }
        i = i + 1;
    }
    proof {
        assert(bytes@.take(bytes@.len() as int) == bytes@);
    }
    result
}

/// What is not complete follows the last newline.
pub proof fn lemma_complete_and_open(bytes: Seq<u8>)
    ensures
        complete_bytes(bytes) + open_line(bytes).len() == bytes.len(),
        bytes.skip(complete_bytes(bytes) as int) == open_line(bytes),
    decreases bytes.len(),
{
    if bytes.len() > 0 && bytes.last() != NEWLINE {
        let before = bytes.drop_last();
        lemma_complete_and_open(before);
        assert(bytes.skip(complete_bytes(bytes) as int) =~= open_line(before).push(bytes.last()));
    }
}

/// Reading a file in two parts, the second of which starts with what the first left open, gives
/// the lines of the file in order, and leaves open what the whole leaves open.
pub proof fn law_lines_in_two_reads(first: Seq<u8>, second: Seq<u8>)
    ensures
        lines(first + second) == lines(first) + lines(open_line(first) + second),
        open_line(first + second) == open_line(open_line(first) + second),
        complete_bytes(first + second) == complete_bytes(first) + complete_bytes(
            open_line(first) + second,
        ),
    decreases second.len(),
{
    lemma_complete_and_open(first + second);
    lemma_complete_and_open(first);
    lemma_complete_and_open(open_line(first) + second);
    if second.len() == 0 {
        assert(first + second =~= first);
        assert(open_line(first) + second =~= open_line(first));
        lemma_nothing_complete(first);
        assert(lines(first) + Seq::<Seq<u8>>::empty() =~= lines(first));
    } else {
        let before = second.drop_last();
        law_lines_in_two_reads(first, before);
        assert((first + second).drop_last() =~= first + before);
        assert((open_line(first) + second).drop_last() =~= open_line(first) + before);
        assert(lines(first + second) =~= lines(first) + lines(open_line(first) + second));
    }
}

/// No line is complete in what follows the last newline, and all of it is open.
proof fn lemma_nothing_complete(bytes: Seq<u8>)
    ensures
        lines(open_line(bytes)) == Seq::<Seq<u8>>::empty(),
        open_line(open_line(bytes)) == open_line(bytes),
    decreases bytes.len(),
{
    if bytes.len() > 0 && bytes.last() != NEWLINE {
        lemma_nothing_complete(bytes.drop_last());
        assert(open_line(bytes).drop_last() =~= open_line(bytes.drop_last()));
    }
}

/// The byte 10 ends a line: a text up to such a byte has no part in what is open, a line before
/// it counts unless it is empty, and what follows is read by itself.
pub proof fn law_newline_ends_a_line(earlier: Seq<u8>, line: Seq<u8>, open: Seq<u8>)
    requires
        earlier.len() == 0 || earlier.last() == 10u8,
        forall|i: int| 0 <= i < line.len() ==> #[trigger] line[i] != 10u8,
        forall|i: int| 0 <= i < open.len() ==> #[trigger] open[i] != 10u8,
    ensures
        lines(earlier + line + seq![10u8]) == if line.len() > 0 {
            lines(earlier).push(line)
        } else {
            lines(earlier)
        },
        lines(earlier + open) == lines(earlier),
        open_line(earlier + open) == open,
        complete_bytes(earlier + open) == earlier.len(),
    decreases open.len(),
{
    lemma_open_part(earlier, line);
    lemma_open_part(earlier, open);
    assert((earlier + line + seq![10u8]).drop_last() =~= earlier + line);
}

/// Bytes without a newline behind complete lines stay open.
proof fn lemma_open_part(earlier: Seq<u8>, open: Seq<u8>)
    requires
        earlier.len() == 0 || earlier.last() == 10u8,
        forall|i: int| 0 <= i < open.len() ==> #[trigger] open[i] != 10u8,
    ensures
        lines(earlier + open) == lines(earlier),
        open_line(earlier + open) == open,
        complete_bytes(earlier + open) == earlier.len(),
    decreases open.len(),
{
    if open.len() == 0 {
        assert(earlier + open =~= earlier);
        assert(open =~= Seq::empty());
    } else {
        let front = open.drop_last();
        assert forall|i: int| 0 <= i < front.len() implies #[trigger] front[i] != 10u8 by {
            assert(front[i] == open[i]);
        }
        lemma_open_part(earlier, front);
        assert((earlier + open).drop_last() =~= earlier + front);
        assert((earlier + open).last() == open[open.len() - 1]);
        assert(front.push(open.last()) =~= open);
    }
}

} // verus!
