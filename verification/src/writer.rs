//! Sparse line writer.
//!
//! Log lines arrive addressed by a 1-based line number but the file is
//! append-only: a write emits enough blank terminated lines to make the
//! addressed number line up with output order, then the text and one
//! terminator. A line number at or below the cursor appends immediately after
//! prior content; nothing already emitted is ever rewritten. The cursor only
//! ever advances.

use vstd::prelude::*;

verus! {

pub const NL: u8 = 0x0a;

/// `n` blank terminated lines (empty for `n <= 0`).
pub open spec fn blank_lines(n: int) -> Seq<u8> {
    Seq::new(
        if n >= 0 {
            n as nat
        } else {
            0
        },
        |i: int| NL,
    )
}

/// The exact bytes one write appends: padding to align `line_number`, the
/// output, and a terminator.
pub open spec fn spec_chunk(cursor: int, line_number: int, output: Seq<u8>) -> Seq<u8> {
    blank_lines(line_number - 1 - cursor) + output + seq![NL]
}

/// The cursor after a write: it never moves backwards.
pub open spec fn spec_advance(cursor: u64, line_number: u64) -> u64 {
    if line_number > cursor {
        line_number
    } else {
        cursor
    }
}

/// Line-addressed writer state for one open log resource: tracks how many
/// lines the resource holds so far.
pub struct LineWriter {
    cursor: u64,
}

impl LineWriter {
    /// Lines emitted so far for the underlying resource.
    pub closed spec fn cursor(&self) -> u64 {
        self.cursor
    }

    /// A writer over a resource that already holds `existing_lines` lines
    /// (zero for a fresh resource).
    pub fn new(existing_lines: u64) -> (w: LineWriter)
        ensures
            w.cursor() == existing_lines,
    {
        LineWriter { cursor: existing_lines }
    }

    /// Computes the bytes to append for writing `output` at `line_number`,
    /// and advances the cursor. Nothing previously emitted is touched: the
    /// caller appends the returned chunk at end-of-resource.
    pub fn write_to_line(&mut self, line_number: u64, output: &[u8]) -> (chunk: Vec<u8>)
        requires
            line_number >= 1,
        ensures
            chunk@ == spec_chunk(old(self).cursor() as int, line_number as int, output@),
            final(self).cursor() == spec_advance(old(self).cursor(), line_number),
            final(self).cursor() >= old(self).cursor(),
    {
        let blanks: u64 = if line_number - 1 > self.cursor {
            line_number - 1 - self.cursor
        } else {
            0
        };
        let mut chunk: Vec<u8> = Vec::new();
        let mut k: u64 = 0;
        while k < blanks
            invariant
                k <= blanks,
                chunk@ =~= blank_lines(k as int),
            decreases blanks - k,
        {
            chunk.push(NL);
            k = k + 1;
        }
        chunk.extend_from_slice(output);
        chunk.push(NL);
        if line_number > self.cursor {
            self.cursor = line_number;
        }
        proof {
            assert(chunk@ =~= spec_chunk(old(self).cursor() as int, line_number as int, output@));
        }
        chunk
    }
}

/// Number of newline bytes in `s`.
pub open spec fn count_nl(s: Seq<u8>) -> int
    decreases s.len(),
{
    if s.len() == 0 {
        0
    } else {
        count_nl(s.drop_last()) + if s.last() == NL {
            1int
        } else {
            0int
        }
    }
}

/// How many lines a resource already holds: one per terminator, plus one for
/// a trailing unterminated line.
pub open spec fn spec_line_count(s: Seq<u8>) -> int {
    count_nl(s) + if s.len() > 0 && s.last() != NL {
        1int
    } else {
        0int
    }
}

/// Counts the lines already present in a resource's contents, for
/// initializing a writer over a resource that is reopened.
#[verifier::loop_isolation(false)]
pub fn line_count(bytes: &[u8]) -> (n: u64)
    ensures
        n == spec_line_count(bytes@),
{
    let len = bytes.len();
    let mut cnt: u64 = 0;
    let mut i: usize = 0;
    while i < len
        invariant
            i <= len,
            cnt <= i,
            cnt == count_nl(bytes@.take(i as int)),
        decreases len - i,
    {
        proof {
            assert(bytes@.take(i as int + 1).drop_last() =~= bytes@.take(i as int));
            assert(bytes@.take(i as int + 1).last() == bytes@[i as int]);
        }
        if bytes[i] == NL {
            cnt = cnt + 1;
        }
        i = i + 1;
    }
    proof {
        assert(bytes@.take(len as int) =~= bytes@);
    }
    if len > 0 && bytes[len - 1] != NL {
        proof {
            lemma_count_nl_le(bytes@.drop_last());
        }
        cnt + 1
    } else {
        cnt
    }
}

/// There are no more terminators than bytes.
proof fn lemma_count_nl_le(s: Seq<u8>)
    ensures
        count_nl(s) <= s.len(),
    decreases s.len(),
{
    if s.len() > 0 {
        lemma_count_nl_le(s.drop_last());
    }
}

} // verus!
