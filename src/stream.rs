//! The streaming side of the dump: each chunk read from the source is cut
//! into windows of at most sixteen bytes, each window becomes one line, and
//! a running total of the bytes consumed gives the offsets and the closing
//! summary.
use vstd::prelude::*;

use crate::hex::{hex_text, push_hex};
use crate::line::{chars_to_string, format_window, formatted_line, OFFSET_DIGITS, WINDOW_SIZE};

verus! {

/// The bytes read from the source at one time, at most this many.
pub const CHUNK_SIZE: usize = 4096;

/// How many windows `n` bytes are cut into.
pub open spec fn window_count(n: nat) -> nat {
    ((n + WINDOW_SIZE - 1) / (WINDOW_SIZE as int)) as nat
}

/// Window `k` of a chunk: sixteen bytes from `16 * k`, fewer at the end.
pub open spec fn window(chunk: Seq<u8>, k: int) -> Seq<u8> {
    let start = WINDOW_SIZE * k;
    let end = if start + WINDOW_SIZE <= chunk.len() { start + WINDOW_SIZE } else { chunk.len() as int };
    chunk.subrange(start, end)
}

/// The lines of one chunk whose first byte is at offset `base`.
pub open spec fn chunk_lines(chunk: Seq<u8>, base: nat) -> Seq<Seq<char>> {
    Seq::new(
        window_count(chunk.len()),
        |k: int| formatted_line(window(chunk, k), (base + WINDOW_SIZE * k) as nat),
    )
}

/// The lines of a run of chunks, the first of which starts at `base`.
pub open spec fn stream_lines(chunks: Seq<Seq<u8>>, base: nat) -> Seq<Seq<char>>
    decreases chunks.len(),
{
    if chunks.len() == 0 {
        Seq::empty()
    } else {
        chunk_lines(chunks[0], base) + stream_lines(chunks.drop_first(), base + chunks[0].len())
    }
}

/// Every chunk but the last holds whole windows only.
pub open spec fn aligned(chunks: Seq<Seq<u8>>) -> bool {
    forall|i: int| 0 <= i < chunks.len() - 1 ==> #[trigger] chunks[i].len() % (WINDOW_SIZE as nat) == 0
}

/// The closing line: the total in lowercase hexadecimal, at least eight
/// digits, and a colon.
pub open spec fn summary_text(total: nat) -> Seq<char> {
    hex_text(total, OFFSET_DIGITS as nat, false).push(':')
}

/// A chunk of whole windows followed by more bytes is formatted as the
/// chunk alone followed by the rest at the offset after it.
pub proof fn lemma_chunk_lines_split(a: Seq<u8>, r: Seq<u8>, base: nat)
    requires
        a.len() % (WINDOW_SIZE as nat) == 0,
    ensures
        chunk_lines(a + r, base) == chunk_lines(a, base) + chunk_lines(r, base + a.len()),
{
    let m = a.len() / 16;
    assert(a.len() == 16 * m);
    assert(window_count(a.len() + r.len()) == m + window_count(r.len()));
    let whole = chunk_lines(a + r, base);
    let parts = chunk_lines(a, base) + chunk_lines(r, base + a.len());
    assert forall|k: int| 0 <= k < whole.len() implies whole[k] == parts[k] by {
        if k < m {
            assert(window(a + r, k) =~= window(a, k));
        } else {
            assert(window(a + r, k) =~= window(r, k - m));
        }
    }
    assert(whole =~= parts);
}

/// When every chunk but the last holds whole windows, dumping a stream
/// chunk by chunk gives the very lines of dumping it in one piece: every
/// byte shows in exactly one window, in order, at its offset. So a stream
/// of `S` bytes gives `ceil(S / 16)` lines, none when it is empty.
pub proof fn lemma_aligned_stream(chunks: Seq<Seq<u8>>, base: nat)
    requires
        aligned(chunks),
    ensures
        stream_lines(chunks, base) == chunk_lines(chunks.flatten(), base),
        stream_lines(chunks, base).len() == window_count(chunks.flatten().len()),
    decreases chunks.len(),
{
    if chunks.len() == 0 {
        assert(chunk_lines(chunks.flatten(), base) =~= Seq::empty());
    } else {
        let rest = chunks.drop_first();
        assert(aligned(rest)) by {
            assert forall|i: int| 0 <= i < rest.len() - 1 implies #[trigger] rest[i].len() % (
            WINDOW_SIZE as nat) == 0 by {
                assert(rest[i] == chunks[i + 1]);
            }
        }
        lemma_aligned_stream(rest, base + chunks[0].len());
        if rest.len() > 0 {
            lemma_chunk_lines_split(chunks[0], rest.flatten(), base);
        } else {
            assert(rest.flatten() =~= Seq::empty());
            assert(chunks.flatten() =~= chunks[0]);
            assert(stream_lines(rest, base + chunks[0].len()) =~= Seq::empty());
            assert(stream_lines(chunks, base) =~= chunk_lines(chunks[0], base));
        }
    }
}

/// The state of a dump in progress: how many bytes have been consumed.
pub struct Dumper {
    total: usize,
}

impl View for Dumper {
    type V = nat;

    closed spec fn view(&self) -> nat {
        self.total as nat
    }
}

impl Dumper {
    /// A dump that has consumed nothing yet.
    pub fn new() -> (d: Dumper)
        ensures
            d@ == 0,
    {
        Dumper { total: 0 }
    }

    /// The number of bytes consumed so far.
    pub fn total(&self) -> (n: usize)
        ensures
            n as nat == self@,
    {
        self.total
    }

    /// Cuts a chunk just read into windows and formats each at its offset in
    /// the stream; the total then counts the chunk.
    pub fn dump_chunk(&mut self, chunk: &[u8]) -> (lines: Vec<String>)
        requires
            old(self)@ + chunk@.len() <= usize::MAX,
        ensures
            final(self)@ == old(self)@ + chunk@.len(),
            lines@.map_values(|s: String| s@) == chunk_lines(chunk@, old(self)@),
    {
        let len = chunk.len();
        let mut lines: Vec<String> = Vec::new();
        let mut start: usize = 0;
        while start < len
            invariant
                len == chunk@.len(),
                self.total + len <= usize::MAX,
                start <= len,
                start < len ==> start % WINDOW_SIZE == 0,
                lines@.len() == window_count(start as nat),
                forall|k: int|
                    0 <= k < lines@.len() ==> #[trigger] lines@[k]@ == chunk_lines(
                        chunk@,
                        self@,
                    )[k],
            decreases len - start,
        {
            let end: usize = if len - start >= WINDOW_SIZE { start + WINDOW_SIZE } else { len };
            let line = format_window(chunk, start, end, self.total + start);
            proof {
                let k = lines@.len() as int;
                assert(start == WINDOW_SIZE * k);
                assert(window(chunk@, k) == chunk@.subrange(start as int, end as int));
            }
            lines.push(line);
            start = end;
        }
        assert(lines@.map_values(|s: String| s@) =~= chunk_lines(chunk@, self@));
        self.total = self.total + len;
        lines
    }

    /// The closing line for what has been consumed so far.
    pub fn summary(&self) -> (s: String)
        ensures
            s@ == summary_text(self@),
    {
        let mut text: Vec<char> = Vec::new();
        push_hex(&mut text, self.total as u64, OFFSET_DIGITS, false);
        text.push(':');
        chars_to_string(&text)
    }
}

} // verus!
