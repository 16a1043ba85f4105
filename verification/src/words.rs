//! The word-by-word transfer of runs on protected pages.
//!
//! The tracer reads and writes the debuggee one machine word of eight bytes at
//! a time, at any address. A run is covered by consecutive words from its
//! first byte. Where the last word reaches past the run, a read keeps only the
//! bytes inside it, and a write first reads the word and replaces only those
//! bytes. Bytes are counted from the low end of a word, as x86-64 stores them.

use vstd::prelude::*;
use crate::memory::{
    ascending, byte_transferred, span_in_bounds, spans, transferred, within, Memory, MemoryOp, Span,
};

verus! {

/// Bytes in a machine word of the tracer.
pub const WORD_SIZE: usize = 8;

/// The `k`-th byte of a word, counted from the low end.
pub open spec fn word_byte(word: u64, k: u64) -> u8 {
    ((word >> ((8 * k) as u64)) & 0xff) as u8
}

/// The word made of eight bytes, the first at the low end.
pub open spec fn compose(b0: u8, b1: u8, b2: u8, b3: u8, b4: u8, b5: u8, b6: u8, b7: u8) -> u64 {
    (b0 as u64) | ((b1 as u64) << 8) | ((b2 as u64) << 16) | ((b3 as u64) << 24) | ((b4 as u64)
        << 32) | ((b5 as u64) << 40) | ((b6 as u64) << 48) | ((b7 as u64) << 56)
}

/// The word that the memory holds at an address.
pub open spec fn word_at(mem: Memory, addr: int) -> u64 {
    compose(
        mem(addr),
        mem(addr + 1),
        mem(addr + 2),
        mem(addr + 3),
        mem(addr + 4),
        mem(addr + 5),
        mem(addr + 6),
        mem(addr + 7),
    )
}

/// The number of words that cover a run of `len` bytes.
pub open spec fn word_count(len: int) -> int {
    (len + 7) / 8
}

/// A word with its `k`-th byte replaced.
pub open spec fn with_byte(word: u64, k: u64, byte: u8) -> u64 {
    (word & !(0xffu64 << ((8 * k) as u64))) | ((byte as u64) << ((8 * k) as u64))
}

/// Whether the local buffer holds, in the place of a run, the bytes of the
/// words that cover the run.
pub open spec fn stored(local: Seq<u8>, span: Span, words: Seq<u64>) -> bool {
    forall|k: int| 0 <= k < span.len ==> byte_stored(local, span, words, k)
}

/// Whether the local buffer holds, in the place of the `k`-th byte of a run,
/// that byte of the words that cover the run.
pub open spec fn byte_stored(local: Seq<u8>, span: Span, words: Seq<u64>, k: int) -> bool {
    &&& 0 <= span.local + k < local.len()
    &&& 0 <= k / 8 < words.len()
    &&& local[span.local + k] == word_byte(words[k / 8], (k % 8) as u64)
}

proof fn lemma_compose_bytes(b0: u8, b1: u8, b2: u8, b3: u8, b4: u8, b5: u8, b6: u8, b7: u8)
    by (bit_vector)
    ensures
        word_byte(compose(b0, b1, b2, b3, b4, b5, b6, b7), 0) == b0,
        word_byte(compose(b0, b1, b2, b3, b4, b5, b6, b7), 1) == b1,
        word_byte(compose(b0, b1, b2, b3, b4, b5, b6, b7), 2) == b2,
        word_byte(compose(b0, b1, b2, b3, b4, b5, b6, b7), 3) == b3,
        word_byte(compose(b0, b1, b2, b3, b4, b5, b6, b7), 4) == b4,
        word_byte(compose(b0, b1, b2, b3, b4, b5, b6, b7), 5) == b5,
        word_byte(compose(b0, b1, b2, b3, b4, b5, b6, b7), 6) == b6,
        word_byte(compose(b0, b1, b2, b3, b4, b5, b6, b7), 7) == b7,
{
}

proof fn lemma_with_byte(word: u64, k: u64, byte: u8, j: u64)
    by (bit_vector)
    requires
        k < 8,
        j < 8,
    ensures
        word_byte(with_byte(word, k, byte), j) == if j == k {
            byte
        } else {
            word_byte(word, j)
        },
{
}

/// The `k`-th byte of the word at an address is the byte at `k` past it.
pub proof fn lemma_word_at_byte(mem: Memory, addr: int, k: u64)
    requires
        k < 8,
    ensures
        word_byte(word_at(mem, addr), k) == mem(addr + k),
{
    lemma_compose_bytes(
        mem(addr),
        mem(addr + 1),
        mem(addr + 2),
        mem(addr + 3),
        mem(addr + 4),
        mem(addr + 5),
        mem(addr + 6),
        mem(addr + 7),
    );
}

/// A run that was read word by word holds the bytes of the memory: if each
/// word is the one that the memory held at its address, and the buffer holds
/// the bytes of those words, the run is transferred.
pub proof fn lemma_words_transfer(local: Seq<u8>, mem: Memory, span: Span, words: Seq<u64>)
    requires
        span.len >= 0,
        words.len() == word_count(span.len),
        forall|i: int| 0 <= i < words.len() ==> #[trigger] words[i] == word_at(mem, span.remote + 8 * i),
        stored(local, span, words),
    ensures
        transferred(local, mem, span),
{
    assert forall|k: int| 0 <= k < span.len implies byte_transferred(local, mem, span, k) by {
        assert(byte_stored(local, span, words, k));
        let i = k / 8;
        assert(words[i] == word_at(mem, span.remote + 8 * i));
        lemma_word_at_byte(mem, span.remote + 8 * i, (k % 8) as u64);
    }
}

impl MemoryOp {
    /// The addresses of the words that cover this run, in ascending order:
    /// every eighth address from the first byte.
    pub fn peek_addresses(&self) -> (r: Vec<usize>)
        requires
            span_in_bounds(self@),
        ensures
            r@.len() == word_count(self.len as int),
            forall|i: int| 0 <= i < r@.len() ==> #[trigger] r@[i] == self.remote_base + 8 * i,
    {
        let mut addresses: Vec<usize> = Vec::new();
        let mut offset: usize = 0;
        while offset < self.len
            invariant
                span_in_bounds(self@),
                offset % 8 == 0,
                offset < self.len + 8,
                addresses@.len() == offset / 8,
                forall|i: int|
                    0 <= i < addresses@.len() ==> #[trigger] addresses@[i] == self.remote_base + 8
                        * i,
            decreases self.len + 8 - offset,
        {
            addresses.push(self.remote_base + offset);
            if self.len - offset <= WORD_SIZE {
                return addresses;
            }
            offset += WORD_SIZE;
        }
        addresses
    }

    /// Copies into the place of this run in the local buffer the bytes of the
    /// words that were read at [`Self::peek_addresses`]. Of a last word that
    /// reaches past the run only the bytes inside the run are taken; the rest
    /// of the buffer is left as it is.
    pub fn store_words(&self, words: &Vec<u64>, local: &mut Vec<u8>)
        requires
            words@.len() == word_count(self.len as int),
            self.local_offset + self.len <= old(local)@.len(),
        ensures
            final(local)@.len() == old(local)@.len(),
            stored(final(local)@, self@, words@),
            forall|j: int|
                0 <= j < old(local)@.len() && !(self.local_offset <= j < self.local_offset
                    + self.len) ==> final(local)@[j] == old(local)@[j],
    {
        let size: usize = local.len();
        let mut k: usize = 0;
        while k < self.len
            invariant
                k <= self.len,
                local@.len() == size,
                words@.len() == word_count(self.len as int),
                local@.len() == old(local)@.len(),
                self.local_offset + self.len <= local@.len(),
                forall|j: int| 0 <= j < k ==> byte_stored(local@, self@, words@, j),
                forall|j: int|
                    0 <= j < local@.len() && !(self.local_offset <= j < self.local_offset + k)
                        ==> local@[j] == old(local)@[j],
            decreases self.len - k,
        {
            let word: u64 = words[k / WORD_SIZE];
            let shift: u64 = (8 * (k % WORD_SIZE)) as u64;
            let byte: u8 = #[verifier::truncate]
            (((word >> shift) & 0xff) as u8);
            let ghost before = local@;
            local[self.local_offset + k] = byte;
            proof {
                assert forall|j: int| 0 <= j < k + 1 implies byte_stored(
                    local@,
                    self@,
                    words@,
                    j,
                ) by {
                    if j < k {
                        assert(byte_stored(before, self@, words@, j));
                    }
                }
            }
            k += 1;
        }
    }
}

/// Whether no run holds the position `at` of the local buffer.
pub open spec fn outside_all(runs: Seq<Span>, at: int) -> bool {
    forall|i: int| 0 <= i < runs.len() ==> !((#[trigger] runs[i]).local <= at < runs[i].local + runs[i].len)
}

/// Copies into the local buffer, for each run, the bytes of the words that
/// were read for it: `words[i]` holds the words read at the addresses that
/// [`MemoryOp::peek_addresses`] gives for `ops[i]`. What lies outside of all
/// the runs is left as it is, so bytes that the bulk transfer has put there
/// stay.
pub fn place_words(ops: &Vec<MemoryOp>, words: &Vec<Vec<u64>>, local: &mut Vec<u8>)
    requires
        ascending(spans(ops@)),
        within(spans(ops@), 0, old(local)@.len() as int),
        words@.len() == ops@.len(),
        forall|i: int| 0 <= i < ops@.len() ==> (#[trigger] words@[i])@.len() == word_count(ops@[i].len as int),
    ensures
        final(local)@.len() == old(local)@.len(),
        forall|i: int| 0 <= i < ops@.len() ==> stored(final(local)@, (#[trigger] ops@[i])@, words@[i]@),
        forall|at: int|
            0 <= at < old(local)@.len() && outside_all(spans(ops@), at) ==> final(local)@[at] == old(
                local,
            )@[at],
{
    let mut i: usize = 0;
    while i < ops.len()
        invariant
            i <= ops@.len(),
            ascending(spans(ops@)),
            within(spans(ops@), 0, local@.len() as int),
            words@.len() == ops@.len(),
            forall|j: int|
                0 <= j < ops@.len() ==> (#[trigger] words@[j])@.len() == word_count(ops@[j].len as int),
            local@.len() == old(local)@.len(),
            forall|j: int| 0 <= j < i ==> stored(local@, (#[trigger] ops@[j])@, words@[j]@),
            forall|at: int|
                0 <= at < local@.len() && outside_all(spans(ops@), at) ==> local@[at] == old(
                    local,
                )@[at],
        decreases ops@.len() - i,
    {
        let ghost before = local@;
        proof {
            assert(spans(ops@)[i as int] == ops@[i as int]@);
        }
        ops[i].store_words(&words[i], local);
        proof {
            let now = ops@[i as int]@;
            assert forall|j: int| 0 <= j < i implies stored(
                local@,
                (#[trigger] ops@[j])@,
                words@[j]@,
            ) by {
                let run = ops@[j]@;
                assert(spans(ops@)[j] == run);
                assert(run.local + run.len <= now.local);
                assert forall|k: int| 0 <= k < run.len implies byte_stored(
                    local@,
                    run,
                    words@[j]@,
                    k,
                ) by {
                    assert(byte_stored(before, run, words@[j]@, k));
                }
            }
            assert forall|at: int|
                0 <= at < local@.len() && outside_all(spans(ops@), at) implies local@[at] == old(
                local,
            )@[at] by {
                assert(!(spans(ops@)[i as int].local <= at < spans(ops@)[i as int].local + spans(
                    ops@,
                )[i as int].len));
            }
        }
        i += 1;
    }
}

/// Replaces the low `count` bytes of a word by the bytes of `data` from
/// `from` on, and keeps its other bytes.
pub fn patch_word(word: u64, data: &Vec<u8>, from: usize, count: usize) -> (r: u64)
    requires
        count <= WORD_SIZE,
        from + count <= data@.len(),
    ensures
        forall|k: u64|
            k < 8 ==> #[trigger] word_byte(r, k) == if k < count {
                data@[from + k]
            } else {
                word_byte(word, k)
            },
{
    let size: usize = data.len();
    let mut patched: u64 = word;
    let mut j: usize = 0;
    while j < count
        invariant
            j <= count <= 8,
            data@.len() == size,
            from + count <= data@.len(),
            forall|k: u64|
                k < 8 ==> #[trigger] word_byte(patched, k) == if k < j {
                    data@[from + k]
                } else {
                    word_byte(word, k)
                },
        decreases count - j,
    {
        let shift: u64 = (8 * j) as u64;
        let byte: u8 = data[from + j];
        let ghost before = patched;
        patched = (patched & !(0xffu64 << shift)) | ((byte as u64) << shift);
        proof {
            assert(patched == with_byte(before, j as u64, byte));
            assert forall|k: u64| k < 8 implies #[trigger] word_byte(patched, k) == if k < j + 1 {
                data@[from + k]
            } else {
                word_byte(word, k)
            } by {
                lemma_with_byte(before, j as u64, byte, k);
            }
        }
        j += 1;
    }
    patched
}

/// The memory after one word is written at an address.
pub open spec fn poked(mem: Memory, addr: int, word: u64) -> Memory {
    |a: int|
        if addr <= a < addr + 8 {
            word_byte(word, (a - addr) as u64)
        } else {
            mem(a)
        }
}

/// The memory after a list of words is written, the first one first.
pub open spec fn poked_all(mem: Memory, pokes: Seq<(usize, u64)>) -> Memory
    decreases pokes.len(),
{
    if pokes.len() == 0 {
        mem
    } else {
        poked(poked_all(mem, pokes.drop_last()), pokes.last().0 as int, pokes.last().1)
    }
}

/// Whether a list of words to write covers a run with the bytes of the local
/// buffer: the words stand at every eighth address from the run's first byte,
/// and each byte of a word is the run's byte for that address, or, past the
/// end of the run, the byte that `tail` has in that place.
pub open spec fn pokes_cover(pokes: Seq<(usize, u64)>, local: Seq<u8>, span: Span, tail: u64) -> bool {
    &&& pokes.len() == word_count(span.len)
    &&& forall|i: int| 0 <= i < pokes.len() ==> (#[trigger] pokes[i]).0 == span.remote + 8 * i
    &&& forall|i: int, k: u64|
        0 <= i < pokes.len() && k < 8 ==> #[trigger] word_byte(pokes[i].1, k) == if 8 * i + k
            < span.len {
            local[span.local + 8 * i + k]
        } else {
            word_byte(tail, k)
        }
}

/// The address of the last word of a run that is not a multiple of eight
/// bytes long.
pub open spec fn spec_tail_address(span: Span) -> int {
    span.remote + span.len - span.len % 8
}

impl MemoryOp {
    /// The address of the word that has to be read before this run is
    /// written: that of the last covering word, if it reaches past the run.
    pub fn tail_address(&self) -> (r: Option<usize>)
        requires
            span_in_bounds(self@),
        ensures
            r == if self.len % 8 == 0 {
                None
            } else {
                Some(spec_tail_address(self@) as usize)
            },
            r matches Some(addr) ==> addr == spec_tail_address(self@),
    {
        let over: usize = self.len % WORD_SIZE;
        if over == 0 {
            None
        } else {
            Some(self.remote_base + (self.len - over))
        }
    }

    /// The words to write for this run, with their addresses in ascending
    /// order. `tail` is the word read at [`Self::tail_address`]: the last
    /// word keeps its bytes past the end of the run. Where the run is a
    /// multiple of eight bytes long, `tail` is not used.
    pub fn poke_words(&self, local: &Vec<u8>, tail: u64) -> (r: Vec<(usize, u64)>)
        requires
            span_in_bounds(self@),
            self.local_offset + self.len <= local@.len(),
        ensures
            pokes_cover(r@, local@, self@, tail),
    {
        let mut pokes: Vec<(usize, u64)> = Vec::new();
        let mut offset: usize = 0;
        while offset < self.len
            invariant
                span_in_bounds(self@),
                self.local_offset + self.len <= local@.len(),
                offset % 8 == 0,
                offset <= self.len,
                pokes@.len() == offset / 8,
                forall|i: int|
                    0 <= i < pokes@.len() ==> (#[trigger] pokes@[i]).0 == self.remote_base + 8 * i,
                forall|i: int, k: u64|
                    0 <= i < pokes@.len() && k < 8 ==> #[trigger] word_byte(pokes@[i].1, k) == if 8
                        * i + k < self.len {
                        local@[self.local_offset + 8 * i + k]
                    } else {
                        word_byte(tail, k)
                    },
            decreases self.len - offset,
        {
            let left: usize = self.len - offset;
            let count: usize = if left < WORD_SIZE {
                left
            } else {
                WORD_SIZE
            };
            let word: u64 = patch_word(tail, local, self.local_offset + offset, count);
            let ghost before = pokes@;
            pokes.push((self.remote_base + offset, word));
            proof {
                let n = before.len() as int;
                assert forall|i: int, k: u64| 0 <= i < pokes@.len() && k < 8 implies #[trigger] word_byte(
                    pokes@[i].1,
                    k,
                ) == if 8 * i + k < self.len {
                    local@[self.local_offset + 8 * i + k]
                } else {
                    word_byte(tail, k)
                } by {
                    if i < n {
                        assert(pokes@[i] == before[i]);
                    }
                }
            }
            offset += count;
            if count < WORD_SIZE {
                return pokes;
            }
        }
        pokes
    }
}

/// The memory after the first `n` words of a run were written: the bytes of
/// the run that those words cover are the run's, all others as before.
proof fn lemma_pokes_prefix(
    mem: Memory,
    pokes: Seq<(usize, u64)>,
    local: Seq<u8>,
    span: Span,
    tail: u64,
    n: int,
)
    requires
        span.len >= 0,
        pokes_cover(pokes, local, span, tail),
        span.len % 8 != 0 ==> tail == word_at(mem, spec_tail_address(span)),
        0 <= n <= pokes.len(),
    ensures
        forall|a: int|
            #[trigger] poked_all(mem, pokes.take(n))(a) == if span.remote <= a < span.remote + 8 * n
                && a < span.remote + span.len {
                local[span.local + (a - span.remote)]
            } else {
                mem(a)
            },
    decreases n,
{
    if n == 0 {
        assert(pokes.take(0) =~= Seq::<(usize, u64)>::empty());
    } else {
        lemma_pokes_prefix(mem, pokes, local, span, tail, n - 1);
        let done = pokes.take(n - 1);
        let now = pokes.take(n);
        assert(now.drop_last() =~= done);
        assert(now.last() == pokes[n - 1]);
        let addr = span.remote + 8 * (n - 1);
        assert(pokes[n - 1].0 == addr);
        assert forall|a: int| #[trigger]
            poked_all(mem, now)(a) == if span.remote <= a < span.remote + 8 * n && a < span.remote
                + span.len {
                local[span.local + (a - span.remote)]
            } else {
                mem(a)
            } by {
            if addr <= a < addr + 8 {
                let k = (a - addr) as u64;
                assert(poked_all(mem, now)(a) == word_byte(pokes[n - 1].1, k));
                if a >= span.remote + span.len {
                    assert(spec_tail_address(span) == addr);
                    lemma_word_at_byte(mem, addr, k);
                }
            } else {
                assert(poked_all(mem, now)(a) == poked_all(mem, done)(a));
            }
        }
    }
}

/// A run that was written word by word holds the bytes of the local buffer,
/// and every byte of the memory outside the run is as it was, if the word
/// given for the tail is the one that the memory held at the tail address.
pub proof fn lemma_pokes_write(
    mem: Memory,
    pokes: Seq<(usize, u64)>,
    local: Seq<u8>,
    span: Span,
    tail: u64,
)
    requires
        span.len >= 0,
        pokes_cover(pokes, local, span, tail),
        span.len % 8 != 0 ==> tail == word_at(mem, spec_tail_address(span)),
    ensures
        forall|a: int|
            #[trigger] poked_all(mem, pokes)(a) == if span.remote <= a < span.remote + span.len {
                local[span.local + (a - span.remote)]
            } else {
                mem(a)
            },
{
    lemma_pokes_prefix(mem, pokes, local, span, tail, pokes.len() as int);
    assert(pokes.take(pokes.len() as int) =~= pokes);
}

} // verus!
