//! Batches of memory reads and writes.
//!
//! A batch collects requests, each a run of bytes in the debuggee. The bytes
//! of all requests stand one after another in one local buffer, in the order
//! in which the requests were made, so no two requests share a byte of it.
//! [`ReadMemory::plan`] and [`WriteMemory::plan`] say how the batch is to be
//! carried out: which pieces go in the one bulk transfer and which go word by
//! word.

use vstd::prelude::*;
use crate::memory::{
    ascending, lemma_filter_ascending, lemma_pieces_ascending, page_pieces, select, span_in_bounds,
    spans, split_protected, transferred, within, Memory, MemoryOp, Span,
};
use crate::memory_map::MemoryMap;
use crate::words::{
    lemma_words_transfer, outside_all, place_words, stored, word_at, word_count,
};

verus! {

/// The pieces of all requests of a batch, in the order of the requests.
pub open spec fn batch_pieces(requests: Seq<Span>, page_size: int) -> Seq<Span>
    decreases requests.len(),
{
    if requests.len() == 0 {
        Seq::empty()
    } else {
        batch_pieces(requests.drop_last(), page_size) + page_pieces(requests.last(), page_size)
    }
}

/// Whether the requests lie one after another in a local buffer of
/// `local_len` bytes, each within the address space.
pub open spec fn packed(requests: Seq<Span>, local_len: int) -> bool
    decreases requests.len(),
{
    if requests.len() == 0 {
        local_len == 0
    } else {
        let last = requests.last();
        &&& span_in_bounds(last)
        &&& last.local + last.len == local_len
        &&& packed(requests.drop_last(), last.local)
    }
}

/// The bytes that the local buffer holds in the place of a run.
pub open spec fn bytes_of(local: Seq<u8>, span: Span) -> Seq<u8> {
    Seq::new(span.len as nat, |k: int| local[span.local + k])
}

/// The requests of a batch and the length of its local buffer.
struct Batch {
    ops: Vec<MemoryOp>,
    local_len: usize,
}

impl Batch {
    spec fn wf(&self) -> bool {
        packed(spans(self.ops@), self.local_len as int)
    }

    fn new() -> (r: Batch)
        ensures
            r.wf(),
            spans(r.ops@) == Seq::<Span>::empty(),
            r.local_len == 0,
    {
        let r = Batch { ops: Vec::new(), local_len: 0 };
        assert(spans(r.ops@) =~= Seq::<Span>::empty());
        r
    }

    fn add(&mut self, len: usize, remote_base: usize)
        requires
            old(self).wf(),
            old(self).local_len + len <= usize::MAX,
            remote_base + len <= usize::MAX,
        ensures
            final(self).wf(),
            spans(final(self).ops@) == spans(old(self).ops@).push(
                Span { remote: remote_base as int, local: old(self).local_len as int, len: len as int },
            ),
            final(self).local_len == old(self).local_len + len,
    {
        let ghost before = spans(self.ops@);
        self.ops.push(MemoryOp { remote_base, local_offset: self.local_len, len });
        self.local_len = self.local_len + len;
        proof {
            let added = Span {
                remote: remote_base as int,
                local: old(self).local_len as int,
                len: len as int,
            };
            assert(spans(self.ops@) =~= before.push(added));
            assert(spans(self.ops@).drop_last() =~= before);
        }
    }

    fn plan(&self, maps: &Vec<MemoryMap>, page_size: usize, writing: bool) -> (r: (
        Vec<MemoryOp>,
        Vec<MemoryOp>,
    ))
        requires
            self.wf(),
            page_size > 0,
        ensures
            spans(r.0@) == select(
                maps@,
                batch_pieces(spans(self.ops@), page_size as int),
                writing,
                true,
            ),
            spans(r.1@) == select(
                maps@,
                batch_pieces(spans(self.ops@), page_size as int),
                writing,
                false,
            ),
            ascending(spans(r.0@)),
            ascending(spans(r.1@)),
            within(spans(r.0@), 0, self.local_len as int),
            within(spans(r.1@), 0, self.local_len as int),
    {
        let mut pieces: Vec<MemoryOp> = Vec::new();
        let mut i: usize = 0;
        proof {
            assert(spans(self.ops@).take(0) =~= Seq::<Span>::empty());
            assert(spans(pieces@) =~= Seq::<Span>::empty());
        }
        while i < self.ops.len()
            invariant
                i <= self.ops.len(),
                page_size > 0,
                self.wf(),
                spans(pieces@) == batch_pieces(spans(self.ops@).take(i as int), page_size as int),
            decreases self.ops.len() - i,
        {
            proof {
                lemma_packed_in_bounds(spans(self.ops@), self.local_len as int, i as int);
                let next = spans(self.ops@).take(i + 1);
                assert(next.drop_last() =~= spans(self.ops@).take(i as int));
                assert(next.last() == self.ops@[i as int]@);
            }
            self.ops[i].split_on_page_boundary(page_size, &mut pieces);
            i += 1;
        }
        proof {
            assert(spans(self.ops@).take(self.ops.len() as int) =~= spans(self.ops@));
            lemma_plan_ascending(
                spans(self.ops@),
                self.local_len as int,
                maps@,
                page_size as int,
                writing,
                true,
            );
            lemma_plan_ascending(
                spans(self.ops@),
                self.local_len as int,
                maps@,
                page_size as int,
                writing,
                false,
            );
        }
        split_protected(maps, &pieces, writing)
    }
}

/// Every request of a packed batch is within the address space and within
/// the local buffer, and the requests follow one another in it.
pub proof fn lemma_packed_in_bounds(requests: Seq<Span>, local_len: int, i: int)
    requires
        packed(requests, local_len),
        0 <= i < requests.len(),
    ensures
        span_in_bounds(requests[i]),
        requests[i].local + requests[i].len <= local_len,
        i + 1 < requests.len() ==> requests[i + 1].local == requests[i].local + requests[i].len,
        i == 0 ==> requests[i].local == 0,
    decreases requests.len(),
{
    reveal_with_fuel(packed, 2);
    if i < requests.len() - 1 {
        lemma_packed_in_bounds(requests.drop_last(), requests.last().local, i);
    } else if i > 0 {
        lemma_packed_in_bounds(requests.drop_last(), requests.last().local, i - 1);
    }
}

/// No two requests of a packed batch share a byte of the local buffer: a
/// later request begins where the earlier ones have ended, or after.
pub proof fn lemma_requests_disjoint(requests: Seq<Span>, local_len: int, i: int, j: int)
    requires
        packed(requests, local_len),
        0 <= i < j < requests.len(),
    ensures
        requests[i].local + requests[i].len <= requests[j].local,
    decreases j - i,
{
    lemma_packed_in_bounds(requests, local_len, i);
    if i + 1 < j {
        lemma_packed_in_bounds(requests, local_len, i + 1);
        lemma_requests_disjoint(requests, local_len, i + 1, j);
    }
}

/// The pieces of a packed batch follow one another in the local buffer, so no
/// two of them share a byte of it, and each lies within it.
pub proof fn lemma_batch_ascending(requests: Seq<Span>, local_len: int, page_size: int)
    requires
        packed(requests, local_len),
        page_size > 0,
    ensures
        ascending(batch_pieces(requests, page_size)),
        within(batch_pieces(requests, page_size), 0, local_len),
    decreases requests.len(),
{
    if requests.len() > 0 {
        let last = requests.last();
        let front = batch_pieces(requests.drop_last(), page_size);
        let back = page_pieces(last, page_size);
        let all = batch_pieces(requests, page_size);
        lemma_batch_ascending(requests.drop_last(), last.local, page_size);
        lemma_pieces_ascending(last, page_size);
        assert(all == front + back);
        assert forall|i: int| 0 <= i < all.len() implies 0 <= (#[trigger] all[i]).local
            && all[i].len >= 0 && all[i].local + all[i].len <= local_len by {
            if i < front.len() {
                assert(all[i] == front[i]);
            } else {
                assert(all[i] == back[i - front.len()]);
            }
        }
        assert forall|i: int, j: int| 0 <= i < j < all.len() implies (#[trigger] all[i]).local
            + all[i].len <= (#[trigger] all[j]).local by {
            if j < front.len() {
                assert(all[i] == front[i] && all[j] == front[j]);
            } else if i < front.len() {
                assert(all[i] == front[i]);
                assert(all[j] == back[j - front.len()]);
            } else {
                assert(all[i] == back[i - front.len()]);
                assert(all[j] == back[j - front.len()]);
            }
        }
    }
}

/// Both parts of the plan of a packed batch follow one another in the local
/// buffer and lie within it, and each of their pieces is a piece of the batch.
pub proof fn lemma_plan_ascending(
    requests: Seq<Span>,
    local_len: int,
    maps: Seq<MemoryMap>,
    page_size: int,
    writing: bool,
    protected: bool,
)
    requires
        packed(requests, local_len),
        page_size > 0,
    ensures
        ascending(select(maps, batch_pieces(requests, page_size), writing, protected)),
        within(select(maps, batch_pieces(requests, page_size), writing, protected), 0, local_len),
        forall|i: int|
            0 <= i < select(maps, batch_pieces(requests, page_size), writing, protected).len()
                ==> batch_pieces(requests, page_size).contains(
                #[trigger] select(maps, batch_pieces(requests, page_size), writing, protected)[i],
            ),
{
    lemma_batch_ascending(requests, local_len, page_size);
    lemma_filter_ascending(
        batch_pieces(requests, page_size),
        |run: Span| crate::memory::is_protected(maps, run.remote, writing) == protected,
        local_len,
    );
}

/// The bytes that the memory holds at the remote addresses of a run.
pub open spec fn remote_bytes(mem: Memory, span: Span) -> Seq<u8> {
    Seq::new(span.len as nat, |k: int| mem(span.remote + k))
}

/// Whether each of the runs is transferred.
pub open spec fn all_transferred(local: Seq<u8>, mem: Memory, runs: Seq<Span>) -> bool {
    forall|i: int| 0 <= i < runs.len() ==> transferred(local, mem, #[trigger] runs[i])
}

/// Whether the words read for the runs are those that the memory holds:
/// `words[i]` holds the words at every eighth address from the first byte of
/// `runs[i]`.
pub open spec fn words_read(words: Seq<Vec<u64>>, mem: Memory, runs: Seq<Span>) -> bool {
    forall|i: int, w: int|
        0 <= i < runs.len() && 0 <= w < words[i]@.len() ==> #[trigger] words[i]@[w] == word_at(
            mem,
            runs[i].remote + 8 * w,
        )
}

/// Each run of a part of a plan is protected, or is not, as the part says.
proof fn lemma_select_pred(maps: Seq<MemoryMap>, runs: Seq<Span>, writing: bool, protected: bool, i: int)
    requires
        0 <= i < select(maps, runs, writing, protected).len(),
    ensures
        crate::memory::is_protected(maps, select(maps, runs, writing, protected)[i].remote, writing)
            == protected,
{
    runs.lemma_filter_pred(
        |run: Span| crate::memory::is_protected(maps, run.remote, writing) == protected,
        i,
    );
}

/// Each piece of each request is among the pieces of the batch.
proof fn lemma_batch_contains(requests: Seq<Span>, page_size: int, i: int, j: int)
    requires
        0 <= i < requests.len(),
        0 <= j < page_pieces(requests[i], page_size).len(),
    ensures
        batch_pieces(requests, page_size).contains(page_pieces(requests[i], page_size)[j]),
    decreases requests.len(),
{
    let front = batch_pieces(requests.drop_last(), page_size);
    let back = page_pieces(requests.last(), page_size);
    let piece = page_pieces(requests[i], page_size)[j];
    if i == requests.len() - 1 {
        assert((front + back)[front.len() + j] == piece);
    } else {
        lemma_batch_contains(requests.drop_last(), page_size, i, j);
        let at = choose|at: int| 0 <= at < front.len() && front[at] == piece;
        assert((front + back)[at] == piece);
    }
}

/// After a batch is applied, every request holds the bytes of the memory at
/// its remote addresses: if each piece of the plan was transferred, on
/// whichever of the two ways the plan sent it, then so was each request.
pub proof fn lemma_batch_transfer(
    local: Seq<u8>,
    mem: Memory,
    requests: Seq<Span>,
    maps: Seq<MemoryMap>,
    page_size: int,
    writing: bool,
)
    requires
        page_size > 0,
        forall|i: int| 0 <= i < requests.len() ==> (#[trigger] requests[i]).len >= 0,
        forall|i: int|
            0 <= i < select(maps, batch_pieces(requests, page_size), writing, true).len()
                ==> transferred(
                local,
                mem,
                #[trigger] select(maps, batch_pieces(requests, page_size), writing, true)[i],
            ),
        forall|i: int|
            0 <= i < select(maps, batch_pieces(requests, page_size), writing, false).len()
                ==> transferred(
                local,
                mem,
                #[trigger] select(maps, batch_pieces(requests, page_size), writing, false)[i],
            ),
    ensures
        forall|i: int| 0 <= i < requests.len() ==> transferred(local, mem, #[trigger] requests[i]),
{
    let all = batch_pieces(requests, page_size);
    let slow = select(maps, all, writing, true);
    let fast = select(maps, all, writing, false);
    assert forall|i: int| 0 <= i < requests.len() implies transferred(
        local,
        mem,
        #[trigger] requests[i],
    ) by {
        let pieces = page_pieces(requests[i], page_size);
        assert forall|j: int| 0 <= j < pieces.len() implies transferred(
            local,
            mem,
            #[trigger] pieces[j],
        ) by {
            lemma_batch_contains(requests, page_size, i, j);
            let at = choose|at: int| 0 <= at < all.len() && all[at] == pieces[j];
            if crate::memory::is_protected(maps, pieces[j].remote, writing) {
                all.lemma_filter_contains(
                    |run: Span| crate::memory::is_protected(maps, run.remote, writing) == true,
                    at,
                );
                let k = choose|k: int| 0 <= k < slow.len() && slow[k] == pieces[j];
                assert(transferred(local, mem, slow[k]));
            } else {
                all.lemma_filter_contains(
                    |run: Span| crate::memory::is_protected(maps, run.remote, writing) == false,
                    at,
                );
                let k = choose|k: int| 0 <= k < fast.len() && fast[k] == pieces[j];
                assert(transferred(local, mem, fast[k]));
            }
        }
        crate::memory::lemma_pieces_transfer(local, mem, requests[i], page_size);
    }
}

/// A batch of reads from the debuggee.
pub struct ReadMemory {
    batch: Batch,
}

impl ReadMemory {
    /// The requests made so far, each with its place in the local buffer.
    pub closed spec fn requests(&self) -> Seq<Span> {
        spans(self.batch.ops@)
    }

    /// The length of the local buffer that holds the bytes of all requests.
    pub closed spec fn spec_local_len(&self) -> int {
        self.batch.local_len as int
    }

    /// The requests lie one after another in the local buffer.
    pub closed spec fn wf(&self) -> bool {
        self.batch.wf()
    }

    /// The requests of a well-formed batch are packed into its local buffer.
    pub proof fn lemma_packed(&self)
        requires
            self.wf(),
        ensures
            packed(self.requests(), self.spec_local_len()),
            0 <= self.spec_local_len() <= usize::MAX,
    {
    }

    /// A batch without requests.
    pub fn new() -> (r: ReadMemory)
        ensures
            r.wf(),
            r.requests() == Seq::<Span>::empty(),
            r.spec_local_len() == 0,
    {
        ReadMemory { batch: Batch::new() }
    }

    /// Asks for `len` bytes at `remote_base`. They get the next `len` bytes
    /// of the local buffer.
    pub fn read(self, len: usize, remote_base: usize) -> (r: ReadMemory)
        requires
            self.wf(),
            self.spec_local_len() + len <= usize::MAX,
            remote_base + len <= usize::MAX,
        ensures
            r.wf(),
            r.requests() == self.requests().push(
                Span { remote: remote_base as int, local: self.spec_local_len(), len: len as int },
            ),
            r.spec_local_len() == self.spec_local_len() + len,
    {
        let mut batch = self.batch;
        batch.add(len, remote_base);
        ReadMemory { batch }
    }

    /// Asks for `count` values of `size` bytes each that stand one after
    /// another from `remote_base`.
    pub fn read_slice(self, count: usize, size: usize, remote_base: usize) -> (r: ReadMemory)
        requires
            self.wf(),
            self.spec_local_len() + count * size <= usize::MAX,
            remote_base + count * size <= usize::MAX,
        ensures
            r.wf(),
            r.requests() == self.requests().push(
                Span {
                    remote: remote_base as int,
                    local: self.spec_local_len(),
                    len: count * size,
                },
            ),
            r.spec_local_len() == self.spec_local_len() + count * size,
    {
        proof {
            assert(0 <= count * size) by (nonlinear_arith)
                requires
                    count >= 0,
                    size >= 0,
            ;
        }
        let len: usize = count * size;
        self.read(len, remote_base)
    }

    /// The length of the local buffer.
    pub fn local_len(&self) -> (r: usize)
        ensures
            r == self.spec_local_len(),
    {
        self.batch.local_len
    }

    /// The bytes of each request, taken from the local buffer after the batch
    /// was carried out, in the order of the requests.
    pub fn results(&self, local: &Vec<u8>) -> (r: Vec<Vec<u8>>)
        requires
            self.wf(),
            local@.len() == self.spec_local_len(),
        ensures
            r@.len() == self.requests().len(),
            forall|i: int|
                0 <= i < r@.len() ==> (#[trigger] r@[i])@ == bytes_of(local@, self.requests()[i]),
    {
        let size: usize = local.len();
        let mut results: Vec<Vec<u8>> = Vec::new();
        let mut i: usize = 0;
        while i < self.batch.ops.len()
            invariant
                local@.len() == size,
                i <= self.batch.ops.len(),
                self.wf(),
                local@.len() == self.spec_local_len(),
                results@.len() == i,
                forall|j: int|
                    0 <= j < i ==> (#[trigger] results@[j])@ == bytes_of(
                        local@,
                        self.requests()[j],
                    ),
            decreases self.batch.ops.len() - i,
        {
            let op: MemoryOp = self.batch.ops[i];
            proof {
                lemma_packed_in_bounds(self.requests(), self.spec_local_len(), i as int);
                assert(self.requests()[i as int] == op@);
            }
            let mut bytes: Vec<u8> = Vec::new();
            let mut k: usize = 0;
            while k < op.len
                invariant
                    k <= op.len,
                    op.local_offset + op.len <= local@.len() == size,
                    bytes@ == local@.subrange(op.local_offset as int, op.local_offset + k),
                decreases op.len - k,
            {
                bytes.push(local[op.local_offset + k]);
                proof {
                    assert(bytes@ =~= local@.subrange(
                        op.local_offset as int,
                        op.local_offset + k + 1,
                    ));
                }
                k += 1;
            }
            proof {
                assert(bytes@ =~= bytes_of(local@, op@));
            }
            results.push(bytes);
            i += 1;
        }
        results
    }

    /// Finishes a batch after the bulk transfer has filled the local buffer
    /// in the places of its pieces: puts the words that were read for the
    /// other pieces in their places, and gives the bytes of each request.
    /// `words[i]` holds the words read at the addresses that
    /// [`MemoryOp::peek_addresses`] gives for the `i`-th piece of the first
    /// part of [`Self::plan`].
    ///
    /// Whatever the memory of the debuggee held: if the bulk transfer has
    /// brought its bytes, and the words are its words, then each request gets
    /// the bytes that the memory held at the request's addresses.
    pub fn finish(
        &self,
        maps: &Vec<MemoryMap>,
        page_size: usize,
        words: &Vec<Vec<u64>>,
        local: &mut Vec<u8>,
    ) -> (r: Vec<Vec<u8>>)
        requires
            self.wf(),
            page_size > 0,
            old(local)@.len() == self.spec_local_len(),
            words@.len() == select(
                maps@,
                batch_pieces(self.requests(), page_size as int),
                false,
                true,
            ).len(),
            forall|i: int|
                0 <= i < words@.len() ==> (#[trigger] words@[i])@.len() == word_count(
                    select(maps@, batch_pieces(self.requests(), page_size as int), false, true)[i].len,
                ),
        ensures
            final(local)@.len() == old(local)@.len(),
            forall|i: int|
                0 <= i < words@.len() ==> stored(
                    final(local)@,
                    select(maps@, batch_pieces(self.requests(), page_size as int), false, true)[i],
                    (#[trigger] words@[i])@,
                ),
            forall|at: int|
                0 <= at < old(local)@.len() && outside_all(
                    select(maps@, batch_pieces(self.requests(), page_size as int), false, true),
                    at,
                ) ==> final(local)@[at] == old(local)@[at],
            r@.len() == self.requests().len(),
            forall|i: int|
                0 <= i < r@.len() ==> (#[trigger] r@[i])@ == bytes_of(
                    final(local)@,
                    self.requests()[i],
                ),
            forall|mem: Memory|
                all_transferred(
                    old(local)@,
                    mem,
                    select(maps@, batch_pieces(self.requests(), page_size as int), false, false),
                ) && words_read(
                    words@,
                    mem,
                    select(maps@, batch_pieces(self.requests(), page_size as int), false, true),
                ) ==> forall|i: int|
                    0 <= i < r@.len() ==> (#[trigger] r@[i])@ == remote_bytes(
                        mem,
                        self.requests()[i],
                    ),
    {
        let plan = self.plan(maps, page_size);
        let ghost pieces = batch_pieces(self.requests(), page_size as int);
        let ghost slow = select(maps@, pieces, false, true);
        let ghost fast = select(maps@, pieces, false, false);
        proof {
            assert forall|i: int| 0 <= i < plan.0@.len() implies (#[trigger] words@[i])@.len()
                == word_count(plan.0@[i].len as int) by {
                assert(spans(plan.0@)[i] == plan.0@[i]@);
            }
        }
        place_words(&plan.0, words, local);
        let results = self.results(local);
        proof {
            let requests = self.requests();
            assert forall|i: int| 0 <= i < words@.len() implies stored(
                local@,
                slow[i],
                (#[trigger] words@[i])@,
            ) by {
                assert(spans(plan.0@)[i] == plan.0@[i]@);
            }
            lemma_plan_ascending(
                requests,
                self.spec_local_len(),
                maps@,
                page_size as int,
                false,
                true,
            );
            lemma_plan_ascending(
                requests,
                self.spec_local_len(),
                maps@,
                page_size as int,
                false,
                false,
            );
            lemma_batch_ascending(requests, self.spec_local_len(), page_size as int);
            assert forall|mem: Memory|
                all_transferred(old(local)@, mem, fast) && words_read(
                    words@,
                    mem,
                    slow,
                ) implies forall|i: int|
                0 <= i < results@.len() ==> (#[trigger] results@[i])@ == remote_bytes(
                    mem,
                    requests[i],
                ) by {
                assert forall|i: int| 0 <= i < slow.len() implies transferred(
                    local@,
                    mem,
                    #[trigger] slow[i],
                ) by {
                    assert(spans(plan.0@)[i] == plan.0@[i]@);
                    assert(stored(local@, plan.0@[i]@, words@[i]@));
                    lemma_words_transfer(local@, mem, slow[i], words@[i]@);
                }
                assert forall|i: int| 0 <= i < fast.len() implies transferred(
                    local@,
                    mem,
                    #[trigger] fast[i],
                ) by {
                    let run = fast[i];
                    assert(transferred(old(local)@, mem, run));
                    lemma_select_pred(maps@, pieces, false, false, i);
                    let at_fast = choose|at: int| 0 <= at < pieces.len() && pieces[at] == run;
                    assert forall|k: int| 0 <= k < run.len implies crate::memory::byte_transferred(
                        local@,
                        mem,
                        run,
                        k,
                    ) by {
                        assert(crate::memory::byte_transferred(old(local)@, mem, run, k));
                        assert forall|j: int| 0 <= j < slow.len() implies !((#[trigger] slow[j]).local
                            <= run.local + k < slow[j].local + slow[j].len) by {
                            lemma_select_pred(maps@, pieces, false, true, j);
                            let at_slow = choose|at: int|
                                0 <= at < pieces.len() && pieces[at] == slow[j];
                            assert(pieces[at_slow] == slow[j]);
                            assert(pieces[at_fast] == run);
                            assert(at_slow != at_fast);
                        }
                        assert(outside_all(slow, run.local + k));
                    }
                }
                lemma_batch_transfer(local@, mem, requests, maps@, page_size as int, false);
                assert forall|i: int| 0 <= i < results@.len() implies (#[trigger] results@[i])@
                    == remote_bytes(mem, requests[i]) by {
                    lemma_packed_in_bounds(requests, self.spec_local_len(), i);
                    assert(transferred(local@, mem, requests[i]));
                    assert forall|k: int| 0 <= k < requests[i].len implies bytes_of(
                        local@,
                        requests[i],
                    )[k] == remote_bytes(mem, requests[i])[k] by {
                        assert(crate::memory::byte_transferred(local@, mem, requests[i], k));
                    }
                    assert(bytes_of(local@, requests[i]) =~= remote_bytes(mem, requests[i]));
                }
            }
        }
        results
    }

    /// The pieces of the batch, each on one page: first those on pages that
    /// the tracer may not read, to be read word by word, then those on the
    /// other pages, to be read in one bulk transfer. Each part is in the order
    /// of the requests.
    pub fn plan(&self, maps: &Vec<MemoryMap>, page_size: usize) -> (r: (Vec<MemoryOp>, Vec<MemoryOp>))
        requires
            self.wf(),
            page_size > 0,
        ensures
            spans(r.0@) == select(
                maps@,
                batch_pieces(self.requests(), page_size as int),
                false,
                true,
            ),
            spans(r.1@) == select(
                maps@,
                batch_pieces(self.requests(), page_size as int),
                false,
                false,
            ),
            ascending(spans(r.0@)),
            ascending(spans(r.1@)),
            within(spans(r.0@), 0, self.spec_local_len()),
            within(spans(r.1@), 0, self.spec_local_len()),
    {
        self.batch.plan(maps, page_size, false)
    }
}

/// A batch of writes to the debuggee.
pub struct WriteMemory {
    batch: Batch,
}

impl WriteMemory {
    /// The requests made so far, each with its place in the local buffer.
    pub closed spec fn requests(&self) -> Seq<Span> {
        spans(self.batch.ops@)
    }

    /// The length of the local buffer that holds the bytes of all requests.
    pub closed spec fn spec_local_len(&self) -> int {
        self.batch.local_len as int
    }

    /// The requests lie one after another in the local buffer.
    pub closed spec fn wf(&self) -> bool {
        self.batch.wf()
    }

    /// The requests of a well-formed batch are packed into its local buffer.
    pub proof fn lemma_packed(&self)
        requires
            self.wf(),
        ensures
            packed(self.requests(), self.spec_local_len()),
            0 <= self.spec_local_len() <= usize::MAX,
    {
    }

    /// A batch without requests.
    pub fn new() -> (r: WriteMemory)
        ensures
            r.wf(),
            r.requests() == Seq::<Span>::empty(),
            r.spec_local_len() == 0,
    {
        WriteMemory { batch: Batch::new() }
    }

    /// Asks for `len` bytes to be written at `remote_base`. They are the next
    /// `len` bytes of the local buffer.
    pub fn write(self, len: usize, remote_base: usize) -> (r: WriteMemory)
        requires
            self.wf(),
            self.spec_local_len() + len <= usize::MAX,
            remote_base + len <= usize::MAX,
        ensures
            r.wf(),
            r.requests() == self.requests().push(
                Span { remote: remote_base as int, local: self.spec_local_len(), len: len as int },
            ),
            r.spec_local_len() == self.spec_local_len() + len,
    {
        let mut batch = self.batch;
        batch.add(len, remote_base);
        WriteMemory { batch }
    }

    /// Asks for `count` values of `size` bytes each to be written one after
    /// another from `remote_base`.
    pub fn write_slice(self, count: usize, size: usize, remote_base: usize) -> (r: WriteMemory)
        requires
            self.wf(),
            self.spec_local_len() + count * size <= usize::MAX,
            remote_base + count * size <= usize::MAX,
        ensures
            r.wf(),
            r.requests() == self.requests().push(
                Span {
                    remote: remote_base as int,
                    local: self.spec_local_len(),
                    len: count * size,
                },
            ),
            r.spec_local_len() == self.spec_local_len() + count * size,
    {
        proof {
            assert(0 <= count * size) by (nonlinear_arith)
                requires
                    count >= 0,
                    size >= 0,
            ;
        }
        let len: usize = count * size;
        self.write(len, remote_base)
    }

    /// The length of the local buffer.
    pub fn local_len(&self) -> (r: usize)
        ensures
            r == self.spec_local_len(),
    {
        self.batch.local_len
    }

    /// The pieces of the batch, each on one page: first those on pages that
    /// the tracer may not write, to be written word by word, then those on
    /// the other pages, to be written in one bulk transfer. Each part is in
    /// the order of the requests.
    pub fn plan(&self, maps: &Vec<MemoryMap>, page_size: usize) -> (r: (Vec<MemoryOp>, Vec<MemoryOp>))
        requires
            self.wf(),
            page_size > 0,
        ensures
            spans(r.0@) == select(
                maps@,
                batch_pieces(self.requests(), page_size as int),
                true,
                true,
            ),
            spans(r.1@) == select(
                maps@,
                batch_pieces(self.requests(), page_size as int),
                true,
                false,
            ),
            ascending(spans(r.0@)),
            ascending(spans(r.1@)),
            within(spans(r.0@), 0, self.spec_local_len()),
            within(spans(r.1@), 0, self.spec_local_len()),
    {
        self.batch.plan(maps, page_size, true)
    }
}

} // verus!
