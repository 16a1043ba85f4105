//! Planning of memory transfers between the tracer and the debuggee.
//!
//! A request names a run of bytes in the debuggee and the place of the same
//! number of bytes in a local buffer. Requests are cut at page boundaries, and
//! each piece goes one of two ways: pieces on pages that the tracer may access
//! are transferred in bulk, pieces on protected pages word by word.

use vstd::prelude::*;
use crate::memory_map::MemoryMap;

verus! {

/// One run of bytes to transfer: `len` bytes at `remote_base` in the debuggee,
/// and at `local_offset` in the local buffer of the batch.
#[derive(Clone, Copy, Debug, PartialEq, Eq, Structural)]
pub struct MemoryOp {
    pub remote_base: usize,
    pub local_offset: usize,
    pub len: usize,
}

/// A run of bytes, over unbounded integers.
pub ghost struct Span {
    pub remote: int,
    pub local: int,
    pub len: int,
}

impl View for MemoryOp {
    type V = Span;

    open spec fn view(&self) -> Span {
        Span { remote: self.remote_base as int, local: self.local_offset as int, len: self.len as int }
    }
}

/// The views of a list of runs.
pub open spec fn spans(ops: Seq<MemoryOp>) -> Seq<Span> {
    ops.map_values(|op: MemoryOp| op@)
}

/// The number of bytes from `addr` to the next page boundary above it.
pub open spec fn page_rest(addr: int, page_size: int) -> int {
    page_size - addr % page_size
}

/// A run cut at every page boundary inside it: the piece up to the first
/// boundary, then the pieces of what is left. A run that crosses no boundary
/// is its own single piece, also when it is empty.
pub open spec fn page_pieces(span: Span, page_size: int) -> Seq<Span>
    decreases span.len,
{
    let first = page_rest(span.remote, page_size);
    if page_size <= 0 || span.len <= first {
        seq![span]
    } else {
        seq![Span { remote: span.remote, local: span.local, len: first }] + page_pieces(
            Span { remote: span.remote + first, local: span.local + first, len: span.len - first },
            page_size,
        )
    }
}

/// Whether a run is non-negative and fits the address space on both sides.
pub open spec fn span_in_bounds(span: Span) -> bool {
    &&& 0 <= span.remote
    &&& 0 <= span.local
    &&& 0 <= span.len
    &&& span.remote + span.len <= usize::MAX
    &&& span.local + span.len <= usize::MAX
}

impl MemoryOp {
    /// Appends to `out` the pieces of this run that lie on one page each, in
    /// ascending order.
    pub fn split_on_page_boundary(&self, page_size: usize, out: &mut Vec<MemoryOp>)
        requires
            page_size > 0,
            span_in_bounds(self@),
        ensures
            spans(final(out)@) == spans(old(out)@) + page_pieces(self@, page_size as int),
    {
        let mut base: usize = self.remote_base;
        let mut local: usize = self.local_offset;
        let mut left: usize = self.len;
        loop
            invariant
                page_size > 0,
                base + left == self.remote_base + self.len <= usize::MAX,
                local + left == self.local_offset + self.len <= usize::MAX,
                spans(out@) + page_pieces(
                    Span { remote: base as int, local: local as int, len: left as int },
                    page_size as int,
                ) == spans(old(out)@) + page_pieces(self@, page_size as int),
            decreases left,
        {
            let rest: usize = page_size - base % page_size;
            let ghost before = out@;
            let ghost span = Span { remote: base as int, local: local as int, len: left as int };
            if left <= rest {
                out.push(MemoryOp { remote_base: base, local_offset: local, len: left });
                proof {
                    assert(spans(out@) =~= spans(before) + seq![span]);
                }
                return ;
            }
            out.push(MemoryOp { remote_base: base, local_offset: local, len: rest });
            proof {
                let head = Span { remote: base as int, local: local as int, len: rest as int };
                let tail = Span {
                    remote: base + rest,
                    local: local + rest,
                    len: left - rest,
                };
                assert(spans(out@) =~= spans(before) + seq![head]);
                assert(page_pieces(span, page_size as int) == seq![head] + page_pieces(
                    tail,
                    page_size as int,
                ));
                assert((spans(before) + seq![head]) + page_pieces(tail, page_size as int) =~= spans(
                    before,
                ) + (seq![head] + page_pieces(tail, page_size as int)));
            }
            base += rest;
            local += rest;
            left -= rest;
        }
    }
}

/// The contents of the debuggee's memory at one instant, by address.
pub type Memory = spec_fn(int) -> u8;

/// Whether the local buffer holds, in the place of a run, the bytes that the
/// memory holds at the run's remote addresses.
pub open spec fn transferred(local: Seq<u8>, mem: Memory, span: Span) -> bool {
    forall|k: int| 0 <= k < span.len ==> byte_transferred(local, mem, span, k)
}

/// Whether the local buffer holds, in the place of the `k`-th byte of a run,
/// the byte that the memory holds at that byte's remote address.
pub open spec fn byte_transferred(local: Seq<u8>, mem: Memory, span: Span, k: int) -> bool {
    0 <= span.local + k < local.len() && local[span.local + k] == mem(span.remote + k)
}

/// The pieces of a run do not cross a page boundary, and only the last may be
/// empty or end before one.
pub proof fn lemma_pieces_on_one_page(span: Span, page_size: int)
    requires
        page_size > 0,
        span.len >= 0,
    ensures
        page_pieces(span, page_size).len() >= 1,
        forall|i: int|
            0 <= i < page_pieces(span, page_size).len() ==> {
                let piece = #[trigger] page_pieces(span, page_size)[i];
                &&& 0 <= piece.len <= page_rest(piece.remote, page_size)
                &&& span.remote <= piece.remote
                &&& piece.remote + piece.len <= span.remote + span.len
                &&& piece.local - span.local == piece.remote - span.remote
                &&& i + 1 < page_pieces(span, page_size).len() ==> piece.len == page_rest(
                    piece.remote,
                    page_size,
                ) && page_pieces(span, page_size)[i + 1].remote == piece.remote + piece.len
            },
        page_pieces(span, page_size)[0].remote == span.remote,
        page_pieces(span, page_size).last().remote + page_pieces(span, page_size).last().len
            == span.remote + span.len,
    decreases span.len,
{
    let first = page_rest(span.remote, page_size);
    assert(0 < first <= page_size) by {
        assert(0 <= span.remote % page_size < page_size) by (nonlinear_arith)
            requires
                page_size > 0,
        ;
    }
    if span.len > first {
        let tail = Span {
            remote: span.remote + first,
            local: span.local + first,
            len: span.len - first,
        };
        lemma_pieces_on_one_page(tail, page_size);
        let head = Span { remote: span.remote, local: span.local, len: first };
        let all = page_pieces(span, page_size);
        assert(all == seq![head] + page_pieces(tail, page_size));
        assert forall|i: int| 0 <= i < all.len() implies {
            let piece = #[trigger] all[i];
            &&& 0 <= piece.len <= page_rest(piece.remote, page_size)
            &&& span.remote <= piece.remote
            &&& piece.remote + piece.len <= span.remote + span.len
            &&& piece.local - span.local == piece.remote - span.remote
            &&& i + 1 < all.len() ==> piece.len == page_rest(piece.remote, page_size) && all[i
                + 1].remote == piece.remote + piece.len
        } by {
            if i > 0 {
                assert(all[i] == page_pieces(tail, page_size)[i - 1]);
                if i + 1 < all.len() {
                    assert(all[i + 1] == page_pieces(tail, page_size)[i]);
                }
            } else {
                assert(all[1] == page_pieces(tail, page_size)[0]);
            }
        }
        assert(all.last() == page_pieces(tail, page_size).last());
    }
}

/// Reading a run piece by piece, each page by the way that suits it, gives
/// the same bytes as reading the run whole: the run is transferred exactly
/// when each of its pieces is.
pub proof fn lemma_pieces_transfer(local: Seq<u8>, mem: Memory, span: Span, page_size: int)
    requires
        page_size > 0,
        span.len >= 0,
    ensures
        transferred(local, mem, span) <==> forall|i: int|
            0 <= i < page_pieces(span, page_size).len() ==> transferred(
                local,
                mem,
                #[trigger] page_pieces(span, page_size)[i],
            ),
    decreases span.len,
{
    let first = page_rest(span.remote, page_size);
    let all = page_pieces(span, page_size);
    assert(0 < first <= page_size) by {
        assert(0 <= span.remote % page_size < page_size) by (nonlinear_arith)
            requires
                page_size > 0,
        ;
    }
    if span.len > first {
        let head = Span { remote: span.remote, local: span.local, len: first };
        let tail = Span {
            remote: span.remote + first,
            local: span.local + first,
            len: span.len - first,
        };
        let rest = page_pieces(tail, page_size);
        lemma_pieces_transfer(local, mem, tail, page_size);
        assert(all == seq![head] + rest);
        if transferred(local, mem, span) {
            assert forall|k: int| 0 <= k < tail.len implies byte_transferred(local, mem, tail, k) by {
                assert(byte_transferred(local, mem, span, first + k));
            }
            assert forall|k: int| 0 <= k < head.len implies byte_transferred(local, mem, head, k) by {
                assert(byte_transferred(local, mem, span, k));
            }
            assert forall|i: int| 0 <= i < all.len() implies transferred(
                local,
                mem,
                #[trigger] all[i],
            ) by {
                if i > 0 {
                    assert(all[i] == rest[i - 1]);
                }
            }
        }
        if forall|i: int| 0 <= i < all.len() ==> transferred(local, mem, #[trigger] all[i]) {
            assert(all[0] == head);
            assert forall|i: int| 0 <= i < rest.len() implies transferred(
                local,
                mem,
                #[trigger] rest[i],
            ) by {
                assert(all[i + 1] == rest[i]);
            }
            assert(transferred(local, mem, head));
            assert forall|k: int| 0 <= k < span.len implies byte_transferred(local, mem, span, k) by {
                if k >= first {
                    assert(byte_transferred(local, mem, tail, k - first));
                } else {
                    assert(byte_transferred(local, mem, head, k));
                }
            }
        }
    } else {
        assert(all[0] == span);
    }
}

/// Whether the runs follow one another in the local buffer without sharing a
/// byte of it: each begins where the ones before it have ended, or after.
pub open spec fn ascending(runs: Seq<Span>) -> bool {
    forall|i: int, j: int|
        0 <= i < j < runs.len() ==> (#[trigger] runs[i]).local + runs[i].len <= (
        #[trigger] runs[j]).local
}

/// Whether each of the runs lies within a local buffer of `local_len` bytes.
pub open spec fn within(runs: Seq<Span>, from: int, local_len: int) -> bool {
    forall|i: int|
        0 <= i < runs.len() ==> from <= (#[trigger] runs[i]).local && runs[i].len >= 0
            && runs[i].local + runs[i].len <= local_len
}

/// The pieces of a run follow one another in the run's place in the local
/// buffer.
pub proof fn lemma_pieces_ascending(span: Span, page_size: int)
    requires
        page_size > 0,
        span.len >= 0,
    ensures
        ascending(page_pieces(span, page_size)),
        within(page_pieces(span, page_size), span.local, span.local + span.len),
    decreases span.len,
{
    let first = page_rest(span.remote, page_size);
    let all = page_pieces(span, page_size);
    assert(0 < first <= page_size) by {
        assert(0 <= span.remote % page_size < page_size) by (nonlinear_arith)
            requires
                page_size > 0,
        ;
    }
    if span.len > first {
        let head = Span { remote: span.remote, local: span.local, len: first };
        let tail = Span {
            remote: span.remote + first,
            local: span.local + first,
            len: span.len - first,
        };
        let rest = page_pieces(tail, page_size);
        lemma_pieces_ascending(tail, page_size);
        assert(all == seq![head] + rest);
        assert forall|i: int| 0 <= i < all.len() implies span.local <= (#[trigger] all[i]).local
            && all[i].len >= 0 && all[i].local + all[i].len <= span.local + span.len by {
            if i > 0 {
                assert(all[i] == rest[i - 1]);
            }
        }
        assert forall|i: int, j: int| 0 <= i < j < all.len() implies (#[trigger] all[i]).local
            + all[i].len <= (#[trigger] all[j]).local by {
            assert(all[j] == rest[j - 1]);
            if i > 0 {
                assert(all[i] == rest[i - 1]);
            }
        }
    } else {
        assert(all[0] == span);
    }
}

/// Runs that are picked from runs that follow one another still follow one
/// another.
pub proof fn lemma_filter_ascending(runs: Seq<Span>, pred: spec_fn(Span) -> bool, local_len: int)
    requires
        ascending(runs),
        within(runs, 0, local_len),
    ensures
        ascending(runs.filter(pred)),
        within(runs.filter(pred), 0, local_len),
        forall|i: int| 0 <= i < runs.filter(pred).len() ==> runs.contains(#[trigger] runs.filter(pred)[i]),
    decreases runs.len(),
{
    reveal(Seq::filter);
    let picked = runs.filter(pred);
    if runs.len() > 0 {
        let front = runs.drop_last();
        assert forall|i: int, j: int| 0 <= i < j < front.len() implies (#[trigger] front[i]).local
            + front[i].len <= (#[trigger] front[j]).local by {
            assert(front[i] == runs[i] && front[j] == runs[j]);
        }
        assert forall|i: int| 0 <= i < front.len() implies 0 <= (#[trigger] front[i]).local
            && front[i].len >= 0 && front[i].local + front[i].len <= local_len by {
            assert(front[i] == runs[i]);
        }
        lemma_filter_ascending(front, pred, local_len);
        let before = front.filter(pred);
        assert forall|i: int| 0 <= i < picked.len() implies runs.contains(#[trigger] picked[i]) by {
            if i < before.len() {
                assert(picked[i] == before[i]);
                let at = choose|at: int| 0 <= at < front.len() && front[at] == before[i];
                assert(runs[at] == picked[i]);
            } else {
                assert(picked[i] == runs.last());
                assert(runs[runs.len() - 1] == picked[i]);
            }
        }
        assert forall|i: int, j: int| 0 <= i < j < picked.len() implies (#[trigger] picked[i]).local
            + picked[i].len <= (#[trigger] picked[j]).local by {
            if j < before.len() {
                assert(picked[i] == before[i] && picked[j] == before[j]);
            } else {
                assert(picked[j] == runs.last());
                assert(picked[i] == before[i]);
                let at = choose|at: int| 0 <= at < front.len() && front[at] == before[i];
                assert(runs[at] == picked[i]);
                assert(runs[runs.len() - 1] == picked[j]);
            }
        }
        assert forall|i: int| 0 <= i < picked.len() implies 0 <= (#[trigger] picked[i]).local
            && picked[i].len >= 0 && picked[i].local + picked[i].len <= local_len by {
            let at = choose|at: int| 0 <= at < runs.len() && runs[at] == picked[i];
            assert(runs[at] == picked[i]);
        }
    }
}

/// Whether a mapping holds the address and withholds the access asked for:
/// writing where `writing` is set, reading where it is not.
pub open spec fn guards(map: MemoryMap, addr: int, writing: bool) -> bool {
    map.address.0 <= addr < map.address.1 && !(if writing {
        map.is_writable
    } else {
        map.is_readable
    })
}

/// Whether some mapping of the snapshot guards the address.
pub open spec fn is_protected(maps: Seq<MemoryMap>, addr: int, writing: bool) -> bool {
    exists|i: int| 0 <= i < maps.len() && guards(#[trigger] maps[i], addr, writing)
}

/// The runs, in their order, whose first byte is protected (`protected` set)
/// or is not (`protected` clear).
pub open spec fn select(maps: Seq<MemoryMap>, runs: Seq<Span>, writing: bool, protected: bool) -> Seq<
    Span,
> {
    runs.filter(|run: Span| is_protected(maps, run.remote, writing) == protected)
}

/// Whether every mapping of the snapshot begins and ends on a page boundary,
/// as the kernel's mappings do.
pub open spec fn page_aligned(maps: Seq<MemoryMap>, page_size: int) -> bool {
    forall|i: int|
        0 <= i < maps.len() ==> (#[trigger] maps[i]).address.0 as int % page_size == 0
            && maps[i].address.1 as int % page_size == 0
}

/// A page boundary lies on the same side of two addresses of one page.
proof fn lemma_boundary_side(boundary: int, a: int, b: int, page_size: int)
    requires
        page_size > 0,
        boundary % page_size == 0,
        a <= b < a + page_rest(a, page_size),
    ensures
        (boundary <= a) == (boundary <= b),
{
    let q = a / page_size;
    let m = boundary / page_size;
    vstd::arithmetic::div_mod::lemma_fundamental_div_mod(a, page_size);
    vstd::arithmetic::div_mod::lemma_fundamental_div_mod(boundary, page_size);
    assert(0 <= a % page_size < page_size) by (nonlinear_arith)
        requires
            page_size > 0,
    ;
    if boundary <= b {
        assert(page_size * m < page_size * q + page_size);
        assert(m <= q) by (nonlinear_arith)
            requires
                page_size > 0,
                page_size * m < page_size * q + page_size,
        ;
        assert(page_size * m <= page_size * q) by (nonlinear_arith)
            requires
                page_size > 0,
                m <= q,
        ;
    }
}

/// Every byte of a piece that lies on one page is protected exactly when the
/// first byte of the piece is, where the mappings begin and end on page
/// boundaries: a piece goes whole to the way that suits its page.
pub proof fn lemma_piece_protection(
    maps: Seq<MemoryMap>,
    piece: Span,
    page_size: int,
    writing: bool,
    k: int,
)
    requires
        page_size > 0,
        page_aligned(maps, page_size),
        0 <= k < piece.len <= page_rest(piece.remote, page_size),
    ensures
        is_protected(maps, piece.remote + k, writing) == is_protected(maps, piece.remote, writing),
{
    assert forall|i: int| 0 <= i < maps.len() implies guards(
        #[trigger] maps[i],
        piece.remote + k,
        writing,
    ) == guards(maps[i], piece.remote, writing) by {
        lemma_boundary_side(maps[i].address.0 as int, piece.remote, piece.remote + k, page_size);
        lemma_boundary_side(maps[i].address.1 as int, piece.remote, piece.remote + k, page_size);
    }
}

/// Tests whether some mapping of the snapshot guards the address.
pub fn is_protected_at(maps: &Vec<MemoryMap>, addr: usize, writing: bool) -> (r: bool)
    ensures
        r == is_protected(maps@, addr as int, writing),
{
    let mut i: usize = 0;
    while i < maps.len()
        invariant
            i <= maps.len(),
            forall|j: int| 0 <= j < i ==> !guards(#[trigger] maps@[j], addr as int, writing),
        decreases maps.len() - i,
    {
        let map = &maps[i];
        let open: bool = if writing {
            map.is_writable
        } else {
            map.is_readable
        };
        if !open && map.address.0 <= addr as u64 && (addr as u64) < map.address.1 {
            return true;
        }
        i += 1;
    }
    false
}

/// Parts the runs into those that start on a protected page and those that do
/// not, each part in the order of `ops`.
pub fn split_protected(maps: &Vec<MemoryMap>, ops: &Vec<MemoryOp>, writing: bool) -> (r: (
    Vec<MemoryOp>,
    Vec<MemoryOp>,
))
    ensures
        spans(r.0@) == select(maps@, spans(ops@), writing, true),
        spans(r.1@) == select(maps@, spans(ops@), writing, false),
{
    let mut protected: Vec<MemoryOp> = Vec::new();
    let mut permitted: Vec<MemoryOp> = Vec::new();
    let mut i: usize = 0;
    proof {
        reveal(Seq::filter);
        assert(spans(ops@).take(0) =~= Seq::<Span>::empty());
        assert(spans(protected@) =~= Seq::<Span>::empty());
        assert(spans(permitted@) =~= Seq::<Span>::empty());
    }
    while i < ops.len()
        invariant
            i <= ops.len(),
            spans(protected@) == select(maps@, spans(ops@).take(i as int), writing, true),
            spans(permitted@) == select(maps@, spans(ops@).take(i as int), writing, false),
        decreases ops.len() - i,
    {
        let op: MemoryOp = ops[i];
        let ghost before_protected = protected@;
        let ghost before_permitted = permitted@;
        if is_protected_at(maps, op.remote_base, writing) {
            protected.push(op);
        } else {
            permitted.push(op);
        }
        proof {
            reveal(Seq::filter);
            let done = spans(ops@).take(i as int);
            let next = spans(ops@).take(i + 1);
            assert(next.drop_last() =~= done);
            assert(next.last() == op@);
            if is_protected(maps@, op@.remote, writing) {
                assert(spans(protected@) =~= spans(before_protected).push(op@));
            } else {
                assert(spans(permitted@) =~= spans(before_permitted).push(op@));
            }
        }
        i += 1;
    }
    proof {
        assert(spans(ops@).take(ops.len() as int) =~= spans(ops@));
    }
    (protected, permitted)
}

/// The way on which a run is transferred.
#[derive(Clone, Copy, Debug, PartialEq, Eq, Structural)]
pub enum Transport {
    /// In the one bulk transfer of the batch.
    Bulk,
    /// Word by word.
    WordWise,
}

/// The run at which a batch failed.
#[derive(Clone, Copy, Debug, PartialEq, Eq, Structural)]
pub enum MemoryError {
    RegionUnreadable { addr: usize, len: usize, transport: Transport },
    RegionUnwritable { addr: usize, len: usize, transport: Transport },
}

/// The error that names a run as the one that failed.
pub open spec fn failure_of(op: MemoryOp, writing: bool, transport: Transport) -> MemoryError {
    if writing {
        MemoryError::RegionUnwritable { addr: op.remote_base, len: op.len, transport }
    } else {
        MemoryError::RegionUnreadable { addr: op.remote_base, len: op.len, transport }
    }
}

/// The first run from `from` on that a transfer of `moved` bytes, which takes
/// the runs in their order, has not finished.
pub open spec fn first_unfinished(ops: Seq<MemoryOp>, from: int, moved: int) -> Option<int>
    decreases ops.len() - from,
{
    if from < 0 || from >= ops.len() {
        None
    } else if moved < ops[from].len {
        Some(from)
    } else {
        first_unfinished(ops, from + 1, moved - ops[from].len)
    }
}

impl MemoryOp {
    /// The error that names this run as the one that failed.
    pub fn failure(&self, writing: bool, transport: Transport) -> (r: MemoryError)
        ensures
            r == failure_of(*self, writing, transport),
    {
        if writing {
            MemoryError::RegionUnwritable { addr: self.remote_base, len: self.len, transport }
        } else {
            MemoryError::RegionUnreadable { addr: self.remote_base, len: self.len, transport }
        }
    }
}

/// The error of a bulk transfer that moved only `moved` bytes: it names the
/// first run that was not moved whole. There is none where every run was.
pub fn bulk_failure(ops: &Vec<MemoryOp>, moved: usize, writing: bool) -> (r: Option<MemoryError>)
    ensures
        r == match first_unfinished(ops@, 0, moved as int) {
            Some(i) => Some(failure_of(ops@[i], writing, Transport::Bulk)),
            None => None,
        },
{
    let mut left: usize = moved;
    let mut i: usize = 0;
    while i < ops.len()
        invariant
            i <= ops.len(),
            first_unfinished(ops@, 0, moved as int) == first_unfinished(ops@, i as int, left as int),
        decreases ops.len() - i,
    {
        if left < ops[i].len {
            return Some(ops[i].failure(writing, Transport::Bulk));
        }
        left -= ops[i].len;
        i += 1;
    }
    None
}

} // verus!
