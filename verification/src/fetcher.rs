//! Reading cell data that may be larger than the buffer at hand, one load at a
//! time, and handing each piece to a visitor.
//!
//! The decisions between two loads are the functions [`first_step`] and
//! [`next_step`], which take what a load answered and say what to hand to the
//! visitor and where to load next. [`fetch_big_cell_data`] drives them with
//! real syscalls. The laws at the end of this file state what a read yields
//! when the loads answer as CKB answers them for a fixed piece of data.

use vstd::prelude::*;
use crate::ckb::{LoadReply, Source, load_cell_data};
use ckb_std::error::SysError;

verus! {

/// Receives the pieces of a cell's data in order. `visit` answers whether it
/// wants the rest.
pub trait Visitor {
    /// The pieces the visitor has received so far, in order.
    spec fn pieces(&self) -> Seq<Seq<u8>>;

    /// What the visitor answered to each piece it received, in order: whether
    /// it wanted the rest.
    spec fn answers(&self) -> Seq<bool>;

    /// Receives the next piece, and answers whether it wants the rest.
    fn visit(&mut self, data: &[u8]) -> (more: bool)
        ensures
            final(self).pieces() == old(self).pieces().push(data@),
            final(self).answers() == old(self).answers().push(more),
    ;
}

/// Where a read stands after its first load: the next offset to load from,
/// and the data length that the first load reported.
#[derive(Clone, Copy, Debug, PartialEq, Eq)]
pub struct FetchCursor {
    pub offset: usize,
    pub total: usize,
}

/// What to do after a load.
#[derive(Clone, Copy, Debug, PartialEq, Eq)]
pub enum FetchStep {
    /// Hand the buffer's first `len` bytes to the visitor. If it wants more and
    /// `next` is given, the read goes on from there while its offset is below
    /// its total; otherwise the read is done.
    Visit { len: usize, next: Option<FetchCursor> },
    /// Hand the whole buffer, `len` bytes, to the visitor. The next load would
    /// start at `offset + len`, past the largest `usize`: if the visitor wants
    /// more, the read stops with [`FetchError::OffsetOverflow`]; otherwise it
    /// is done.
    VisitAtLimit { offset: usize, len: usize },
    /// Stop with the load's error.
    Fail(SysError),
    /// Stop: a load reported that the data ends elsewhere than the first load
    /// said.
    LengthMismatch { offset: usize, len: usize, total: usize },
}

/// Why a read of cell data stopped early.
#[derive(Clone, Copy, Debug, PartialEq, Eq)]
pub enum FetchError {
    /// A load failed with this error.
    Sys(SysError),
    /// A load from `offset` reported `len` bytes left, where the first load
    /// said the data is `total` bytes long.
    LengthMismatch { offset: usize, len: usize, total: usize },
    /// The visitor wanted more after a full buffer of `len` bytes loaded from
    /// `offset`, and `offset + len` does not fit in a `usize`.
    OffsetOverflow { offset: usize, len: usize },
}

/// The step that a load from `offset` that did not fit in a buffer of
/// `buf_len` bytes leads to, the data being `total` bytes long as the read
/// counts it.
pub open spec fn full_buffer_step(offset: usize, buf_len: usize, total: usize) -> FetchStep {
    if offset + buf_len <= usize::MAX {
        FetchStep::Visit {
            len: buf_len,
            next: Some(FetchCursor { offset: (offset + buf_len) as usize, total }),
        }
    } else {
        FetchStep::VisitAtLimit { offset, len: buf_len }
    }
}

/// The step after the first load, made from `offset` into a buffer of
/// `buf_len` bytes.
pub open spec fn first_step_spec(offset: usize, buf_len: usize, reply: LoadReply) -> FetchStep {
    match reply {
        LoadReply::Loaded(n) => FetchStep::Visit { len: n, next: None },
        LoadReply::Partial(total) => full_buffer_step(offset, buf_len, total),
        LoadReply::Failed(e) => FetchStep::Fail(e),
    }
}

/// The step after a later load, made from `at.offset`.
pub open spec fn next_step_spec(at: FetchCursor, buf_len: usize, reply: LoadReply) -> FetchStep {
    match reply {
        LoadReply::Loaded(n) => if at.offset + n == at.total {
            FetchStep::Visit {
                len: n,
                next: Some(FetchCursor { offset: at.total, total: at.total }),
            }
        } else {
            FetchStep::LengthMismatch { offset: at.offset, len: n, total: at.total }
        },
        LoadReply::Partial(_) => full_buffer_step(at.offset, buf_len, at.total),
        LoadReply::Failed(e) => FetchStep::Fail(e),
    }
}

/// Decides what follows a load from `offset` that did not fit in a buffer of
/// `buf_len` bytes.
fn full_buffer(offset: usize, buf_len: usize, total: usize) -> (s: FetchStep)
    ensures
        s == full_buffer_step(offset, buf_len, total),
{
    match offset.checked_add(buf_len) {
        Some(next) => FetchStep::Visit { len: buf_len, next: Some(FetchCursor { offset: next, total }) },
        None => FetchStep::VisitAtLimit { offset, len: buf_len },
    }
}

/// Decides what follows the first load of a read from `offset` into a buffer
/// of `buf_len` bytes.
pub fn first_step(offset: usize, buf_len: usize, reply: LoadReply) -> (s: FetchStep)
    ensures
        s == first_step_spec(offset, buf_len, reply),
{
    match reply {
        LoadReply::Loaded(n) => FetchStep::Visit { len: n, next: None },
        LoadReply::Partial(total) => full_buffer(offset, buf_len, total),
        LoadReply::Failed(e) => FetchStep::Fail(e),
    }
}

/// Decides what follows a later load, made from `at.offset` while that is
/// below `at.total`.
pub fn next_step(at: FetchCursor, buf_len: usize, reply: LoadReply) -> (s: FetchStep)
    requires
        at.offset < at.total,
    ensures
        s == next_step_spec(at, buf_len, reply),
        buf_len > 0 ==> (s matches FetchStep::Visit { next: Some(c), .. } ==> at.offset < c.offset
            && c.total == at.total),
{
    match reply {
        LoadReply::Loaded(n) => if n == at.total - at.offset {
            FetchStep::Visit { len: n, next: Some(FetchCursor { offset: at.total, total: at.total }) }
        } else {
            FetchStep::LengthMismatch { offset: at.offset, len: n, total: at.total }
        },
        LoadReply::Partial(_) => full_buffer(at.offset, buf_len, at.total),
        LoadReply::Failed(e) => FetchStep::Fail(e),
    }
}

/// One load of a read: the offset it was made from, the cell it was made on,
/// what it answered, the buffer's bytes before and after it, and what the
/// visitor answered to the piece that followed (false where the visitor was
/// not asked).
pub struct LoadEvent {
    pub offset: usize,
    pub index: usize,
    pub source: Source,
    pub reply: LoadReply,
    pub prior: Seq<u8>,
    pub filled: Seq<u8>,
    pub more: bool,
}

/// The step that load `i` of `trace` led to, in a read from `offset` through
/// a buffer of `buf_len` bytes.
pub open spec fn step_of(offset: usize, buf_len: usize, trace: Seq<LoadEvent>, i: nat) -> FetchStep
    decreases i,
{
    if i == 0 {
        first_step_spec(offset, buf_len, trace[0].reply)
    } else {
        match step_of(offset, buf_len, trace, (i - 1) as nat) {
            FetchStep::Visit { next: Some(c), .. } => next_step_spec(
                c,
                buf_len,
                trace[i as int].reply,
            ),
            s => s,
        }
    }
}

/// The cursor that step `i` of `trace` goes on from, if it goes on.
pub open spec fn cursor_after(offset: usize, buf_len: usize, trace: Seq<LoadEvent>, i: nat) -> FetchCursor {
    match step_of(offset, buf_len, trace, i) {
        FetchStep::Visit { next: Some(c), .. } => c,
        _ => FetchCursor { offset: 0, total: 0 },
    }
}

/// Whether the read goes on to another load after load `i` of `trace`: the
/// step handed a piece, the visitor asked for more, and the cursor is below
/// its total.
pub open spec fn continues_after(offset: usize, buf_len: usize, trace: Seq<LoadEvent>, i: nat) -> bool {
    &&& step_of(offset, buf_len, trace, i) matches FetchStep::Visit { next: Some(c), .. }
    &&& trace[i as int].more
    &&& cursor_after(offset, buf_len, trace, i).offset < cursor_after(offset, buf_len, trace, i).total
}

/// Whether load `i` of `trace` is made from where the read goes on after the
/// load before it.
pub open spec fn load_follows(offset: usize, buf_len: usize, trace: Seq<LoadEvent>, i: int) -> bool {
    &&& trace[i].offset == cursor_after(offset, buf_len, trace, (i - 1) as nat).offset
    &&& continues_after(offset, buf_len, trace, (i - 1) as nat)
}

/// Whether `step` hands a piece to the visitor.
pub open spec fn visits(step: FetchStep) -> bool {
    step is Visit || step is VisitAtLimit
}

/// What a read returns when `step` is its last, and the visitor answered
/// `more` to the piece it handed, if any.
pub open spec fn outcome(step: FetchStep, more: bool) -> Result<(), FetchError> {
    match step {
        FetchStep::Visit { .. } => Ok(()),
        FetchStep::VisitAtLimit { offset, len } => if more {
            Err(FetchError::OffsetOverflow { offset, len })
        } else {
            Ok(())
        },
        FetchStep::Fail(e) => Err(FetchError::Sys(e)),
        FetchStep::LengthMismatch { offset, len, total } => Err(
            FetchError::LengthMismatch { offset, len, total },
        ),
    }
}

/// Whether `trace` is the whole record of a read from `offset` through a
/// buffer of `buf_len` bytes that returned `r`: the first load is made from
/// `offset`, each later one from where the step before goes on, the read
/// goes on after every load but the last, and `r` is what the last step
/// returns.
pub open spec fn is_fetch_run(
    offset: usize,
    buf_len: usize,
    trace: Seq<LoadEvent>,
    r: Result<(), FetchError>,
) -> bool {
    &&& trace.len() >= 1
    &&& trace[0].offset == offset
    &&& forall|i: int| 1 <= i < trace.len() ==> #[trigger] load_follows(offset, buf_len, trace, i)
    &&& !continues_after(offset, buf_len, trace, (trace.len() - 1) as nat)
    &&& r == outcome(
        step_of(offset, buf_len, trace, (trace.len() - 1) as nat),
        trace[trace.len() - 1].more,
    )
}

/// Whether a load's answer is one that ckb-std gives into a buffer of
/// `buf_len` bytes: the buffer keeps its length, a length that fit is at most
/// the buffer's, and one that did not fit is more.
pub open spec fn load_fits(buf_len: usize, e: LoadEvent) -> bool {
    &&& e.prior.len() == buf_len
    &&& e.filled.len() == buf_len
    &&& e.reply matches LoadReply::Loaded(n) ==> n <= buf_len
    &&& e.reply matches LoadReply::Partial(n) ==> n > buf_len
}

/// Whether load `i` of `trace` was made on cell `index` of `source`, into the
/// buffer as it was before the read (`start`) for the first load, and as the
/// load before left it for the others.
pub open spec fn load_chains(
    index: usize,
    source: Source,
    start: Seq<u8>,
    trace: Seq<LoadEvent>,
    i: int,
) -> bool {
    &&& trace[i].index == index
    &&& trace[i].source == source
    &&& trace[i].prior == if i == 0 {
        start
    } else {
        trace[i - 1].filled
    }
}

/// The piece that load `i` of `trace` hands the visitor, where its step
/// visits: the first `len` bytes of the buffer after the load.
pub open spec fn piece_of(offset: usize, buf_len: usize, trace: Seq<LoadEvent>, i: nat) -> Seq<Seq<u8>> {
    match step_of(offset, buf_len, trace, i) {
        FetchStep::Visit { len, .. } => seq![trace[i as int].filled.take(len as int)],
        FetchStep::VisitAtLimit { len, .. } => seq![trace[i as int].filled.take(len as int)],
        _ => Seq::empty(),
    }
}

/// What the visitor answered after load `i` of `trace`, where its step
/// visits.
pub open spec fn answer_of(offset: usize, buf_len: usize, trace: Seq<LoadEvent>, i: nat) -> Seq<bool> {
    if visits(step_of(offset, buf_len, trace, i)) {
        seq![trace[i as int].more]
    } else {
        Seq::empty()
    }
}

/// The pieces that the first `k` loads of `trace` hand the visitor, in order.
pub open spec fn pieces_of(offset: usize, buf_len: usize, trace: Seq<LoadEvent>, k: nat) -> Seq<Seq<u8>>
    decreases k,
{
    if k == 0 {
        Seq::empty()
    } else {
        pieces_of(offset, buf_len, trace, (k - 1) as nat) + piece_of(
            offset,
            buf_len,
            trace,
            (k - 1) as nat,
        )
    }
}

/// What the visitor answered to the pieces that the first `k` loads of
/// `trace` hand it, in order.
pub open spec fn answers_of(offset: usize, buf_len: usize, trace: Seq<LoadEvent>, k: nat) -> Seq<bool>
    decreases k,
{
    if k == 0 {
        Seq::empty()
    } else {
        answers_of(offset, buf_len, trace, (k - 1) as nat) + answer_of(
            offset,
            buf_len,
            trace,
            (k - 1) as nat,
        )
    }
}

/// Whether `trace` records a read of cell `index` of `source` from `offset`
/// through a buffer that held `buf_before` and that returned `r`
/// ([`is_fetch_run`]): its loads answered as ckb-std does, each into the
/// buffer as the read found it or as the load before left it; the visitor's
/// pieces went from `pieces_before` to `pieces_after` by the pieces of the
/// read, in order, one for each step that visits, and its answers from
/// `answers_before` to `answers_after` by the `more` of those steps; and the
/// buffer was left holding `buf_after`, the bytes of its last load.
pub open spec fn is_fetch_record(
    offset: usize,
    index: usize,
    source: Source,
    trace: Seq<LoadEvent>,
    r: Result<(), FetchError>,
    buf_before: Seq<u8>,
    buf_after: Seq<u8>,
    pieces_before: Seq<Seq<u8>>,
    pieces_after: Seq<Seq<u8>>,
    answers_before: Seq<bool>,
    answers_after: Seq<bool>,
) -> bool {
    let buf_len = buf_before.len() as usize;
    &&& is_fetch_run(offset, buf_len, trace, r)
    &&& forall|i: int| 0 <= i < trace.len() ==> #[trigger] load_fits(buf_len, trace[i])
    &&& forall|i: int|
        0 <= i < trace.len() ==> #[trigger] load_chains(index, source, buf_before, trace, i)
    &&& pieces_after == pieces_before + pieces_of(offset, buf_len, trace, trace.len())
    &&& answers_after == answers_before + answers_of(offset, buf_len, trace, trace.len())
    &&& buf_after == trace[trace.len() - 1].filled
}

/// Whether the visitor asked for more after every piece of the read that
/// `trace` records.
pub open spec fn asked_after_every_piece(offset: usize, buf_len: usize, trace: Seq<LoadEvent>) -> bool {
    forall|i: int|
        0 <= i < answers_of(offset, buf_len, trace, trace.len()).len() ==> #[trigger] answers_of(
            offset,
            buf_len,
            trace,
            trace.len(),
        )[i]
}

/// Adding a load at the end of a record does not change the steps before it.
proof fn lemma_step_of_prefix(
    offset: usize,
    buf_len: usize,
    trace: Seq<LoadEvent>,
    e: LoadEvent,
    i: nat,
)
    requires
        i < trace.len(),
    ensures
        step_of(offset, buf_len, trace.push(e), i) == step_of(offset, buf_len, trace, i),
    decreases i,
{
    if i > 0 {
        lemma_step_of_prefix(offset, buf_len, trace, e, (i - 1) as nat);
        assert(trace.push(e)[i as int] == trace[i as int]);
    }
}

/// Adding a load at the end of a record does not change the pieces handed,
/// or the answers given, before it.
proof fn lemma_visits_of_prefix(
    offset: usize,
    buf_len: usize,
    trace: Seq<LoadEvent>,
    e: LoadEvent,
    k: nat,
)
    requires
        k <= trace.len(),
    ensures
        pieces_of(offset, buf_len, trace.push(e), k) == pieces_of(offset, buf_len, trace, k),
        answers_of(offset, buf_len, trace.push(e), k) == answers_of(offset, buf_len, trace, k),
    decreases k,
{
    if k > 0 {
        lemma_visits_of_prefix(offset, buf_len, trace, e, (k - 1) as nat);
        lemma_step_of_prefix(offset, buf_len, trace, e, (k - 1) as nat);
        assert(trace.push(e)[k - 1] == trace[k - 1]);
    }
}

/// What a record `prev` of the loads so far says still holds once load `e`
/// is added at its end, and what that load's step, piece and answer are.
proof fn lemma_push_load(
    offset: usize,
    buf_len: usize,
    index: usize,
    source: Source,
    start: Seq<u8>,
    prev: Seq<LoadEvent>,
    e: LoadEvent,
)
    requires
        prev.len() >= 1,
        forall|i: int| 1 <= i < prev.len() ==> #[trigger] load_follows(offset, buf_len, prev, i),
        forall|i: int| 0 <= i < prev.len() ==> #[trigger] load_fits(buf_len, prev[i]),
        forall|i: int| 0 <= i < prev.len() ==> #[trigger] load_chains(index, source, start, prev, i),
        load_fits(buf_len, e),
        e.index == index,
        e.source == source,
        e.prior == prev[prev.len() - 1].filled,
        step_of(offset, buf_len, prev, (prev.len() - 1) as nat) matches FetchStep::Visit {
            next: Some(c),
            ..
        } && c.offset < c.total && e.offset == c.offset,
        prev[prev.len() - 1].more,
    ensures
        ({
            let t = prev.push(e);
            let n = prev.len();
            &&& forall|i: int| 1 <= i < t.len() ==> #[trigger] load_follows(offset, buf_len, t, i)
            &&& forall|i: int| 0 <= i < t.len() ==> #[trigger] load_fits(buf_len, t[i])
            &&& forall|i: int| 0 <= i < t.len() ==> #[trigger] load_chains(index, source, start, t, i)
            &&& step_of(offset, buf_len, t, n) == next_step_spec(
                cursor_after(offset, buf_len, prev, (n - 1) as nat),
                buf_len,
                e.reply,
            )
            &&& pieces_of(offset, buf_len, t, n + 1) == pieces_of(offset, buf_len, prev, n)
                + piece_of(offset, buf_len, t, n)
            &&& answers_of(offset, buf_len, t, n + 1) == answers_of(offset, buf_len, prev, n)
                + answer_of(offset, buf_len, t, n)
        }),
{
    let t = prev.push(e);
    let n = prev.len();
    assert forall|k: nat| k < n implies #[trigger] step_of(offset, buf_len, t, k) == step_of(
        offset,
        buf_len,
        prev,
        k,
    ) by {
        lemma_step_of_prefix(offset, buf_len, prev, e, k);
    }
    assert forall|i: int| 1 <= i < t.len() implies #[trigger] load_follows(offset, buf_len, t, i) by {
        if i < n {
            assert(load_follows(offset, buf_len, prev, i));
            assert(t[i] == prev[i]);
            assert(t[i - 1] == prev[i - 1]);
        } else {
            assert(t[n - 1] == prev[n - 1]);
        }
    }
    assert forall|i: int| 0 <= i < t.len() implies #[trigger] load_fits(buf_len, t[i]) by {
        if i < n {
            assert(load_fits(buf_len, prev[i]));
        }
    }
    assert forall|i: int| 0 <= i < t.len() implies #[trigger] load_chains(index, source, start, t, i) by {
        if i < n {
            assert(load_chains(index, source, start, prev, i));
            assert(t[i] == prev[i]);
            if i > 0 {
                assert(t[i - 1] == prev[i - 1]);
            }
        } else {
            assert(t[n - 1] == prev[n - 1]);
        }
    }
    lemma_visits_of_prefix(offset, buf_len, prev, e, n);
}

/// Reads the data of cell `index` in `source`, from `offset` on, through
/// `buffer`, handing each piece to `v` in order until the data ends or `v`
/// asks for no more. The first load reports how long the data is; later loads
/// go on from where the previous piece ended. Whatever the loads answer, there
/// is a record of them, all made on that cell, for which the read went as
/// [`first_step`] and [`next_step`] decide with the visitor's own answers: the
/// visitor received exactly the pieces of that record (one for each step that
/// visits, the first `len` bytes of the buffer after that load) and gave
/// exactly its answers, and the buffer holds the bytes of the last load.
pub fn fetch_big_cell_data<V: Visitor>(
    v: &mut V,
    buffer: &mut [u8],
    offset: usize,
    index: usize,
    source: Source,
) -> (r: Result<(), FetchError>)
    requires
        old(buffer)@.len() > 0,
    ensures
        final(buffer)@.len() == old(buffer)@.len(),
        exists|trace: Seq<LoadEvent>|
            #[trigger] is_fetch_record(
                offset,
                index,
                source,
                trace,
                r,
                old(buffer)@,
                final(buffer)@,
                old(v).pieces(),
                final(v).pieces(),
                old(v).answers(),
                final(v).answers(),
            ),
{
    let buf_len = buffer.len();
    let ghost start = buffer@;
    assert(start.len() as usize == buf_len);
    let reply = load_cell_data(buffer, offset, index, source);
    let ghost filled = buffer@;
    let step = first_step(offset, buf_len, reply);
    let ghost mut trace: Seq<LoadEvent> = seq![
        LoadEvent { offset, index, source, reply, prior: start, filled, more: false },
    ];
    proof {
        assert(load_chains(index, source, start, trace, 0));
        assert(pieces_of(offset, buf_len, trace, 0) == Seq::<Seq<u8>>::empty());
        assert(answers_of(offset, buf_len, trace, 0) == Seq::<bool>::empty());
    }
    let mut at = match step {
        FetchStep::Visit { len, next } => {
            let piece = vstd::slice::slice_subrange(buffer, 0, len);
            assert(piece@ =~= filled.take(len as int));
            let more = v.visit(piece);
            proof {
                trace = seq![LoadEvent { offset, index, source, reply, prior: start, filled, more }];
                assert(load_chains(index, source, start, trace, 0));
                assert(pieces_of(offset, buf_len, trace, 0) == Seq::<Seq<u8>>::empty());
                assert(answers_of(offset, buf_len, trace, 0) == Seq::<bool>::empty());
                assert(v.pieces() =~= old(v).pieces() + pieces_of(offset, buf_len, trace, 1));
                assert(v.answers() =~= old(v).answers() + answers_of(offset, buf_len, trace, 1));
            }
            match next {
                Some(c) => {
                    if !more {
                        assert(is_fetch_record(offset, index, source, trace, Ok(()), start, buffer@, old(v).pieces(), v.pieces(), old(v).answers(), v.answers()));
                        return Ok(());
                    }
                    c
                },
                None => {
                    assert(is_fetch_record(offset, index, source, trace, Ok(()), start, buffer@, old(v).pieces(), v.pieces(), old(v).answers(), v.answers()));
                    return Ok(());
                },
            }
        },
        FetchStep::VisitAtLimit { offset: o, len } => {
            let piece = vstd::slice::slice_subrange(buffer, 0, len);
            assert(piece@ =~= filled.take(len as int));
            let more = v.visit(piece);
            let r = if more {
                Err(FetchError::OffsetOverflow { offset: o, len })
            } else {
                Ok(())
            };
            proof {
                trace = seq![LoadEvent { offset, index, source, reply, prior: start, filled, more }];
                assert(load_chains(index, source, start, trace, 0));
                assert(pieces_of(offset, buf_len, trace, 0) == Seq::<Seq<u8>>::empty());
                assert(answers_of(offset, buf_len, trace, 0) == Seq::<bool>::empty());
                assert(v.pieces() =~= old(v).pieces() + pieces_of(offset, buf_len, trace, 1));
                assert(v.answers() =~= old(v).answers() + answers_of(offset, buf_len, trace, 1));
                assert(is_fetch_record(offset, index, source, trace, r, start, buffer@, old(v).pieces(), v.pieces(), old(v).answers(), v.answers()));
            }
            return r;
        },
        FetchStep::Fail(e) => {
            let r = Err(FetchError::Sys(e));
            proof {
                assert(pieces_of(offset, buf_len, trace, 1) =~= Seq::<Seq<u8>>::empty());
                assert(answers_of(offset, buf_len, trace, 1) =~= Seq::<bool>::empty());
                assert(is_fetch_record(offset, index, source, trace, r, start, buffer@, old(v).pieces(), v.pieces(), old(v).answers(), v.answers()));
            }
            return r;
        },
        FetchStep::LengthMismatch { offset: o, len, total } => {
            let r = Err(FetchError::LengthMismatch { offset: o, len, total });
            proof {
                assert(pieces_of(offset, buf_len, trace, 1) =~= Seq::<Seq<u8>>::empty());
                assert(answers_of(offset, buf_len, trace, 1) =~= Seq::<bool>::empty());
                assert(is_fetch_record(offset, index, source, trace, r, start, buffer@, old(v).pieces(), v.pieces(), old(v).answers(), v.answers()));
            }
            return r;
        },
    };
    while at.offset < at.total
        invariant
            buffer@.len() == buf_len,
            buf_len == start.len(),
            start == old(buffer)@,
            buf_len > 0,
            trace.len() >= 1,
            trace[0].offset == offset,
            forall|i: int| 1 <= i < trace.len() ==> #[trigger] load_follows(offset, buf_len, trace, i),
            forall|i: int| 0 <= i < trace.len() ==> #[trigger] load_fits(buf_len, trace[i]),
            forall|i: int|
                0 <= i < trace.len() ==> #[trigger] load_chains(index, source, start, trace, i),
            step_of(offset, buf_len, trace, (trace.len() - 1) as nat) matches FetchStep::Visit {
                next: Some(c),
                ..
            } && c == at,
            forall|i: int| 0 <= i < trace.len() ==> #[trigger] trace[i].more,
            v.pieces() == old(v).pieces() + pieces_of(offset, buf_len, trace, trace.len()),
            v.answers() == old(v).answers() + answers_of(offset, buf_len, trace, trace.len()),
            buffer@ == trace[trace.len() - 1].filled,
        decreases (if at.offset < at.total { at.total - at.offset } else { 0 }),
    {
        let ghost prior = buffer@;
        let reply = load_cell_data(buffer, at.offset, index, source);
        let ghost filled = buffer@;
        let step = next_step(at, buf_len, reply);
        let ghost prev = trace;
        let ghost n = prev.len();
        match step {
            FetchStep::Visit { len, next } => {
                let piece = vstd::slice::slice_subrange(buffer, 0, len);
                assert(piece@ =~= filled.take(len as int));
                let more = v.visit(piece);
                proof {
                    let e = LoadEvent { offset: at.offset, index, source, reply, prior, filled, more };
                    lemma_push_load(offset, buf_len, index, source, start, prev, e);
                    trace = prev.push(e);
                    assert(piece_of(offset, buf_len, trace, n as nat) =~= seq![filled.take(len as int)]);
                    assert(answer_of(offset, buf_len, trace, n as nat) =~= seq![more]);
                    assert(v.pieces() =~= old(v).pieces() + pieces_of(offset, buf_len, trace, trace.len()));
                    assert(v.answers() =~= old(v).answers() + answers_of(offset, buf_len, trace, trace.len()));
                }
                if !more {
                    assert(is_fetch_record(offset, index, source, trace, Ok(()), start, buffer@, old(v).pieces(), v.pieces(), old(v).answers(), v.answers()));
                    return Ok(());
                }
                match next {
                    Some(c) => {
                        at = c;
                    },
                    None => {
                        assert(is_fetch_record(offset, index, source, trace, Ok(()), start, buffer@, old(v).pieces(), v.pieces(), old(v).answers(), v.answers()));
                        return Ok(());
                    },
                }
            },
            FetchStep::VisitAtLimit { offset: o, len } => {
                let piece = vstd::slice::slice_subrange(buffer, 0, len);
                assert(piece@ =~= filled.take(len as int));
                let more = v.visit(piece);
                let r = if more {
                    Err(FetchError::OffsetOverflow { offset: o, len })
                } else {
                    Ok(())
                };
                proof {
                    let e = LoadEvent { offset: at.offset, index, source, reply, prior, filled, more };
                    lemma_push_load(offset, buf_len, index, source, start, prev, e);
                    trace = prev.push(e);
                    assert(piece_of(offset, buf_len, trace, n as nat) =~= seq![filled.take(len as int)]);
                    assert(answer_of(offset, buf_len, trace, n as nat) =~= seq![more]);
                    assert(v.pieces() =~= old(v).pieces() + pieces_of(offset, buf_len, trace, trace.len()));
                    assert(v.answers() =~= old(v).answers() + answers_of(offset, buf_len, trace, trace.len()));
                    assert(is_fetch_record(offset, index, source, trace, r, start, buffer@, old(v).pieces(), v.pieces(), old(v).answers(), v.answers()));
                }
                return r;
            },
            FetchStep::Fail(e) => {
                let r = Err(FetchError::Sys(e));
                proof {
                    let ev = LoadEvent { offset: at.offset, index, source, reply, prior, filled, more: false };
                    lemma_push_load(offset, buf_len, index, source, start, prev, ev);
                    trace = prev.push(ev);
                    assert(piece_of(offset, buf_len, trace, n as nat) =~= Seq::<Seq<u8>>::empty());
                    assert(answer_of(offset, buf_len, trace, n as nat) =~= Seq::<bool>::empty());
                    assert(is_fetch_record(offset, index, source, trace, r, start, buffer@, old(v).pieces(), v.pieces(), old(v).answers(), v.answers()));
                }
                return r;
            },
            FetchStep::LengthMismatch { offset: o, len, total } => {
                let r = Err(FetchError::LengthMismatch { offset: o, len, total });
                proof {
                    let ev = LoadEvent { offset: at.offset, index, source, reply, prior, filled, more: false };
                    lemma_push_load(offset, buf_len, index, source, start, prev, ev);
                    trace = prev.push(ev);
                    assert(piece_of(offset, buf_len, trace, n as nat) =~= Seq::<Seq<u8>>::empty());
                    assert(answer_of(offset, buf_len, trace, n as nat) =~= Seq::<bool>::empty());
                    assert(is_fetch_record(offset, index, source, trace, r, start, buffer@, old(v).pieces(), v.pieces(), old(v).answers(), v.answers()));
                }
                return r;
            },
        }
    }
    assert(is_fetch_record(offset, index, source, trace, Ok(()), start, buffer@, old(v).pieces(), v.pieces(), old(v).answers(), v.answers()));
    Ok(())
}

/// What CKB answers to a load from `data` at `offset` into a buffer of
/// `buf_len` bytes: the length of the data from `offset` on (nothing past its
/// end), and whether that fit in the buffer.
pub open spec fn cell_reply(data: Seq<u8>, offset: usize, buf_len: usize) -> LoadReply {
    let rest: int = if offset <= data.len() { data.len() - offset } else { 0 };
    if rest <= buf_len {
        LoadReply::Loaded(rest as usize)
    } else {
        LoadReply::Partial(rest as usize)
    }
}

/// Whether a load answered as CKB does for `data`: its answer is
/// [`cell_reply`], and the buffer after it holds the bytes of `data` from the
/// load's offset on, as many as fit, followed by the rest of the buffer as it
/// was before the load.
pub open spec fn answers_as_cell(data: Seq<u8>, buf_len: usize, e: LoadEvent) -> bool {
    let rest: int = if e.offset <= data.len() { data.len() - e.offset } else { 0 };
    let got: int = if rest <= buf_len { rest } else { buf_len as int };
    &&& e.reply == cell_reply(data, e.offset, buf_len)
    &&& e.filled == data.subrange(e.offset as int, e.offset + got) + e.prior.skip(got)
}

/// The `i`-th piece of `data` cut into pieces of `buf_len` bytes: the bytes
/// from `i * buf_len` up to `(i + 1) * buf_len` or the end of the data.
pub open spec fn cell_chunk(data: Seq<u8>, buf_len: usize, i: int) -> Seq<u8> {
    let end: int = if (i + 1) * buf_len <= data.len() { (i + 1) * buf_len } else { data.len() as int };
    data.subrange(i * buf_len, end)
}

/// Where the first `k` steps of a record all visit, the first `k` loads hand
/// the visitor `k` pieces, and the visitor's answers to them are the `more`
/// of those loads.
proof fn lemma_visits_before(offset: usize, buf_len: usize, trace: Seq<LoadEvent>, k: nat)
    requires
        k <= trace.len(),
        forall|i: nat| i < k ==> visits(#[trigger] step_of(offset, buf_len, trace, i)),
    ensures
        pieces_of(offset, buf_len, trace, k).len() == k,
        answers_of(offset, buf_len, trace, k).len() == k,
        forall|i: int| 0 <= i < k ==> #[trigger] answers_of(offset, buf_len, trace, k)[i]
            == trace[i].more,
    decreases k,
{
    if k > 0 {
        let j = (k - 1) as nat;
        lemma_visits_before(offset, buf_len, trace, j);
        assert(visits(step_of(offset, buf_len, trace, j)));
        let prev = answers_of(offset, buf_len, trace, j);
        assert(answers_of(offset, buf_len, trace, k) =~= prev.push(trace[j as int].more));
        assert forall|i: int| 0 <= i < k implies #[trigger] answers_of(offset, buf_len, trace, k)[i]
            == trace[i].more by {
            if i < j {
                assert(prev[i] == trace[i].more);
            }
        }
    }
}

/// After the first `k` loads of a read from the start whose loads answer as
/// CKB does for `data`, the visitor has received the first `k` pieces of the
/// data, the `k`-th load left that piece at the front of the buffer, and the
/// read goes on after them (or is done, at the end of the data).
proof fn lemma_consistent_prefix(
    data: Seq<u8>,
    buf_len: usize,
    trace: Seq<LoadEvent>,
    r: Result<(), FetchError>,
    k: nat,
)
    requires
        buf_len > 0,
        data.len() <= usize::MAX,
        is_fetch_run(0, buf_len, trace, r),
        forall|i: int| 0 <= i < trace.len() ==> #[trigger] answers_as_cell(data, buf_len, trace[i]),
        1 <= k <= trace.len(),
    ensures
        step_of(0, buf_len, trace, (k - 1) as nat) matches FetchStep::Visit { len, next } && {
            let start = (k - 1) * buf_len;
            let end = start + len;
            &&& start < data.len() || k == 1
            &&& trace[k - 1].offset == start
            &&& end == if k * buf_len <= data.len() { k * buf_len } else { data.len() as int }
            &&& trace[k - 1].filled == cell_chunk(data, buf_len, k - 1) + trace[k - 1].prior.skip(
                len as int,
            )
            &&& pieces_of(0, buf_len, trace, k).len() == k
            &&& forall|i: int| 0 <= i < k ==> #[trigger] pieces_of(0, buf_len, trace, k)[i]
                == cell_chunk(data, buf_len, i)
            &&& pieces_of(0, buf_len, trace, k).flatten() == data.subrange(0, end)
            &&& match next {
                Some(c) => c.total == data.len() && c.offset == end,
                None => end == data.len(),
            }
        },
    decreases k,
{
    let t = data.len();
    let b = buf_len as int;
    if k == 1 {
        assert(answers_as_cell(data, buf_len, trace[0]));
        assert(pieces_of(0, buf_len, trace, 0) == Seq::<Seq<u8>>::empty());
        let l: int = if t <= b { t as int } else { b };
        let p = data.subrange(0, l);
        assert(trace[0].filled.take(l) =~= p);
        assert(pieces_of(0, buf_len, trace, 1) =~= seq![p]);
        assert(seq![p].flatten() == p) by {
            seq![p].lemma_flatten_singleton();
        }
        assert(cell_chunk(data, buf_len, 0) == p);
    } else {
        lemma_consistent_prefix(data, buf_len, trace, r, (k - 1) as nat);
        let j = (k - 1) as int;
        assert(load_follows(0, buf_len, trace, j));
        assert(answers_as_cell(data, buf_len, trace[j]));
        let o = trace[j].offset;
        assert(o == (k - 1) * b) by (nonlinear_arith)
            requires
                o == (k - 2) * b + b,
        ;
        assert(k * b == (k - 1) * b + b) by (nonlinear_arith);
        let rest = t - o;
        let l: int = if rest <= b { rest } else { b };
        let p = data.subrange(o as int, o + l);
        assert(trace[j].filled.take(l) =~= p);
        let prev = pieces_of(0, buf_len, trace, (k - 1) as nat);
        assert(pieces_of(0, buf_len, trace, k) =~= prev.push(p));
        prev.lemma_flatten_push(p);
        assert(data.subrange(0, o + l) =~= data.subrange(0, o as int) + p);
        assert(cell_chunk(data, buf_len, j) == p);
        assert forall|i: int| 0 <= i < k implies #[trigger] pieces_of(0, buf_len, trace, k)[i]
            == cell_chunk(data, buf_len, i) by {
            if i < j {
                assert(prev[i] == cell_chunk(data, buf_len, i));
            }
        }
    }
}

/// A read from the start of a cell's data, through a buffer of any nonzero
/// length, whose loads answer as CKB does, returns `Ok(())`. Its `i`-th load
/// hands the visitor the `i`-th `buf_len`-byte piece of the data
/// ([`cell_chunk`]), leaving that piece at the front of the buffer and the
/// buffer's other bytes as they were, and the visitor answers each piece with
/// its load's `more`. When the visitor asked for more after every piece, the
/// pieces are all of the data, in order: one piece for an empty cell, else as
/// many pieces as it takes to cover the data.
pub proof fn law_read_yields_whole_cell(
    data: Seq<u8>,
    buf_len: usize,
    trace: Seq<LoadEvent>,
    r: Result<(), FetchError>,
)
    requires
        buf_len > 0,
        data.len() <= usize::MAX,
        is_fetch_run(0, buf_len, trace, r),
        forall|i: int| 0 <= i < trace.len() ==> #[trigger] answers_as_cell(data, buf_len, trace[i]),
    ensures
        r == Ok::<(), FetchError>(()),
        pieces_of(0, buf_len, trace, trace.len()).len() == trace.len(),
        answers_of(0, buf_len, trace, trace.len()).len() == trace.len(),
        forall|i: int|
            0 <= i < trace.len() ==> #[trigger] pieces_of(0, buf_len, trace, trace.len())[i]
                == cell_chunk(data, buf_len, i),
        forall|i: int|
            0 <= i < trace.len() ==> #[trigger] answers_of(0, buf_len, trace, trace.len())[i]
                == trace[i].more,
        forall|i: int|
            0 <= i < trace.len() ==> #[trigger] trace[i].filled == cell_chunk(data, buf_len, i)
                + trace[i].prior.skip(cell_chunk(data, buf_len, i).len() as int),
        asked_after_every_piece(0, buf_len, trace) ==> {
            &&& pieces_of(0, buf_len, trace, trace.len()).flatten() == data
            &&& data.len() == 0 ==> trace.len() == 1
            &&& data.len() > 0 ==> (trace.len() - 1) * buf_len < data.len() <= trace.len()
                * buf_len
        },
{
    let n = trace.len();
    lemma_consistent_prefix(data, buf_len, trace, r, n);
    assert forall|i: nat| i < n implies visits(#[trigger] step_of(0, buf_len, trace, i)) by {
        lemma_consistent_prefix(data, buf_len, trace, r, i + 1);
    }
    assert forall|i: int| 0 <= i < n implies #[trigger] trace[i].filled == cell_chunk(
        data,
        buf_len,
        i,
    ) + trace[i].prior.skip(cell_chunk(data, buf_len, i).len() as int) by {
        lemma_consistent_prefix(data, buf_len, trace, r, (i + 1) as nat);
    }
    lemma_visits_before(0, buf_len, trace, n);
    if asked_after_every_piece(0, buf_len, trace) {
        assert(answers_of(0, buf_len, trace, n)[n - 1]);
        assert(trace[n - 1].more);
        assert(data.subrange(0, data.len() as int) =~= data);
        if data.len() == 0 && n > 1 {
            assert(false);
        }
    }
}

/// Every piece that a step hands the visitor fits in the buffer, whenever the
/// load answered as ckb-std does (a length that fit is at most the buffer's).
pub proof fn law_pieces_fit_buffer(offset: usize, at: FetchCursor, buf_len: usize, reply: LoadReply)
    requires
        reply matches LoadReply::Loaded(n) ==> n <= buf_len,
    ensures
        first_step_spec(offset, buf_len, reply) matches FetchStep::Visit { len, .. } ==> len
            <= buf_len,
        first_step_spec(offset, buf_len, reply) matches FetchStep::VisitAtLimit { len, .. } ==> len
            <= buf_len,
        next_step_spec(at, buf_len, reply) matches FetchStep::Visit { len, .. } ==> len
            <= buf_len,
        next_step_spec(at, buf_len, reply) matches FetchStep::VisitAtLimit { len, .. } ==> len
            <= buf_len,
{
}

/// Each later step that goes on moves the cursor forward and keeps its
/// total, so a read through a nonempty buffer always ends.
pub proof fn law_steps_advance(at: FetchCursor, buf_len: usize, reply: LoadReply)
    requires
        at.offset < at.total,
        buf_len > 0,
    ensures
        next_step_spec(at, buf_len, reply) matches FetchStep::Visit { next: Some(c), .. } ==> at.offset
            < c.offset && c.total == at.total,
{
}

/// A read ends at the first load that fails or reports a mismatched length,
/// and at the first piece that the visitor declines: every load but the last
/// handed a piece that the visitor took and asked more after, the visitor
/// answered each piece it received once, and it asked for more after every
/// piece but the last. So a visitor that declines every piece receives at
/// most one.
pub proof fn law_read_stops_at_first_refusal(
    offset: usize,
    buf_len: usize,
    trace: Seq<LoadEvent>,
    r: Result<(), FetchError>,
)
    requires
        is_fetch_run(offset, buf_len, trace, r),
    ensures
        forall|i: int| 0 <= i < trace.len() - 1 ==> (#[trigger] trace[i]).more,
        forall|i: nat| i < trace.len() - 1 ==> #[trigger] step_of(offset, buf_len, trace, i) is Visit,
        pieces_of(offset, buf_len, trace, trace.len()).len() == answers_of(
            offset,
            buf_len,
            trace,
            trace.len(),
        ).len(),
        forall|i: int|
            0 <= i < answers_of(offset, buf_len, trace, trace.len()).len() - 1
                ==> #[trigger] answers_of(offset, buf_len, trace, trace.len())[i],
{
    let n = trace.len();
    let j = (n - 1) as nat;
    assert forall|i: int| 0 <= i < n - 1 implies (#[trigger] trace[i]).more by {
        assert(load_follows(offset, buf_len, trace, i + 1));
    }
    assert forall|i: nat| i < n - 1 implies #[trigger] step_of(offset, buf_len, trace, i) is Visit by {
        assert(load_follows(offset, buf_len, trace, i + 1 as int));
    }
    assert forall|i: nat| i < j implies visits(#[trigger] step_of(offset, buf_len, trace, i)) by {
        assert(step_of(offset, buf_len, trace, i) is Visit);
    }
    lemma_visits_before(offset, buf_len, trace, j);
    let prev = answers_of(offset, buf_len, trace, j);
    assert forall|i: int|
        0 <= i < answers_of(offset, buf_len, trace, n).len() - 1 implies #[trigger] answers_of(
        offset,
        buf_len,
        trace,
        n,
    )[i] by {
        assert(answers_of(offset, buf_len, trace, n) == prev + answer_of(offset, buf_len, trace, j));
        assert(prev[i] == trace[i].more);
        assert(trace[i].more);
    }
}

} // verus!
