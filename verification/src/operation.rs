//! Device operations as resumable state machines.
//!
//! A driver method does not touch a bus itself. It lays out a [`Plan`], a queue
//! of pin changes, delays, SPI writes, BUSY polls and cancellation points, and
//! hands it over as an [`Operation`]. The caller performs the operation's
//! current [`Action`] on the real peripherals, blocking or awaiting, and answers
//! with a [`Reply`]; the operation decides what comes next and how it ends.
use crate::script::{chunks, inverted_parts, writes, INVERT_CHUNK};
use std::collections::VecDeque;
use vstd::prelude::*;
use vstd::slice::slice_subrange;

verus! {

/// Error type returned by the operations that bound their BUSY waits.
///
/// `Spi(E)` carries the underlying SPI error; `BusyTimeout` says that BUSY
/// stayed asserted past the cap of the call.
#[derive(Debug)]
pub enum BusyTimeoutError<E> {
    /// Underlying SPI bus error.
    Spi(E),
    /// BUSY stayed asserted past the per-call cap.
    BusyTimeout,
}

impl<E> vstd::std_specs::convert::FromSpecImpl<E> for BusyTimeoutError<E> {
    open spec fn obeys_from_spec() -> bool {
        true
    }

    open spec fn from_spec(err: E) -> Self {
        BusyTimeoutError::Spi(err)
    }
}

impl<E> From<E> for BusyTimeoutError<E> {
    fn from(err: E) -> (r: Self) {
        BusyTimeoutError::Spi(err)
    }
}

/// How an operation that did not fail came to its end.
///
/// Cancellation is cooperative: the operation asks the caller's hook at every
/// cancellable BUSY poll and at every cancellation point, and stops at the first
/// `true`. A caller that sees `Cancelled` from an operation that had already
/// triggered a refresh must treat the panel as mid-refresh and hard-reset it.
#[derive(Debug, Clone, Copy, PartialEq, Eq, Structural)]
pub enum RefreshOutcome {
    /// The operation ran to completion.
    Completed,
    /// The caller's cancel hook fired; the operation stopped at a known boundary.
    Cancelled,
}

/// A loop that polls the BUSY pin until the panel reports idle.
#[derive(Debug, Clone, Copy, PartialEq, Eq, Structural)]
pub struct BusyWait {
    /// Address of the command sent before every poll, if the panel needs one.
    pub status_command: Option<u8>,
    /// Whether a low level on BUSY means busy.
    pub is_busy_low: bool,
    /// Pause before the next poll in microseconds; none if zero.
    pub delay_us: u32,
    /// How many busy polls are followed by another one; no limit if `None`.
    pub max_polls: Option<u32>,
    /// Whether the cancel hook is asked at every busy poll.
    pub cancellable: bool,
}

impl BusyWait {
    /// Whether the panel is busy, given the pin's answer to the level question
    /// of this loop. A failed pin read (`None`) counts as idle.
    pub fn is_busy(&self, answer: Option<bool>) -> (r: bool)
        ensures
            r == (answer == Some(true)),
    {
        match answer {
            Some(asserted) => asserted,
            None => false,
        }
    }
}

/// How many busy polls fit into the time cap, one poll period each. A period of
/// zero counts as one microsecond.
pub open spec fn poll_limit(delay_us: u32, timeout_us: u32) -> u32 {
    timeout_us / (if delay_us == 0 {
        1
    } else {
        delay_us
    })
}

/// The wait loop with the given status command, BUSY polarity and poll period,
/// bounded by a time cap in microseconds if there is one.
pub open spec fn busy_wait(
    status_command: Option<u8>,
    is_busy_low: bool,
    delay_us: u32,
    timeout_us: Option<u32>,
    cancellable: bool,
) -> BusyWait {
    BusyWait {
        status_command,
        is_busy_low,
        delay_us,
        max_polls: match timeout_us {
            Some(cap) => Some(poll_limit(delay_us, cap)),
            None => None,
        },
        cancellable,
    }
}

/// The bitwise complement of every byte.
pub open spec fn inverted(bytes: Seq<u8>) -> Seq<u8> {
    Seq::new(bytes.len(), |i: int| !bytes[i])
}

/// Up to `N` bytes, held in place.
#[derive(Debug, Clone, Copy)]
pub struct Inline<const N: usize> {
    bytes: [u8; N],
    len: usize,
}

impl<const N: usize> View for Inline<N> {
    type V = Seq<u8>;

    closed spec fn view(&self) -> Seq<u8> {
        self.bytes@.take(self.len as int)
    }
}

impl<const N: usize> Inline<N> {
    #[verifier::type_invariant]
    spec fn fits(self) -> bool {
        self.len <= N
    }

    /// A copy of the bytes.
    pub fn copied(source: &[u8]) -> (r: Self)
        requires
            source@.len() <= N,
        ensures
            r@ == source@,
    {
        let mut bytes = [0u8; N];
        let mut i: usize = 0;
        while i < source.len()
            invariant
                i <= source.len() <= N,
                bytes@.take(i as int) == source@.take(i as int),
            decreases source.len() - i,
        {
            bytes[i] = source[i];
            i = i + 1;
            proof {
                assert(bytes@.take(i as int) =~= source@.take(i as int));
            }
        }
        assert(source@.take(i as int) =~= source@);
        Inline { bytes, len: source.len() }
    }

    /// The bitwise complement of the bytes.
    pub fn inverted(source: &[u8]) -> (r: Self)
        requires
            source@.len() <= N,
        ensures
            r@ == inverted(source@),
    {
        let mut bytes = [0u8; N];
        let mut i: usize = 0;
        while i < source.len()
            invariant
                i <= source.len() <= N,
                bytes@.take(i as int) == inverted(source@).take(i as int),
            decreases source.len() - i,
        {
            bytes[i] = !source[i];
            i = i + 1;
            proof {
                assert(bytes@.take(i as int) =~= inverted(source@).take(i as int));
            }
        }
        assert(inverted(source@).take(i as int) =~= inverted(source@));
        Inline { bytes, len: source.len() }
    }

    /// Number of bytes.
    pub fn len(&self) -> (n: usize)
        ensures
            n == self@.len(),
    {
        proof {
            use_type_invariant(self);
        }
        self.len
    }

    /// The bytes as a slice.
    pub fn as_slice(&self) -> (s: &[u8])
        ensures
            s@ == self@,
            s@.len() <= N,
    {
        proof {
            use_type_invariant(self);
        }
        slice_subrange(self.bytes.as_slice(), 0, self.len)
    }
}

/// Most bytes that the driver makes up for a write: the length of a look-up table.
pub const SHORT_LEN: usize = 42;

/// Bytes for one or more SPI writes.
#[derive(Debug, Clone, Copy)]
pub enum Bytes<'a> {
    /// A part of the caller's buffer.
    Borrowed(&'a [u8]),
    /// A few bytes made for this write.
    Short(Inline<SHORT_LEN>),
}

impl<'a> View for Bytes<'a> {
    type V = Seq<u8>;

    open spec fn view(&self) -> Seq<u8> {
        match self {
            Bytes::Borrowed(s) => s@,
            Bytes::Short(few) => few@,
        }
    }
}

impl<'a> Bytes<'a> {
    /// A copy of a few bytes.
    pub fn short(source: &[u8]) -> (r: Self)
        requires
            source@.len() <= SHORT_LEN,
        ensures
            r@ == source@,
    {
        Bytes::Short(Inline::copied(source))
    }

    /// Number of bytes.
    pub fn len(&self) -> (n: usize)
        ensures
            n == self@.len(),
    {
        match self {
            Bytes::Borrowed(s) => s.len(),
            Bytes::Short(few) => few.len(),
        }
    }

    /// The bytes as a slice.
    pub fn as_slice(&self) -> (s: &[u8])
        ensures
            s@ == self@,
    {
        match self {
            Bytes::Borrowed(s) => s,
            Bytes::Short(few) => few.as_slice(),
        }
    }

    /// The bytes from `i` up to but not including `j`.
    pub fn part(&self, i: usize, j: usize) -> (p: Bytes<'a>)
        requires
            i <= j <= self@.len(),
        ensures
            p@ == self@.subrange(i as int, j as int),
    {
        match self {
            Bytes::Borrowed(s) => Bytes::Borrowed(slice_subrange(*s, i, j)),
            Bytes::Short(few) => {
                let whole = few.as_slice();
                Bytes::short(slice_subrange(whole, i, j))
            },
        }
    }
}

// ---------------------------------------------------------------------------
// The mathematical model

/// What an operation asks of the outside world.
pub ghost enum Signal {
    /// Drive the data/command pin: high (`true`) for data, low for a command.
    Dc(bool),
    /// Drive the reset pin.
    Rst(bool),
    /// Sleep for microseconds.
    DelayUs(u32),
    /// Sleep for milliseconds.
    DelayMs(u32),
    /// One SPI write transaction.
    Write(Seq<u8>),
    /// Ask the BUSY pin whether it is low (`true`) or whether it is high.
    ReadBusy(bool),
    /// Ask the caller's cancel hook.
    AskCancel,
}

/// One entry of a planned operation.
pub ghost enum Op {
    Dc(bool),
    Rst(bool),
    DelayUs(u32),
    DelayMs(u32),
    Write(Seq<u8>),
    /// Ask the cancel hook and stop if it fires.
    CancelPoint,
    /// Read BUSY in a wait loop that has polled busy this many times before.
    Poll(BusyWait, u32),
    /// The same loop, BUSY read as asserted: ask the cancel hook.
    Hook(BusyWait, u32),
}

/// Where an operation stands: what is left to do, or how it ended.
pub ghost enum State<E> {
    /// Some entries are left; the first one is waiting for its reply.
    Running(Seq<Op>),
    Ended(Result<RefreshOutcome, BusyTimeoutError<E>>),
}

/// The state of an operation that has `ops` left to do.
pub open spec fn start<E>(ops: Seq<Op>) -> State<E> {
    if ops.len() == 0 {
        State::Ended(Ok(RefreshOutcome::Completed))
    } else {
        State::Running(ops)
    }
}

/// What the entry asks for while it stands first.
pub open spec fn signal(op: Op) -> Signal {
    match op {
        Op::Dc(high) => Signal::Dc(high),
        Op::Rst(high) => Signal::Rst(high),
        Op::DelayUs(us) => Signal::DelayUs(us),
        Op::DelayMs(ms) => Signal::DelayMs(ms),
        Op::Write(bytes) => Signal::Write(bytes),
        Op::CancelPoint => Signal::AskCancel,
        Op::Poll(wait, _) => Signal::ReadBusy(wait.is_busy_low),
        Op::Hook(_, _) => Signal::AskCancel,
    }
}

/// Whether a reply is of the kind that the entry is waiting for.
pub open spec fn answers<E>(op: Op, reply: Reply<E>) -> bool {
    match op {
        Op::Write(_) => reply is Written,
        Op::Poll(_, _) => reply is Busy,
        Op::CancelPoint => reply is Cancel,
        Op::Hook(_, _) => reply is Cancel,
        _ => reply is Done,
    }
}

/// A command byte, with the data/command pin low.
pub open spec fn command_ops(address: u8) -> Seq<Op> {
    seq![Op::Dc(false), Op::Write(seq![address])]
}

/// The status command of a wait loop, if it has one.
pub open spec fn status_ops(wait: BusyWait) -> Seq<Op> {
    match wait.status_command {
        Some(address) => command_ops(address),
        None => Seq::empty(),
    }
}

/// The pause of a wait loop, if it has one.
pub open spec fn pause_ops(wait: BusyWait) -> Seq<Op> {
    if wait.delay_us > 0 {
        seq![Op::DelayUs(wait.delay_us)]
    } else {
        Seq::empty()
    }
}

/// What a wait loop does before each poll: the status command, then the pause.
pub open spec fn probe_ops(wait: BusyWait) -> Seq<Op> {
    status_ops(wait) + pause_ops(wait)
}

/// The next poll of a wait loop. Polls are counted where they are limited.
pub open spec fn next_poll(wait: BusyWait, polls: u32) -> Op {
    Op::Poll(
        wait,
        if wait.max_polls is Some {
            (polls + 1) as u32
        } else {
            polls
        },
    )
}

/// The next round of a wait loop: once more the status command and the pause,
/// then a poll.
pub open spec fn round_ops(wait: BusyWait, polls: u32) -> Seq<Op> {
    probe_ops(wait) + seq![next_poll(wait, polls)]
}

/// A wait loop after it has seen the panel busy and was not cancelled: out of
/// polls, or on to the next round.
pub open spec fn busy_again<E>(wait: BusyWait, polls: u32, rest: Seq<Op>) -> State<E> {
    if wait.max_polls is Some && polls >= wait.max_polls->0 {
        State::Ended(Err(BusyTimeoutError::BusyTimeout))
    } else {
        State::Running(round_ops(wait, polls) + rest)
    }
}

/// The state that follows a reply. A reply that does not answer the pending
/// entry, or comes after the end, changes nothing.
pub open spec fn after<E>(state: State<E>, reply: Reply<E>) -> State<E> {
    match state {
        State::Ended(_) => state,
        State::Running(ops) => {
            let rest = ops.drop_first();
            match (ops[0], reply) {
                (Op::Dc(_), Reply::Done) => start(rest),
                (Op::Rst(_), Reply::Done) => start(rest),
                (Op::DelayUs(_), Reply::Done) => start(rest),
                (Op::DelayMs(_), Reply::Done) => start(rest),
                (Op::Write(_), Reply::Written(Ok(_))) => start(rest),
                (Op::Write(_), Reply::Written(Err(e))) => State::Ended(
                    Err(BusyTimeoutError::Spi(e)),
                ),
                (Op::CancelPoint, Reply::Cancel(false)) => start(rest),
                (Op::CancelPoint, Reply::Cancel(true)) => State::Ended(
                    Ok(RefreshOutcome::Cancelled),
                ),
                (Op::Poll(wait, polls), Reply::Busy(answer)) => if answer != Some(true) {
                    start(rest)
                } else if wait.cancellable {
                    State::Running(seq![Op::Hook(wait, polls)] + rest)
                } else {
                    busy_again(wait, polls, rest)
                },
                (Op::Hook(wait, polls), Reply::Cancel(false)) => busy_again(wait, polls, rest),
                (Op::Hook(_, _), Reply::Cancel(true)) => State::Ended(
                    Ok(RefreshOutcome::Cancelled),
                ),
                _ => state,
            }
        },
    }
}

// ---------------------------------------------------------------------------
// Actions and replies

/// What the caller is to do next.
#[derive(Debug)]
pub enum Action<'b> {
    /// Drive the data/command pin high (`true`) or low. A pin error is ignored.
    SetDc(bool),
    /// Drive the reset pin high (`true`) or low. A pin error is ignored.
    SetRst(bool),
    /// Sleep for this many microseconds.
    DelayUs(u32),
    /// Sleep for this many milliseconds.
    DelayMs(u32),
    /// Write the bytes to the SPI device in one transaction.
    Write(&'b [u8]),
    /// The same with bytes that are handed over in a chunk.
    WriteChunk(Inline<INVERT_CHUNK>),
    /// Ask the BUSY pin whether it is low.
    IsBusyPinLow,
    /// Ask the BUSY pin whether it is high.
    IsBusyPinHigh,
    /// Ask the cancel hook.
    ShouldCancel,
}

impl<'b> View for Action<'b> {
    type V = Signal;

    open spec fn view(&self) -> Signal {
        match self {
            Action::SetDc(high) => Signal::Dc(*high),
            Action::SetRst(high) => Signal::Rst(*high),
            Action::DelayUs(us) => Signal::DelayUs(*us),
            Action::DelayMs(ms) => Signal::DelayMs(*ms),
            Action::Write(bytes) => Signal::Write(bytes@),
            Action::WriteChunk(chunk) => Signal::Write(chunk@),
            Action::IsBusyPinLow => Signal::ReadBusy(true),
            Action::IsBusyPinHigh => Signal::ReadBusy(false),
            Action::ShouldCancel => Signal::AskCancel,
        }
    }
}

/// What became of the pending action.
#[derive(Debug)]
pub enum Reply<E> {
    /// The pin was driven or the time has passed.
    Done,
    /// The result of the SPI write.
    Written(Result<(), E>),
    /// The BUSY pin's answer; `None` if the pin could not be read.
    Busy(Option<bool>),
    /// What the cancel hook returned.
    Cancel(bool),
}

// ---------------------------------------------------------------------------
// Plans

/// `times` writes of one single byte.
pub open spec fn fill_ops(val: u8, times: nat) -> Seq<Op> {
    Seq::new(times, |i: int| Op::Write(seq![val]))
}

/// The writes of the complement, in chunks; one empty write if there are no bytes.
spec fn inverted_writes(bytes: Seq<u8>) -> Seq<Op>
    decreases bytes.len(),
{
    if bytes.len() <= INVERT_CHUNK {
        seq![Op::Write(inverted(bytes))]
    } else {
        seq![Op::Write(inverted(bytes.take(INVERT_CHUNK as int)))] + inverted_writes(
            bytes.skip(INVERT_CHUNK as int),
        )
    }
}

proof fn lemma_inverted_writes(bytes: Seq<u8>)
    requires
        bytes.len() > 0,
    ensures
        inverted_writes(bytes) == writes(inverted_parts(bytes)),
    decreases bytes.len(),
{
    let flip = |part: Seq<u8>| inverted(part);
    let n = INVERT_CHUNK as nat;
    if bytes.len() <= INVERT_CHUNK {
        assert(writes(inverted_parts(bytes)) =~= seq![Op::Write(inverted(bytes))]);
    } else {
        let rest = bytes.skip(n as int);
        lemma_inverted_writes(rest);
        assert(chunks(bytes, n) == seq![bytes.take(n as int)] + chunks(rest, n));
        assert(writes(inverted_parts(bytes)) =~= seq![Op::Write(inverted(bytes.take(n as int)))]
            + writes(inverted_parts(rest)));
    }
}

/// One entry of the queue. It stands for one `Op`, `Fill` and `Inverted` for several.
enum Step<'a> {
    Dc(bool),
    Rst(bool),
    DelayUs(u32),
    DelayMs(u32),
    Write(Bytes<'a>),
    /// The complement of the bytes, a chunk at a time.
    Inverted(&'a [u8]),
    /// One write of a single byte, and as many more of the same.
    Fill([u8; 1], u32),
    CancelPoint,
    Poll(BusyWait, u32),
    Hook(BusyWait, u32),
}

impl<'a> Step<'a> {
    spec fn ops(self) -> Seq<Op> {
        match self {
            Step::Dc(high) => seq![Op::Dc(high)],
            Step::Rst(high) => seq![Op::Rst(high)],
            Step::DelayUs(us) => seq![Op::DelayUs(us)],
            Step::DelayMs(ms) => seq![Op::DelayMs(ms)],
            Step::Write(bytes) => seq![Op::Write(bytes@)],
            Step::Inverted(bytes) => inverted_writes(bytes@),
            Step::Fill(val, more) => fill_ops(val@[0], more as nat + 1),
            Step::CancelPoint => seq![Op::CancelPoint],
            Step::Poll(wait, polls) => seq![Op::Poll(wait, polls)],
            Step::Hook(wait, polls) => seq![Op::Hook(wait, polls)],
        }
    }
}

/// The entries that a queue stands for.
spec fn queue_ops(steps: Seq<Step>) -> Seq<Op>
    decreases steps.len(),
{
    if steps.len() == 0 {
        Seq::empty()
    } else {
        steps[0].ops() + queue_ops(steps.drop_first())
    }
}

proof fn lemma_queue_push(steps: Seq<Step>, step: Step)
    ensures
        queue_ops(steps.push(step)) == queue_ops(steps) + step.ops(),
    decreases steps.len(),
{
    if steps.len() == 0 {
        assert(steps.push(step).drop_first() =~= Seq::empty());
        assert(queue_ops(steps.push(step).drop_first()) =~= Seq::empty());
        assert(queue_ops(steps.push(step)) =~= step.ops());
        assert(queue_ops(steps) + step.ops() =~= step.ops());
    } else {
        assert(steps.push(step).drop_first() =~= steps.drop_first().push(step));
        lemma_queue_push(steps.drop_first(), step);
        assert(queue_ops(steps.push(step)) =~= queue_ops(steps) + step.ops());
    }
}

proof fn lemma_queue_push_front(steps: Seq<Step>, step: Step)
    ensures
        queue_ops(seq![step] + steps) == step.ops() + queue_ops(steps),
{
    assert((seq![step] + steps).drop_first() =~= steps);
}

/// A queue of device actions under construction.
pub struct Plan<'a> {
    steps: VecDeque<Step<'a>>,
}

impl<'a> View for Plan<'a> {
    type V = Seq<Op>;

    closed spec fn view(&self) -> Seq<Op> {
        queue_ops(self.steps@)
    }
}

impl<'a> Plan<'a> {
    /// The empty plan.
    pub fn new() -> (plan: Self)
        ensures
            plan@ == Seq::<Op>::empty(),
    {
        Plan { steps: VecDeque::new() }
    }

    fn add(&mut self, step: Step<'a>)
        ensures
            final(self)@ == old(self)@ + step.ops(),
    {
        proof {
            lemma_queue_push(self.steps@, step);
        }
        self.steps.push_back(step);
    }

    /// Drives the data/command pin high (`true`) or low.
    pub fn set_dc(&mut self, high: bool)
        ensures
            final(self)@ == old(self)@.push(Op::Dc(high)),
    {
        self.add(Step::Dc(high));
    }

    /// Drives the reset pin high (`true`) or low.
    pub fn set_rst(&mut self, high: bool)
        ensures
            final(self)@ == old(self)@.push(Op::Rst(high)),
    {
        self.add(Step::Rst(high));
    }

    /// Sleeps for microseconds.
    pub fn delay_us(&mut self, us: u32)
        ensures
            final(self)@ == old(self)@.push(Op::DelayUs(us)),
    {
        self.add(Step::DelayUs(us));
    }

    /// Sleeps for milliseconds.
    pub fn delay_ms(&mut self, ms: u32)
        ensures
            final(self)@ == old(self)@.push(Op::DelayMs(ms)),
    {
        self.add(Step::DelayMs(ms));
    }

    /// Writes the bytes in one SPI transaction.
    pub fn write(&mut self, bytes: Bytes<'a>)
        ensures
            final(self)@ == old(self)@.push(Op::Write(bytes@)),
    {
        self.add(Step::Write(bytes));
    }

    /// Writes the complement of the bytes in chunks. Each chunk is made in place when
    /// its write is due.
    pub fn write_inverted(&mut self, bytes: &'a [u8])
        ensures
            final(self)@ == old(self)@ + writes(inverted_parts(bytes@)),
    {
        if bytes.len() > 0 {
            proof {
                lemma_inverted_writes(bytes@);
            }
            self.add(Step::Inverted(bytes));
        } else {
            assert(self@ + writes(inverted_parts(bytes@)) =~= self@);
        }
    }

    /// Writes one single byte, `times` times over.
    pub fn write_times(&mut self, val: u8, times: u32)
        ensures
            final(self)@ == old(self)@ + fill_ops(val, times as nat),
    {
        if times > 0 {
            self.add(Step::Fill([val], times - 1));
        } else {
            assert(self@ + fill_ops(val, 0) =~= self@);
        }
    }

    /// Asks the cancel hook and stops if it fires.
    pub fn cancel_point(&mut self)
        ensures
            final(self)@ == old(self)@.push(Op::CancelPoint),
    {
        self.add(Step::CancelPoint);
    }

    /// Polls BUSY in a wait loop until the panel is idle.
    pub fn poll(&mut self, wait: BusyWait)
        ensures
            final(self)@ == old(self)@.push(Op::Poll(wait, 0)),
    {
        self.add(Step::Poll(wait, 0));
    }

    /// Turns the plan into an operation that is ready to run.
    pub fn into_operation<E>(self) -> (op: Operation<'a, E>)
        ensures
            op@ == start::<E>(self@),
    {
        Operation { steps: self.steps, stopped: None }
    }
}

// ---------------------------------------------------------------------------
// Operations

/// A device operation in progress.
pub struct Operation<'a, E> {
    steps: VecDeque<Step<'a>>,
    stopped: Option<Result<RefreshOutcome, BusyTimeoutError<E>>>,
}

impl<'a, E> View for Operation<'a, E> {
    type V = State<E>;

    closed spec fn view(&self) -> State<E> {
        match self.stopped {
            Some(result) => State::Ended(result),
            None => start(queue_ops(self.steps@)),
        }
    }
}

impl<'a, E> Operation<'a, E> {
    /// What is to be done next; `None` once the operation has ended.
    pub fn action<'b>(&'b self) -> (action: Option<Action<'b>>)
        ensures
            match self@ {
                State::Running(ops) => action is Some && action->0@ == signal(ops[0]),
                State::Ended(_) => action is None,
            },
    {
        if self.stopped.is_some() || self.steps.len() == 0 {
            return None;
        }
        let action = match &self.steps[0] {
            Step::Dc(high) => Action::SetDc(*high),
            Step::Rst(high) => Action::SetRst(*high),
            Step::DelayUs(us) => Action::DelayUs(*us),
            Step::DelayMs(ms) => Action::DelayMs(*ms),
            Step::Write(bytes) => Action::Write(bytes.as_slice()),
            Step::Inverted(bytes) => {
                let end: usize = if bytes.len() <= INVERT_CHUNK {
                    bytes.len()
                } else {
                    INVERT_CHUNK
                };
                let source = slice_subrange(*bytes, 0, end);
                assert(bytes@.len() <= INVERT_CHUNK ==> source@ =~= bytes@);
                assert(source@ =~= bytes@.take(end as int));
                Action::WriteChunk(Inline::inverted(source))
            },
            Step::Fill(val, _) => {
                assert(val@ =~= seq![val@[0]]);
                Action::Write(val.as_slice())
            },
            Step::CancelPoint => Action::ShouldCancel,
            Step::Poll(wait, _) => if wait.is_busy_low {
                Action::IsBusyPinLow
            } else {
                Action::IsBusyPinHigh
            },
            Step::Hook(_, _) => Action::ShouldCancel,
        };
        Some(action)
    }

    /// Takes the reply to the pending action and moves on.
    ///
    /// A reply that does not answer the pending action is ignored, and so is
    /// every reply after the end.
    pub fn resume(&mut self, reply: Reply<E>)
        ensures
            final(self)@ == after(old(self)@, reply),
    {
        if self.stopped.is_some() {
            return;
        }
        let ghost steps = self.steps@;
        match self.steps.pop_front() {
            None => {},
            Some(step) => {
                proof {
                    assert(self.steps@ =~= steps.drop_first());
                    assert(queue_ops(steps) == step.ops() + queue_ops(self.steps@));
                    assert(step.ops().len() > 0);
                    assert(step.ops().len() == 1 ==> queue_ops(steps).drop_first() =~= queue_ops(
                        self.steps@,
                    ));
                }
                match (step, reply) {
                    (Step::Dc(_), Reply::Done) => {},
                    (Step::Rst(_), Reply::Done) => {},
                    (Step::DelayUs(_), Reply::Done) => {},
                    (Step::DelayMs(_), Reply::Done) => {},
                    (Step::Write(_), Reply::Written(result)) => self.after_write(result),
                    (Step::Inverted(bytes), Reply::Written(result)) => {
                        if bytes.len() > INVERT_CHUNK {
                            let rest = slice_subrange(bytes, INVERT_CHUNK, bytes.len());
                            proof {
                                assert(rest@ =~= bytes@.skip(INVERT_CHUNK as int));
                                lemma_queue_push_front(self.steps@, Step::Inverted(rest));
                                assert(queue_ops(steps).drop_first() =~= inverted_writes(rest@)
                                    + queue_ops(self.steps@));
                            }
                            self.steps.push_front(Step::Inverted(rest));
                        }
                        self.after_write(result);
                    },
                    (Step::Fill(val, more), Reply::Written(result)) => {
                        if more > 0 {
                            proof {
                                let left = Step::Fill(val, (more - 1) as u32);
                                lemma_queue_push_front(self.steps@, left);
                                assert(queue_ops(steps).drop_first() =~= fill_ops(
                                    val@[0],
                                    more as nat,
                                ) + queue_ops(self.steps@));
                            }
                            self.steps.push_front(Step::Fill(val, more - 1));
                        }
                        self.after_write(result);
                    },
                    (Step::CancelPoint, Reply::Cancel(cancel)) => {
                        if cancel {
                            self.stop(Ok(RefreshOutcome::Cancelled));
                        }
                    },
                    (Step::Poll(wait, polls), Reply::Busy(answer)) => {
                        if wait.is_busy(answer) {
                            if wait.cancellable {
                                self.put_back(Step::Hook(wait, polls));
                            } else {
                                self.poll_again(wait, polls);
                            }
                        }
                    },
                    (Step::Hook(wait, polls), Reply::Cancel(cancel)) => {
                        if cancel {
                            self.stop(Ok(RefreshOutcome::Cancelled));
                        } else {
                            self.poll_again(wait, polls);
                        }
                    },
                    (step, _) => {
                        proof {
                            assert(seq![step] + self.steps@ =~= steps);
                        }
                        self.steps.push_front(step);
                    },
                }
            },
        }
    }

    /// Puts a step in front of what is left.
    fn put_back(&mut self, step: Step<'a>)
        requires
            old(self).stopped is None,
        ensures
            final(self).stopped is None,
            queue_ops(final(self).steps@) == step.ops() + queue_ops(old(self).steps@),
    {
        proof {
            lemma_queue_push_front(self.steps@, step);
        }
        self.steps.push_front(step);
    }

    /// Ends the operation.
    fn stop(&mut self, result: Result<RefreshOutcome, BusyTimeoutError<E>>)
        ensures
            final(self)@ == State::Ended(result),
    {
        self.steps.clear();
        self.stopped = Some(result);
    }

    /// Ends the operation if a write has failed.
    fn after_write(&mut self, result: Result<(), E>)
        requires
            old(self).stopped is None,
        ensures
            final(self)@ == match result {
                Ok(_) => start::<E>(queue_ops(old(self).steps@)),
                Err(e) => State::Ended(Err(BusyTimeoutError::Spi(e))),
            },
    {
        match result {
            Ok(_) => {},
            Err(e) => self.stop(Err(BusyTimeoutError::from(e))),
        }
    }

    /// Goes on with a wait loop that has found the panel busy, or gives up.
    fn poll_again(&mut self, wait: BusyWait, polls: u32)
        requires
            old(self).stopped is None,
        ensures
            final(self)@ == busy_again::<E>(wait, polls, queue_ops(old(self).steps@)),
    {
        let ghost rest = queue_ops(self.steps@);
        let next: u32 = match wait.max_polls {
            Some(max) => {
                if polls >= max {
                    self.stop(Err(BusyTimeoutError::BusyTimeout));
                    return;
                }
                polls + 1
            },
            None => polls,
        };
        self.put_back(Step::Poll(wait, next));
        if wait.delay_us > 0 {
            self.put_back(Step::DelayUs(wait.delay_us));
        }
        if let Some(address) = wait.status_command {
            let one = [address];
            assert(one@ =~= seq![address]);
            self.put_back(Step::Write(Bytes::short(&one)));
            self.put_back(Step::Dc(false));
        }
        proof {
            assert(queue_ops(self.steps@) =~= round_ops(wait, polls) + rest);
        }
    }

    /// The result, once the operation has ended; `None` while it is running.
    pub fn into_result(self) -> (result: Option<Result<RefreshOutcome, BusyTimeoutError<E>>>)
        ensures
            result == match self@ {
                State::Running(_) => None,
                State::Ended(result) => Some(result),
            },
    {
        match self.stopped {
            Some(result) => Some(result),
            None => if self.steps.len() == 0 {
                Some(Ok(RefreshOutcome::Completed))
            } else {
                None
            },
        }
    }
}

} // verus!
