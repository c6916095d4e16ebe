//! Whole runs of an operation: what it has asked for, and where it stands, after
//! a sequence of replies. The laws here hold of every operation.
use crate::operation::{
    after, answers, busy_again, round_ops, signal, start, BusyTimeoutError, BusyWait, Op,
    RefreshOutcome, Reply, Signal, State,
};
use vstd::prelude::*;

verus! {

/// The course of an operation.
pub ghost struct Run<E> {
    /// The actions that were asked for and answered.
    pub signals: Seq<Signal>,
    /// The state at the end of the replies.
    pub end: State<E>,
}

/// Runs an operation on a sequence of replies.
pub open spec fn run<E>(state: State<E>, replies: Seq<Reply<E>>) -> Run<E>
    decreases replies.len(),
{
    match state {
        State::Ended(_) => Run { signals: Seq::empty(), end: state },
        State::Running(ops) => if replies.len() == 0 {
            Run { signals: Seq::empty(), end: state }
        } else {
            let rest = run(after(state, replies[0]), replies.drop_first());
            if answers(ops[0], replies[0]) {
                Run { signals: seq![signal(ops[0])] + rest.signals, end: rest.end }
            } else {
                rest
            }
        },
    }
}

/// An action that was asked for and answered.
pub ghost struct Act {
    pub signal: Signal,
    /// Whether it was a BUSY read that found the pin asserted.
    pub busy: bool,
}

/// The actions of an operation, with what the BUSY reads among them have found.
pub open spec fn trace<E>(state: State<E>, replies: Seq<Reply<E>>) -> Seq<Act>
    decreases replies.len(),
{
    match state {
        State::Ended(_) => Seq::empty(),
        State::Running(ops) => if replies.len() == 0 {
            Seq::empty()
        } else {
            let rest = trace(after(state, replies[0]), replies.drop_first());
            if answers(ops[0], replies[0]) {
                seq![Act { signal: signal(ops[0]), busy: found_busy(replies[0]) }] + rest
            } else {
                rest
            }
        },
    }
}

/// Whether the reply says that BUSY is asserted. A pin that cannot be read is not.
pub open spec fn found_busy<E>(reply: Reply<E>) -> bool {
    match reply {
        Reply::Busy(answer) => answer == Some(true),
        _ => false,
    }
}

/// The trace is the run, with the answers.
pub proof fn law_trace_is_the_run<E>(state: State<E>, replies: Seq<Reply<E>>)
    ensures
        trace(state, replies).map_values(|act: Act| act.signal) == run(state, replies).signals,
    decreases replies.len(),
{
    if state is Running && replies.len() > 0 {
        law_trace_is_the_run(after(state, replies[0]), replies.drop_first());
    }
    assert(trace(state, replies).map_values(|act: Act| act.signal) =~= run(
        state,
        replies,
    ).signals);
}

/// Whether every reply, as long as the operation runs, answers the pending
/// action.
pub open spec fn all_answer<E>(state: State<E>, replies: Seq<Reply<E>>) -> bool
    decreases replies.len(),
{
    match state {
        State::Ended(_) => true,
        State::Running(ops) => replies.len() == 0 || (answers(ops[0], replies[0]) && all_answer(
            after(state, replies[0]),
            replies.drop_first(),
        )),
    }
}

/// The end of an operation that did all it had to.
pub open spec fn completed<E>() -> State<E> {
    State::Ended(Ok(RefreshOutcome::Completed))
}

/// The end of an operation that was cancelled.
pub open spec fn cancelled<E>() -> State<E> {
    State::Ended(Ok(RefreshOutcome::Cancelled))
}

/// The end of an operation that has waited too long.
pub open spec fn timed_out<E>() -> State<E> {
    State::Ended(Err(BusyTimeoutError::BusyTimeout))
}

/// A run is made reply by reply: one more reply moves the state on as `after` says,
/// and adds the action that it answers.
pub proof fn law_run_goes_reply_by_reply<E>(
    state: State<E>,
    replies: Seq<Reply<E>>,
    reply: Reply<E>,
)
    ensures
        run(state, replies.push(reply)).end == after(run(state, replies).end, reply),
        run(state, replies.push(reply)).signals == match run(state, replies).end {
            State::Running(ops) => if answers(ops[0], reply) {
                run(state, replies).signals.push(signal(ops[0]))
            } else {
                run(state, replies).signals
            },
            State::Ended(_) => run(state, replies).signals,
        },
    decreases replies.len(),
{
    if let State::Running(ops) = state {
        if replies.len() == 0 {
            let next = after(state, reply);
            assert(replies.push(reply).drop_first() =~= Seq::empty());
            let tail = run(next, replies.push(reply).drop_first());
            assert(tail.signals =~= Seq::empty() && tail.end == next);
            assert(run(state, replies.push(reply)).signals =~= if answers(ops[0], reply) {
                seq![signal(ops[0])]
            } else {
                Seq::empty()
            });
        } else {
            let next = after(state, replies[0]);
            let rest = replies.drop_first();
            assert(replies.push(reply).drop_first() =~= rest.push(reply));
            law_run_goes_reply_by_reply(next, rest, reply);
            assert(run(state, replies.push(reply)).signals =~= match run(state, replies).end {
                State::Running(ops) => if answers(ops[0], reply) {
                    run(state, replies).signals.push(signal(ops[0]))
                } else {
                    run(state, replies).signals
                },
                State::Ended(_) => run(state, replies).signals,
            });
        }
    }
}

/// A reply that does not answer the pending action changes nothing.
pub proof fn law_stray_reply<E>(ops: Seq<Op>, reply: Reply<E>)
    requires
        ops.len() > 0,
        !answers(ops[0], reply),
    ensures
        after(start(ops), reply) == start::<E>(ops),
{
}

/// Only the result of a write answers a write, only what the pin says a BUSY read, only
/// what the hook says a question to it, and of the rest only that it is done. Any other
/// reply leaves the operation where it is.
pub proof fn law_reply_fits_action<E>(ops: Seq<Op>, reply: Reply<E>)
    requires
        ops.len() > 0,
    ensures
        ({
            let fits = match signal(ops[0]) {
                Signal::Write(_) => reply is Written,
                Signal::ReadBusy(_) => reply is Busy,
                Signal::AskCancel => reply is Cancel,
                Signal::Dc(_) => reply is Done,
                Signal::Rst(_) => reply is Done,
                Signal::DelayUs(_) => reply is Done,
                Signal::DelayMs(_) => reply is Done,
            };
            &&& answers(ops[0], reply) <==> fits
            &&& !fits ==> after(start(ops), reply) == start::<E>(ops)
            &&& reply is Done && fits ==> after(start(ops), reply) == start::<E>(ops.drop_first())
        }),
{
}

/// The first failed write ends the operation with its error, and nothing more is
/// asked for.
pub proof fn law_failed_write_is_final<E>(ops: Seq<Op>, error: E, more: Seq<Reply<E>>)
    requires
        ops.len() > 0,
        ops[0] is Write,
    ensures
        run(start(ops), seq![Reply::Written(Err(error))] + more) == (Run {
            signals: seq![signal(ops[0])],
            end: State::Ended(Err(BusyTimeoutError::Spi(error))),
        }),
{
    lemma_final(ops, Reply::Written(Err(error)), more);
}

/// A cancel hook that fires, at a cancellation point or at a busy poll, ends the
/// operation as cancelled, and nothing more is asked for.
pub proof fn law_fired_hook_is_final<E>(ops: Seq<Op>, more: Seq<Reply<E>>)
    requires
        ops.len() > 0,
        ops[0] is CancelPoint || ops[0] is Hook,
    ensures
        run(start(ops), seq![Reply::Cancel(true)] + more) == (Run {
            signals: seq![Signal::AskCancel],
            end: cancelled::<E>(),
        }),
{
    lemma_final(ops, Reply::Cancel(true), more);
}

/// A cancellable wait asks the hook right after every poll that finds the panel
/// busy.
pub proof fn law_busy_poll_asks_hook<E>(wait: BusyWait, polls: u32, rest: Seq<Op>)
    requires
        wait.cancellable,
    ensures
        after(
            start(seq![Op::Poll(wait, polls)] + rest),
            Reply::<E>::Busy(Some(true)),
        ) == State::<E>::Running(seq![Op::Hook(wait, polls)] + rest),
        signal((seq![Op::Hook(wait, polls)] + rest)[0]) == Signal::AskCancel,
{
    assert((seq![Op::Poll(wait, polls)] + rest).drop_first() =~= rest);
}

proof fn lemma_final<E>(ops: Seq<Op>, reply: Reply<E>, more: Seq<Reply<E>>)
    requires
        ops.len() > 0,
        answers(ops[0], reply),
        after(start(ops), reply) is Ended,
    ensures
        run(start(ops), seq![reply] + more) == (Run {
            signals: seq![signal(ops[0])],
            end: after(start(ops), reply),
        }),
{
    assert((seq![reply] + more).drop_first() =~= more);
    assert(run(after(start(ops), reply), more).signals =~= Seq::empty());
    assert(run(start(ops), seq![reply] + more).signals =~= seq![signal(ops[0])]);
}

/// What can be left after a step: what was left before, if the reply was stray;
/// everything but the first entry; or, of a wait loop, more of the loop before it.
pub open spec fn leaves(ops: Seq<Op>, left: Seq<Op>) -> bool {
    let rest = ops.drop_first();
    ||| left == ops
    ||| left == rest
    ||| match ops[0] {
        Op::Poll(wait, polls) => left == seq![Op::Hook(wait, polls)] + rest && wait.cancellable
            || left == round_ops(wait, polls) + rest && !out_of_polls(wait, polls),
        Op::Hook(wait, polls) => left == round_ops(wait, polls) + rest && !out_of_polls(
            wait,
            polls,
        ),
        _ => false,
    }
}

/// Whether a wait loop gives up if it finds the panel busy again.
pub open spec fn out_of_polls(wait: BusyWait, polls: u32) -> bool {
    wait.max_polls is Some && polls >= wait.max_polls->0
}

pub proof fn lemma_left<E>(ops: Seq<Op>, reply: Reply<E>)
    requires
        ops.len() > 0,
    ensures
        match after(start(ops), reply) {
            State::Running(left) => {
                &&& left.len() > 0
                &&& start::<E>(left) == State::<E>::Running(left)
                &&& leaves(ops, left)
            },
            State::Ended(_) => answers(ops[0], reply),
        },
{
}

/// Once an operation has ended it asks for nothing more, whatever it is told.
pub proof fn law_nothing_after_the_end<E>(
    state: State<E>,
    replies: Seq<Reply<E>>,
    more: Seq<Reply<E>>,
)
    requires
        run(state, replies).end is Ended,
    ensures
        run(state, replies + more) == run(state, replies),
    decreases replies.len(),
{
    if let State::Running(ops) = state {
        if replies.len() > 0 {
            assert((replies + more).drop_first() =~= replies.drop_first() + more);
            law_nothing_after_the_end(after(state, replies[0]), replies.drop_first(), more);
        }
    }
}

/// No entry but the first is a wait loop in the middle of its hook question.
pub open spec fn hooks_at_front(ops: Seq<Op>) -> bool {
    forall|i: int| 1 <= i < ops.len() ==> !(#[trigger] ops[i] is Hook)
}

/// As a driver method plans it: no wait loop is in the middle of its hook
/// question.
pub open spec fn fresh(ops: Seq<Op>) -> bool {
    forall|i: int| 0 <= i < ops.len() ==> !(#[trigger] ops[i] is Hook)
}

/// An operation is only cancelled if the hook has returned `true`, only fails
/// with an SPI error that a write has returned, and only times out if BUSY was
/// read as asserted.
pub proof fn law_no_end_without_cause<E>(ops: Seq<Op>, replies: Seq<Reply<E>>)
    requires
        fresh(ops),
    ensures
        run(start(ops), replies).end == cancelled::<E>() ==> replies.contains(Reply::Cancel(true)),
        run(start(ops), replies).end == timed_out::<E>() ==> replies.contains(
            Reply::Busy(Some(true)),
        ),
        forall|e: E|
            run(start(ops), replies).end == State::Ended(Err(BusyTimeoutError::Spi(e)))
                ==> #[trigger] replies.contains(Reply::Written(Err(e))),
{
    lemma_causes(ops, replies);
}

proof fn lemma_causes<E>(ops: Seq<Op>, replies: Seq<Reply<E>>)
    requires
        hooks_at_front(ops),
    ensures
        run(start(ops), replies).end == cancelled::<E>() ==> replies.contains(Reply::Cancel(true)),
        run(start(ops), replies).end == timed_out::<E>() ==> replies.contains(
            Reply::Busy(Some(true)),
        ) || ops[0] is Hook,
        forall|e: E|
            run(start(ops), replies).end == State::Ended(Err(BusyTimeoutError::Spi(e)))
                ==> #[trigger] replies.contains(Reply::Written(Err(e))),
    decreases replies.len(),
{
    if replies.len() > 0 && ops.len() > 0 {
        let rest = replies.drop_first();
        let state = start::<E>(ops);
        let next = after(state, replies[0]);
        assert(replies.contains(replies[0]));
        assert forall|r: Reply<E>| #[trigger] rest.contains(r) implies replies.contains(r) by {
            let i = choose|i: int| 0 <= i < rest.len() && rest[i] == r;
            assert(replies[i + 1] == r);
        }
        lemma_left(ops, replies[0]);
        assert(run(state, replies).end == run(next, rest).end);
        if next is Ended {
            assert(run(next, rest).end == next);
            assert(next == cancelled::<E>() ==> replies[0] == Reply::<E>::Cancel(true));
        }
        if let State::Running(left) = next {
            assert(hooks_at_front(left));
            lemma_causes(left, rest);
            assert(run(start(left), rest) == run(next, rest));
            assert forall|e: E|
                run(state, replies).end == State::Ended(
                    Err(BusyTimeoutError::Spi(e)),
                ) implies #[trigger] replies.contains(Reply::Written(Err(e))) by {
                assert(rest.contains(Reply::Written(Err(e))));
            }
        }
    }
}

/// A reply with which nothing is amiss: the write succeeded, the panel is idle,
/// nobody cancels.
pub open spec fn benign<E>(reply: Reply<E>) -> bool {
    match reply {
        Reply::Done => true,
        Reply::Written(result) => result is Ok,
        Reply::Busy(answer) => answer != Some(true),
        Reply::Cancel(cancel) => !cancel,
    }
}

/// What the entries ask for.
pub open spec fn asked(ops: Seq<Op>) -> Seq<Signal> {
    ops.map_values(|op: Op| signal(op))
}

/// If every action is answered and nothing is amiss, the operation asks for
/// exactly what was planned, in that order, and completes.
pub proof fn law_smooth_run_completes<E>(ops: Seq<Op>, replies: Seq<Reply<E>>)
    requires
        replies.len() == ops.len(),
        forall|i: int| 0 <= i < ops.len() ==> answers(ops[i], #[trigger] replies[i]),
        forall|i: int| 0 <= i < ops.len() ==> benign(#[trigger] replies[i]),
        fresh(ops),
    ensures
        run(start(ops), replies).end == completed::<E>(),
        run(start(ops), replies).signals == asked(ops),
    decreases ops.len(),
{
    if ops.len() > 0 {
        let rest = ops.drop_first();
        assert(answers(ops[0], replies[0]) && benign(replies[0]));
        assert(after(start(ops), replies[0]) == start::<E>(rest));
        law_smooth_run_completes(rest, replies.drop_first());
    }
    assert(run(start(ops), replies).signals =~= asked(ops));
}

// ---------------------------------------------------------------------------
// Operations one after the other

/// One step of `a` followed by `b` is one step of `a`, with `b` still to come.
pub proof fn lemma_after_append<E>(a: Seq<Op>, b: Seq<Op>, reply: Reply<E>)
    requires
        a.len() > 0,
    ensures
        after(start(a + b), reply) == match after(start(a), reply) {
            State::Running(left) => start::<E>(left + b),
            State::Ended(result) => if after(start(a), reply) == completed::<E>() {
                start(b)
            } else {
                State::Ended(result)
            },
        },
{
    let rest = a.drop_first();
    assert((a + b).drop_first() =~= rest + b);
    if rest.len() == 0 {
        assert(rest + b =~= b);
    }
    match a[0] {
        Op::Poll(wait, polls) => {
            assert(seq![Op::Hook(wait, polls)] + (rest + b) =~= (seq![Op::Hook(wait, polls)] + rest)
                + b);
            lemma_busy_again_append::<E>(wait, polls, rest, b);
        },
        Op::Hook(wait, polls) => {
            lemma_busy_again_append::<E>(wait, polls, rest, b);
        },
        _ => {},
    }
}

proof fn lemma_busy_again_append<E>(wait: BusyWait, polls: u32, rest: Seq<Op>, b: Seq<Op>)
    ensures
        busy_again::<E>(wait, polls, rest + b) == match busy_again::<E>(wait, polls, rest) {
            State::Running(left) => State::Running(left + b),
            State::Ended(result) => State::Ended(result),
        },
{
    assert(round_ops(wait, polls) + (rest + b) =~= round_ops(wait, polls) + rest + b);
}

/// How many replies `a` takes before it is done or the replies run out.
pub open spec fn taken<E>(a: Seq<Op>, replies: Seq<Reply<E>>) -> nat
    decreases replies.len(),
{
    if a.len() == 0 || replies.len() == 0 {
        0
    } else {
        match after(start(a), replies[0]) {
            State::Running(left) => 1 + taken(left, replies.drop_first()),
            State::Ended(_) => 1,
        }
    }
}

/// Two operations one after the other: the second one starts when the first has
/// completed, on the replies that are left. If the first one does not complete,
/// the second does not start.
pub proof fn law_one_after_the_other<E>(a: Seq<Op>, b: Seq<Op>, replies: Seq<Reply<E>>)
    ensures
        taken(a, replies) <= replies.len(),
        ({
            let first = run(start(a), replies);
            let second = run(start::<E>(b), replies.skip(taken(a, replies) as int));
            let both = run(start::<E>(a + b), replies);
            if first.end == completed::<E>() {
                both.signals == first.signals + second.signals && both.end == second.end
            } else {
                both.signals == first.signals && (first.end is Ended ==> both.end == first.end)
                    && (first.end is Running ==> both.end is Running)
            }
        }),
    decreases replies.len(),
{
    if a.len() == 0 {
        assert(a + b =~= b);
        assert(replies.skip(0) =~= replies);
        assert(run(start(a), replies).signals + run(start::<E>(b), replies).signals =~= run(
            start::<E>(b),
            replies,
        ).signals);
    } else if replies.len() > 0 {
        let rest = replies.drop_first();
        lemma_after_append(a, b, replies[0]);
        lemma_left(a, replies[0]);
        assert((a + b)[0] == a[0]);
        match after(start(a), replies[0]) {
            State::Running(left) => {
                assert(left.len() > 0);
                law_one_after_the_other(left, b, rest);
                assert(rest.skip(taken(left, rest) as int) =~= replies.skip(
                    taken(a, replies) as int,
                ));
                let second = run(start::<E>(b), replies.skip(taken(a, replies) as int));
                let first = run(start(left), rest);
                if answers(a[0], replies[0]) {
                    assert(seq![signal(a[0])] + first.signals + second.signals =~= seq![
                        signal(a[0]),
                    ] + (first.signals + second.signals));
                }
            },
            State::Ended(_) => {
                assert(rest =~= replies.skip(1));
                assert(answers(a[0], replies[0]));
                assert(taken(a, replies) == 1);
                let first = run(start(a), replies);
                assert(run(after(start(a), replies[0]), rest).signals =~= Seq::empty());
                assert(first.signals =~= seq![signal(a[0])]);
                let both = run(start::<E>(a + b), replies);
                let next = after(start(a + b), replies[0]);
                assert(both.signals == seq![signal(a[0])] + run(next, rest).signals);
                assert(both.end == run(next, rest).end);
            },
        }
    }
}

// ---------------------------------------------------------------------------
// Operations with more entries

/// The reply to an entry with which nothing is amiss.
pub open spec fn good_reply<E>(op: Op) -> Reply<E> {
    match op {
        Op::Write(_) => Reply::Written(Ok(())),
        Op::Poll(_, _) => Reply::Busy(Some(false)),
        Op::CancelPoint => Reply::Cancel(false),
        Op::Hook(_, _) => Reply::Cancel(false),
        _ => Reply::Done,
    }
}

/// Good replies to all entries.
pub open spec fn good_replies<E>(ops: Seq<Op>) -> Seq<Reply<E>> {
    ops.map_values(|op: Op| good_reply::<E>(op))
}

/// The replies, with good ones to the entries `extra` put in where `a` is done. If
/// `a` does not complete, nothing is put in.
pub open spec fn with_replies<E>(
    a: Seq<Op>,
    extra: Seq<Op>,
    replies: Seq<Reply<E>>,
) -> Seq<Reply<E>> {
    if run(start(a), replies).end == completed::<E>() {
        let n = taken(a, replies) as int;
        replies.take(n) + (good_replies::<E>(extra) + replies.skip(n))
    } else {
        replies
    }
}

/// What an operation makes of its replies depends only on those that it takes.
proof fn lemma_taken<E>(a: Seq<Op>, replies: Seq<Reply<E>>, more: Seq<Reply<E>>)
    requires
        run(start(a), replies).end == completed::<E>(),
    ensures
        taken(a, replies) <= replies.len(),
        ({
            let changed = replies.take(taken(a, replies) as int) + more;
            &&& run(start(a), changed) == run(start(a), replies)
            &&& taken(a, changed) == taken(a, replies)
        }),
    decreases replies.len(),
{
    if a.len() > 0 {
        assert(replies.len() > 0);
        let rest = replies.drop_first();
        let n = taken(a, replies) as int;
        let changed = replies.take(n) + more;
        let next = after(start(a), replies[0]);
        lemma_left(a, replies[0]);
        if let State::Running(left) = next {
            lemma_taken(left, rest, more);
            let m = taken(left, rest) as int;
            assert(n == m + 1);
            assert(changed.drop_first() =~= rest.take(m) + more);
        } else {
            assert(n == 1);
            assert(changed.drop_first() =~= more);
            assert(run(next, more).signals =~= run(next, rest).signals);
            assert(run(next, more).end == next && run(next, rest).end == next);
        }
        assert(changed[0] == replies[0]);
        assert(run(start(a), changed).signals =~= run(start(a), replies).signals);
    }
}

/// Good replies complete the entries, and no more are taken.
proof fn lemma_good_replies<E>(ops: Seq<Op>, more: Seq<Reply<E>>)
    requires
        fresh(ops),
    ensures
        run(start(ops), good_replies::<E>(ops) + more).end == completed::<E>(),
        run(start(ops), good_replies::<E>(ops) + more).signals == asked(ops),
        taken(ops, good_replies::<E>(ops) + more) == ops.len(),
    decreases ops.len(),
{
    let replies = good_replies::<E>(ops) + more;
    if ops.len() > 0 {
        let rest = ops.drop_first();
        assert(!(ops[0] is Hook));
        assert(replies[0] == good_reply::<E>(ops[0]));
        assert(replies.drop_first() =~= good_replies::<E>(rest) + more);
        assert(after(start(ops), replies[0]) == start::<E>(rest));
        lemma_good_replies(rest, more);
    }
    assert(run(start(ops), replies).signals =~= asked(ops));
}

/// More entries in the middle of an operation, answered well, change nothing else:
/// the operation comes to the same end, if it does, and asks for the same, but
/// for the new entries.
pub proof fn law_more_entries<E>(
    a: Seq<Op>,
    extra: Seq<Op>,
    b: Seq<Op>,
    replies: Seq<Reply<E>>,
)
    requires
        fresh(extra),
    ensures
        ({
            let first = run(start(a), replies);
            let less = run(start::<E>(a + b), replies);
            let more = run(start::<E>(a + extra + b), with_replies(a, extra, replies));
            let n = first.signals.len() as int;
            &&& less.end is Ended ==> more.end == less.end
            &&& less.end is Running ==> more.end is Running
            &&& n <= less.signals.len()
            &&& more.signals == if first.end == completed::<E>() {
                less.signals.take(n) + asked(extra) + less.signals.skip(n)
            } else {
                less.signals
            }
        }),
{
    let first = run(start(a), replies);
    let changed = with_replies(a, extra, replies);
    assert(a + extra + b =~= a + (extra + b));
    law_one_after_the_other(a, b, replies);
    law_one_after_the_other(a, extra + b, changed);
    if first.end == completed::<E>() {
        let n = taken(a, replies) as int;
        let tail = replies.skip(n);
        let good = good_replies::<E>(extra);
        lemma_taken(a, replies, good + tail);
        assert(changed.skip(n) =~= good + tail);
        lemma_good_replies(extra, tail);
        law_one_after_the_other(extra, b, good + tail);
        assert((good + tail).skip(extra.len() as int) =~= tail);
        let less = run(start::<E>(a + b), replies);
        let k = first.signals.len() as int;
        assert(less.signals.take(k) =~= first.signals);
        assert(less.signals.skip(k) =~= run(start::<E>(b), tail).signals);
        assert(run(start::<E>(a + (extra + b)), changed).signals =~= less.signals.take(k) + asked(
            extra,
        ) + less.signals.skip(k));
    }
}

} // verus!
