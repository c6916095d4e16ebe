//! Time: operations whose waits are bounded come to an end, and how long they
//! sleep on the way.
use crate::operation::{
    after, answers, busy_wait, command_ops, next_poll, pause_ops, poll_limit, probe_ops,
    round_ops, signal, start, status_ops, BusyTimeoutError, BusyWait, Op, RefreshOutcome, Reply,
    Signal, State,
};
use crate::runs::{
    all_answer, completed, fresh, law_no_end_without_cause, lemma_left, out_of_polls, run,
    timed_out,
};
use crate::script::{
    band_ops, bands_ops, block_ops, chunks, reset_ops, script_ops, wait_ops, Block, Link,
    ASYNC_WRITE_CHUNK, RESET_SETTLE_US,
};
use vstd::prelude::*;

verus! {

/// Every wait has a limit.
pub open spec fn bounded(ops: Seq<Op>) -> bool {
    forall|i: int| 0 <= i < ops.len() ==> is_bounded(#[trigger] ops[i])
}

pub open spec fn is_bounded(op: Op) -> bool {
    match op {
        Op::Poll(wait, _) => wait.max_polls is Some,
        Op::Hook(wait, _) => wait.max_polls is Some,
        _ => true,
    }
}

/// How many more rounds a wait loop may go.
pub open spec fn rounds_left(wait: BusyWait, polls: u32) -> nat {
    if out_of_polls(wait, polls) {
        0
    } else {
        (wait.max_polls->0 - polls) as nat
    }
}

/// The most actions that an entry can lead to. A round of a wait loop takes at
/// most five: the hook, the two parts of the status command, the pause, the poll.
pub open spec fn action_bound(op: Op) -> nat {
    match op {
        Op::Poll(wait, polls) => 2 + 5 * rounds_left(wait, polls),
        Op::Hook(wait, polls) => 1 + 5 * rounds_left(wait, polls),
        _ => 1,
    }
}

/// The most microseconds that an entry can sleep.
pub open spec fn pause_bound(op: Op) -> nat {
    match op {
        Op::DelayUs(us) => us as nat,
        Op::DelayMs(ms) => 1000 * ms as nat,
        Op::Poll(wait, polls) => wait.delay_us as nat * rounds_left(wait, polls),
        Op::Hook(wait, polls) => wait.delay_us as nat * rounds_left(wait, polls),
        _ => 0,
    }
}

/// The sum of the bounds of all entries.
pub open spec fn total(ops: Seq<Op>, bound: spec_fn(Op) -> nat) -> nat
    decreases ops.len(),
{
    if ops.len() == 0 {
        0
    } else {
        bound(ops[0]) + total(ops.drop_first(), bound)
    }
}

/// The most actions that a bounded operation can ask for.
pub open spec fn total_actions(ops: Seq<Op>) -> nat {
    total(ops, |op: Op| action_bound(op))
}

/// The most microseconds that a bounded operation can sleep.
pub open spec fn total_pause(ops: Seq<Op>) -> nat {
    total(ops, |op: Op| pause_bound(op))
}

/// The microseconds slept in the course of a run.
pub open spec fn slept(signals: Seq<Signal>) -> nat
    decreases signals.len(),
{
    if signals.len() == 0 {
        0
    } else {
        slept_in(signals[0]) + slept(signals.drop_first())
    }
}

pub open spec fn slept_in(signal: Signal) -> nat {
    match signal {
        Signal::DelayUs(us) => us as nat,
        Signal::DelayMs(ms) => 1000 * ms as nat,
        _ => 0,
    }
}

/// The number of BUSY reads in the course of a run.
pub open spec fn reads(signals: Seq<Signal>) -> nat
    decreases signals.len(),
{
    if signals.len() == 0 {
        0
    } else {
        (if signals[0] is ReadBusy {
            1nat
        } else {
            0nat
        }) + reads(signals.drop_first())
    }
}

pub proof fn lemma_total_append(a: Seq<Op>, b: Seq<Op>, bound: spec_fn(Op) -> nat)
    ensures
        total(a + b, bound) == total(a, bound) + total(b, bound),
    decreases a.len(),
{
    if a.len() == 0 {
        assert(a + b =~= b);
    } else {
        assert((a + b).drop_first() =~= a.drop_first() + b);
        lemma_total_append(a.drop_first(), b, bound);
    }
}

proof fn lemma_total_one(op: Op, bound: spec_fn(Op) -> nat)
    ensures
        total(seq![op], bound) == bound(op),
{
    assert(seq![op].drop_first() =~= Seq::empty());
    assert(total(seq![op].drop_first(), bound) == 0);
}

proof fn lemma_total_probe(wait: BusyWait, bound: spec_fn(Op) -> nat)
    ensures
        total(probe_ops(wait), bound) == (match wait.status_command {
            Some(address) => bound(Op::Dc(false)) + bound(Op::Write(seq![address])),
            None => 0,
        }) + (if wait.delay_us > 0 {
            bound(Op::DelayUs(wait.delay_us))
        } else {
            0
        }),
{
    lemma_total_append(status_ops(wait), pause_ops(wait), bound);
    if let Some(address) = wait.status_command {
        assert(command_ops(address) =~= seq![Op::Dc(false)] + seq![Op::Write(seq![address])]);
        lemma_total_append(seq![Op::Dc(false)], seq![Op::Write(seq![address])], bound);
        lemma_total_one(Op::Dc(false), bound);
        lemma_total_one(Op::Write(seq![address]), bound);
    }
    lemma_total_one(Op::DelayUs(wait.delay_us), bound);
}

/// The bounds of a round of a wait loop, with all that comes after it.
proof fn lemma_round(wait: BusyWait, polls: u32)
    requires
        wait.max_polls is Some,
        !out_of_polls(wait, polls),
    ensures
        total_actions(round_ops(wait, polls)) <= 5 * rounds_left(wait, polls),
        total_pause(round_ops(wait, polls)) == wait.delay_us as nat * rounds_left(wait, polls),
{
    let actions = |op: Op| action_bound(op);
    let pauses = |op: Op| pause_bound(op);
    let next = next_poll(wait, polls);
    lemma_total_append(probe_ops(wait), seq![next], actions);
    lemma_total_append(probe_ops(wait), seq![next], pauses);
    lemma_total_one(next, actions);
    lemma_total_one(next, pauses);
    lemma_total_probe(wait, actions);
    lemma_total_probe(wait, pauses);
    let d = wait.delay_us as nat;
    let k = rounds_left(wait, polls);
    assert(rounds_left(wait, (polls + 1) as u32) == k - 1);
    assert(d + d * (k - 1) == d * k) by (nonlinear_arith)
        requires
            k >= 1,
    ;
}

/// A step of a bounded operation leaves a bounded one, with less to do.
proof fn lemma_step<E>(ops: Seq<Op>, reply: Reply<E>)
    requires
        bounded(ops),
        ops.len() > 0,
        answers(ops[0], reply),
    ensures
        after(start(ops), reply) matches State::Running(left) ==> {
            &&& bounded(left)
            &&& total_actions(left) < total_actions(ops)
            &&& total_pause(left) + slept_in(signal(ops[0])) <= total_pause(ops)
        },
        total_actions(ops) > 0,
        slept_in(signal(ops[0])) <= total_pause(ops),
{
    lemma_left(ops, reply);
    let actions = |op: Op| action_bound(op);
    let pauses = |op: Op| pause_bound(op);
    let rest = ops.drop_first();
    if let State::Running(left) = after(start(ops), reply) {
        match ops[0] {
            Op::Poll(wait, polls) => {
                assert(is_bounded(ops[0]));
                let hook = seq![Op::Hook(wait, polls)];
                lemma_total_append(hook, rest, actions);
                lemma_total_append(hook, rest, pauses);
                lemma_total_one(Op::Hook(wait, polls), actions);
                lemma_total_one(Op::Hook(wait, polls), pauses);
                lemma_total_append(round_ops(wait, polls), rest, actions);
                lemma_total_append(round_ops(wait, polls), rest, pauses);
                if !out_of_polls(wait, polls) {
                    lemma_round(wait, polls);
                }
            },
            Op::Hook(wait, polls) => {
                assert(is_bounded(ops[0]));
                lemma_total_append(round_ops(wait, polls), rest, actions);
                lemma_total_append(round_ops(wait, polls), rest, pauses);
                if !out_of_polls(wait, polls) {
                    lemma_round(wait, polls);
                }
            },
            _ => {},
        }
    }
}

/// An operation whose waits are bounded asks for a limited number of actions and
/// sleeps for a limited time, however the panel behaves. If its actions are
/// answered, it comes to an end.
pub proof fn law_bounded_operation_ends<E>(ops: Seq<Op>, replies: Seq<Reply<E>>)
    requires
        bounded(ops),
    ensures
        run(start(ops), replies).signals.len() <= total_actions(ops),
        all_answer(start(ops), replies) && replies.len() >= total_actions(ops) ==> run(
            start(ops),
            replies,
        ).end is Ended,
        slept(run(start(ops), replies).signals) <= total_pause(ops),
    decreases replies.len(),
{
    if ops.len() > 0 && replies.len() > 0 {
        lemma_left(ops, replies[0]);
        let rest = replies.drop_first();
        let next = after(start(ops), replies[0]);
        let signals = run(start(ops), replies).signals;
        if answers(ops[0], replies[0]) {
            lemma_step(ops, replies[0]);
            assert(signals.drop_first() =~= run(next, rest).signals);
            if let State::Running(left) = next {
                law_bounded_operation_ends(left, rest);
            } else {
                assert(run(next, rest).signals =~= Seq::empty());
                assert(slept(signals.drop_first()) == 0);
                assert(run(next, rest).end == next);
            }
        } else {
            law_bounded_operation_ends(ops, rest);
        }
    }
}

/// The BUSY reads that an entry leads to if the panel never becomes idle.
pub open spec fn read_bound(op: Op) -> nat {
    match op {
        Op::Poll(wait, polls) => 1 + rounds_left(wait, polls),
        Op::Hook(wait, polls) => rounds_left(wait, polls),
        _ => 0,
    }
}

/// A single wait loop: a poll, or its hook question, with the probe before it.
spec fn lone_wait(ops: Seq<Op>) -> bool {
    &&& ops.len() > 0
    &&& ops.last() is Poll || ops.last() is Hook
    &&& forall|i: int|
        0 <= i < ops.len() - 1 ==> {
            ||| #[trigger] ops[i] is Dc
            ||| ops[i] is Write
            ||| ops[i] is DelayUs
        }
}

/// A lone wait that times out has used up its reads and its pauses.
proof fn lemma_lone_wait<E>(ops: Seq<Op>, replies: Seq<Reply<E>>)
    requires
        lone_wait(ops),
        bounded(ops),
        run(start(ops), replies).end == timed_out::<E>(),
    ensures
        slept(run(start(ops), replies).signals) == total_pause(ops),
        reads(run(start(ops), replies).signals) == total(ops, |op: Op| read_bound(op)),
    decreases replies.len(),
{
    let rest = ops.drop_first();
    let replies_left = replies.drop_first();
    let next = after(start(ops), replies[0]);
    let signals = run(start(ops), replies).signals;
    let pauses = |op: Op| pause_bound(op);
    let busy_reads = |op: Op| read_bound(op);
    assert(replies.len() > 0);
    lemma_left(ops, replies[0]);
    if !answers(ops[0], replies[0]) {
        lemma_lone_wait(ops, replies_left);
    } else {
        assert(signals.drop_first() =~= run(next, replies_left).signals);
        assert(slept(signals) == slept_in(signal(ops[0])) + slept(run(next, replies_left).signals));
        if ops.len() > 1 {
            assert(lone_wait(rest));
            assert(next == start::<E>(rest) || next is Ended);
            if next is Ended {
                assert(run(next, replies_left).end == next);
            } else {
                lemma_lone_wait(rest, replies_left);
            }
        } else {
            assert(rest =~= Seq::empty());
            assert(ops =~= seq![ops[0]]);
            lemma_total_one(ops[0], pauses);
            lemma_total_one(ops[0], busy_reads);
            assert(is_bounded(ops[0]));
            let (wait, polls) = match ops[0] {
                Op::Poll(wait, polls) => (wait, polls),
                Op::Hook(wait, polls) => (wait, polls),
                _ => arbitrary(),
            };
            let d = wait.delay_us as nat;
            assert(slept_in(signal(ops[0])) == 0);
            match next {
                State::Ended(_) => {
                    assert(run(next, replies_left).end == next);
                    assert(run(next, replies_left).signals =~= Seq::empty());
                    assert(slept(signals.drop_first()) == 0 && reads(signals.drop_first()) == 0);
                    assert(out_of_polls(wait, polls));
                    assert(d * 0 == 0) by (nonlinear_arith);
                    assert(total_pause(ops) == 0);
                },
                State::Running(left) => {
                    let hook = seq![Op::Hook(wait, polls)];
                    let round = round_ops(wait, polls);
                    assert(hook + rest =~= hook);
                    assert(round + rest =~= round);
                    lemma_total_one(Op::Hook(wait, polls), pauses);
                    lemma_total_one(Op::Hook(wait, polls), busy_reads);
                    if left == round {
                        lemma_round(wait, polls);
                        let poll = next_poll(wait, polls);
                        lemma_total_append(probe_ops(wait), seq![poll], busy_reads);
                        lemma_total_one(poll, busy_reads);
                        lemma_total_probe(wait, busy_reads);
                    }
                    assert(total_pause(left) == total_pause(ops));
                    assert(lone_wait(left));
                    lemma_lone_wait(left, replies_left);
                },
            }
        }
    }
}

/// A bounded wait sleeps no longer than its cap and one poll period. It times
/// out only when it has read BUSY once for every period that fits into the cap and
/// once more, and has slept through as many periods: for longer than the cap,
/// if the period is not zero.
pub proof fn law_bounded_wait<E>(
    status_command: u8,
    is_busy_low: bool,
    delay_us: u32,
    timeout_us: u32,
    cancellable: bool,
    replies: Seq<Reply<E>>,
)
    ensures
        ({
            let wait = busy_wait(
                Some(status_command),
                is_busy_low,
                delay_us,
                Some(timeout_us),
                cancellable,
            );
            let course = run(start(wait_ops(wait)), replies);
            &&& slept(course.signals) <= timeout_us + delay_us
            &&& course.end == timed_out::<E>() ==> {
                &&& reads(course.signals) == poll_limit(delay_us, timeout_us) + 1
                &&& slept(course.signals) == (poll_limit(delay_us, timeout_us) + 1) * delay_us
                &&& delay_us > 0 ==> slept(course.signals) > timeout_us
            }
        }),
{
    let wait = busy_wait(
        Some(status_command),
        is_busy_low,
        delay_us,
        Some(timeout_us),
        cancellable,
    );
    let ops = wait_ops(wait);
    let poll = Op::Poll(wait, 0);
    let pauses = |op: Op| pause_bound(op);
    let busy_reads = |op: Op| read_bound(op);
    lemma_total_append(probe_ops(wait), seq![poll], pauses);
    lemma_total_append(probe_ops(wait), seq![poll], busy_reads);
    lemma_total_one(poll, pauses);
    lemma_total_one(poll, busy_reads);
    lemma_total_probe(wait, pauses);
    lemma_total_probe(wait, busy_reads);
    let d = delay_us as int;
    let t = timeout_us as int;
    let k = poll_limit(delay_us, timeout_us) as int;
    assert(total_pause(ops) == d + d * k);
    assert(d + d * k == (k + 1) * d) by (nonlinear_arith);
    if d > 0 {
        assert(k * d <= t && t < (k + 1) * d) by (nonlinear_arith)
            requires
                d > 0,
                t >= 0,
                k == t / d,
        ;
        assert(d * k == k * d) by (nonlinear_arith);
    } else {
        assert(d * k == 0) by (nonlinear_arith)
            requires
                d == 0,
        ;
    }
    law_bounded_operation_ends(ops, replies);
    if run(start(ops), replies).end == timed_out::<E>() {
        lemma_lone_wait(ops, replies);
    }
}

/// An operation that waits for the panel does not complete while BUSY stays
/// asserted.
pub proof fn law_stuck_panel<E>(ops: Seq<Op>, replies: Seq<Reply<E>>, i: int)
    requires
        0 <= i < ops.len(),
        ops[i] is Poll || ops[i] is Hook,
        forall|j: int|
            0 <= j < replies.len() && (#[trigger] replies[j] is Busy) ==> replies[j] == Reply::<
                E,
            >::Busy(Some(true)),
    ensures
        run(start(ops), replies).end != completed::<E>(),
    decreases replies.len(),
{
    if replies.len() > 0 {
        let rest = replies.drop_first();
        let next = after(start(ops), replies[0]);
        lemma_left(ops, replies[0]);
        assert(replies[0] is Busy ==> replies[0] == Reply::<E>::Busy(Some(true)));
        assert forall|j: int| 0 <= j < rest.len() && (#[trigger] rest[j] is Busy) implies rest[j]
            == Reply::<E>::Busy(Some(true)) by {
            assert(rest[j] == replies[j + 1]);
        }
        match next {
            State::Ended(_) => {
                assert(run(next, rest).end == next);
                assert(next != completed::<E>()) by {
                    if ops.len() > 1 {
                        assert(ops.drop_first().len() > 0);
                    }
                }
            },
            State::Running(left) => {
                let front = left.len() - ops.len();
                let k = if i == 0 {
                    choose|k: int| 0 <= k < left.len() && (left[k] is Poll || left[k] is Hook)
                } else {
                    i + front
                };
                if i == 0 && left != ops {
                    match ops[0] {
                        Op::Poll(wait, polls) => {
                            assert(left[0] is Hook || left[probe_ops(wait).len() as int] is Poll);
                        },
                        Op::Hook(wait, polls) => {
                            assert(left[probe_ops(wait).len() as int] is Poll);
                        },
                        _ => {},
                    }
                }
                law_stuck_panel(left, rest, k);
            },
        }
    }
}

// ---------------------------------------------------------------------------
// Scripts

/// Every wait of a script has a limit.
pub open spec fn limited(script: Seq<Block>) -> bool {
    forall|i: int|
        0 <= i < script.len() ==> (#[trigger] script[i] matches Block::Wait(wait)
            ==> wait.max_polls is Some)
}

pub broadcast proof fn lemma_limited_push(script: Seq<Block>, block: Block)
    ensures
        #[trigger] limited(script.push(block)) == (limited(script) && (block matches Block::Wait(
            wait,
        ) ==> wait.max_polls is Some)),
{
    let longer = script.push(block);
    if limited(longer) {
        assert forall|i: int| 0 <= i < script.len() implies (#[trigger] script[i] matches
            Block::Wait(wait) ==> wait.max_polls is Some) by {
            assert(longer[i] == script[i]);
        }
        assert(longer[script.len() as int] == block);
    }
}

/// The most microseconds that an entry of a script can sleep. A wait with a
/// status command pauses once more than it can go round.
pub open spec fn block_pause(block: Block) -> nat {
    match block {
        Block::Reset { initial_delay, duration } => (initial_delay + duration
            + RESET_SETTLE_US) as nat,
        Block::DelayMs(ms) => 1000 * ms as nat,
        Block::Wait(wait) => if wait.status_command is Some {
            wait.delay_us as nat * (wait.max_polls->0 as nat + 1)
        } else {
            wait.delay_us as nat * wait.max_polls->0 as nat
        },
        _ => 0,
    }
}

/// The most microseconds that a script can sleep.
pub open spec fn script_pause(script: Seq<Block>) -> nat
    decreases script.len(),
{
    if script.len() == 0 {
        0
    } else {
        script_pause(script.drop_last()) + block_pause(script.last())
    }
}

pub broadcast proof fn lemma_pause_push(script: Seq<Block>, block: Block)
    ensures
        #[trigger] script_pause(script.push(block)) == script_pause(script) + block_pause(block),
{
    assert(script.push(block).drop_last() =~= script);
}

proof fn lemma_no_pause(ops: Seq<Op>)
    requires
        forall|i: int|
            0 <= i < ops.len() ==> {
                ||| #[trigger] ops[i] is Dc
                ||| ops[i] is Write
                ||| ops[i] is CancelPoint
            },
    ensures
        total_pause(ops) == 0,
        bounded(ops),
    decreases ops.len(),
{
    if ops.len() > 0 {
        assert(ops[0] is Dc || ops[0] is Write || ops[0] is CancelPoint);
        lemma_no_pause(ops.drop_first());
        assert forall|i: int| 0 <= i < ops.len() implies is_bounded(#[trigger] ops[i]) by {
            assert(ops[i] is Dc || ops[i] is Write || ops[i] is CancelPoint);
        }
    }
}

proof fn lemma_bands_no_pause(link: Link, bands: Seq<Seq<u8>>, invert: bool)
    ensures
        total_pause(bands_ops(link, bands, invert)) == 0,
        bounded(bands_ops(link, bands, invert)),
    decreases bands.len(),
{
    if bands.len() > 0 {
        let band = band_ops(link, bands[0], invert);
        lemma_no_pause(band);
        lemma_bands_no_pause(link, bands.drop_first(), invert);
        lemma_total_append(
            band,
            bands_ops(link, bands.drop_first(), invert),
            |op: Op| pause_bound(op),
        );
    }
}

proof fn lemma_block_pause(link: Link, block: Block)
    requires
        block matches Block::Wait(wait) ==> wait.max_polls is Some,
    ensures
        total_pause(block_ops(link, block)) == block_pause(block),
        bounded(block_ops(link, block)),
{
    let pauses = |op: Op| pause_bound(op);
    match block {
        Block::Reset { initial_delay, duration } => {
            let ops = reset_ops(initial_delay, duration);
            assert(ops =~= seq![Op::Rst(true)] + seq![Op::DelayUs(initial_delay)] + seq![
                Op::Rst(false),
            ] + seq![Op::DelayUs(duration)] + seq![Op::Rst(true)] + seq![
                Op::DelayUs(RESET_SETTLE_US),
            ]);
            let a = seq![Op::Rst(true)];
            let b = a + seq![Op::DelayUs(initial_delay)];
            let c = b + seq![Op::Rst(false)];
            let d = c + seq![Op::DelayUs(duration)];
            let e = d + seq![Op::Rst(true)];
            lemma_total_append(a, seq![Op::DelayUs(initial_delay)], pauses);
            lemma_total_append(b, seq![Op::Rst(false)], pauses);
            lemma_total_append(c, seq![Op::DelayUs(duration)], pauses);
            lemma_total_append(d, seq![Op::Rst(true)], pauses);
            lemma_total_append(e, seq![Op::DelayUs(RESET_SETTLE_US)], pauses);
            lemma_total_one(Op::Rst(true), pauses);
            lemma_total_one(Op::Rst(false), pauses);
            lemma_total_one(Op::DelayUs(initial_delay), pauses);
            lemma_total_one(Op::DelayUs(duration), pauses);
            lemma_total_one(Op::DelayUs(RESET_SETTLE_US), pauses);
        },
        Block::DelayMs(ms) => {
            lemma_total_one(Op::DelayMs(ms), pauses);
        },
        Block::Bands(bytes, invert) => {
            lemma_bands_no_pause(link, chunks(bytes, ASYNC_WRITE_CHUNK as nat), invert);
        },
        Block::Wait(wait) => {
            let poll = Op::Poll(wait, 0);
            lemma_total_one(poll, pauses);
            lemma_total_probe(wait, pauses);
            lemma_total_append(probe_ops(wait), seq![poll], pauses);
            if wait.status_command is None {
                assert(wait_ops(wait) =~= seq![poll]);
            }
            let d = wait.delay_us as int;
            let k = wait.max_polls->0 as int;
            assert(d * (k + 1) == d + d * k) by (nonlinear_arith);
        },
        _ => {
            lemma_no_pause(block_ops(link, block));
        },
    }
}

pub proof fn lemma_script_pause(link: Link, script: Seq<Block>)
    requires
        limited(script),
    ensures
        total_pause(script_ops(link, script)) == script_pause(script),
        bounded(script_ops(link, script)),
    decreases script.len(),
{
    if script.len() > 0 {
        let init = script.drop_last();
        assert(limited(init));
        assert(script.last() == script[script.len() - 1]);
        lemma_script_pause(link, init);
        lemma_block_pause(link, script.last());
        lemma_total_append(
            script_ops(link, init),
            block_ops(link, script.last()),
            |op: Op| pause_bound(op),
        );
    }
}

/// A script whose waits are limited does not hang: it asks for a limited number of
/// actions, and if they are answered it comes to an end; and it sleeps for a
/// limited time.
pub proof fn law_limited_script_ends<E>(link: Link, script: Seq<Block>, replies: Seq<Reply<E>>)
    requires
        limited(script),
    ensures
        ({
            let ops = script_ops(link, script);
            let course = run(start::<E>(ops), replies);
            &&& course.signals.len() <= total_actions(ops)
            &&& all_answer(start(ops), replies) && replies.len() >= total_actions(ops)
                ==> course.end is Ended
            &&& slept(course.signals) <= script_pause(script)
        }),
{
    lemma_script_pause(link, script);
    law_bounded_operation_ends(script_ops(link, script), replies);
}

proof fn lemma_bands_fresh(link: Link, bands: Seq<Seq<u8>>, invert: bool)
    ensures
        fresh(bands_ops(link, bands, invert)),
    decreases bands.len(),
{
    if bands.len() > 0 {
        lemma_bands_fresh(link, bands.drop_first(), invert);
    }
}

/// A script as the driver lays it out is fresh, and a wait in it is a poll.
pub proof fn lemma_script_fresh(link: Link, script: Seq<Block>)
    ensures
        fresh(script_ops(link, script)),
        (exists|i: int| 0 <= i < script.len() && #[trigger] script[i] is Wait) ==> exists|k: int|
            0 <= k < script_ops(link, script).len() && #[trigger] script_ops(
                link,
                script,
            )[k] is Poll,
    decreases script.len(),
{
    if script.len() > 0 {
        let init = script.drop_last();
        let a = script_ops(link, init);
        let b = block_ops(link, script.last());
        lemma_script_fresh(link, init);
        if let Block::Bands(bytes, invert) = script.last() {
            lemma_bands_fresh(link, chunks(bytes, ASYNC_WRITE_CHUNK as nat), invert);
        }
        assert(fresh(b));
        if exists|i: int| 0 <= i < script.len() && #[trigger] script[i] is Wait {
            if let Block::Wait(wait) = script.last() {
                let k = (a + b).len() - 1;
                assert((a + b)[k] is Poll);
            } else {
                let i = choose|i: int| 0 <= i < script.len() && #[trigger] script[i] is Wait;
                assert(init[i] is Wait);
                let k = choose|k: int| 0 <= k < a.len() && #[trigger] a[k] is Poll;
                assert((a + b)[k] is Poll);
            }
        }
    }
}

/// A failed write or a cancellation.
pub open spec fn disturbs<E>(reply: Reply<E>) -> bool {
    match reply {
        Reply::Written(result) => result is Err,
        Reply::Cancel(cancel) => cancel,
        _ => false,
    }
}

/// No write fails and nobody cancels.
pub open spec fn undisturbed<E>(replies: Seq<Reply<E>>) -> bool {
    forall|j: int| 0 <= j < replies.len() ==> !disturbs(#[trigger] replies[j])
}

/// If no write fails and nobody cancels, an operation that ends has completed or timed
/// out.
pub proof fn law_undisturbed_end<E>(ops: Seq<Op>, replies: Seq<Reply<E>>)
    requires
        fresh(ops),
    ensures
        ({
            let course = run(start::<E>(ops), replies);
            undisturbed(replies) && course.end is Ended ==> course.end == completed::<E>()
                || course.end == timed_out::<E>()
        }),
{
    law_no_end_without_cause(ops, replies);
    let course = run(start::<E>(ops), replies);
    if undisturbed(replies) && course.end is Ended {
        match course.end {
            State::Ended(Err(BusyTimeoutError::Spi(e))) => {
                assert(replies.contains(Reply::Written(Err(e))));
                let j = choose|j: int|
                    0 <= j < replies.len() && replies[j] == Reply::<E>::Written(Err(e));
                assert(!disturbs(replies[j]));
                assert(false);
            },
            State::Ended(Ok(RefreshOutcome::Cancelled)) => {
                assert(replies.contains(Reply::Cancel(true)));
                let j = choose|j: int|
                    0 <= j < replies.len() && replies[j] == Reply::<E>::Cancel(true);
                assert(!disturbs(replies[j]));
                assert(false);
            },
            _ => {},
        }
    }
}

/// A stuck panel is reported: while BUSY stays asserted, a script that waits
/// for the panel does not complete; and if no write fails and nobody cancels, the
/// only way in which it ends is the timeout.
pub proof fn law_stuck_panel_is_reported<E>(
    link: Link,
    script: Seq<Block>,
    i: int,
    replies: Seq<Reply<E>>,
)
    requires
        0 <= i < script.len(),
        script[i] is Wait,
        forall|j: int|
            0 <= j < replies.len() && (#[trigger] replies[j] is Busy) ==> replies[j] == Reply::<
                E,
            >::Busy(Some(true)),
    ensures
        ({
            let course = run(start::<E>(script_ops(link, script)), replies);
            &&& course.end != completed::<E>()
            &&& undisturbed(replies) && course.end is Ended ==> course.end == timed_out::<E>()
        }),
{
    let ops = script_ops(link, script);
    lemma_script_fresh(link, script);
    assert(script[i] is Wait);
    let k = choose|k: int| 0 <= k < ops.len() && #[trigger] ops[k] is Poll;
    law_stuck_panel(ops, replies, k);
    law_undisturbed_end(ops, replies);
}

/// A bounded wait in a script sleeps no longer than its cap and one poll period.
pub proof fn lemma_wait_pause(
    status_command: u8,
    is_busy_low: bool,
    delay_us: u32,
    timeout_us: u32,
    cancellable: bool,
)
    ensures
        block_pause(
            Block::Wait(
                busy_wait(
                    Some(status_command),
                    is_busy_low,
                    delay_us,
                    Some(timeout_us),
                    cancellable,
                ),
            ),
        ) <= timeout_us + delay_us,
{
    let d = delay_us as int;
    let t = timeout_us as int;
    let k = poll_limit(delay_us, timeout_us) as int;
    assert(d * (k + 1) == d * k + d) by (nonlinear_arith);
    if d > 0 {
        assert(d * k <= t) by (nonlinear_arith)
            requires
                d > 0,
                t >= 0,
                k == t / d,
        ;
    } else {
        assert(d * k == 0) by (nonlinear_arith)
            requires
                d == 0,
        ;
    }
}

} // verus!
