//! Cancellation and timeouts: which operations can end that way, and what the
//! panel has been sent by then.
use crate::operation::{after, answers, signal, start, BusyWait, Op, Reply, Signal, State};
use crate::runs::{
    asked, cancelled, completed, law_one_after_the_other, lemma_left, run, taken, timed_out,
};
use crate::script::{
    bands_ops, block_ops, chunks, lemma_script_push, script_ops, wait_ops, Block, Link,
    ASYNC_WRITE_CHUNK,
};
use crate::wire::{
    all_transfers, avoids, commands_ok, data_ok, law_only_allowed_transfers, lemma_avoids,
    lemma_script_allowed, lemma_transfers_append, lemma_wait_allowed, level_after, no_command,
    only_command, transfers, Transfer,
};
use vstd::prelude::*;

verus! {

/// Whether the cancel hook can be asked in the course of an entry.
pub open spec fn asks(op: Op) -> bool {
    match op {
        Op::CancelPoint => true,
        Op::Poll(wait, _) => wait.cancellable,
        Op::Hook(_, _) => true,
        _ => false,
    }
}

/// Whether an entry can run out of time.
pub open spec fn expires(op: Op) -> bool {
    match op {
        Op::Poll(wait, _) => wait.max_polls is Some,
        Op::Hook(wait, _) => wait.max_polls is Some,
        _ => false,
    }
}

pub open spec fn never_asks(ops: Seq<Op>) -> bool {
    forall|i: int| 0 <= i < ops.len() ==> !asks(#[trigger] ops[i])
}

pub open spec fn never_expires(ops: Seq<Op>) -> bool {
    forall|i: int| 0 <= i < ops.len() ==> !expires(#[trigger] ops[i])
}

/// How many times the cancel hook was asked in the course of a run.
pub open spec fn questions(signals: Seq<Signal>) -> nat
    decreases signals.len(),
{
    if signals.len() == 0 {
        0
    } else {
        (if signals[0] == Signal::AskCancel {
            1nat
        } else {
            0nat
        }) + questions(signals.drop_first())
    }
}

pub proof fn lemma_questions_append(a: Seq<Signal>, b: Seq<Signal>)
    ensures
        questions(a + b) == questions(a) + questions(b),
    decreases a.len(),
{
    if a.len() == 0 {
        assert(a + b =~= b);
    } else {
        assert((a + b).drop_first() =~= a.drop_first() + b);
        lemma_questions_append(a.drop_first(), b);
    }
}

pub proof fn lemma_no_questions(ops: Seq<Op>)
    requires
        never_asks(ops),
    ensures
        questions(asked(ops)) == 0,
    decreases ops.len(),
{
    if ops.len() > 0 {
        assert(!asks(ops[0]));
        assert(asked(ops).drop_first() =~= asked(ops.drop_first()));
        lemma_no_questions(ops.drop_first());
    }
}

/// An operation without a cancellation point never asks the hook and is never
/// cancelled.
pub proof fn law_not_cancellable<E>(ops: Seq<Op>, replies: Seq<Reply<E>>)
    requires
        never_asks(ops),
    ensures
        run(start(ops), replies).end != cancelled::<E>(),
        !run(start(ops), replies).signals.contains(Signal::AskCancel),
    decreases replies.len(),
{
    if ops.len() > 0 && replies.len() > 0 {
        let next = after(start(ops), replies[0]);
        let rest = replies.drop_first();
        lemma_left(ops, replies[0]);
        assert(!asks(ops[0]));
        if let State::Running(left) = next {
            assert(never_asks(left));
            law_not_cancellable(left, rest);
        } else {
            assert(run(next, rest).signals =~= Seq::empty());
        }
        let tail = run(next, rest).signals;
        assert(!tail.contains(Signal::AskCancel));
        assert forall|i: int| 0 <= i < run(start(ops), replies).signals.len() implies run(
            start(ops),
            replies,
        ).signals[i] != Signal::AskCancel by {
            if answers(ops[0], replies[0]) && i > 0 {
                assert(run(start(ops), replies).signals[i] == tail[i - 1]);
                assert(tail.contains(tail[i - 1]));
            } else if !answers(ops[0], replies[0]) {
                assert(tail.contains(tail[i]));
            }
        }
    }
}

/// An operation without a bounded wait never times out.
pub proof fn law_no_timeout<E>(ops: Seq<Op>, replies: Seq<Reply<E>>)
    requires
        never_expires(ops),
    ensures
        run(start(ops), replies).end != timed_out::<E>(),
    decreases replies.len(),
{
    if ops.len() > 0 && replies.len() > 0 {
        let next = after(start(ops), replies[0]);
        let rest = replies.drop_first();
        lemma_left(ops, replies[0]);
        assert(!expires(ops[0]));
        if let State::Running(left) = next {
            assert(never_expires(left));
            law_no_timeout(left, rest);
        } else {
            assert(run(next, rest).end == next);
        }
    }
}

/// Whether the cancel hook can be asked in the course of an entry of a script.
pub open spec fn block_asks(block: Block) -> bool {
    match block {
        Block::CancelPoint => true,
        Block::Bands(_, _) => true,
        Block::Wait(wait) => wait.cancellable,
        _ => false,
    }
}

/// Whether an entry of a script can run out of time.
pub open spec fn block_expires(block: Block) -> bool {
    block matches Block::Wait(wait) && wait.max_polls is Some
}

/// No entry asks the cancel hook.
pub open spec fn uncancellable(script: Seq<Block>) -> bool {
    forall|i: int| 0 <= i < script.len() ==> !block_asks(#[trigger] script[i])
}

/// No entry can run out of time.
pub open spec fn unlimited(script: Seq<Block>) -> bool {
    forall|i: int| 0 <= i < script.len() ==> !block_expires(#[trigger] script[i])
}

proof fn lemma_bands_expire(link: Link, bands: Seq<Seq<u8>>, invert: bool)
    ensures
        never_expires(bands_ops(link, bands, invert)),
    decreases bands.len(),
{
    if bands.len() > 0 {
        lemma_bands_expire(link, bands.drop_first(), invert);
    }
}

pub broadcast proof fn lemma_uncancellable_push(script: Seq<Block>, block: Block)
    ensures
        #[trigger] uncancellable(script.push(block)) == (uncancellable(script) && !block_asks(
            block,
        )),
{
    let longer = script.push(block);
    if uncancellable(longer) {
        assert forall|i: int| 0 <= i < script.len() implies !block_asks(#[trigger] script[i]) by {
            assert(longer[i] == script[i]);
        }
        assert(longer[script.len() as int] == block);
    }
}

pub broadcast proof fn lemma_unlimited_push(script: Seq<Block>, block: Block)
    ensures
        #[trigger] unlimited(script.push(block)) == (unlimited(script) && !block_expires(block)),
{
    let longer = script.push(block);
    if unlimited(longer) {
        assert forall|i: int| 0 <= i < script.len() implies !block_expires(
            #[trigger] script[i],
        ) by {
            assert(longer[i] == script[i]);
        }
        assert(longer[script.len() as int] == block);
    }
}

pub proof fn lemma_uncancellable(link: Link, script: Seq<Block>)
    requires
        uncancellable(script),
    ensures
        never_asks(script_ops(link, script)),
    decreases script.len(),
{
    if script.len() > 0 {
        assert(script.last() == script[script.len() - 1]);
        assert(never_asks(block_ops(link, script.last())));
        lemma_uncancellable(link, script.drop_last());
    }
}

pub proof fn lemma_unlimited(link: Link, script: Seq<Block>)
    requires
        unlimited(script),
    ensures
        never_expires(script_ops(link, script)),
    decreases script.len(),
{
    if script.len() > 0 {
        assert(script.last() == script[script.len() - 1]);
        if let Block::Bands(bytes, invert) = script.last() {
            lemma_bands_expire(link, chunks(bytes, ASYNC_WRITE_CHUNK as nat), invert);
        }
        assert(never_expires(block_ops(link, script.last())));
        lemma_unlimited(link, script.drop_last());
    }
}

pub proof fn lemma_script_append(link: Link, a: Seq<Block>, b: Seq<Block>)
    ensures
        script_ops(link, a + b) == script_ops(link, a) + script_ops(link, b),
    decreases b.len(),
{
    if b.len() == 0 {
        assert(a + b =~= a);
        assert(script_ops(link, a) + script_ops(link, b) =~= script_ops(link, a));
    } else {
        assert((a + b).drop_last() =~= a + b.drop_last());
        lemma_script_append(link, a, b.drop_last());
        assert(script_ops(link, a + b) =~= script_ops(link, a) + script_ops(link, b));
    }
}

/// If a script is cancelled, its part from the last cancellation point on has
/// not been reached: nothing was sent that the part before does not send.
pub proof fn law_cancelled_before<E>(
    link: Link,
    before: Seq<Block>,
    rest: Seq<Block>,
    dc: bool,
    ok: spec_fn(Transfer) -> bool,
    replies: Seq<Reply<E>>,
)
    requires
        data_ok(link, ok),
        commands_ok(before, ok),
        uncancellable(rest),
        run(start(script_ops(link, before + rest)), replies).end == cancelled::<E>(),
    ensures
        all_transfers(run(start(script_ops(link, before + rest)), replies).signals, dc, ok),
{
    let a = script_ops(link, before);
    let b = script_ops(link, rest);
    lemma_script_append(link, before, rest);
    law_one_after_the_other(a, b, replies);
    lemma_uncancellable(link, rest);
    law_not_cancellable(b, replies.skip(taken(a, replies) as int));
    lemma_script_allowed(link, before, dc, ok);
    law_only_allowed_transfers(a, dc, ok, replies);
}

/// If a script times out, its part after the last bounded wait has not been
/// reached: nothing was sent that the part before does not send.
pub proof fn law_timed_out_before<E>(
    link: Link,
    before: Seq<Block>,
    rest: Seq<Block>,
    dc: bool,
    ok: spec_fn(Transfer) -> bool,
    replies: Seq<Reply<E>>,
)
    requires
        data_ok(link, ok),
        commands_ok(before, ok),
        unlimited(rest),
        run(start(script_ops(link, before + rest)), replies).end == timed_out::<E>(),
    ensures
        all_transfers(run(start(script_ops(link, before + rest)), replies).signals, dc, ok),
{
    let a = script_ops(link, before);
    let b = script_ops(link, rest);
    lemma_script_append(link, before, rest);
    law_one_after_the_other(a, b, replies);
    lemma_unlimited(link, rest);
    law_no_timeout(b, replies.skip(taken(a, replies) as int));
    lemma_script_allowed(link, before, dc, ok);
    law_only_allowed_transfers(a, dc, ok, replies);
}

/// If a script times out in its first wait, nothing but the status command was
/// sent.
pub proof fn law_timed_out_in_wait<E>(
    link: Link,
    drain: Block,
    address: u8,
    rest: Seq<Block>,
    dc: bool,
    replies: Seq<Reply<E>>,
)
    requires
        drain matches Block::Wait(wait) && wait.status_command == Some(address),
        unlimited(rest),
        run(
            start(script_ops(link, Seq::<Block>::empty().push(drain) + rest)),
            replies,
        ).end == timed_out::<E>(),
    ensures
        all_transfers(
            run(
                start::<E>(script_ops(link, Seq::<Block>::empty().push(drain) + rest)),
                replies,
            ).signals,
            dc,
            only_command(address),
        ),
{
    broadcast use lemma_script_push;

    let entry = Seq::<Block>::empty().push(drain);
    let a = script_ops(link, entry);
    let b = script_ops(link, rest);
    lemma_script_append(link, entry, rest);
    law_one_after_the_other(a, b, replies);
    lemma_unlimited(link, rest);
    law_no_timeout(b, replies.skip(taken(a, replies) as int));
    if let Block::Wait(wait) = drain {
        assert(a =~= wait_ops(wait));
        lemma_wait_allowed(wait, address, dc);
        law_only_allowed_transfers(a, dc, only_command(address), replies);
    }
}

/// The first entries of an operation, as long as none of them is a wait loop,
/// are asked for one after the other.
pub proof fn lemma_prefix<E>(ops: Seq<Op>, n: int, replies: Seq<Reply<E>>)
    requires
        0 <= n <= ops.len(),
        forall|i: int| 0 <= i < n ==> !(#[trigger] ops[i] is Poll || ops[i] is Hook),
    ensures
        forall|i: int|
            0 <= i < n && i < run(start(ops), replies).signals.len() ==> #[trigger] run(
                start(ops),
                replies,
            ).signals[i] == signal(ops[i]),
        n == ops.len() ==> run(start(ops), replies).signals.len() <= n,
        n == ops.len() && run(start(ops), replies).end == completed::<E>() ==> run(
            start(ops),
            replies,
        ).signals.len() == n,
    decreases replies.len(),
{
    if n > 0 && replies.len() > 0 {
        let rest = ops.drop_first();
        let next = after(start(ops), replies[0]);
        let replies_left = replies.drop_first();
        lemma_left(ops, replies[0]);
        assert(!(ops[0] is Poll || ops[0] is Hook));
        if !answers(ops[0], replies[0]) {
            lemma_prefix(ops, n, replies_left);
        } else if let State::Running(left) = next {
            assert(left == rest || left == ops);
            assert(start::<E>(rest) == next || left == ops);
            lemma_prefix(rest, n - 1, replies_left);
            let tail = run(next, replies_left).signals;
            assert forall|i: int|
                0 <= i < n && i < run(start(ops), replies).signals.len() implies #[trigger] run(
                start(ops),
                replies,
            ).signals[i] == signal(ops[i]) by {
                if i > 0 {
                    assert(run(start(ops), replies).signals[i] == tail[i - 1]);
                    assert(tail[i - 1] == signal(rest[i - 1]));
                }
            }
        } else {
            assert(run(next, replies_left).signals =~= Seq::empty());
        }
    }
}

/// Whether the command is sent at most once in the course of a run, and then
/// right after the cancel hook was asked.
pub open spec fn guarded_command(signals: Seq<Signal>, dc: bool, address: u8) -> bool {
    all_transfers(signals, dc, no_command(address)) || exists|k: int|
        2 <= k < signals.len() && all_transfers(signals.take(k), dc, no_command(address))
            && signals[k - 2] == Signal::AskCancel && signals[k - 1] == Signal::Dc(false)
            && #[trigger] signals[k] == Signal::Write(seq![address]) && all_transfers(
            signals.skip(k + 1),
            false,
            no_command(address),
        )
}

/// A command that follows a cancellation point, and is in no other place of a
/// script, is sent at most once, and then right after the cancel hook was asked.
pub proof fn law_hook_guards_command<E>(
    link: Link,
    before: Seq<Block>,
    address: u8,
    rest: Seq<Block>,
    dc: bool,
    replies: Seq<Reply<E>>,
)
    requires
        avoids(before, address),
        avoids(rest, address),
    ensures
        ({
            let script = before.push(Block::CancelPoint).push(Block::Command(address)) + rest;
            guarded_command(
                run(start::<E>(script_ops(link, script)), replies).signals,
                dc,
                address,
            )
        }),
{
    broadcast use lemma_script_push;

    let guarded = Seq::<Block>::empty().push(Block::CancelPoint).push(Block::Command(address));
    let script = before.push(Block::CancelPoint).push(Block::Command(address)) + rest;
    let ok = no_command(address);
    let a = script_ops(link, before);
    let g = script_ops(link, guarded);
    let r = script_ops(link, rest);
    assert(script =~= before + (guarded + rest));
    lemma_script_append(link, before, guarded + rest);
    lemma_script_append(link, guarded, rest);
    assert(g =~= seq![Op::CancelPoint, Op::Dc(false), Op::Write(seq![address])]);
    law_one_after_the_other(a, g + r, replies);
    lemma_avoids(link, before, address);
    lemma_script_allowed(link, before, dc, ok);
    law_only_allowed_transfers(a, dc, ok, replies);
    let first = run(start(a), replies).signals;
    let signals = run(start::<E>(script_ops(link, script)), replies).signals;
    if run(start(a), replies).end == completed::<E>() {
        let replies2 = replies.skip(taken(a, replies) as int);
        let second = run(start::<E>(g + r), replies2).signals;
        let ask = run(start::<E>(g), replies2).signals;
        let replies3 = replies2.skip(taken(g, replies2) as int);
        let third = run(start::<E>(r), replies3).signals;
        assert(signals == first + second);
        law_one_after_the_other(g, r, replies2);
        lemma_prefix(g, 3, replies2);
        if ask.len() < 3 {
            assert(second == ask);
            lemma_no_transfers(ask, level_after(first, dc));
            lemma_transfers_append(first, ask, dc);
            assert(transfers(first + ask, dc) =~= transfers(first, dc));
        } else {
            let k = first.len() as int + 2;
            let head = ask.take(2);
            lemma_no_transfers(head, level_after(first, dc));
            lemma_transfers_append(first, head, dc);
            assert(transfers(first + head, dc) =~= transfers(first, dc));
            assert(signals.take(k) =~= first + head);
            assert(signals[k] == ask[2] && signals[k - 1] == ask[1] && signals[k - 2] == ask[0]);
            if run(start::<E>(g), replies2).end == completed::<E>() {
                assert(signals.skip(k + 1) =~= third);
                lemma_avoids(link, rest, address);
                lemma_script_allowed(link, rest, false, ok);
                law_only_allowed_transfers(r, false, ok, replies3);
            } else {
                assert(signals.skip(k + 1) =~= Seq::empty());
                lemma_no_transfers(signals.skip(k + 1), false);
            }
        }
    }
}

proof fn lemma_no_transfers(signals: Seq<Signal>, dc: bool)
    requires
        forall|i: int| 0 <= i < signals.len() ==> !(#[trigger] signals[i] is Write),
    ensures
        transfers(signals, dc) == Seq::<Transfer>::empty(),
    decreases signals.len(),
{
    if signals.len() > 0 {
        assert(!(signals[0] is Write));
        match signals[0] {
            Signal::Dc(high) => lemma_no_transfers(signals.drop_first(), high),
            _ => lemma_no_transfers(signals.drop_first(), dc),
        }
    }
}

/// The hook has been firing from the start.
pub open spec fn latched<E>(replies: Seq<Reply<E>>) -> bool {
    forall|i: int|
        0 <= i < replies.len() && (#[trigger] replies[i] is Cancel) ==> replies[i] == Reply::<
            E,
        >::Cancel(true)
}

proof fn lemma_latched_point<E>(ops: Seq<Op>, replies: Seq<Reply<E>>)
    requires
        ops.len() > 0,
        ops[0] is CancelPoint,
        latched(replies),
    ensures
        run(start(ops), replies).end != completed::<E>(),
        forall|i: int|
            0 <= i < run(start(ops), replies).signals.len() ==> #[trigger] run(
                start(ops),
                replies,
            ).signals[i] == Signal::AskCancel,
    decreases replies.len(),
{
    if replies.len() > 0 {
        let rest = replies.drop_first();
        let next = after(start(ops), replies[0]);
        assert(replies[0] is Cancel ==> replies[0] == Reply::<E>::Cancel(true));
        assert(latched(rest)) by {
            assert forall|i: int|
                0 <= i < rest.len() && (#[trigger] rest[i] is Cancel) implies rest[i] == Reply::<
                E,
            >::Cancel(true) by {
                assert(rest[i] == replies[i + 1]);
            }
        }
        if answers(ops[0], replies[0]) {
            assert(next == cancelled::<E>());
            assert(run(next, rest).signals =~= Seq::empty());
        } else {
            lemma_latched_point(ops, rest);
        }
    }
}

/// A cancel that is latched on entry is caught at the cancellation point after
/// the first wait, at the latest: the panel is sent nothing but the status
/// command, and the operation does not complete.
pub proof fn law_latched_cancel<E>(
    link: Link,
    wait: BusyWait,
    address: u8,
    rest: Seq<Block>,
    dc: bool,
    replies: Seq<Reply<E>>,
)
    requires
        wait.status_command == Some(address),
        latched(replies),
    ensures
        ({
            let script = Seq::<Block>::empty().push(Block::Wait(wait)).push(Block::CancelPoint)
                + rest;
            let course = run(start::<E>(script_ops(link, script)), replies);
            &&& all_transfers(course.signals, dc, only_command(address))
            &&& course.end != completed::<E>()
        }),
{
    broadcast use lemma_script_push;

    let entry = Seq::<Block>::empty().push(Block::Wait(wait));
    let point = Seq::<Block>::empty().push(Block::CancelPoint);
    let script = entry.push(Block::CancelPoint) + rest;
    let a = script_ops(link, entry);
    let b = script_ops(link, point + rest);
    assert(script =~= entry + (point + rest));
    lemma_script_append(link, entry, point + rest);
    lemma_script_append(link, point, rest);
    law_one_after_the_other(a, b, replies);
    let ok = only_command(address);
    let replies_left = replies.skip(taken(a, replies) as int);
    assert(latched(replies_left)) by {
        assert forall|i: int|
            0 <= i < replies_left.len() && (
            #[trigger] replies_left[i] is Cancel) implies replies_left[i] == Reply::<E>::Cancel(
            true,
        ) by {
            assert(replies_left[i] == replies[i + taken(a, replies)]);
        }
    }
    assert(a =~= wait_ops(wait));
    lemma_wait_allowed(wait, address, dc);
    law_only_allowed_transfers(a, dc, ok, replies);
    let first = run(start(a), replies).signals;
    let second = run(start::<E>(b), replies_left).signals;
    if run(start(a), replies).end == completed::<E>() {
        lemma_latched_point(b, replies_left);
        lemma_no_transfers(second, level_after(first, dc));
        lemma_transfers_append(first, second, dc);
        assert(transfers(first + second, dc) =~= transfers(first, dc));
    }
}

} // verus!
