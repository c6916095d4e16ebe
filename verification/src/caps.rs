//! Time caps: what a longer cap, or none at all, changes about a run.
use crate::operation::{
    after, answers, busy_wait, next_poll, poll_limit, probe_ops, round_ops, signal, start,
    BusyWait, Op, Reply, State,
};
use crate::runs::{lemma_left, run, timed_out, Run};
use crate::script::{block_ops, script_ops, Block, Link};
use vstd::prelude::*;

verus! {

/// Whether the second wait loop, after so many polls, is the first one with more polls
/// left or no limit.
pub open spec fn looser_wait(wait: BusyWait, polls: u32, other: BusyWait, others: u32) -> bool {
    &&& other == (BusyWait { max_polls: other.max_polls, ..wait })
    &&& other.max_polls matches Some(most) ==> wait.max_polls matches Some(least) && least <= most
        && polls == others
}

/// Whether the second entry is the first one, or the same wait with a looser limit.
pub open spec fn looser(op: Op, other: Op) -> bool {
    match (op, other) {
        (Op::Poll(wait, polls), Op::Poll(wait2, polls2)) => looser_wait(
            wait,
            polls,
            wait2,
            polls2,
        ),
        (Op::Hook(wait, polls), Op::Hook(wait2, polls2)) => looser_wait(
            wait,
            polls,
            wait2,
            polls2,
        ),
        _ => op == other,
    }
}

pub open spec fn all_looser(ops: Seq<Op>, others: Seq<Op>) -> bool {
    &&& ops.len() == others.len()
    &&& forall|i: int| 0 <= i < ops.len() ==> looser(#[trigger] ops[i], others[i])
}

/// The next round of a looser wait.
proof fn lemma_looser_round(
    wait: BusyWait,
    polls: u32,
    rest: Seq<Op>,
    other: BusyWait,
    others: u32,
    rest2: Seq<Op>,
)
    requires
        looser_wait(wait, polls, other, others),
        all_looser(rest, rest2),
    ensures
        all_looser(round_ops(wait, polls) + rest, round_ops(other, others) + rest2),
{
    let a = round_ops(wait, polls) + rest;
    let b = round_ops(other, others) + rest2;
    let n = probe_ops(wait).len() as int;
    assert(probe_ops(wait) == probe_ops(other));
    assert(looser(next_poll(wait, polls), next_poll(other, others)));
    assert forall|i: int| 0 <= i < a.len() implies looser(#[trigger] a[i], b[i]) by {
        if i < n {
            assert(a[i] == probe_ops(wait)[i] && b[i] == a[i]);
        } else if i > n {
            assert(a[i] == rest[i - n - 1] && b[i] == rest2[i - n - 1]);
        }
    }
}

/// Whether the second run is the first one, for as long as that does not time out: the
/// same was asked for, it has come to the same end, if it has, and else the same is left
/// to do, with looser limits. If the first one has timed out, the second one has asked
/// for all that it did.
pub open spec fn same_until_timeout<E>(tight: Run<E>, loose: Run<E>) -> bool {
    &&& tight.end != timed_out::<E>() ==> loose.signals == tight.signals
    &&& tight.signals.is_prefix_of(loose.signals)
    &&& match tight.end {
        State::Ended(_) => tight.end == timed_out::<E>() || loose.end == tight.end,
        State::Running(left) => loose.end matches State::Running(left2) && all_looser(left, left2),
    }
}

/// Looser limits change nothing about a run, whatever the replies, unless the tighter
/// ones time out.
pub proof fn law_looser_limits<E>(ops: Seq<Op>, others: Seq<Op>, replies: Seq<Reply<E>>)
    requires
        all_looser(ops, others),
    ensures
        same_until_timeout(run(start(ops), replies), run(start(others), replies)),
    decreases replies.len(),
{
    if ops.len() > 0 && replies.len() > 0 {
        let rest = ops.drop_first();
        let rest2 = others.drop_first();
        let replies_left = replies.drop_first();
        let next = after(start(ops), replies[0]);
        let next2 = after(start(others), replies[0]);
        let tight = run(start(ops), replies);
        let loose = run(start(others), replies);
        lemma_left(ops, replies[0]);
        lemma_left(others, replies[0]);
        assert(looser(ops[0], others[0]));
        assert(signal(ops[0]) == signal(others[0]));
        assert(answers(ops[0], replies[0]) == answers(others[0], replies[0]));
        assert(all_looser(rest, rest2)) by {
            assert forall|i: int| 0 <= i < rest.len() implies looser(
                #[trigger] rest[i],
                rest2[i],
            ) by {
                assert(looser(ops[i + 1], others[i + 1]));
            }
        }
        match (ops[0], others[0]) {
            (Op::Poll(wait, polls), Op::Poll(wait2, polls2)) => {
                lemma_looser_round(wait, polls, rest, wait2, polls2, rest2);
                let hook = seq![Op::Hook(wait, polls)] + rest;
                let hook2 = seq![Op::Hook(wait2, polls2)] + rest2;
                assert(all_looser(hook, hook2)) by {
                    assert forall|i: int| 0 <= i < hook.len() implies looser(
                        #[trigger] hook[i],
                        hook2[i],
                    ) by {
                        if i > 0 {
                            assert(looser(rest[i - 1], rest2[i - 1]));
                        }
                    }
                }
            },
            (Op::Hook(wait, polls), Op::Hook(wait2, polls2)) => {
                lemma_looser_round(wait, polls, rest, wait2, polls2, rest2);
            },
            _ => {},
        }
        match (next, next2) {
            (State::Running(left), State::Running(left2)) => {
                assert(all_looser(left, left2));
                law_looser_limits(left, left2, replies_left);
            },
            _ => {
                assert(next is Ended);
                assert(next == timed_out::<E>() || next2 == next);
                assert(run(next, replies_left).signals =~= Seq::empty());
            },
        }
    }
}

// ---------------------------------------------------------------------------
// Scripts

/// Whether the second entry of a script is the first one, or the same wait with a looser
/// limit.
pub open spec fn looser_block(block: Block, other: Block) -> bool {
    match (block, other) {
        (Block::Wait(wait), Block::Wait(wait2)) => looser_wait(wait, 0, wait2, 0),
        _ => block == other,
    }
}

pub open spec fn looser_script(script: Seq<Block>, other: Seq<Block>) -> bool {
    &&& script.len() == other.len()
    &&& forall|i: int| 0 <= i < script.len() ==> looser_block(#[trigger] script[i], other[i])
}

pub broadcast proof fn lemma_looser_push(
    script: Seq<Block>,
    block: Block,
    other: Seq<Block>,
    block2: Block,
)
    requires
        looser_script(script, other),
        looser_block(block, block2),
    ensures
        #[trigger] looser_script(script.push(block), other.push(block2)),
{
    let a = script.push(block);
    let b = other.push(block2);
    assert forall|i: int| 0 <= i < a.len() implies looser_block(#[trigger] a[i], b[i]) by {
        if i < script.len() {
            assert(looser_block(script[i], other[i]));
        }
    }
}

proof fn lemma_looser_script(link: Link, script: Seq<Block>, other: Seq<Block>)
    requires
        looser_script(script, other),
    ensures
        all_looser(script_ops(link, script), script_ops(link, other)),
    decreases script.len(),
{
    if script.len() > 0 {
        let init = script.drop_last();
        let init2 = other.drop_last();
        let last = script[script.len() - 1];
        let last2 = other[other.len() - 1];
        assert(looser_block(last, last2));
        assert(looser_script(init, init2)) by {
            assert forall|i: int| 0 <= i < init.len() implies looser_block(
                #[trigger] init[i],
                init2[i],
            ) by {
                assert(looser_block(script[i], other[i]));
            }
        }
        lemma_looser_script(link, init, init2);
        let a = script_ops(link, init);
        let a2 = script_ops(link, init2);
        let b = block_ops(link, last);
        let b2 = block_ops(link, last2);
        if let (Block::Wait(wait), Block::Wait(wait2)) = (last, last2) {
            assert(probe_ops(wait) == probe_ops(wait2));
        }
        assert(all_looser(b, b2));
        assert forall|i: int| 0 <= i < (a + b).len() implies looser(
            #[trigger] (a + b)[i],
            (a2 + b2)[i],
        ) by {
            if i < a.len() {
                assert(looser(a[i], a2[i]));
            } else {
                assert(looser(b[i - a.len()], b2[i - a.len()]));
            }
        }
    }
}

/// Looser limits in the waits of a script change nothing about its run, unless the
/// tighter ones time out.
pub proof fn law_looser_script<E>(
    link: Link,
    script: Seq<Block>,
    other: Seq<Block>,
    replies: Seq<Reply<E>>,
)
    requires
        looser_script(script, other),
    ensures
        same_until_timeout(
            run(start::<E>(script_ops(link, script)), replies),
            run(start::<E>(script_ops(link, other)), replies),
        ),
{
    lemma_looser_script(link, script, other);
    law_looser_limits(script_ops(link, script), script_ops(link, other), replies);
}

/// Whether the second time cap is longer than the first, equal, or none.
pub open spec fn looser_cap(cap_us: Option<u32>, other_us: Option<u32>) -> bool {
    other_us matches Some(most) ==> cap_us matches Some(least) && least <= most
}

/// A looser cap gives a looser limit.
pub proof fn lemma_looser_cap(
    status_command: Option<u8>,
    is_busy_low: bool,
    delay_us: u32,
    cap_us: Option<u32>,
    other_us: Option<u32>,
    cancellable: bool,
)
    requires
        looser_cap(cap_us, other_us),
    ensures
        looser_block(
            Block::Wait(busy_wait(status_command, is_busy_low, delay_us, cap_us, cancellable)),
            Block::Wait(busy_wait(status_command, is_busy_low, delay_us, other_us, cancellable)),
        ),
{
    if let (Some(least), Some(most)) = (cap_us, other_us) {
        let d: int = if delay_us == 0 {
            1
        } else {
            delay_us as int
        };
        let (t, u) = (least as int, most as int);
        assert(t / d <= u / d) by (nonlinear_arith)
            requires
                d > 0,
                t <= u,
        ;
        assert(poll_limit(delay_us, least) <= poll_limit(delay_us, most));
    }
}

} // verus!
