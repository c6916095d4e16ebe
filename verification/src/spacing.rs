//! How much is sent between two questions to the cancel hook.
use crate::operation::{
    after, answers, command_ops, fill_ops, next_poll, pause_ops, probe_ops, round_ops, start,
    status_ops, BusyWait, Op, Reply, Signal, State,
};
use crate::packets::{joined, lemma_data_join, lemma_inverted_join, lemma_singles_join};
use crate::runs::{lemma_left, run};
use crate::script::{
    band_ops, bands_ops, block_ops, burst_ops, chunks, data_ops, data_parts, inverted_ops,
    inverted_parts, script_ops, singles, writes, Block, Link, ASYNC_WRITE_CHUNK,
};
use crate::wire::lemma_chunk_len;
use vstd::prelude::*;

verus! {

/// Whether never more than `limit` bytes are written between two questions to the
/// cancel hook, `carry` bytes having been written since the last one.
pub open spec fn spaced(signals: Seq<Signal>, carry: nat, limit: nat) -> bool
    decreases signals.len(),
{
    signals.len() == 0 || match signals[0] {
        Signal::Write(bytes) => carry + bytes.len() <= limit && spaced(
            signals.drop_first(),
            carry + bytes.len(),
            limit,
        ),
        Signal::AskCancel => spaced(signals.drop_first(), 0, limit),
        _ => spaced(signals.drop_first(), carry, limit),
    }
}

/// The most bytes since the last question after an entry.
spec fn carried(op: Op, carry: nat) -> nat {
    match op {
        Op::Write(bytes) => carry + bytes.len(),
        Op::CancelPoint => 0,
        Op::Poll(_, _) => if carry == 0 {
            1
        } else {
            carry
        },
        Op::Hook(_, _) => 1,
        _ => carry,
    }
}

/// Whether an entry keeps within the limit. A wait must be cancellable, so that
/// each of its rounds asks the hook.
spec fn keeps(op: Op, carry: nat, limit: nat) -> bool {
    match op {
        Op::Write(bytes) => carry + bytes.len() <= limit,
        Op::Poll(wait, _) => wait.cancellable && limit >= 1,
        Op::Hook(wait, _) => wait.cancellable && limit >= 1,
        _ => true,
    }
}

spec fn carried_over(ops: Seq<Op>, carry: nat) -> nat
    decreases ops.len(),
{
    if ops.len() == 0 {
        carry
    } else {
        carried_over(ops.drop_first(), carried(ops[0], carry))
    }
}

spec fn all_keep(ops: Seq<Op>, carry: nat, limit: nat) -> bool
    decreases ops.len(),
{
    ops.len() == 0 || (keeps(ops[0], carry, limit) && all_keep(
        ops.drop_first(),
        carried(ops[0], carry),
        limit,
    ))
}

proof fn lemma_keep_less(ops: Seq<Op>, carry: nat, less: nat, limit: nat)
    requires
        all_keep(ops, carry, limit),
        less <= carry,
    ensures
        all_keep(ops, less, limit),
        carried_over(ops, less) <= carried_over(ops, carry),
    decreases ops.len(),
{
    if ops.len() > 0 {
        lemma_keep_less(ops.drop_first(), carried(ops[0], carry), carried(ops[0], less), limit);
    }
}

proof fn lemma_keep_append(a: Seq<Op>, b: Seq<Op>, carry: nat, limit: nat)
    ensures
        all_keep(a + b, carry, limit) == (all_keep(a, carry, limit) && all_keep(
            b,
            carried_over(a, carry),
            limit,
        )),
        carried_over(a + b, carry) == carried_over(b, carried_over(a, carry)),
    decreases a.len(),
{
    if a.len() == 0 {
        assert(a + b =~= b);
    } else {
        assert((a + b).drop_first() =~= a.drop_first() + b);
        lemma_keep_append(a.drop_first(), b, carried(a[0], carry), limit);
    }
}

proof fn lemma_keep_one(op: Op, carry: nat, limit: nat)
    ensures
        all_keep(seq![op], carry, limit) == keeps(op, carry, limit),
        carried_over(seq![op], carry) == carried(op, carry),
{
    assert(seq![op].drop_first() =~= Seq::empty());
    assert(all_keep(seq![op].drop_first(), carried(op, carry), limit));
    assert(carried_over(seq![op].drop_first(), carried(op, carry)) == carried(op, carry));
}

proof fn lemma_keep_command(address: u8, carry: nat, limit: nat)
    requires
        carry + 1 <= limit,
    ensures
        all_keep(command_ops(address), carry, limit),
        carried_over(command_ops(address), carry) == carry + 1,
{
    let write = Op::Write(seq![address]);
    assert(command_ops(address) =~= seq![Op::Dc(false)] + seq![write]);
    lemma_keep_one(Op::Dc(false), carry, limit);
    lemma_keep_one(write, carry, limit);
    lemma_keep_append(seq![Op::Dc(false)], seq![write], carry, limit);
}

proof fn lemma_keep_probe(wait: BusyWait, carry: nat, limit: nat)
    requires
        carry + 1 <= limit,
    ensures
        all_keep(probe_ops(wait), carry, limit),
        carried_over(probe_ops(wait), carry) <= carry + 1,
{
    lemma_keep_append(status_ops(wait), pause_ops(wait), carry, limit);
    if let Some(address) = wait.status_command {
        lemma_keep_command(address, carry, limit);
    }
    lemma_keep_one(Op::DelayUs(wait.delay_us), carried_over(status_ops(wait), carry), limit);
}

proof fn lemma_keep_round(wait: BusyWait, polls: u32, rest: Seq<Op>, limit: nat)
    requires
        wait.cancellable,
        limit >= 1,
        all_keep(rest, 1, limit),
    ensures
        all_keep(round_ops(wait, polls) + rest, 0, limit),
{
    let poll = next_poll(wait, polls);
    let round = round_ops(wait, polls);
    lemma_keep_probe(wait, 0, limit);
    let c = carried_over(probe_ops(wait), 0);
    lemma_keep_append(probe_ops(wait), seq![poll], 0, limit);
    lemma_keep_one(poll, c, limit);
    lemma_keep_append(round, rest, 0, limit);
}

/// A plan that keeps within the limit does so whatever the replies.
proof fn lemma_spaced_run<E>(ops: Seq<Op>, carry: nat, limit: nat, replies: Seq<Reply<E>>)
    requires
        all_keep(ops, carry, limit),
    ensures
        spaced(run(start(ops), replies).signals, carry, limit),
    decreases replies.len(),
{
    if ops.len() > 0 && replies.len() > 0 {
        let rest = ops.drop_first();
        let replies_left = replies.drop_first();
        let next = after(start(ops), replies[0]);
        let signals = run(start(ops), replies).signals;
        lemma_left(ops, replies[0]);
        if !answers(ops[0], replies[0]) {
            lemma_spaced_run(ops, carry, limit, replies_left);
        } else {
            let tail = run(next, replies_left).signals;
            assert(signals.drop_first() =~= tail);
            if let State::Running(left) = next {
                match ops[0] {
                    Op::Poll(wait, polls) => {
                        let hook = seq![Op::Hook(wait, polls)];
                        lemma_keep_less(rest, carried(ops[0], carry), 1, limit);
                        lemma_keep_less(rest, carried(ops[0], carry), carry, limit);
                        lemma_keep_append(hook, rest, carry, limit);
                        lemma_keep_one(Op::Hook(wait, polls), carry, limit);
                        lemma_spaced_run(left, carry, limit, replies_left);
                    },
                    Op::Hook(wait, polls) => {
                        lemma_keep_round(wait, polls, rest, limit);
                        lemma_spaced_run(left, 0, limit, replies_left);
                    },
                    _ => {
                        lemma_spaced_run(left, carried(ops[0], carry), limit, replies_left);
                    },
                }
            } else {
                assert(tail =~= Seq::empty());
                assert(spaced(tail, 0, limit) && spaced(tail, carry, limit) && spaced(
                    tail,
                    carried(ops[0], carry),
                    limit,
                ));
            }
        }
    }
}

// ---------------------------------------------------------------------------
// Scripts

/// The most bytes since the last question after an entry of a script.
pub open spec fn block_carried(block: Block, carry: nat) -> nat {
    match block {
        Block::Command(_) => carry + 1,
        Block::Data(bytes) => carry + bytes.len(),
        Block::Setting(_, bytes) => carry + 1 + bytes.len(),
        Block::Inverted(bytes) => carry + bytes.len(),
        Block::Fill(_, times) => carry + times,
        Block::Bands(_, _) => if carry >= ASYNC_WRITE_CHUNK {
            carry
        } else {
            ASYNC_WRITE_CHUNK as nat
        },
        Block::Wait(_) => carry + 1,
        Block::CancelPoint => 0,
        _ => carry,
    }
}

/// Whether an entry of a script keeps within the limit.
pub open spec fn block_keeps(block: Block, carry: nat, limit: nat) -> bool {
    &&& block_carried(block, carry) <= limit
    &&& block matches Block::Wait(wait) ==> wait.cancellable
}

/// The most bytes since the last question after a script.
pub open spec fn script_carried(script: Seq<Block>) -> nat
    decreases script.len(),
{
    if script.len() == 0 {
        0
    } else {
        block_carried(script.last(), script_carried(script.drop_last()))
    }
}

/// Whether all entries of a script keep within the limit.
pub open spec fn script_keeps(script: Seq<Block>, limit: nat) -> bool
    decreases script.len(),
{
    script.len() == 0 || (script_keeps(script.drop_last(), limit) && block_keeps(
        script.last(),
        script_carried(script.drop_last()),
        limit,
    ))
}

pub broadcast proof fn lemma_keeps_push(script: Seq<Block>, block: Block, limit: nat)
    ensures
        #[trigger] script_keeps(script.push(block), limit) == (script_keeps(script, limit)
            && block_keeps(block, script_carried(script), limit)),
{
    assert(script.push(block).drop_last() =~= script);
}

pub broadcast proof fn lemma_carried_push(script: Seq<Block>, block: Block)
    ensures
        #[trigger] script_carried(script.push(block)) == block_carried(
            block,
            script_carried(script),
        ),
{
    assert(script.push(block).drop_last() =~= script);
}

proof fn lemma_keep_writes(parts: Seq<Seq<u8>>, carry: nat, limit: nat)
    requires
        carry + joined(parts).len() <= limit,
    ensures
        all_keep(writes(parts), carry, limit),
        carried_over(writes(parts), carry) == carry + joined(parts).len(),
    decreases parts.len(),
{
    if parts.len() > 0 {
        assert(writes(parts).drop_first() =~= writes(parts.drop_first()));
        lemma_keep_writes(parts.drop_first(), carry + parts[0].len(), limit);
    }
}

proof fn lemma_keep_burst(parts: Seq<Seq<u8>>, carry: nat, limit: nat)
    requires
        carry + joined(parts).len() <= limit,
    ensures
        all_keep(burst_ops(parts), carry, limit),
        carried_over(burst_ops(parts), carry) == carry + joined(parts).len(),
{
    lemma_keep_writes(parts, carry, limit);
    lemma_keep_one(Op::Dc(true), carry, limit);
    lemma_keep_append(seq![Op::Dc(true)], writes(parts), carry, limit);
}

proof fn lemma_keep_data(link: Link, bytes: Seq<u8>, carry: nat, limit: nat)
    requires
        carry + bytes.len() <= limit,
    ensures
        all_keep(data_ops(link, bytes), carry, limit),
        carried_over(data_ops(link, bytes), carry) == carry + bytes.len(),
{
    lemma_data_join(link, bytes);
    lemma_keep_burst(data_parts(link, bytes), carry, limit);
}

proof fn lemma_keep_inverted(bytes: Seq<u8>, carry: nat, limit: nat)
    requires
        carry + bytes.len() <= limit,
    ensures
        all_keep(inverted_ops(bytes), carry, limit),
        carried_over(inverted_ops(bytes), carry) == carry + bytes.len(),
{
    lemma_inverted_join(bytes);
    lemma_keep_burst(inverted_parts(bytes), carry, limit);
}

proof fn lemma_keep_bands(
    link: Link,
    bands: Seq<Seq<u8>>,
    invert: bool,
    carry: nat,
    limit: nat,
)
    requires
        forall|i: int| 0 <= i < bands.len() ==> (#[trigger] bands[i]).len() <= ASYNC_WRITE_CHUNK,
        limit >= ASYNC_WRITE_CHUNK,
    ensures
        all_keep(bands_ops(link, bands, invert), carry, limit),
        carried_over(bands_ops(link, bands, invert), carry) <= (if carry >= ASYNC_WRITE_CHUNK {
            carry
        } else {
            ASYNC_WRITE_CHUNK as nat
        }),
    decreases bands.len(),
{
    if bands.len() > 0 {
        let rest = bands.drop_first();
        let point = seq![Op::CancelPoint];
        let band = band_ops(link, bands[0], invert);
        let tail = bands_ops(link, rest, invert);
        assert(bands[0].len() <= ASYNC_WRITE_CHUNK);
        assert forall|i: int| 0 <= i < rest.len() implies (#[trigger] rest[i]).len()
            <= ASYNC_WRITE_CHUNK by {
            assert(rest[i] == bands[i + 1]);
        }
        lemma_keep_one(Op::CancelPoint, carry, limit);
        lemma_keep_data(link, bands[0], 0, limit);
        lemma_keep_inverted(bands[0], 0, limit);
        lemma_keep_append(point, data_ops(link, bands[0]), carry, limit);
        lemma_keep_append(point, inverted_ops(bands[0]), carry, limit);
        lemma_keep_bands(link, rest, invert, bands[0].len(), limit);
        lemma_keep_append(band, tail, carry, limit);
    }
}

proof fn lemma_keep_plain(ops: Seq<Op>, carry: nat, limit: nat)
    requires
        forall|i: int|
            0 <= i < ops.len() ==> {
                ||| #[trigger] ops[i] is Rst
                ||| ops[i] is DelayUs
                ||| ops[i] is DelayMs
            },
    ensures
        all_keep(ops, carry, limit),
        carried_over(ops, carry) == carry,
    decreases ops.len(),
{
    if ops.len() > 0 {
        assert(ops[0] is Rst || ops[0] is DelayUs || ops[0] is DelayMs);
        lemma_keep_plain(ops.drop_first(), carry, limit);
    }
}

proof fn lemma_keep_block(link: Link, block: Block, carry: nat, limit: nat)
    requires
        block_keeps(block, carry, limit),
    ensures
        all_keep(block_ops(link, block), carry, limit),
        carried_over(block_ops(link, block), carry) <= block_carried(block, carry),
{
    match block {
        Block::Command(address) => {
            lemma_keep_command(address, carry, limit);
        },
        Block::Data(bytes) => {
            lemma_keep_data(link, bytes, carry, limit);
        },
        Block::Setting(address, bytes) => {
            lemma_keep_command(address, carry, limit);
            lemma_keep_data(link, bytes, carry + 1, limit);
            lemma_keep_append(command_ops(address), data_ops(link, bytes), carry, limit);
        },
        Block::Inverted(bytes) => {
            lemma_keep_inverted(bytes, carry, limit);
        },
        Block::Fill(val, times) => {
            let bytes = Seq::new(times, |i: int| val);
            assert(fill_ops(val, times) =~= writes(singles(bytes)));
            lemma_singles_join(bytes);
            lemma_keep_burst(singles(bytes), carry, limit);
        },
        Block::Bands(bytes, invert) => {
            lemma_chunk_len(bytes, ASYNC_WRITE_CHUNK as nat);
            lemma_keep_bands(
                link,
                chunks(bytes, ASYNC_WRITE_CHUNK as nat),
                invert,
                carry,
                limit,
            );
        },
        Block::Wait(wait) => {
            let poll = Op::Poll(wait, 0);
            let probe = if wait.status_command is Some {
                probe_ops(wait)
            } else {
                Seq::empty()
            };
            lemma_keep_probe(wait, carry, limit);
            lemma_keep_append(probe, seq![poll], carry, limit);
            lemma_keep_one(poll, carried_over(probe, carry), limit);
        },
        Block::CancelPoint => {
            lemma_keep_one(Op::CancelPoint, carry, limit);
        },
        _ => {
            lemma_keep_plain(block_ops(link, block), carry, limit);
        },
    }
}

proof fn lemma_keep_script(link: Link, script: Seq<Block>, limit: nat)
    requires
        script_keeps(script, limit),
    ensures
        all_keep(script_ops(link, script), 0, limit),
        carried_over(script_ops(link, script), 0) <= script_carried(script),
    decreases script.len(),
{
    if script.len() > 0 {
        let init = script.drop_last();
        let a = script_ops(link, init);
        let b = block_ops(link, script.last());
        lemma_keep_script(link, init, limit);
        lemma_keep_block(link, script.last(), script_carried(init), limit);
        lemma_keep_less(b, script_carried(init), carried_over(a, 0), limit);
        lemma_keep_append(a, b, 0, limit);
    }
}

/// In the course of a script that keeps within a limit, never more bytes than that
/// are sent without a question to the cancel hook.
pub proof fn law_hook_is_asked_often<E>(
    link: Link,
    script: Seq<Block>,
    limit: nat,
    replies: Seq<Reply<E>>,
)
    requires
        script_keeps(script, limit),
    ensures
        spaced(run(start(script_ops(link, script)), replies).signals, 0, limit),
{
    lemma_keep_script(link, script, limit);
    lemma_spaced_run(script_ops(link, script), 0, limit, replies);
}

} // verus!
