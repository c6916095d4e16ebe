//! What reaches the panel: SPI transfers, as commands or as data.
use crate::operation::{
    after, answers, command_ops, fill_ops, next_poll, pause_ops, probe_ops, round_ops, start,
    status_ops, BusyWait, Op, Reply, Signal, State,
};
use crate::runs::{lemma_left, run};
use crate::script::{
    band_ops, bands_ops, block_ops, burst_ops, chunks, data_ops, data_parts, inverted_ops,
    inverted_parts, script_ops, wait_ops, writes, Block, Link, ASYNC_WRITE_CHUNK, INVERT_CHUNK,
    LINUX_TRANSFER_LIMIT,
};
use vstd::prelude::*;

verus! {

/// One SPI transaction as the controller sees it.
pub ghost struct Transfer {
    /// Level of the data/command pin: high for data, low for a command.
    pub data: bool,
    pub bytes: Seq<u8>,
}

/// The transfers of a run that starts with the given level on the
/// data/command pin.
pub open spec fn transfers(signals: Seq<Signal>, dc: bool) -> Seq<Transfer>
    decreases signals.len(),
{
    if signals.len() == 0 {
        Seq::empty()
    } else {
        let rest = signals.drop_first();
        match signals[0] {
            Signal::Dc(high) => transfers(rest, high),
            Signal::Write(bytes) => seq![Transfer { data: dc, bytes }] + transfers(rest, dc),
            _ => transfers(rest, dc),
        }
    }
}

/// Whether every transfer of a run meets the condition.
pub open spec fn all_transfers(
    signals: Seq<Signal>,
    dc: bool,
    ok: spec_fn(Transfer) -> bool,
) -> bool {
    forall|i: int|
        0 <= i < transfers(signals, dc).len() ==> ok(#[trigger] transfers(signals, dc)[i])
}

/// The level on the data/command pin after some signals.
pub open spec fn level_after(signals: Seq<Signal>, dc: bool) -> bool
    decreases signals.len(),
{
    if signals.len() == 0 {
        dc
    } else {
        match signals[0] {
            Signal::Dc(high) => level_after(signals.drop_first(), high),
            _ => level_after(signals.drop_first(), dc),
        }
    }
}

pub proof fn lemma_transfers_append(a: Seq<Signal>, b: Seq<Signal>, dc: bool)
    ensures
        transfers(a + b, dc) == transfers(a, dc) + transfers(b, level_after(a, dc)),
        level_after(a + b, dc) == level_after(b, level_after(a, dc)),
    decreases a.len(),
{
    if a.len() == 0 {
        assert(a + b =~= b);
        assert(transfers(a, dc) + transfers(b, dc) =~= transfers(b, dc));
    } else {
        assert((a + b).drop_first() =~= a.drop_first() + b);
        match a[0] {
            Signal::Dc(high) => lemma_transfers_append(a.drop_first(), b, high),
            _ => lemma_transfers_append(a.drop_first(), b, dc),
        }
        assert(transfers(a + b, dc) =~= transfers(a, dc) + transfers(b, level_after(a, dc)));
    }
}

/// The level on the data/command pin after some entries.
pub open spec fn dc_after(ops: Seq<Op>, dc: bool) -> bool
    decreases ops.len(),
{
    if ops.len() == 0 {
        dc
    } else {
        dc_after(ops.drop_first(), dc_next(ops[0], dc))
    }
}

pub open spec fn dc_next(op: Op, dc: bool) -> bool {
    match op {
        Op::Dc(high) => high,
        _ => dc,
    }
}

/// Whether every transfer that the entries can lead to meets the condition, and
/// every status command finds the data/command pin as it leaves it.
pub open spec fn allowed(ops: Seq<Op>, dc: bool, ok: spec_fn(Transfer) -> bool) -> bool
    decreases ops.len(),
{
    ops.len() == 0 || (op_allowed(ops[0], dc, ok) && allowed(
        ops.drop_first(),
        dc_next(ops[0], dc),
        ok,
    ))
}

pub open spec fn op_allowed(op: Op, dc: bool, ok: spec_fn(Transfer) -> bool) -> bool {
    match op {
        Op::Write(bytes) => ok(Transfer { data: dc, bytes }),
        Op::Poll(wait, _) => wait_allowed(wait, dc, ok),
        Op::Hook(wait, _) => wait_allowed(wait, dc, ok),
        _ => true,
    }
}

pub open spec fn wait_allowed(wait: BusyWait, dc: bool, ok: spec_fn(Transfer) -> bool) -> bool {
    wait.status_command matches Some(address) ==> !dc && ok(
        Transfer { data: false, bytes: seq![address] },
    )
}

pub proof fn lemma_allowed_append(
    a: Seq<Op>,
    b: Seq<Op>,
    dc: bool,
    ok: spec_fn(Transfer) -> bool,
)
    ensures
        allowed(a + b, dc, ok) == (allowed(a, dc, ok) && allowed(b, dc_after(a, dc), ok)),
        dc_after(a + b, dc) == dc_after(b, dc_after(a, dc)),
    decreases a.len(),
{
    if a.len() == 0 {
        assert(a + b =~= b);
    } else {
        assert((a + b).drop_first() =~= a.drop_first() + b);
        lemma_allowed_append(a.drop_first(), b, dc_next(a[0], dc), ok);
    }
}

pub proof fn lemma_allowed_one(op: Op, dc: bool, ok: spec_fn(Transfer) -> bool)
    ensures
        allowed(seq![op], dc, ok) == op_allowed(op, dc, ok),
        dc_after(seq![op], dc) == dc_next(op, dc),
{
    assert(seq![op].drop_first() =~= Seq::empty());
    assert(allowed(seq![op].drop_first(), dc_next(op, dc), ok));
    assert(dc_after(seq![op].drop_first(), dc_next(op, dc)) == dc_next(op, dc));
}

proof fn lemma_command_allowed(address: u8, dc: bool, ok: spec_fn(Transfer) -> bool)
    requires
        ok(Transfer { data: false, bytes: seq![address] }),
    ensures
        allowed(command_ops(address), dc, ok),
        !dc_after(command_ops(address), dc),
{
    let write = Op::Write(seq![address]);
    assert(command_ops(address) =~= seq![Op::Dc(false)] + seq![write]);
    lemma_allowed_one(Op::Dc(false), dc, ok);
    lemma_allowed_one(write, false, ok);
    lemma_allowed_append(seq![Op::Dc(false)], seq![write], dc, ok);
}

proof fn lemma_allowed_probe(wait: BusyWait, dc: bool, ok: spec_fn(Transfer) -> bool)
    requires
        wait.status_command matches Some(address) ==> ok(
            Transfer { data: false, bytes: seq![address] },
        ),
    ensures
        allowed(probe_ops(wait), dc, ok),
        dc_after(probe_ops(wait), dc) == (wait.status_command is None && dc),
{
    lemma_allowed_append(status_ops(wait), pause_ops(wait), dc, ok);
    if let Some(address) = wait.status_command {
        lemma_command_allowed(address, dc, ok);
    }
    lemma_allowed_one(Op::DelayUs(wait.delay_us), dc_after(status_ops(wait), dc), ok);
}

/// A step leaves entries that are allowed.
pub proof fn lemma_allowed_step<E>(
    ops: Seq<Op>,
    dc: bool,
    ok: spec_fn(Transfer) -> bool,
    reply: Reply<E>,
)
    requires
        ops.len() > 0,
        allowed(ops, dc, ok),
        answers(ops[0], reply),
    ensures
        after(start(ops), reply) matches State::Running(left) ==> allowed(
            left,
            dc_next(ops[0], dc),
            ok,
        ),
{
    lemma_left(ops, reply);
    let rest = ops.drop_first();
    if let State::Running(left) = after(start(ops), reply) {
        match ops[0] {
            Op::Poll(wait, polls) => {
                lemma_allowed_append(seq![Op::Hook(wait, polls)], rest, dc, ok);
                lemma_allowed_one(Op::Hook(wait, polls), dc, ok);
                lemma_allowed_round(wait, polls, rest, dc, ok);
            },
            Op::Hook(wait, polls) => {
                lemma_allowed_round(wait, polls, rest, dc, ok);
            },
            _ => {},
        }
    }
}

proof fn lemma_allowed_round(
    wait: BusyWait,
    polls: u32,
    rest: Seq<Op>,
    dc: bool,
    ok: spec_fn(Transfer) -> bool,
)
    requires
        wait_allowed(wait, dc, ok),
        allowed(rest, dc, ok),
    ensures
        allowed(round_ops(wait, polls) + rest, dc, ok),
{
    let poll = next_poll(wait, polls);
    lemma_allowed_probe(wait, dc, ok);
    lemma_allowed_append(probe_ops(wait), seq![poll], dc, ok);
    lemma_allowed_one(poll, dc, ok);
    lemma_allowed_append(round_ops(wait, polls), rest, dc, ok);
}

/// Whatever the replies, no transfer takes place that the plan does not allow.
pub proof fn law_only_allowed_transfers<E>(
    ops: Seq<Op>,
    dc: bool,
    ok: spec_fn(Transfer) -> bool,
    replies: Seq<Reply<E>>,
)
    requires
        allowed(ops, dc, ok),
    ensures
        all_transfers(run(start(ops), replies).signals, dc, ok),
    decreases replies.len(),
{
    if ops.len() > 0 && replies.len() > 0 {
        let rest = replies.drop_first();
        let next = after(start(ops), replies[0]);
        let signals = run(start(ops), replies).signals;
        lemma_left(ops, replies[0]);
        if answers(ops[0], replies[0]) {
            lemma_allowed_step(ops, dc, ok, replies[0]);
            let dc2 = dc_next(ops[0], dc);
            let tail = run(next, rest).signals;
            assert(signals.drop_first() =~= tail);
            if let State::Running(left) = next {
                law_only_allowed_transfers(left, dc2, ok, rest);
            } else {
                assert(tail =~= Seq::empty());
            }
            assert(all_transfers(tail, dc2, ok));
            let ts = transfers(signals, dc);
            assert forall|i: int| 0 <= i < ts.len() implies ok(#[trigger] ts[i]) by {
                if ops[0] is Write {
                    if i > 0 {
                        assert(ts[i] == transfers(tail, dc2)[i - 1]);
                    }
                } else {
                    assert(ts == transfers(tail, dc2));
                }
            }
        } else {
            law_only_allowed_transfers(ops, dc, ok, rest);
        }
    }
}

// ---------------------------------------------------------------------------
// Transfers of scripts

/// The commands that an entry of a script sends.
pub open spec fn sends(block: Block, address: u8) -> bool {
    match block {
        Block::Command(a) => a == address,
        Block::Setting(a, _) => a == address,
        Block::Wait(wait) => wait.status_command == Some(address),
        _ => false,
    }
}

/// No transfer is the given command.
pub open spec fn no_command(address: u8) -> spec_fn(Transfer) -> bool {
    |t: Transfer| t.data || t.bytes != seq![address]
}

/// No transfer is longer than Linux accepts.
pub open spec fn within_limit() -> spec_fn(Transfer) -> bool {
    |t: Transfer| t.bytes.len() <= 4096
}

/// Every transfer is the given command.
pub open spec fn only_command(address: u8) -> spec_fn(Transfer) -> bool {
    |t: Transfer| !t.data && t.bytes == seq![address]
}

/// Any data that fits into a transfer of the link meets the condition.
pub open spec fn data_ok(link: Link, ok: spec_fn(Transfer) -> bool) -> bool {
    forall|bytes: Seq<u8>|
        (link.linux ==> bytes.len() <= LINUX_TRANSFER_LIMIT) ==> #[trigger] ok(
            Transfer { data: true, bytes },
        )
}

pub proof fn lemma_chunk_len(s: Seq<u8>, n: nat)
    ensures
        forall|i: int|
            0 <= i < chunks(s, n).len() ==> 0 < (#[trigger] chunks(s, n)[i]).len() <= n,
    decreases s.len(),
{
    if s.len() > n && n > 0 {
        lemma_chunk_len(s.skip(n as int), n);
        assert forall|i: int| 0 <= i < chunks(s, n).len() implies 0 < (#[trigger] chunks(
            s,
            n,
        )[i]).len() <= n by {
            if i > 0 {
                assert(chunks(s, n)[i] == chunks(s.skip(n as int), n)[i - 1]);
            }
        }
    }
}

proof fn lemma_writes_allowed(parts: Seq<Seq<u8>>, ok: spec_fn(Transfer) -> bool)
    requires
        forall|i: int|
            0 <= i < parts.len() ==> ok(Transfer { data: true, bytes: #[trigger] parts[i] }),
    ensures
        allowed(writes(parts), true, ok),
        dc_after(writes(parts), true),
    decreases parts.len(),
{
    if parts.len() > 0 {
        let rest = parts.drop_first();
        assert(writes(parts).drop_first() =~= writes(rest));
        assert(ok(Transfer { data: true, bytes: parts[0] }));
        lemma_writes_allowed(rest, ok);
    }
}

proof fn lemma_burst_allowed(parts: Seq<Seq<u8>>, dc: bool, ok: spec_fn(Transfer) -> bool)
    requires
        forall|i: int|
            0 <= i < parts.len() ==> ok(Transfer { data: true, bytes: #[trigger] parts[i] }),
    ensures
        allowed(burst_ops(parts), dc, ok),
        dc_after(burst_ops(parts), dc),
{
    lemma_writes_allowed(parts, ok);
    lemma_allowed_one(Op::Dc(true), dc, ok);
    lemma_allowed_append(seq![Op::Dc(true)], writes(parts), dc, ok);
}

proof fn lemma_data_allowed(link: Link, bytes: Seq<u8>, dc: bool, ok: spec_fn(Transfer) -> bool)
    requires
        data_ok(link, ok),
    ensures
        allowed(data_ops(link, bytes), dc, ok),
        dc_after(data_ops(link, bytes), dc),
{
    lemma_chunk_len(bytes, LINUX_TRANSFER_LIMIT as nat);
    lemma_burst_allowed(data_parts(link, bytes), dc, ok);
}

proof fn lemma_inverted_allowed(
    link: Link,
    bytes: Seq<u8>,
    dc: bool,
    ok: spec_fn(Transfer) -> bool,
)
    requires
        data_ok(link, ok),
    ensures
        allowed(inverted_ops(bytes), dc, ok),
        dc_after(inverted_ops(bytes), dc),
{
    lemma_chunk_len(bytes, INVERT_CHUNK as nat);
    lemma_burst_allowed(inverted_parts(bytes), dc, ok);
}

proof fn lemma_bands_allowed(
    link: Link,
    bands: Seq<Seq<u8>>,
    invert: bool,
    dc: bool,
    ok: spec_fn(Transfer) -> bool,
)
    requires
        data_ok(link, ok),
    ensures
        allowed(bands_ops(link, bands, invert), dc, ok),
    decreases bands.len(),
{
    if bands.len() > 0 {
        let point = seq![Op::CancelPoint];
        let band = band_ops(link, bands[0], invert);
        let tail = bands_ops(link, bands.drop_first(), invert);
        lemma_bands_allowed(link, bands.drop_first(), invert, true, ok);
        lemma_data_allowed(link, bands[0], dc, ok);
        lemma_inverted_allowed(link, bands[0], dc, ok);
        lemma_allowed_one(Op::CancelPoint, dc, ok);
        lemma_allowed_append(point, data_ops(link, bands[0]), dc, ok);
        lemma_allowed_append(point, inverted_ops(bands[0]), dc, ok);
        lemma_allowed_append(band, tail, dc, ok);
    }
}

proof fn lemma_plain_allowed(ops: Seq<Op>, dc: bool, ok: spec_fn(Transfer) -> bool)
    requires
        forall|i: int|
            0 <= i < ops.len() ==> {
                ||| #[trigger] ops[i] is Rst
                ||| ops[i] is DelayUs
                ||| ops[i] is DelayMs
                ||| ops[i] is CancelPoint
            },
    ensures
        allowed(ops, dc, ok),
        dc_after(ops, dc) == dc,
    decreases ops.len(),
{
    if ops.len() > 0 {
        assert(ops[0] is Rst || ops[0] is DelayUs || ops[0] is DelayMs || ops[0] is CancelPoint);
        lemma_plain_allowed(ops.drop_first(), dc, ok);
    }
}

/// A wait sends its status command and nothing else.
pub proof fn lemma_wait_allowed(wait: BusyWait, address: u8, dc: bool)
    requires
        wait.status_command == Some(address),
    ensures
        allowed(wait_ops(wait), dc, only_command(address)),
{
    let ok = only_command(address);
    let poll = Op::Poll(wait, 0);
    lemma_allowed_probe(wait, dc, ok);
    lemma_allowed_append(probe_ops(wait), seq![poll], dc, ok);
    lemma_allowed_one(poll, false, ok);
}

pub proof fn lemma_block_allowed(
    link: Link,
    block: Block,
    dc: bool,
    ok: spec_fn(Transfer) -> bool,
)
    requires
        data_ok(link, ok),
        forall|address: u8| #[trigger]
            sends(block, address) ==> ok(Transfer { data: false, bytes: seq![address] }),
    ensures
        allowed(block_ops(link, block), dc, ok),
{
    match block {
        Block::Command(address) => {
            assert(sends(block, address));
            lemma_command_allowed(address, dc, ok);
        },
        Block::Data(bytes) => {
            lemma_data_allowed(link, bytes, dc, ok);
        },
        Block::Setting(address, bytes) => {
            assert(sends(block, address));
            lemma_command_allowed(address, dc, ok);
            lemma_data_allowed(link, bytes, false, ok);
            lemma_allowed_append(command_ops(address), data_ops(link, bytes), dc, ok);
        },
        Block::Inverted(bytes) => {
            lemma_inverted_allowed(link, bytes, dc, ok);
        },
        Block::Fill(val, times) => {
            let parts = Seq::new(times, |i: int| seq![val]);
            assert(fill_ops(val, times) =~= writes(parts));
            lemma_burst_allowed(parts, dc, ok);
        },
        Block::Bands(bytes, invert) => {
            lemma_bands_allowed(
                link,
                chunks(bytes, ASYNC_WRITE_CHUNK as nat),
                invert,
                dc,
                ok,
            );
        },
        Block::Wait(wait) => {
            let poll = Op::Poll(wait, 0);
            if let Some(address) = wait.status_command {
                assert(sends(block, address));
                lemma_allowed_probe(wait, dc, ok);
                lemma_allowed_append(probe_ops(wait), seq![poll], dc, ok);
                lemma_allowed_one(poll, false, ok);
            } else {
                lemma_allowed_one(poll, dc, ok);
                assert(wait_ops(wait) =~= seq![poll]);
            }
        },
        _ => {
            lemma_plain_allowed(block_ops(link, block), dc, ok);
        },
    }
}

/// Whether every command that a script sends meets the condition.
pub open spec fn commands_ok(script: Seq<Block>, ok: spec_fn(Transfer) -> bool) -> bool {
    forall|i: int, address: u8|
        0 <= i < script.len() && #[trigger] sends(script[i], address) ==> ok(
            Transfer { data: false, bytes: seq![address] },
        )
}

pub proof fn lemma_script_allowed(
    link: Link,
    script: Seq<Block>,
    dc: bool,
    ok: spec_fn(Transfer) -> bool,
)
    requires
        data_ok(link, ok),
        commands_ok(script, ok),
    ensures
        allowed(script_ops(link, script), dc, ok),
    decreases script.len(),
{
    if script.len() > 0 {
        let init = script.drop_last();
        assert forall|i: int, address: u8|
            0 <= i < init.len() && #[trigger] sends(init[i], address) implies ok(
            Transfer { data: false, bytes: seq![address] },
        ) by {
            assert(init[i] == script[i]);
        }
        lemma_script_allowed(link, init, dc, ok);
        assert(script.last() == script[script.len() - 1]);
        let dc2 = dc_after(script_ops(link, init), dc);
        lemma_block_allowed(link, script.last(), dc2, ok);
        lemma_allowed_append(script_ops(link, init), block_ops(link, script.last()), dc, ok);
    }
}

/// On Linux no transfer is longer than the system accepts, whatever the script.
pub proof fn law_transfer_limit<E>(
    link: Link,
    script: Seq<Block>,
    dc: bool,
    replies: Seq<Reply<E>>,
)
    requires
        link.linux,
    ensures
        all_transfers(run(start(script_ops(link, script)), replies).signals, dc, within_limit()),
{
    lemma_script_allowed(link, script, dc, within_limit());
    law_only_allowed_transfers(script_ops(link, script), dc, within_limit(), replies);
}

/// No entry of a script sends the command.
pub open spec fn avoids(script: Seq<Block>, address: u8) -> bool {
    forall|i: int| 0 <= i < script.len() ==> !sends(#[trigger] script[i], address)
}

pub broadcast proof fn lemma_avoids_push(script: Seq<Block>, block: Block, address: u8)
    ensures
        #[trigger] avoids(script.push(block), address) == (avoids(script, address) && !sends(
            block,
            address,
        )),
{
    let longer = script.push(block);
    if avoids(longer, address) {
        assert forall|i: int| 0 <= i < script.len() implies !sends(
            #[trigger] script[i],
            address,
        ) by {
            assert(longer[i] == script[i]);
        }
        assert(longer[script.len() as int] == block);
    }
}

pub proof fn lemma_avoids(link: Link, script: Seq<Block>, address: u8)
    requires
        avoids(script, address),
    ensures
        data_ok(link, no_command(address)),
        commands_ok(script, no_command(address)),
{
    assert forall|i: int, a: u8|
        0 <= i < script.len() && #[trigger] sends(script[i], a) implies no_command(address)(
        Transfer { data: false, bytes: seq![a] },
    ) by {
        assert(!sends(script[i], address));
        assert(seq![a][0] != seq![address][0]);
    }
}

/// A command that is in no entry of a script is never sent.
pub proof fn law_never_sends<E>(
    link: Link,
    script: Seq<Block>,
    address: u8,
    dc: bool,
    replies: Seq<Reply<E>>,
)
    requires
        avoids(script, address),
    ensures
        all_transfers(
            run(start(script_ops(link, script)), replies).signals,
            dc,
            no_command(address),
        ),
{
    lemma_avoids(link, script, address);
    lemma_script_allowed(link, script, dc, no_command(address));
    law_only_allowed_transfers(script_ops(link, script), dc, no_command(address), replies);
}

} // verus!
