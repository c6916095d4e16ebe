//! What the controller makes of the transfers: packets of a command and its
//! data, however the data was cut up on the bus.
use crate::operation::{
    after, answers, command_ops, fill_ops, inverted, next_poll, pause_ops, probe_ops, round_ops,
    start, status_ops, BusyWait, Op, Reply, Signal, State,
};
use crate::runs::{completed, lemma_left, run};
use crate::script::{
    band_ops, bands_ops, block_ops, burst_ops, chunks, data_ops, data_parts, inverted_ops,
    inverted_parts, script_ops, singles, wait_ops, writes, Block, Link, ASYNC_WRITE_CHUNK,
    INVERT_CHUNK, LINUX_TRANSFER_LIMIT,
};
use crate::wire::{
    allowed, dc_after, dc_next, lemma_allowed_append, lemma_script_allowed, transfers, Transfer,
};
use vstd::prelude::*;

verus! {

/// A command and the data that followed it.
pub ghost struct Packet {
    pub command: Seq<u8>,
    pub data: Seq<u8>,
}

/// A command byte and its data.
pub open spec fn packet(address: u8, data: Seq<u8>) -> Packet {
    Packet { command: seq![address], data }
}

/// More data for the last packet.
pub open spec fn extended(packets: Seq<Packet>, data: Seq<u8>) -> Seq<Packet> {
    if packets.len() == 0 {
        packets
    } else {
        packets.drop_last().push(
            Packet { command: packets.last().command, data: packets.last().data + data },
        )
    }
}

/// A new packet, unless the command only queries the status.
pub open spec fn opened(packets: Seq<Packet>, command: Seq<u8>, status: u8) -> Seq<Packet> {
    if command == seq![status] {
        packets
    } else {
        packets.push(Packet { command, data: Seq::empty() })
    }
}

/// The packets after one more transfer.
pub open spec fn absorbed(packets: Seq<Packet>, transfer: Transfer, status: u8) -> Seq<Packet> {
    if transfer.data {
        extended(packets, transfer.bytes)
    } else {
        opened(packets, transfer.bytes, status)
    }
}

/// The packets after more transfers. The status command is left out.
pub open spec fn received_after(
    packets: Seq<Packet>,
    ts: Seq<Transfer>,
    status: u8,
) -> Seq<Packet>
    decreases ts.len(),
{
    if ts.len() == 0 {
        packets
    } else {
        received_after(absorbed(packets, ts[0], status), ts.drop_first(), status)
    }
}

/// The packets that the panel has received in the course of a run, but for
/// status queries.
pub open spec fn received(signals: Seq<Signal>, dc: bool, status: u8) -> Seq<Packet> {
    received_after(Seq::empty(), transfers(signals, dc), status)
}

/// The packets after an entry of a script.
pub open spec fn block_packets(packets: Seq<Packet>, block: Block, status: u8) -> Seq<Packet> {
    match block {
        Block::Command(address) => opened(packets, seq![address], status),
        Block::Data(bytes) => extended(packets, bytes),
        Block::Setting(address, bytes) => extended(
            opened(packets, seq![address], status),
            bytes,
        ),
        Block::Inverted(bytes) => extended(packets, inverted(bytes)),
        Block::Fill(val, times) => extended(packets, Seq::new(times, |i: int| val)),
        Block::Bands(bytes, invert) => extended(
            packets,
            if invert {
                inverted(bytes)
            } else {
                bytes
            },
        ),
        _ => packets,
    }
}

/// The packets after a script.
pub open spec fn script_packets(
    packets: Seq<Packet>,
    script: Seq<Block>,
    status: u8,
) -> Seq<Packet>
    decreases script.len(),
{
    if script.len() == 0 {
        packets
    } else {
        block_packets(script_packets(packets, script.drop_last(), status), script.last(), status)
    }
}

pub broadcast proof fn lemma_packets_push(
    packets: Seq<Packet>,
    script: Seq<Block>,
    block: Block,
    status: u8,
)
    ensures
        #[trigger] script_packets(packets, script.push(block), status) == block_packets(
            script_packets(packets, script, status),
            block,
            status,
        ),
{
    assert(script.push(block).drop_last() =~= script);
}

pub broadcast proof fn lemma_command_packet(packets: Seq<Packet>, address: u8, status: u8)
    requires
        address != status,
    ensures
        #[trigger] block_packets(packets, Block::Command(address), status) == packets.push(
            packet(address, Seq::empty()),
        ),
{
    assert(seq![address][0] != seq![status][0]);
}

pub broadcast proof fn lemma_setting_packet(
    packets: Seq<Packet>,
    address: u8,
    data: Seq<u8>,
    status: u8,
)
    requires
        address != status,
    ensures
        #[trigger] block_packets(packets, Block::Setting(address, data), status) == packets.push(
            packet(address, data),
        ),
{
    assert(seq![address][0] != seq![status][0]);
    lemma_first_data(packets, address, data);
}

pub broadcast proof fn lemma_first_data(packets: Seq<Packet>, address: u8, data: Seq<u8>)
    ensures
        #[trigger] extended(packets.push(packet(address, Seq::empty())), data) == packets.push(
            packet(address, data),
        ),
{
    let longer = packets.push(packet(address, Seq::empty()));
    assert(longer.drop_last() =~= packets);
    assert(Seq::<u8>::empty() + data =~= data);
}

pub broadcast proof fn lemma_more_data(
    packets: Seq<Packet>,
    address: u8,
    first: Seq<u8>,
    data: Seq<u8>,
)
    ensures
        #[trigger] extended(packets.push(packet(address, first)), data) == packets.push(
            packet(address, first + data),
        ),
{
    let longer = packets.push(packet(address, first));
    assert(longer.drop_last() =~= packets);
}

pub broadcast group group_packets {
    lemma_packets_push,
    lemma_status_push,
    lemma_command_packet,
    lemma_setting_packet,
    lemma_first_data,
}

/// All waits of a script use the given status command, or none.
pub open spec fn status_only(script: Seq<Block>, status: u8) -> bool {
    forall|i: int|
        0 <= i < script.len() ==> (#[trigger] script[i] matches Block::Wait(wait) ==> queries(
            wait,
            status,
        ))
}

pub broadcast proof fn lemma_status_push(script: Seq<Block>, block: Block, status: u8)
    ensures
        #[trigger] status_only(script.push(block), status) == (status_only(script, status) && (
        block matches Block::Wait(wait) ==> queries(wait, status))),
{
    let longer = script.push(block);
    if status_only(longer, status) {
        assert forall|i: int| 0 <= i < script.len() implies (#[trigger] script[i] matches
            Block::Wait(wait) ==> queries(wait, status)) by {
            assert(longer[i] == script[i]);
        }
        assert(longer[script.len() as int] == block);
    }
}

/// A wait uses the given status command, or none.
pub open spec fn queries(wait: BusyWait, status: u8) -> bool {
    wait.status_command is None || wait.status_command == Some(status)
}

spec fn ops_status_only(ops: Seq<Op>, status: u8) -> bool {
    forall|i: int| 0 <= i < ops.len() ==> op_status_only(#[trigger] ops[i], status)
}

spec fn op_status_only(op: Op, status: u8) -> bool {
    match op {
        Op::Poll(wait, _) => queries(wait, status),
        Op::Hook(wait, _) => queries(wait, status),
        _ => true,
    }
}

spec fn anything() -> spec_fn(Transfer) -> bool {
    |t: Transfer| true
}

/// The transfers that the entries stand for if no wait goes another round.
spec fn planned(ops: Seq<Op>, dc: bool) -> Seq<Transfer>
    decreases ops.len(),
{
    if ops.len() == 0 {
        Seq::empty()
    } else {
        let rest = planned(ops.drop_first(), dc_next(ops[0], dc));
        match ops[0] {
            Op::Write(bytes) => seq![Transfer { data: dc, bytes }] + rest,
            _ => rest,
        }
    }
}

proof fn lemma_planned_append(a: Seq<Op>, b: Seq<Op>, dc: bool)
    ensures
        planned(a + b, dc) == planned(a, dc) + planned(b, dc_after(a, dc)),
    decreases a.len(),
{
    if a.len() == 0 {
        assert(a + b =~= b);
        assert(planned(a, dc) + planned(b, dc) =~= planned(b, dc));
    } else {
        assert((a + b).drop_first() =~= a.drop_first() + b);
        lemma_planned_append(a.drop_first(), b, dc_next(a[0], dc));
        assert(planned(a + b, dc) =~= planned(a, dc) + planned(b, dc_after(a, dc)));
    }
}

proof fn lemma_planned_one(op: Op, dc: bool)
    ensures
        planned(seq![op], dc) == match op {
            Op::Write(bytes) => seq![Transfer { data: dc, bytes }],
            _ => Seq::empty(),
        },
        dc_after(seq![op], dc) == dc_next(op, dc),
{
    assert(seq![op].drop_first() =~= Seq::empty());
    assert(planned(seq![op].drop_first(), dc_next(op, dc)) =~= Seq::empty());
    assert(dc_after(seq![op].drop_first(), dc_next(op, dc)) == dc_next(op, dc));
    assert(planned(seq![op], dc) =~= match op {
        Op::Write(bytes) => seq![Transfer { data: dc, bytes }],
        _ => Seq::empty(),
    });
}

pub proof fn lemma_received_append(
    packets: Seq<Packet>,
    a: Seq<Transfer>,
    b: Seq<Transfer>,
    status: u8,
)
    ensures
        received_after(packets, a + b, status) == received_after(
            received_after(packets, a, status),
            b,
            status,
        ),
    decreases a.len(),
{
    if a.len() == 0 {
        assert(a + b =~= b);
    } else {
        assert((a + b).drop_first() =~= a.drop_first() + b);
        lemma_received_append(absorbed(packets, a[0], status), a.drop_first(), b, status);
    }
}

proof fn lemma_received_one(packets: Seq<Packet>, t: Transfer, status: u8)
    ensures
        received_after(packets, seq![t], status) == absorbed(packets, t, status),
{
    assert(seq![t].drop_first() =~= Seq::empty());
    assert(received_after(absorbed(packets, t, status), seq![t].drop_first(), status) == absorbed(
        packets,
        t,
        status,
    ));
}

proof fn lemma_command_received(address: u8, packets: Seq<Packet>, dc: bool, status: u8)
    ensures
        received_after(packets, planned(command_ops(address), dc), status) == opened(
            packets,
            seq![address],
            status,
        ),
        !dc_after(command_ops(address), dc),
{
    let write = Op::Write(seq![address]);
    let t = Transfer { data: false, bytes: seq![address] };
    assert(command_ops(address) =~= seq![Op::Dc(false)] + seq![write]);
    lemma_planned_append(seq![Op::Dc(false)], seq![write], dc);
    lemma_allowed_append(seq![Op::Dc(false)], seq![write], dc, anything());
    lemma_planned_one(Op::Dc(false), dc);
    lemma_planned_one(write, false);
    assert(planned(command_ops(address), dc) =~= seq![t]);
    lemma_received_one(packets, t, status);
}

proof fn lemma_probe_unseen(wait: BusyWait, dc: bool, packets: Seq<Packet>, status: u8)
    requires
        queries(wait, status),
    ensures
        received_after(packets, planned(probe_ops(wait), dc), status) == packets,
        dc_after(probe_ops(wait), dc) == (wait.status_command is None && dc),
{
    let send = status_ops(wait);
    let pause = pause_ops(wait);
    lemma_planned_append(send, pause, dc);
    lemma_allowed_append(send, pause, dc, anything());
    lemma_planned_one(Op::DelayUs(wait.delay_us), dc_after(send, dc));
    assert(planned(pause, dc_after(send, dc)) =~= Seq::empty());
    assert(planned(probe_ops(wait), dc) =~= planned(send, dc));
    if let Some(address) = wait.status_command {
        lemma_command_received(address, packets, dc, status);
    } else {
        assert(planned(send, dc) =~= Seq::empty());
    }
}

/// Another round of a wait changes nothing about what is received.
proof fn lemma_round_unseen(
    wait: BusyWait,
    polls: u32,
    rest: Seq<Op>,
    dc: bool,
    packets: Seq<Packet>,
    status: u8,
)
    requires
        queries(wait, status),
        wait.status_command is Some ==> !dc,
    ensures
        received_after(packets, planned(round_ops(wait, polls) + rest, dc), status)
            == received_after(packets, planned(rest, dc), status),
{
    let poll = next_poll(wait, polls);
    let round = round_ops(wait, polls);
    lemma_probe_unseen(wait, dc, packets, status);
    lemma_planned_append(probe_ops(wait), seq![poll], dc);
    lemma_allowed_append(probe_ops(wait), seq![poll], dc, anything());
    lemma_planned_one(poll, dc);
    assert(planned(round, dc) =~= planned(probe_ops(wait), dc));
    lemma_planned_append(round, rest, dc);
    lemma_received_append(packets, planned(round, dc), planned(rest, dc), status);
}

/// A completed run has sent what was planned, but for more status queries.
proof fn lemma_completed_run<E>(
    ops: Seq<Op>,
    dc: bool,
    packets: Seq<Packet>,
    status: u8,
    replies: Seq<Reply<E>>,
)
    requires
        allowed(ops, dc, anything()),
        ops_status_only(ops, status),
        run(start(ops), replies).end == completed::<E>(),
    ensures
        received_after(packets, transfers(run(start(ops), replies).signals, dc), status)
            == received_after(packets, planned(ops, dc), status),
    decreases replies.len(),
{
    if ops.len() > 0 {
        assert(replies.len() > 0);
        let replies_left = replies.drop_first();
        let next = after(start(ops), replies[0]);
        let rest = ops.drop_first();
        let signals = run(start(ops), replies).signals;
        lemma_left(ops, replies[0]);
        assert(op_status_only(ops[0], status));
        if !answers(ops[0], replies[0]) {
            lemma_completed_run(ops, dc, packets, status, replies_left);
        } else {
            let dc2 = dc_next(ops[0], dc);
            let tail = run(next, replies_left).signals;
            let packets2 = match ops[0] {
                Op::Write(bytes) => absorbed(packets, Transfer { data: dc, bytes }, status),
                _ => packets,
            };
            assert(signals.drop_first() =~= tail);
            assert(transfers(signals, dc) == match ops[0] {
                Op::Write(bytes) => seq![Transfer { data: dc, bytes }] + transfers(tail, dc2),
                _ => transfers(tail, dc2),
            });
            if let Op::Write(bytes) = ops[0] {
                let t = Transfer { data: dc, bytes };
                assert((seq![t] + transfers(tail, dc2)).drop_first() =~= transfers(tail, dc2));
                assert((seq![t] + planned(rest, dc2)).drop_first() =~= planned(rest, dc2));
            }
            assert(received_after(packets, transfers(signals, dc), status) == received_after(
                packets2,
                transfers(tail, dc2),
                status,
            ));
            assert(received_after(packets, planned(ops, dc), status) == received_after(
                packets2,
                planned(rest, dc2),
                status,
            ));
            if let State::Running(left) = next {
                crate::wire::lemma_allowed_step(ops, dc, anything(), replies[0]);
                match ops[0] {
                    Op::Poll(wait, polls) => {
                        let hook = seq![Op::Hook(wait, polls)];
                        assert((hook + rest).drop_first() =~= rest);
                        lemma_round_unseen(wait, polls, rest, dc, packets, status);
                    },
                    Op::Hook(wait, polls) => {
                        lemma_round_unseen(wait, polls, rest, dc, packets, status);
                    },
                    _ => {},
                }
                assert(ops_status_only(left, status));
                lemma_completed_run(left, dc2, packets2, status, replies_left);
            } else {
                assert(run(next, replies_left).end == next);
                assert(tail =~= Seq::empty());
                assert(transfers(tail, dc2) =~= Seq::empty());
                assert(rest =~= Seq::empty());
                assert(planned(rest, dc2) =~= Seq::empty());
            }
        }
    } else {
        assert(run(start(ops), replies).signals =~= Seq::empty());
        assert(transfers(run(start(ops), replies).signals, dc) =~= Seq::empty());
        assert(planned(ops, dc) =~= Seq::empty());
    }
}

// ---------------------------------------------------------------------------
// What the entries of a script amount to

/// All parts one after the other.
pub open spec fn joined(parts: Seq<Seq<u8>>) -> Seq<u8>
    decreases parts.len(),
{
    if parts.len() == 0 {
        Seq::empty()
    } else {
        parts[0] + joined(parts.drop_first())
    }
}

/// Cutting into chunks loses nothing: joined again they are the whole.
pub proof fn law_chunks_join(s: Seq<u8>, n: nat)
    requires
        n > 0,
    ensures
        joined(chunks(s, n)) == s,
    decreases s.len(),
{
    if s.len() == 0 {
    } else if s.len() <= n {
        assert(seq![s].drop_first() =~= Seq::empty());
        assert(joined(seq![s].drop_first()) =~= Seq::empty());
        assert(joined(seq![s]) =~= s);
    } else {
        let tail = chunks(s.skip(n as int), n);
        law_chunks_join(s.skip(n as int), n);
        assert(chunks(s, n).drop_first() =~= tail);
        assert(joined(chunks(s, n)) =~= s);
    }
}

/// Inverting twice gives back the bytes.
pub proof fn law_inversion_undoes_itself(s: Seq<u8>)
    ensures
        inverted(inverted(s)) == s,
{
    assert forall|i: int| 0 <= i < s.len() implies inverted(inverted(s))[i] == s[i] by {
        let b = s[i];
        assert(!(!b) == b) by (bit_vector);
    }
    assert(inverted(inverted(s)) =~= s);
}

proof fn lemma_flipped_join(parts: Seq<Seq<u8>>)
    ensures
        joined(parts.map_values(|part: Seq<u8>| inverted(part))) == inverted(joined(parts)),
    decreases parts.len(),
{
    let flip = |part: Seq<u8>| inverted(part);
    if parts.len() > 0 {
        lemma_flipped_join(parts.drop_first());
        assert(parts.map_values(flip).drop_first() =~= parts.drop_first().map_values(flip));
    }
    assert(joined(parts.map_values(flip)) =~= inverted(joined(parts)));
}

pub proof fn lemma_singles_join(bytes: Seq<u8>)
    ensures
        joined(singles(bytes)) == bytes,
    decreases bytes.len(),
{
    if bytes.len() > 0 {
        lemma_singles_join(bytes.drop_first());
        assert(singles(bytes).drop_first() =~= singles(bytes.drop_first()));
    }
    assert(joined(singles(bytes)) =~= bytes);
}

/// Data is written in parts that make up the whole.
pub proof fn lemma_data_join(link: Link, bytes: Seq<u8>)
    ensures
        joined(data_parts(link, bytes)) == bytes,
{
    lemma_singles_join(bytes);
    law_chunks_join(bytes, LINUX_TRANSFER_LIMIT as nat);
    assert(seq![bytes].drop_first() =~= Seq::empty());
    assert(joined(seq![bytes].drop_first()) =~= Seq::empty());
    assert(joined(seq![bytes]) =~= bytes);
}

/// So is its complement.
pub proof fn lemma_inverted_join(bytes: Seq<u8>)
    ensures
        joined(inverted_parts(bytes)) == inverted(bytes),
{
    law_chunks_join(bytes, INVERT_CHUNK as nat);
    lemma_flipped_join(chunks(bytes, INVERT_CHUNK as nat));
}

proof fn lemma_extended_twice(packets: Seq<Packet>, a: Seq<u8>, b: Seq<u8>)
    ensures
        extended(extended(packets, a), b) == extended(packets, a + b),
{
    if packets.len() > 0 {
        let once = extended(packets, a);
        assert(once.drop_last() =~= packets.drop_last());
        assert(packets.last().data + a + b =~= packets.last().data + (a + b));
    }
}

proof fn lemma_extended_by_nothing(packets: Seq<Packet>)
    ensures
        extended(packets, Seq::empty()) == packets,
{
    if packets.len() > 0 {
        assert(packets.last().data + Seq::<u8>::empty() =~= packets.last().data);
        assert(extended(packets, Seq::empty()) =~= packets);
    }
}

/// Data writes extend the last packet by all their parts.
proof fn lemma_writes_received(parts: Seq<Seq<u8>>, packets: Seq<Packet>, status: u8)
    ensures
        received_after(packets, planned(writes(parts), true), status) == extended(
            packets,
            joined(parts),
        ),
        dc_after(writes(parts), true),
    decreases parts.len(),
{
    if parts.len() == 0 {
        lemma_extended_by_nothing(packets);
        assert(planned(writes(parts), true) =~= Seq::empty());
    } else {
        let rest = parts.drop_first();
        let t = Transfer { data: true, bytes: parts[0] };
        assert(writes(parts).drop_first() =~= writes(rest));
        assert(planned(writes(parts), true) == seq![t] + planned(writes(rest), true));
        let more = planned(writes(rest), true);
        assert((seq![t] + more).drop_first() =~= more);
        lemma_writes_received(rest, extended(packets, parts[0]), status);
        lemma_extended_twice(packets, parts[0], joined(rest));
    }
}

/// Data after the pin is driven high.
proof fn lemma_burst_received(
    parts: Seq<Seq<u8>>,
    packets: Seq<Packet>,
    dc: bool,
    status: u8,
)
    ensures
        received_after(packets, planned(burst_ops(parts), dc), status) == extended(
            packets,
            joined(parts),
        ),
        dc_after(burst_ops(parts), dc),
{
    let high = seq![Op::Dc(true)];
    lemma_planned_append(high, writes(parts), dc);
    lemma_allowed_append(high, writes(parts), dc, anything());
    lemma_planned_one(Op::Dc(true), dc);
    assert(planned(burst_ops(parts), dc) =~= planned(writes(parts), true));
    lemma_writes_received(parts, packets, status);
}

proof fn lemma_data_received(
    link: Link,
    bytes: Seq<u8>,
    packets: Seq<Packet>,
    dc: bool,
    status: u8,
)
    ensures
        received_after(packets, planned(data_ops(link, bytes), dc), status) == extended(
            packets,
            bytes,
        ),
        dc_after(data_ops(link, bytes), dc),
{
    lemma_data_join(link, bytes);
    lemma_burst_received(data_parts(link, bytes), packets, dc, status);
}

proof fn lemma_inverted_received(bytes: Seq<u8>, packets: Seq<Packet>, dc: bool, status: u8)
    ensures
        received_after(packets, planned(inverted_ops(bytes), dc), status) == extended(
            packets,
            inverted(bytes),
        ),
        dc_after(inverted_ops(bytes), dc),
{
    lemma_inverted_join(bytes);
    lemma_burst_received(inverted_parts(bytes), packets, dc, status);
}

proof fn lemma_bands_received(
    link: Link,
    bands: Seq<Seq<u8>>,
    invert: bool,
    packets: Seq<Packet>,
    dc: bool,
    status: u8,
)
    ensures
        received_after(packets, planned(bands_ops(link, bands, invert), dc), status) == extended(
            packets,
            if invert {
                inverted(joined(bands))
            } else {
                joined(bands)
            },
        ),
    decreases bands.len(),
{
    if bands.len() == 0 {
        lemma_extended_by_nothing(packets);
        assert(inverted(joined(bands)) =~= Seq::empty());
        assert(planned(bands_ops(link, bands, invert), dc) =~= Seq::empty());
    } else {
        let rest = bands.drop_first();
        let sent = if invert {
            inverted_ops(bands[0])
        } else {
            data_ops(link, bands[0])
        };
        let bytes = if invert {
            inverted(bands[0])
        } else {
            bands[0]
        };
        let more = if invert {
            inverted(joined(rest))
        } else {
            joined(rest)
        };
        let tail = bands_ops(link, rest, invert);
        let point = seq![Op::CancelPoint];
        lemma_data_received(link, bands[0], packets, dc, status);
        lemma_inverted_received(bands[0], packets, dc, status);
        lemma_planned_one(Op::CancelPoint, dc);
        lemma_planned_append(point, sent, dc);
        lemma_allowed_append(point, sent, dc, anything());
        assert(band_ops(link, bands[0], invert) == point + sent);
        assert(planned(point + sent, dc) =~= planned(sent, dc));
        lemma_planned_append(point + sent, tail, dc);
        lemma_received_append(packets, planned(sent, dc), planned(tail, true), status);
        lemma_bands_received(link, rest, invert, extended(packets, bytes), true, status);
        lemma_extended_twice(packets, bytes, more);
        assert(inverted(bands[0] + joined(rest)) =~= inverted(bands[0]) + inverted(joined(rest)));
    }
}

proof fn lemma_nothing_planned(ops: Seq<Op>, dc: bool)
    requires
        forall|i: int| 0 <= i < ops.len() ==> !(#[trigger] ops[i] is Write),
    ensures
        planned(ops, dc) == Seq::<Transfer>::empty(),
    decreases ops.len(),
{
    if ops.len() > 0 {
        assert(!(ops[0] is Write));
        lemma_nothing_planned(ops.drop_first(), dc_next(ops[0], dc));
    }
}

proof fn lemma_block_received(
    link: Link,
    block: Block,
    packets: Seq<Packet>,
    dc: bool,
    status: u8,
)
    requires
        block matches Block::Wait(wait) ==> queries(wait, status),
    ensures
        received_after(packets, planned(block_ops(link, block), dc), status) == block_packets(
            packets,
            block,
            status,
        ),
{
    match block {
        Block::Command(address) => {
            lemma_command_received(address, packets, dc, status);
        },
        Block::Data(bytes) => {
            lemma_data_received(link, bytes, packets, dc, status);
        },
        Block::Setting(address, bytes) => {
            let named = opened(packets, seq![address], status);
            lemma_command_received(address, packets, dc, status);
            lemma_data_received(link, bytes, named, false, status);
            lemma_planned_append(command_ops(address), data_ops(link, bytes), dc);
            lemma_received_append(
                packets,
                planned(command_ops(address), dc),
                planned(data_ops(link, bytes), false),
                status,
            );
        },
        Block::Inverted(bytes) => {
            lemma_inverted_received(bytes, packets, dc, status);
        },
        Block::Fill(val, times) => {
            let bytes = Seq::new(times, |i: int| val);
            assert(fill_ops(val, times) =~= writes(singles(bytes)));
            lemma_singles_join(bytes);
            lemma_burst_received(singles(bytes), packets, dc, status);
        },
        Block::Bands(bytes, invert) => {
            law_chunks_join(bytes, ASYNC_WRITE_CHUNK as nat);
            lemma_bands_received(
                link,
                chunks(bytes, ASYNC_WRITE_CHUNK as nat),
                invert,
                packets,
                dc,
                status,
            );
        },
        Block::Wait(wait) => {
            let poll = Op::Poll(wait, 0);
            if wait.status_command is Some {
                lemma_probe_unseen(wait, dc, packets, status);
                lemma_planned_append(probe_ops(wait), seq![poll], dc);
                lemma_planned_one(poll, dc_after(probe_ops(wait), dc));
                assert(planned(wait_ops(wait), dc) =~= planned(probe_ops(wait), dc));
            } else {
                assert(wait_ops(wait) =~= seq![poll]);
                lemma_nothing_planned(wait_ops(wait), dc);
            }
        },
        _ => {
            lemma_nothing_planned(block_ops(link, block), dc);
        },
    }
}

proof fn lemma_script_received(
    link: Link,
    script: Seq<Block>,
    packets: Seq<Packet>,
    dc: bool,
    status: u8,
)
    requires
        status_only(script, status),
    ensures
        received_after(packets, planned(script_ops(link, script), dc), status)
            == script_packets(packets, script, status),
        ops_status_only(script_ops(link, script), status),
    decreases script.len(),
{
    if script.len() > 0 {
        let init = script.drop_last();
        let a = script_ops(link, init);
        let b = block_ops(link, script.last());
        let dc2 = dc_after(a, dc);
        assert(status_only(init, status));
        lemma_script_received(link, init, packets, dc, status);
        assert(script.last() == script[script.len() - 1]);
        let so_far = script_packets(packets, init, status);
        lemma_block_received(link, script.last(), so_far, dc2, status);
        lemma_planned_append(a, b, dc);
        lemma_received_append(packets, planned(a, dc), planned(b, dc2), status);
        lemma_block_status(link, script.last(), status);
    } else {
        assert(planned(script_ops(link, script), dc) =~= Seq::empty());
    }
}

proof fn lemma_bands_status(link: Link, bands: Seq<Seq<u8>>, invert: bool, status: u8)
    ensures
        ops_status_only(bands_ops(link, bands, invert), status),
    decreases bands.len(),
{
    if bands.len() > 0 {
        lemma_bands_status(link, bands.drop_first(), invert, status);
    }
}

proof fn lemma_block_status(link: Link, block: Block, status: u8)
    requires
        block matches Block::Wait(wait) ==> queries(wait, status),
    ensures
        ops_status_only(block_ops(link, block), status),
{
    if let Block::Bands(bytes, invert) = block {
        lemma_bands_status(link, chunks(bytes, ASYNC_WRITE_CHUNK as nat), invert, status);
    }
}

/// Once a script has completed, the panel has received exactly the packets that
/// the script amounts to, after what it had received before, whatever the link,
/// however often a wait went round, and however the data was cut up. Status
/// queries are left out.
pub proof fn law_panel_receives_script<E>(
    link: Link,
    script: Seq<Block>,
    packets: Seq<Packet>,
    dc: bool,
    status: u8,
    replies: Seq<Reply<E>>,
)
    requires
        status_only(script, status),
        run(start(script_ops(link, script)), replies).end == completed::<E>(),
    ensures
        received_after(
            packets,
            transfers(run(start(script_ops(link, script)), replies).signals, dc),
            status,
        ) == script_packets(packets, script, status),
{
    lemma_script_allowed(link, script, dc, anything());
    lemma_script_received(link, script, packets, dc, status);
    lemma_completed_run(script_ops(link, script), dc, packets, status, replies);
}

} // verus!
