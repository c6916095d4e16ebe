//! What single transfers, resets and waits ask for, whatever they are part of.
use crate::operation::{
    after, answers, busy_wait, fill_ops, BusyWait, pause_ops, probe_ops,
    round_ops, signal, start, Op, Reply,
    Signal, State,
};
use crate::packets::{joined, lemma_data_join, lemma_inverted_join};
use crate::runs::{asked, completed, found_busy, run, trace, Act};
use crate::script::{
    band_ops, block_ops, burst_ops, chunks, data_parts, inverted_parts, singles, wait_ops,
    write_parts, writes, Block, Link,
};
use vstd::prelude::*;

verus! {

/// All bytes that are written, one after the other.
pub open spec fn written(signals: Seq<Signal>) -> Seq<u8>
    decreases signals.len(),
{
    if signals.len() == 0 {
        Seq::empty()
    } else {
        let rest = written(signals.drop_first());
        match signals[0] {
            Signal::Write(bytes) => bytes + rest,
            _ => rest,
        }
    }
}

/// Whether this is data: the pin is driven high, and then there are only writes, all of
/// them with `n` bytes, but for the last one, which may have less, and at least one.
pub open spec fn bursts(signals: Seq<Signal>, n: nat) -> bool {
    &&& signals.len() > 0
    &&& signals[0] == Signal::Dc(true)
    &&& forall|i: int|
        1 <= i < signals.len() ==> (#[trigger] signals[i] matches Signal::Write(bytes) && 0
            < bytes.len() <= n && (i < signals.len() - 1 ==> bytes.len() == n))
}

/// Cut into pieces of `n`, all pieces have that length, but for the last one.
pub proof fn law_chunks_are_full(s: Seq<u8>, n: nat)
    requires
        n > 0,
    ensures
        forall|i: int|
            0 <= i < chunks(s, n).len() ==> 0 < (#[trigger] chunks(s, n)[i]).len() <= n && (i
                < chunks(s, n).len() - 1 ==> chunks(s, n)[i].len() == n),
    decreases s.len(),
{
    if s.len() > n {
        let rest = chunks(s.skip(n as int), n);
        law_chunks_are_full(s.skip(n as int), n);
        assert(chunks(s, n) == seq![s.take(n as int)] + rest);
        assert forall|i: int| 0 <= i < chunks(s, n).len() implies 0 < (#[trigger] chunks(
            s,
            n,
        )[i]).len() <= n && (i < chunks(s, n).len() - 1 ==> chunks(s, n)[i].len() == n) by {
            if i > 0 {
                assert(chunks(s, n)[i] == rest[i - 1]);
            }
        }
    }
}

proof fn lemma_written(parts: Seq<Seq<u8>>)
    ensures
        written(asked(writes(parts))) == joined(parts),
    decreases parts.len(),
{
    if parts.len() > 0 {
        let rest = parts.drop_first();
        lemma_written(rest);
        assert(asked(writes(parts)).drop_first() =~= asked(writes(rest)));
    }
}

/// What a burst of parts asks for.
proof fn lemma_burst(parts: Seq<Seq<u8>>)
    ensures
        ({
            let signals = asked(burst_ops(parts));
            &&& signals.len() == parts.len() + 1
            &&& signals[0] == Signal::Dc(true)
            &&& forall|i: int|
                1 <= i < signals.len() ==> #[trigger] signals[i] == Signal::Write(parts[i - 1])
            &&& written(signals) == joined(parts)
        }),
{
    let signals = asked(burst_ops(parts));
    lemma_written(parts);
    assert(signals.drop_first() =~= asked(writes(parts)));
}

/// A command is one byte, with the pin low.
pub proof fn law_command_is_one_byte(link: Link, address: u8)
    ensures
        asked(block_ops(link, Block::Command(address))) == seq![
            Signal::Dc(false),
            Signal::Write(seq![address]),
        ],
{
    assert(asked(block_ops(link, Block::Command(address))) =~= seq![
        Signal::Dc(false),
        Signal::Write(seq![address]),
    ]);
}

/// Data is written as it is, with the pin high: byte by byte where that is asked for, in
/// transfers of 4096 bytes on Linux, and else in one transfer.
pub proof fn law_data_is_written_whole(link: Link, bytes: Seq<u8>)
    ensures
        ({
            let signals = asked(block_ops(link, Block::Data(bytes)));
            &&& written(signals) == bytes
            &&& link.single_byte_write ==> bursts(signals, 1)
            &&& !link.single_byte_write && link.linux ==> bursts(signals, 4096)
            &&& !link.single_byte_write && !link.linux ==> signals == seq![
                Signal::Dc(true),
                Signal::Write(bytes),
            ]
        }),
{
    let parts = data_parts(link, bytes);
    let signals = asked(block_ops(link, Block::Data(bytes)));
    lemma_burst(parts);
    lemma_data_join(link, bytes);
    law_chunks_are_full(bytes, 4096);
    if link.single_byte_write {
        assert(parts == singles(bytes));
    } else if !link.linux {
        assert(signals =~= seq![Signal::Dc(true), Signal::Write(bytes)]);
    }
}

/// A write outside of a burst is of the bytes as they are too: in transfers of 4096 bytes
/// on Linux, and else in one transfer, whether data is written byte by byte or not.
pub proof fn law_write_is_whole(link: Link, bytes: Seq<u8>)
    ensures
        ({
            let signals = asked(writes(write_parts(link, bytes)));
            &&& written(signals) == bytes
            &&& link.linux ==> bursts(seq![Signal::Dc(true)] + signals, 4096)
            &&& !link.linux ==> signals == seq![Signal::Write(bytes)]
        }),
{
    let parts = write_parts(link, bytes);
    let signals = asked(writes(parts));
    let plain = Link { single_byte_write: false, ..link };
    lemma_written(parts);
    lemma_data_join(plain, bytes);
    assert(data_parts(plain, bytes) == parts);
    law_chunks_are_full(bytes, 4096);
    if !link.linux {
        assert(signals =~= seq![Signal::Write(bytes)]);
    } else {
        let all = seq![Signal::Dc(true)] + signals;
        assert forall|i: int| 1 <= i < all.len() implies #[trigger] all[i] == Signal::Write(
            parts[i - 1],
        ) by {
            assert(all[i] == signals[i - 1]);
        }
    }
}

/// A framebuffer in bands: the cancel hook is asked, the next 4096 bytes are sent, or what
/// is left of them, raw or as their complement, and so on with the rest.
pub proof fn law_bands_ask_before_each(link: Link, bytes: Seq<u8>, invert: bool)
    ensures
        bytes.len() == 0 ==> asked(block_ops(link, Block::Bands(bytes, invert))).len() == 0,
        bytes.len() > 0 ==> ({
            let n = if bytes.len() < 4096 {
                bytes.len() as int
            } else {
                4096
            };
            let band = if invert {
                Block::Inverted(bytes.take(n))
            } else {
                Block::Data(bytes.take(n))
            };
            asked(block_ops(link, Block::Bands(bytes, invert))) == seq![Signal::AskCancel]
                + asked(block_ops(link, band)) + asked(
                block_ops(link, Block::Bands(bytes.skip(n), invert)),
            )
        }),
{
    if bytes.len() > 0 {
        let n = if bytes.len() < 4096 {
            bytes.len() as int
        } else {
            4096
        };
        let bands = chunks(bytes, 4096);
        let rest = bands.drop_first();
        let more = chunks(bytes.skip(n), 4096);
        assert(bytes.len() <= 4096 ==> bytes.take(n) =~= bytes);
        assert(rest =~= more);
        assert(bands[0] =~= bytes.take(n));
        let band = if invert {
            Block::Inverted(bytes.take(n))
        } else {
            Block::Data(bytes.take(n))
        };
        assert(band_ops(link, bands[0], invert) == seq![Op::CancelPoint] + block_ops(link, band));
        assert(asked(block_ops(link, Block::Bands(bytes, invert))) =~= seq![Signal::AskCancel]
            + asked(block_ops(link, band)) + asked(
            block_ops(link, Block::Bands(bytes.skip(n), invert)),
        ));
    } else {
        assert(chunks(bytes, 4096) =~= Seq::empty());
    }
}

/// Inverted data is the complement, bit for bit, in transfers of 256 bytes.
pub proof fn law_inverted_data_is_the_complement(link: Link, bytes: Seq<u8>)
    ensures
        ({
            let signals = asked(block_ops(link, Block::Inverted(bytes)));
            &&& bursts(signals, 256)
            &&& written(signals).len() == bytes.len()
            &&& forall|i: int|
                0 <= i < bytes.len() ==> #[trigger] written(signals)[i] + bytes[i] == 255
        }),
{
    let signals = asked(block_ops(link, Block::Inverted(bytes)));
    lemma_burst(inverted_parts(bytes));
    lemma_inverted_join(bytes);
    law_chunks_are_full(bytes, 256);
    assert forall|i: int| 0 <= i < bytes.len() implies #[trigger] written(signals)[i] + bytes[i]
        == 255 by {
        law_complement(bytes[i]);
        assert(written(signals)[i] == !bytes[i]);
    }
}

/// A byte and its complement make up 255.
pub proof fn law_complement(byte: u8)
    ensures
        !byte + byte == 255,
{
    assert(!byte + byte == 255) by (bit_vector);
}

/// The same byte many times is as many transfers of one byte.
pub proof fn law_fill_is_byte_by_byte(link: Link, val: u8, times: nat)
    ensures
        ({
            let signals = asked(block_ops(link, Block::Fill(val, times)));
            &&& signals.len() == times + 1
            &&& signals[0] == Signal::Dc(true)
            &&& forall|i: int|
                1 <= i < signals.len() ==> #[trigger] signals[i] == Signal::Write(seq![val])
        }),
{
    let parts = Seq::new(times, |i: int| seq![val]);
    assert(fill_ops(val, times) =~= writes(parts));
    lemma_burst(parts);
}

/// A reset is a low pulse of the given length on a pin that was high before for the given
/// time, and a pause of 200 ms.
pub proof fn law_reset_is_a_low_pulse(link: Link, initial_delay: u32, duration: u32)
    ensures
        asked(block_ops(link, (Block::Reset { initial_delay, duration }))) == seq![
            Signal::Rst(true),
            Signal::DelayUs(initial_delay),
            Signal::Rst(false),
            Signal::DelayUs(duration),
            Signal::Rst(true),
            Signal::DelayUs(200_000),
        ],
{
    assert(asked(block_ops(link, (Block::Reset { initial_delay, duration }))) =~= seq![
        Signal::Rst(true),
        Signal::DelayUs(initial_delay),
        Signal::Rst(false),
        Signal::DelayUs(duration),
        Signal::Rst(true),
        Signal::DelayUs(200_000),
    ]);
}

/// Whether these are the actions of a plain wait, up to this state: BUSY reads of the
/// given polarity, with the given pause after each, if it is not zero. With `paused`
/// set, they start with the pause. Every read but the last has found the panel busy, and
/// the wait is over, and complete, exactly when the last action was a read that has not.
pub open spec fn plain_wait<E>(
    acts: Seq<Act>,
    end: State<E>,
    is_busy_low: bool,
    delay_us: u32,
    paused: bool,
) -> bool {
    &&& forall|i: int|
        0 <= i < acts.len() ==> (#[trigger] acts[i]).signal == (if delay_us > 0 && (i % 2 == 0)
            == paused {
            Signal::DelayUs(delay_us)
        } else {
            Signal::ReadBusy(is_busy_low)
        })
    &&& forall|i: int|
        0 <= i < acts.len() - 1 && (#[trigger] acts[i]).signal is ReadBusy ==> acts[i].busy
    &&& end is Ended ==> end == completed::<E>()
    &&& end is Ended <==> acts.len() > 0 && acts.last().signal is ReadBusy && !acts.last().busy
}

/// A wait without a status command and without a time cap reads BUSY until it finds the
/// panel idle, with a pause after every read that does not. It ends in no other way.
pub proof fn law_plain_wait<E>(
    link: Link,
    is_busy_low: bool,
    delay_us: u32,
    replies: Seq<Reply<E>>,
)
    ensures
        ({
            let wait = busy_wait(None, is_busy_low, delay_us, None, false);
            let state = start::<E>(block_ops(link, Block::Wait(wait)));
            plain_wait(
                trace(state, replies),
                run(state, replies).end,
                is_busy_low,
                delay_us,
                false,
            )
        }),
{
    let wait = busy_wait(None, is_busy_low, delay_us, None, false);
    assert(wait_ops(wait) =~= seq![Op::Poll(wait, 0)]);
    lemma_plain_wait(wait, false, replies);
}

proof fn lemma_plain_wait<E>(wait: BusyWait, paused: bool, replies: Seq<Reply<E>>)
    requires
        wait.status_command is None,
        wait.max_polls is None,
        !wait.cancellable,
        paused ==> wait.delay_us > 0,
    ensures
        ({
            let poll = seq![Op::Poll(wait, 0)];
            let state = start::<E>(
                if paused {
                    seq![Op::DelayUs(wait.delay_us)] + poll
                } else {
                    poll
                },
            );
            plain_wait(
                trace(state, replies),
                run(state, replies).end,
                wait.is_busy_low,
                wait.delay_us,
                paused,
            )
        }),
    decreases replies.len(),
{
    let poll = seq![Op::Poll(wait, 0)];
    let ops = if paused {
        seq![Op::DelayUs(wait.delay_us)] + poll
    } else {
        poll
    };
    if replies.len() > 0 {
        let rest = replies.drop_first();
        let next = after(start(ops), replies[0]);
        if !answers(ops[0], replies[0]) {
            lemma_plain_wait(wait, paused, rest);
        } else {
            let acts = trace(start::<E>(ops), replies);
            let tail = trace(next, rest);
            let first = Act { signal: signal(ops[0]), busy: found_busy(replies[0]) };
            assert(acts == seq![first] + tail);
            assert(run(start::<E>(ops), replies).end == run(next, rest).end);
            if paused {
                assert(ops.drop_first() =~= poll);
                lemma_plain_wait(wait, false, rest);
            } else if found_busy(replies[0]) {
                assert(probe_ops(wait) =~= pause_ops(wait));
                assert(round_ops(wait, 0) + ops.drop_first() =~= pause_ops(wait) + poll);
                if wait.delay_us > 0 {
                    lemma_plain_wait(wait, true, rest);
                } else {
                    assert(pause_ops(wait) + poll =~= poll);
                    lemma_plain_wait(wait, false, rest);
                }
            } else {
                assert(next == completed::<E>());
                assert(tail =~= Seq::empty());
            }
            assert(acts[0] == first);
            assert forall|i: int| 1 <= i < acts.len() implies #[trigger] acts[i] == tail[i - 1] by {
            }
            if tail.len() > 0 {
                assert(acts.last() == tail.last());
            }
        }
    }
}

} // verus!
