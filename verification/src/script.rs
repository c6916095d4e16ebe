//! Scripts: what the driver methods do, one transfer or wait at a time, and the
//! pin changes, writes and delays that each entry stands for.
use crate::operation::{command_ops, fill_ops, inverted, probe_ops, BusyWait, Op};
use vstd::prelude::*;

verus! {

/// How bytes get onto the bus.
pub ghost struct Link {
    /// Whether data is written byte by byte.
    pub single_byte_write: bool,
    /// Whether SPI transactions are subject to the size limit of Linux.
    pub linux: bool,
}

/// Longest SPI transfer that Linux accepts by default.
pub const LINUX_TRANSFER_LIMIT: usize = 4096;

/// Number of bytes that are inverted and written at a time.
pub const INVERT_CHUNK: usize = 256;

/// Size of the framebuffer bands between which the cancel hook is asked.
pub const ASYNC_WRITE_CHUNK: usize = 4096;

/// Pause after a reset pulse in microseconds.
pub const RESET_SETTLE_US: u32 = 200_000;

/// One entry of a script.
pub ghost enum Block {
    /// A pulse on the reset pin, with the pauses before and during it.
    Reset { initial_delay: u32, duration: u32 },
    /// A command byte.
    Command(u8),
    /// Data bytes.
    Data(Seq<u8>),
    /// A command byte and the data that belongs to it.
    Setting(u8, Seq<u8>),
    /// The bitwise complement of data bytes.
    Inverted(Seq<u8>),
    /// The same data byte many times.
    Fill(u8, nat),
    /// Data bytes in bands, with a cancellation point before each; with the
    /// flag set, their complement.
    Bands(Seq<u8>, bool),
    /// A pause in milliseconds.
    DelayMs(u32),
    /// A wait for the panel to become idle.
    Wait(BusyWait),
    /// A point at which the operation can be cancelled.
    CancelPoint,
}

/// The sequence cut into pieces of `n`, the last one possibly shorter.
pub open spec fn chunks(s: Seq<u8>, n: nat) -> Seq<Seq<u8>>
    decreases s.len(),
{
    if s.len() == 0 || n == 0 {
        Seq::empty()
    } else if s.len() <= n {
        seq![s]
    } else {
        seq![s.take(n as int)] + chunks(s.skip(n as int), n)
    }
}

/// One write for each part.
pub open spec fn writes(parts: Seq<Seq<u8>>) -> Seq<Op> {
    parts.map_values(|part: Seq<u8>| Op::Write(part))
}

/// The parts of a byte string, one for each byte.
pub open spec fn singles(bytes: Seq<u8>) -> Seq<Seq<u8>> {
    bytes.map_values(|byte: u8| seq![byte])
}

/// The parts in which a byte string is written, within the transfer limit where
/// there is one.
pub open spec fn write_parts(link: Link, bytes: Seq<u8>) -> Seq<Seq<u8>> {
    if link.linux {
        chunks(bytes, LINUX_TRANSFER_LIMIT as nat)
    } else {
        seq![bytes]
    }
}

/// The parts in which data bytes are written.
pub open spec fn data_parts(link: Link, bytes: Seq<u8>) -> Seq<Seq<u8>> {
    if link.single_byte_write {
        singles(bytes)
    } else {
        write_parts(link, bytes)
    }
}

/// The parts in which the complement of data bytes is written.
pub open spec fn inverted_parts(bytes: Seq<u8>) -> Seq<Seq<u8>> {
    chunks(bytes, INVERT_CHUNK as nat).map_values(|part: Seq<u8>| inverted(part))
}

/// Data in parts, with the data/command pin high.
pub open spec fn burst_ops(parts: Seq<Seq<u8>>) -> Seq<Op> {
    seq![Op::Dc(true)] + writes(parts)
}

pub open spec fn data_ops(link: Link, bytes: Seq<u8>) -> Seq<Op> {
    burst_ops(data_parts(link, bytes))
}

pub open spec fn inverted_ops(bytes: Seq<u8>) -> Seq<Op> {
    burst_ops(inverted_parts(bytes))
}

/// One band of a framebuffer, with a cancellation point before it.
pub open spec fn band_ops(link: Link, band: Seq<u8>, invert: bool) -> Seq<Op> {
    seq![Op::CancelPoint] + (if invert {
        inverted_ops(band)
    } else {
        data_ops(link, band)
    })
}

pub open spec fn bands_ops(link: Link, bands: Seq<Seq<u8>>, invert: bool) -> Seq<Op>
    decreases bands.len(),
{
    if bands.len() == 0 {
        Seq::empty()
    } else {
        band_ops(link, bands[0], invert) + bands_ops(link, bands.drop_first(), invert)
    }
}

pub open spec fn reset_ops(initial_delay: u32, duration: u32) -> Seq<Op> {
    seq![
        Op::Rst(true),
        Op::DelayUs(initial_delay),
        Op::Rst(false),
        Op::DelayUs(duration),
        Op::Rst(true),
        Op::DelayUs(RESET_SETTLE_US),
    ]
}

/// A wait loop. One with a status command sends it, and pauses, before the first
/// poll too; one without starts with a poll.
pub open spec fn wait_ops(wait: BusyWait) -> Seq<Op> {
    (if wait.status_command is Some {
        probe_ops(wait)
    } else {
        Seq::empty()
    }) + seq![Op::Poll(wait, 0)]
}

/// What an entry of a script stands for.
pub open spec fn block_ops(link: Link, block: Block) -> Seq<Op> {
    match block {
        Block::Reset { initial_delay, duration } => reset_ops(initial_delay, duration),
        Block::Command(address) => command_ops(address),
        Block::Data(bytes) => data_ops(link, bytes),
        Block::Setting(address, bytes) => command_ops(address) + data_ops(link, bytes),
        Block::Inverted(bytes) => inverted_ops(bytes),
        Block::Fill(val, times) => seq![Op::Dc(true)] + fill_ops(val, times),
        Block::Bands(bytes, invert) => bands_ops(
            link,
            chunks(bytes, ASYNC_WRITE_CHUNK as nat),
            invert,
        ),
        Block::DelayMs(ms) => seq![Op::DelayMs(ms)],
        Block::Wait(wait) => wait_ops(wait),
        Block::CancelPoint => seq![Op::CancelPoint],
    }
}

/// What a script stands for: its entries one after the other.
pub open spec fn script_ops(link: Link, script: Seq<Block>) -> Seq<Op>
    decreases script.len(),
{
    if script.len() == 0 {
        Seq::empty()
    } else {
        script_ops(link, script.drop_last()) + block_ops(link, script.last())
    }
}

pub broadcast proof fn lemma_script_push(link: Link, script: Seq<Block>, block: Block)
    ensures
        #[trigger] script_ops(link, script.push(block)) == script_ops(link, script) + block_ops(
            link,
            block,
        ),
{
    assert(script.push(block).drop_last() =~= script);
}

/// The part of `s` that starts at `off` falls into its first chunk and the rest.
pub proof fn lemma_chunks_step(s: Seq<u8>, off: int, end: int, n: nat)
    requires
        0 <= off < end <= s.len(),
        n > 0,
        end == off + n || (end == s.len() && end <= off + n),
    ensures
        chunks(s.skip(off), n) == seq![s.subrange(off, end)] + chunks(s.skip(end), n),
{
    let t = s.skip(off);
    if t.len() <= n {
        assert(t =~= s.subrange(off, end));
        assert(chunks(s.skip(end), n) =~= Seq::empty());
    } else {
        assert(t.take(n as int) =~= s.subrange(off, end));
        assert(t.skip(n as int) =~= s.skip(end));
    }
}

/// A nonempty byte string within the limit is written in one go.
pub proof fn lemma_write_short(link: Link, bytes: Seq<u8>)
    requires
        0 < bytes.len() <= LINUX_TRANSFER_LIMIT,
    ensures
        writes(write_parts(link, bytes)) == seq![Op::Write(bytes)],
{
    assert(writes(write_parts(link, bytes)) =~= seq![Op::Write(bytes)]);
}

} // verus!
