//! The connection to the panel: commands, data, waits and resets.
pub use crate::operation::BusyTimeoutError;
use crate::operation::{busy_wait, BusyWait, Bytes, Op, Plan};
use crate::script::{
    band_ops, bands_ops, block_ops, chunks, lemma_chunks_step, lemma_write_short, singles,
    write_parts, writes, Block, Link, ASYNC_WRITE_CHUNK, LINUX_TRANSFER_LIMIT, RESET_SETTLE_US,
};
use crate::traits::Command;
use vstd::prelude::*;
use vstd::slice::slice_subrange;

verus! {

/// Pause between BUSY polls in microseconds if none is given.
pub const DEFAULT_DELAY_US: u32 = 10_000;

/// The connection interface of the panels.
///
/// `SINGLE_BYTE_WRITE` defines whether a data block is written bytewise or
/// blockwise to the SPI device.
#[derive(Debug)]
pub struct DisplayInterface<const SINGLE_BYTE_WRITE: bool> {
    /// Number of microseconds the idle loop sleeps between polls.
    pub delay_us: u32,
    /// Whether the SPI device is driven through Linux, which by default limits
    /// a transfer to 4096 bytes.
    pub linux: bool,
}

impl<const SINGLE_BYTE_WRITE: bool> DisplayInterface<SINGLE_BYTE_WRITE> {
    /// How this interface puts bytes onto the bus.
    pub open spec fn link(self) -> Link {
        Link { single_byte_write: SINGLE_BYTE_WRITE, linux: self.linux }
    }

    /// Creates a new `DisplayInterface`.
    ///
    /// If no delay is given, a default delay of 10 ms is used.
    pub fn new(delay_us: Option<u32>, linux: bool) -> (interface: Self)
        ensures
            interface.delay_us == match delay_us {
                Some(us) => us,
                None => DEFAULT_DELAY_US,
            },
            delay_us is None ==> interface.delay_us == 10_000,
            interface.linux == linux,
    {
        let delay_us: u32 = match delay_us {
            Some(us) => us,
            None => DEFAULT_DELAY_US,
        };
        DisplayInterface { delay_us, linux }
    }

    /// Sends a command.
    pub fn cmd<'a, T: Command>(&self, plan: &mut Plan<'a>, command: T)
        ensures
            final(plan)@ == old(plan)@ + block_ops(self.link(), Block::Command(command.code())),
    {
        // low for commands
        plan.set_dc(false);
        let address = [command.address()];
        proof {
            assert(address@ =~= seq![command.code()]);
            lemma_write_short(self.link(), address@);
        }
        self.write(plan, Bytes::short(&address));
    }

    /// Sends data bytes.
    pub fn data<'a>(&self, plan: &mut Plan<'a>, data: Bytes<'a>)
        ensures
            final(plan)@ == old(plan)@ + block_ops(self.link(), Block::Data(data@)),
    {
        // high for data
        plan.set_dc(true);
        if SINGLE_BYTE_WRITE {
            let ghost before = plan@;
            let ghost all = writes(singles(data@));
            assert(before + all.take(0) =~= before);
            let mut i: usize = 0;
            while i < data.len()
                invariant
                    i <= data@.len(),
                    all == writes(singles(data@)),
                    plan@ == before + all.take(i as int),
                decreases data@.len() - i,
            {
                let val = [data.as_slice()[i]];
                proof {
                    assert(val@ =~= seq![data@[i as int]]);
                    lemma_write_short(self.link(), val@);
                    assert(all[i as int] == Op::Write(val@));
                    assert(before + all.take(i as int) + seq![Op::Write(val@)] =~= before
                        + all.take(i + 1));
                }
                // one byte at a time
                self.write(plan, Bytes::short(&val));
                i = i + 1;
            }
            assert(all.take(i as int) =~= all);
        } else {
            self.write(plan, data);
        }
    }

    /// Sends a command and the data that belongs to it.
    pub fn cmd_with_data<'a, T: Command>(
        &self,
        plan: &mut Plan<'a>,
        command: T,
        data: Bytes<'a>,
    )
        ensures
            final(plan)@ == old(plan)@ + block_ops(
                self.link(),
                Block::Setting(command.code(), data@),
            ),
    {
        self.cmd(plan, command);
        self.data(plan, data);
    }

    /// Sends data with bytewise bitwise-NOT applied. Streams via a chunk on the stack
    /// to avoid heap allocation.
    ///
    /// For displays whose second image register expects the opposite bit polarity of
    /// the framebuffer.
    pub fn data_inverted<'a>(&self, plan: &mut Plan<'a>, data: &'a [u8])
        ensures
            final(plan)@ == old(plan)@ + block_ops(self.link(), Block::Inverted(data@)),
    {
        plan.set_dc(true);
        plan.write_inverted(data);
    }

    /// Sends the same data byte many times.
    pub fn data_x_times<'a>(&self, plan: &mut Plan<'a>, val: u8, repetitions: u32)
        ensures
            final(plan)@ == old(plan)@ + block_ops(
                self.link(),
                Block::Fill(val, repetitions as nat),
            ),
    {
        // high for data
        plan.set_dc(true);
        plan.write_times(val, repetitions);
    }

    /// Writes bytes to the SPI device, within the transfer limit of Linux where
    /// it applies.
    pub fn write<'a>(&self, plan: &mut Plan<'a>, data: Bytes<'a>)
        ensures
            final(plan)@ == old(plan)@ + writes(write_parts(self.link(), data@)),
    {
        if self.linux {
            let ghost before = plan@;
            let ghost all = writes(chunks(data@, LINUX_TRANSFER_LIMIT as nat));
            assert(data@.skip(0) =~= data@);
            let mut off: usize = 0;
            while off < data.len()
                invariant
                    off <= data@.len(),
                    plan@ + writes(chunks(data@.skip(off as int), LINUX_TRANSFER_LIMIT as nat))
                        == before + all,
                decreases data@.len() - off,
            {
                let end: usize = if data.len() - off <= LINUX_TRANSFER_LIMIT {
                    data.len()
                } else {
                    off + LINUX_TRANSFER_LIMIT
                };
                let chunk = data.part(off, end);
                proof {
                    lemma_chunks_step(data@, off as int, end as int, LINUX_TRANSFER_LIMIT as nat);
                    let rest = chunks(data@.skip(end as int), LINUX_TRANSFER_LIMIT as nat);
                    assert(writes(seq![chunk@] + rest) =~= seq![Op::Write(chunk@)] + writes(rest));
                    assert(plan@ + (seq![Op::Write(chunk@)] + writes(rest)) =~= plan@.push(
                        Op::Write(chunk@),
                    ) + writes(rest));
                }
                plan.write(chunk);
                off = end;
            }
            proof {
                assert(writes(chunks(data@.skip(off as int), LINUX_TRANSFER_LIMIT as nat))
                    =~= Seq::empty());
                assert(plan@ =~= before + all);
            }
        } else {
            proof {
                assert(writes(seq![data@]) =~= seq![Op::Write(data@)]);
            }
            plan.write(data);
        }
    }

    /// Waits until the device is not busy anymore.
    pub fn wait_until_idle<'a>(&self, plan: &mut Plan<'a>, is_busy_low: bool)
        ensures
            final(plan)@ == old(plan)@ + block_ops(
                self.link(),
                Block::Wait(busy_wait(None, is_busy_low, self.delay_us, None, false)),
            ),
    {
        plan.poll(self.idle_loop(None, is_busy_low, None, false));
    }

    /// Same as `wait_until_idle` for a device that needs a command to probe the
    /// BUSY pin.
    pub fn wait_until_idle_with_cmd<'a, T: Command>(
        &self,
        plan: &mut Plan<'a>,
        is_busy_low: bool,
        status_command: T,
    )
        ensures
            final(plan)@ == old(plan)@ + block_ops(
                self.link(),
                Block::Wait(
                    busy_wait(
                        Some(status_command.code()),
                        is_busy_low,
                        self.delay_us,
                        None,
                        false,
                    ),
                ),
            ),
    {
        self.cmd(plan, status_command);
        if self.delay_us > 0 {
            plan.delay_us(self.delay_us);
        }
        plan.poll(self.idle_loop(Some(status_command.address()), is_busy_low, None, false));
    }

    /// Bounded variant of `wait_until_idle_with_cmd`: fails with
    /// `BusyTimeoutError::BusyTimeout` if BUSY stays asserted past `timeout_us`.
    ///
    /// Elapsed time is approximated by counting polls times the poll period.
    pub fn wait_until_idle_with_cmd_timeout<'a, T: Command>(
        &self,
        plan: &mut Plan<'a>,
        is_busy_low: bool,
        status_command: T,
        timeout_us: u32,
    )
        ensures
            final(plan)@ == old(plan)@ + block_ops(
                self.link(),
                Block::Wait(
                    busy_wait(
                        Some(status_command.code()),
                        is_busy_low,
                        self.delay_us,
                        Some(timeout_us),
                        false,
                    ),
                ),
            ),
    {
        self.cmd(plan, status_command);
        if self.delay_us > 0 {
            plan.delay_us(self.delay_us);
        }
        let status: Option<u8> = Some(status_command.address());
        plan.poll(self.idle_loop(status, is_busy_low, Some(timeout_us), false));
    }

    /// Like `wait_until_idle_with_cmd_timeout`, and asks the cancel hook at every
    /// busy poll.
    pub fn wait_until_idle_with_cmd_timeout_async<'a, T: Command>(
        &self,
        plan: &mut Plan<'a>,
        is_busy_low: bool,
        status_command: T,
        timeout_us: u32,
    )
        ensures
            final(plan)@ == old(plan)@ + block_ops(
                self.link(),
                Block::Wait(
                    busy_wait(
                        Some(status_command.code()),
                        is_busy_low,
                        self.delay_us,
                        Some(timeout_us),
                        true,
                    ),
                ),
            ),
    {
        self.cmd(plan, status_command);
        if self.delay_us > 0 {
            plan.delay_us(self.delay_us);
        }
        let status: Option<u8> = Some(status_command.address());
        plan.poll(self.idle_loop(status, is_busy_low, Some(timeout_us), true));
    }

    /// The wait loop of this interface with the given parameters.
    fn idle_loop(
        &self,
        status_command: Option<u8>,
        is_busy_low: bool,
        timeout_us: Option<u32>,
        cancellable: bool,
    ) -> (wait: BusyWait)
        ensures
            wait == busy_wait(status_command, is_busy_low, self.delay_us, timeout_us, cancellable),
    {
        let poll_us: u32 = if self.delay_us == 0 {
            1
        } else {
            self.delay_us
        };
        let max_polls: Option<u32> = match timeout_us {
            Some(cap) => Some(cap / poll_us),
            None => None,
        };
        BusyWait { status_command, is_busy_low, delay_us: self.delay_us, max_polls, cancellable }
    }

    /// Sends a framebuffer in bands, asking the cancel hook before each; with
    /// `invert`, its bitwise complement.
    pub fn data_in_bands<'a>(&self, plan: &mut Plan<'a>, data: &'a [u8], invert: bool)
        ensures
            final(plan)@ == old(plan)@ + block_ops(self.link(), Block::Bands(data@, invert)),
    {
        let ghost before = plan@;
        let ghost link = self.link();
        let ghost all = bands_ops(link, chunks(data@, ASYNC_WRITE_CHUNK as nat), invert);
        assert(data@.skip(0) =~= data@);
        let mut off: usize = 0;
        while off < data.len()
            invariant
                off <= data@.len(),
                link == self.link(),
                plan@ + bands_ops(
                    link,
                    chunks(data@.skip(off as int), ASYNC_WRITE_CHUNK as nat),
                    invert,
                ) == before + all,
            decreases data@.len() - off,
        {
            let end: usize = if data.len() - off <= ASYNC_WRITE_CHUNK {
                data.len()
            } else {
                off + ASYNC_WRITE_CHUNK
            };
            let band = slice_subrange(data, off, end);
            let ghost here = plan@;
            let ghost rest = chunks(data@.skip(end as int), ASYNC_WRITE_CHUNK as nat);
            proof {
                lemma_chunks_step(data@, off as int, end as int, ASYNC_WRITE_CHUNK as nat);
                assert((seq![band@] + rest).drop_first() =~= rest);
            }
            plan.cancel_point();
            if invert {
                self.data_inverted(plan, band);
            } else {
                self.data(plan, Bytes::Borrowed(band));
            }
            proof {
                let tail = bands_ops(link, rest, invert);
                assert(plan@ =~= here + band_ops(link, band@, invert));
                assert(here + (band_ops(link, band@, invert) + tail) =~= plan@ + tail);
            }
            off = end;
        }
        proof {
            assert(chunks(data@.skip(off as int), ASYNC_WRITE_CHUNK as nat) =~= Seq::empty());
            assert(plan@ =~= before + all);
        }
    }

    /// Resets the device.
    ///
    /// The time the reset pin is kept low is different per device; the 7.5" V2
    /// needs 2 ms.
    pub fn reset<'a>(&self, plan: &mut Plan<'a>, initial_delay: u32, duration: u32)
        ensures
            final(plan)@ == old(plan)@ + block_ops(
                self.link(),
                (Block::Reset { initial_delay, duration }),
            ),
    {
        plan.set_rst(true);
        plan.delay_us(initial_delay);

        plan.set_rst(false);
        plan.delay_us(duration);
        plan.set_rst(true);
        plan.delay_us(RESET_SETTLE_US);
    }
}

} // verus!
