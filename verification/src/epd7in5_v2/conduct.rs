//! The conduct of the panel's operations, as an onlooker sees it who knows every action
//! and every answer of the BUSY pin: when they wait, for how long, what they leave alone
//! in the meantime, when they ask the cancel hook, and how they leave the panel.
use crate::epd7in5_v2::command::Command;
use crate::epd7in5_v2::laws::code;
use crate::epd7in5_v2::sequences::{
    clear_frame_script, command, display_frame_script, fast_common, fast_partial_script,
    fast_settings, full_refresh_script, idle, init_fast_script, init_script,
    partial_dual_async_script, partial_dual_script, partial_script, setting, sleep_script,
    update_async_script, update_frame_script,
};
use crate::epd7in5_v2::watch::{
    blank, data_count, first_look, group_watch, keeps_busy, law_well_conducted, lemma_fits_push,
    lemma_gauge_push, lemma_one_piece, observed, pieces, script_fits, script_gauge, starts_image,
    well_conducted, Gauge, Habits,
};
use crate::epd7in5_v2::{fast_partial_table, Epd7in5, FastPartialWaveform};
use crate::interface::DisplayInterface;
use crate::operation::{busy_wait, start, Reply, Signal};
use crate::runs::{completed, law_one_after_the_other, run, trace};
use crate::script::{lemma_script_push, reset_ops, script_ops, wait_ops, Block, Link};
use crate::stops::{lemma_prefix, lemma_script_append};
use crate::timing::law_stuck_panel;
use crate::wire::{
    all_transfers, law_only_allowed_transfers, law_transfer_limit, lemma_wait_allowed,
    only_command, Transfer,
};
use vstd::prelude::*;

verus! {

/// What an operation has done once it has completed.
pub ghost struct Deeds {
    /// Whether it has left the panel idle. If not, it has triggered a refresh and has not
    /// waited for it.
    pub leaves_idle: bool,
    /// How many waits it has seen through.
    pub waits: nat,
    /// How often it has asked the cancel hook, but for the busy polls.
    pub questions: nat,
    /// How many transfers it has made, but for status queries.
    pub transfers: nat,
    /// How often it has driven the reset pin.
    pub resets: nat,
    /// How many microseconds it has slept, but for the poll periods.
    pub pauses_us: nat,
    /// How often it has driven the data/command pin, but for status queries, of which it
    /// has made no more than one for each BUSY read.
    pub switches: nat,
}

/// How the panel is waited for: `GetStatus`, 0x71, before every read, and a low level on
/// BUSY means busy.
pub open spec fn habits(epd: Epd7in5, cap_us: Option<u32>, asks: bool) -> Habits {
    Habits { status: 0x71, low: true, delay_us: epd.interface.delay_us, cap_us, asks }
}

/// Whether the operation is well conducted, whether it has completed or not, and whether
/// it has done this if it has completed. `idle` says whether the panel can be trusted to
/// be idle before.
pub open spec fn conducts<E>(
    epd: Epd7in5,
    script: Seq<Block>,
    cap_us: Option<u32>,
    asks: bool,
    idle: bool,
    dc: bool,
    replies: Seq<Reply<E>>,
    deeds: Deeds,
) -> bool {
    let h = habits(epd, cap_us, asks);
    let w = observed(first_look(dc, idle), trace(epd.runs::<E>(script), replies), h);
    &&& well_conducted(epd.interface.link(), script, h, dc, idle, replies)
    &&& w.rst <= deeds.resets
    &&& run(epd.runs::<E>(script), replies).end == completed::<E>() ==> {
        &&& w.ready == deeds.leaves_idle
        &&& w.idle_reads == deeds.waits
        &&& w.spare == deeds.questions
        &&& w.sent == deeds.transfers
        &&& w.rst == deeds.resets
        &&& w.spent == deeds.pauses_us
        &&& w.asides == deeds.switches
    }
}

proof fn lemma_conducts<E>(
    epd: Epd7in5,
    script: Seq<Block>,
    cap_us: Option<u32>,
    asks: bool,
    idle: bool,
    dc: bool,
    replies: Seq<Reply<E>>,
)
    requires
        script_fits(
            epd.interface.linux,
            blank(idle),
            script,
            habits(epd, cap_us, asks),
        ),
        script_gauge(epd.interface.linux, blank(idle), script).spare >= 0,
        script_gauge(epd.interface.linux, blank(idle), script).spent >= 0,
        script_gauge(epd.interface.linux, blank(idle), script).asides >= 0,
    ensures
        ({
            let g = script_gauge(epd.interface.linux, blank(idle), script);
            let deeds = Deeds {
                leaves_idle: g.ready,
                waits: g.idle_reads,
                questions: g.spare as nat,
                transfers: g.sent,
                resets: g.rst,
                pauses_us: g.spent as nat,
                switches: g.asides as nat,
            };
            conducts(epd, script, cap_us, asks, idle, dc, replies, deeds)
        }),
{
    let h = habits(epd, cap_us, asks);
    law_well_conducted(epd.interface.link(), script, h, dc, idle, replies);
}

/// Init waits once, after power-on and its pause of 100 ms, and sends nothing else in the
/// meantime. Besides it sleeps only for the reset.
pub proof fn law_init_conduct<E>(
    epd: Epd7in5,
    cap_us: Option<u32>,
    dc: bool,
    replies: Seq<Reply<E>>,
)
    ensures
        ({
            let d = epd.interface.delay_us;
            let deeds = Deeds {
                leaves_idle: true,
                waits: 1,
                questions: 0,
                transfers: 15,
                resets: 3,
                pauses_us: 312_000,
                switches: 15,
            };
            conducts(
                epd,
                init_script(d, cap_us),
                cap_us,
                false,
                true,
                dc,
                replies,
                deeds,
            )
        }),
{
    let d = epd.interface.delay_us;
    let linux = epd.interface.linux;
    let script = init_script(d, cap_us);
    let h = habits(epd, cap_us, false);
    let g = script_gauge(linux, blank(true), script);
    assert({
        &&& script_fits(linux, blank(true), script, h)
        &&& g.ready == true && g.idle_reads == 1 && g.rst == 3 && g.spent == 312_000
        &&& g.spare == 0
        &&& g.sent == 15
        &&& g.asides == 15
    }) by {
        broadcast use group_watch;

    }
    lemma_conducts(epd, script, cap_us, false, true, dc, replies);
}

/// One more setting takes two transfers and leaves all else as it was.
proof fn lemma_more_setting(
    linux: bool,
    script: Seq<Block>,
    command: Command,
    data: Seq<u8>,
    h: Habits,
)
    requires
        script_fits(linux, blank(true), script, h),
        script_gauge(linux, blank(true), script).ready,
        !script_gauge(linux, blank(true), script).hot,
        h.status == 0x71 && code(command) != 0x71,
        !keeps_busy(code(command)) && !starts_image(code(command)),
        0 < data.len() <= 4096,
    ensures
        script_fits(linux, blank(true), script.push(setting(command, data)), h),
        ({
            let g = script_gauge(linux, blank(true), script);
            script_gauge(linux, blank(true), script.push(setting(command, data))) == (Gauge {
                named: true,
                image: false,
                sent: g.sent + 2,
                asides: g.asides + 2,
                ..g
            })
        }),
{
    lemma_one_piece(data.len(), 4096);
    lemma_gauge_push(linux, blank(true), script, setting(command, data));
    lemma_fits_push(linux, blank(true), script, setting(command, data), h);
}

/// What the settings of the fast-partial mode leave behind.
proof fn lemma_fast_common_gauge(linux: bool, h: Habits)
    requires
        h.status == 0x71,
    ensures
        script_fits(linux, blank(true), fast_common(), h),
        script_gauge(linux, blank(true), fast_common()) == (Gauge {
            named: true,
            sent: 16,
            rst: 3,
            spent: 212_000,
            asides: 16,
            ..blank(true)
        }),
{
    broadcast use group_watch;

}

/// What all settings leave behind, with those of the waveform source.
proof fn lemma_fast_settings_gauge(linux: bool, waveform: FastPartialWaveform, h: Habits)
    requires
        h.status == 0x71,
    ensures
        script_fits(linux, blank(true), fast_settings(waveform), h),
        script_gauge(linux, blank(true), fast_settings(waveform)) == (Gauge {
            named: true,
            sent: if waveform == FastPartialWaveform::RegisterLut {
                34
            } else {
                20
            },
            rst: 3,
            spent: 212_000,
            asides: if waveform == FastPartialWaveform::RegisterLut {
                34
            } else {
                20
            },
            ..blank(true)
        }),
{
    let common = fast_common();
    lemma_fast_common_gauge(linux, h);
    match waveform {
        FastPartialWaveform::OtpForcedTemperature => {
            lemma_more_setting(linux, common, Command::CascadeSetting, [0x02u8]@, h);
            let s1 = common.push(setting(Command::CascadeSetting, [0x02u8]@));
            lemma_more_setting(linux, s1, Command::ForceTemperature, [0x6Eu8]@, h);
        },
        FastPartialWaveform::RegisterLut => {
            lemma_more_setting(linux, common, Command::PanelSetting, [0x3Fu8]@, h);
            let s1 = common.push(setting(Command::PanelSetting, [0x3Fu8]@));
            lemma_more_setting(linux, s1, Command::VcmDcSetting, [0x30u8]@, h);
            let s2 = s1.push(setting(Command::VcmDcSetting, [0x30u8]@));
            let interval = seq![0x39u8, 0x07u8];
            lemma_more_setting(linux, s2, Command::VcomAndDataIntervalSetting, interval, h);
            let s3 = s2.push(setting(Command::VcomAndDataIntervalSetting, interval));
            lemma_more_setting(linux, s3, Command::LutForVcom, fast_partial_table(0x00), h);
            let s4 = s3.push(setting(Command::LutForVcom, fast_partial_table(0x00)));
            lemma_more_setting(linux, s4, Command::LutBlack, fast_partial_table(0x00), h);
            let s5 = s4.push(setting(Command::LutBlack, fast_partial_table(0x00)));
            lemma_more_setting(linux, s5, Command::LutWhite, fast_partial_table(0x5A), h);
            let s6 = s5.push(setting(Command::LutWhite, fast_partial_table(0x5A)));
            lemma_more_setting(linux, s6, Command::LutGray1, fast_partial_table(0x84), h);
            let s7 = s6.push(setting(Command::LutGray1, fast_partial_table(0x84)));
            lemma_more_setting(linux, s7, Command::LutGray2, fast_partial_table(0x00), h);
            let s8 = s7.push(setting(Command::LutGray2, fast_partial_table(0x00)));
            lemma_more_setting(linux, s8, Command::LutRed0, fast_partial_table(0x00), h);
        },
    }
}

/// Fast-partial init waits once, at its very end, after power-on and its pause of 100 ms.
/// Besides it sleeps only for the reset.
pub proof fn law_fast_init_conduct<E>(
    epd: Epd7in5,
    cap_us: u32,
    waveform: FastPartialWaveform,
    dc: bool,
    replies: Seq<Reply<E>>,
)
    ensures
        ({
            let d = epd.interface.delay_us;
            let deeds = Deeds {
                leaves_idle: true,
                waits: 1,
                questions: 0,
                transfers: if waveform == FastPartialWaveform::RegisterLut {
                    35
                } else {
                    21
                },
                resets: 3,
                pauses_us: 312_000,
                switches: if waveform == FastPartialWaveform::RegisterLut {
                    35
                } else {
                    21
                },
            };
            conducts(
                epd,
                init_fast_script(d, cap_us, waveform),
                Some(cap_us),
                false,
                true,
                dc,
                replies,
                deeds,
            )
        }),
{
    let d = epd.interface.delay_us;
    let h = habits(epd, Some(cap_us), false);
    let linux = epd.interface.linux;
    let settings = fast_settings(waveform);
    let on = settings.push(command(Command::PowerOn));
    let warm = on.push(Block::DelayMs(100));
    let wait = idle(d, Some(cap_us), false);
    lemma_fast_settings_gauge(linux, waveform, h);
    lemma_gauge_push(linux, blank(true), settings, command(Command::PowerOn));
    lemma_fits_push(linux, blank(true), settings, command(Command::PowerOn), h);
    lemma_gauge_push(linux, blank(true), on, Block::DelayMs(100));
    lemma_fits_push(linux, blank(true), on, Block::DelayMs(100), h);
    lemma_gauge_push(linux, blank(true), warm, wait);
    lemma_fits_push(linux, blank(true), warm, wait, h);
    lemma_conducts(
        epd,
        init_fast_script(d, cap_us, waveform),
        Some(cap_us),
        false,
        true,
        dc,
        replies,
    );
}

/// Sleep waits twice: before it sends anything, and after power-off, before deep sleep.
pub proof fn law_sleep_conduct<E>(
    epd: Epd7in5,
    cap_us: Option<u32>,
    dc: bool,
    replies: Seq<Reply<E>>,
)
    ensures
        ({
            let d = epd.interface.delay_us;
            let deeds = Deeds {
                leaves_idle: true,
                waits: 2,
                questions: 0,
                transfers: 3,
                resets: 0,
                pauses_us: 0,
                switches: 3,
            };
            conducts(
                epd,
                sleep_script(d, cap_us),
                cap_us,
                false,
                false,
                dc,
                replies,
                deeds,
            )
        }),
{
    let d = epd.interface.delay_us;
    let linux = epd.interface.linux;
    let script = sleep_script(d, cap_us);
    let h = habits(epd, cap_us, false);
    let g = script_gauge(linux, blank(false), script);
    assert({
        &&& script_fits(linux, blank(false), script, h)
        &&& g.ready == true && g.idle_reads == 2 && g.rst == 0 && g.spent == 0
        &&& g.spare == 0
        &&& g.sent == 3
        &&& g.asides == 3
    }) by {
        broadcast use group_watch;

    }
    lemma_conducts(epd, script, cap_us, false, false, dc, replies);
}

/// A wait sends nothing but status queries, and leaves the panel idle.
pub proof fn law_wait_conduct<E>(
    epd: Epd7in5,
    cap_us: Option<u32>,
    asks: bool,
    dc: bool,
    replies: Seq<Reply<E>>,
)
    ensures
        ({
            let d = epd.interface.delay_us;
            let deeds = Deeds {
                leaves_idle: true,
                waits: 1,
                questions: 0,
                transfers: 0,
                resets: 0,
                pauses_us: 0,
                switches: 0,
            };
            conducts(
                epd,
                Seq::empty().push(idle(d, cap_us, asks)),
                cap_us,
                asks,
                false,
                dc,
                replies,
                deeds,
            )
        }),
{
    let d = epd.interface.delay_us;
    let linux = epd.interface.linux;
    let script = Seq::empty().push(idle(d, cap_us, asks));
    let h = habits(epd, cap_us, asks);
    let g = script_gauge(linux, blank(false), script);
    assert({
        &&& script_fits(linux, blank(false), script, h)
        &&& g.ready == true && g.idle_reads == 1 && g.rst == 0 && g.spent == 0
        &&& g.spare == 0
        &&& g.sent == 0
        &&& g.asides == 0
    }) by {
        broadcast use group_watch;

    }
    lemma_conducts(epd, script, cap_us, asks, false, dc, replies);
}

/// A wait with a status query is well conducted on any link, with any query, polarity,
/// poll period and time cap: a query and one period before every read, the hook right
/// after every busy one if it is to be asked, and a timeout after as many busy reads as
/// make up the cap. Nothing but the query is sent, and only a read that finds the panel
/// idle completes it.
pub proof fn law_status_wait_conduct<E>(
    link: Link,
    h: Habits,
    dc: bool,
    replies: Seq<Reply<E>>,
)
    ensures
        ({
            let wait = busy_wait(Some(h.status), h.low, h.delay_us, h.cap_us, h.asks);
            let script = Seq::empty().push(Block::Wait(wait));
            let state = start::<E>(script_ops(link, script));
            let w = observed(first_look(dc, false), trace(state, replies), h);
            &&& well_conducted(link, script, h, dc, false, replies)
            &&& w.rst == 0
            &&& run(state, replies).end == completed::<E>() ==> {
                &&& w.ready
                &&& w.idle_reads == 1
                &&& w.spare == 0
                &&& w.sent == 0
                &&& w.spent == 0
                &&& w.asides == 0
            }
        }),
{
    let wait = busy_wait(Some(h.status), h.low, h.delay_us, h.cap_us, h.asks);
    let script = Seq::empty().push(Block::Wait(wait));
    let plain = Link { single_byte_write: false, ..link };
    let g = script_gauge(link.linux, blank(false), script);
    assert({
        &&& script_fits(link.linux, blank(false), script, h)
        &&& g.ready && g.idle_reads == 1 && g.rst == 0 && g.spent == 0
        &&& g.spare == 0 && g.sent == 0 && g.asides == 0
    }) by {
        broadcast use group_watch;

    }
    assert(script_ops(link, script) == script_ops(plain, script)) by {
        broadcast use lemma_script_push;

    }
    law_well_conducted(plain, script, h, dc, false, replies);
}

/// Through Linux, no transfer of the panel's operations is longer than 4096 bytes.
pub proof fn law_panel_transfer_limit<E>(
    epd: Epd7in5,
    script: Seq<Block>,
    dc: bool,
    replies: Seq<Reply<E>>,
)
    requires
        epd.interface.linux,
    ensures
        all_transfers(
            run(epd.runs::<E>(script), replies).signals,
            dc,
            |t: Transfer| t.bytes.len() <= 4096,
        ),
{
    law_transfer_limit(epd.interface.link(), script, dc, replies);
}

/// An interface writes data byte by byte, or in transfers of 4096 bytes, exactly where it
/// was made to, and the panel's does not write it byte by byte.
pub proof fn law_links(
    bytewise: DisplayInterface<true>,
    blockwise: DisplayInterface<false>,
    epd: Epd7in5,
)
    ensures
        bytewise.link() == (Link { single_byte_write: true, linux: bytewise.linux }),
        blockwise.link() == (Link { single_byte_write: false, linux: blockwise.linux }),
        epd.interface.link() == (Link { single_byte_write: false, linux: epd.interface.linux }),
{
}

/// A frame transfer waits before it sends anything. The frame takes one transfer, or as
/// many as Linux needs, its complement one for every 256 bytes.
pub proof fn law_frame_transfer_conduct<E>(
    epd: Epd7in5,
    cap_us: Option<u32>,
    buffer: Seq<u8>,
    dc: bool,
    replies: Seq<Reply<E>>,
)
    ensures
        ({
            let d = epd.interface.delay_us;
            let deeds = Deeds {
                leaves_idle: true,
                waits: 1,
                questions: 0,
                transfers: 2 + data_count(epd.interface.linux, buffer.len()) + pieces(
                    buffer.len(),
                    256,
                ),
                resets: 0,
                pauses_us: 0,
                switches: 4,
            };
            conducts(
                epd,
                update_frame_script(d, cap_us, buffer),
                cap_us,
                false,
                false,
                dc,
                replies,
                deeds,
            )
        }),
{
    let d = epd.interface.delay_us;
    let linux = epd.interface.linux;
    let script = update_frame_script(d, cap_us, buffer);
    let h = habits(epd, cap_us, false);
    let g = script_gauge(linux, blank(false), script);
    assert({
        &&& script_fits(linux, blank(false), script, h)
        &&& g.ready == true && g.idle_reads == 1 && g.rst == 0 && g.spent == 0
        &&& g.spare == 0
        &&& g.sent == 2 + data_count(linux, buffer.len()) + pieces(buffer.len(), 256)
        &&& g.asides == 4
    }) by {
        broadcast use group_watch;

    }
    lemma_conducts(epd, script, cap_us, false, false, dc, replies);
}

/// A full refresh waits before it sends anything, and does not wait for the refresh.
pub proof fn law_full_refresh_conduct<E>(
    epd: Epd7in5,
    cap_us: Option<u32>,
    buffer: Seq<u8>,
    dc: bool,
    replies: Seq<Reply<E>>,
)
    ensures
        ({
            let d = epd.interface.delay_us;
            let deeds = Deeds {
                leaves_idle: false,
                waits: 1,
                questions: 0,
                transfers: 3 + data_count(epd.interface.linux, buffer.len()) + pieces(
                    buffer.len(),
                    256,
                ),
                resets: 0,
                pauses_us: 0,
                switches: 5,
            };
            conducts(
                epd,
                full_refresh_script(d, cap_us, buffer),
                cap_us,
                false,
                false,
                dc,
                replies,
                deeds,
            )
        }),
{
    let d = epd.interface.delay_us;
    let linux = epd.interface.linux;
    let script = full_refresh_script(d, cap_us, buffer);
    let h = habits(epd, cap_us, false);
    let g = script_gauge(linux, blank(false), script);
    assert({
        &&& script_fits(linux, blank(false), script, h)
        &&& g.ready == false && g.idle_reads == 1 && g.rst == 0 && g.spent == 0
        &&& g.spare == 0
        &&& g.sent == 3 + data_count(linux, buffer.len()) + pieces(buffer.len(), 256)
        &&& g.asides == 5
    }) by {
        broadcast use group_watch;

    }
    lemma_conducts(epd, script, cap_us, false, false, dc, replies);
}

/// Showing a frame waits before it triggers, and does not wait for the refresh.
pub proof fn law_display_conduct<E>(
    epd: Epd7in5,
    cap_us: Option<u32>,
    dc: bool,
    replies: Seq<Reply<E>>,
)
    ensures
        ({
            let d = epd.interface.delay_us;
            let deeds = Deeds {
                leaves_idle: false,
                waits: 1,
                questions: 0,
                transfers: 1,
                resets: 0,
                pauses_us: 0,
                switches: 1,
            };
            conducts(
                epd,
                display_frame_script(d, cap_us),
                cap_us,
                false,
                false,
                dc,
                replies,
                deeds,
            )
        }),
{
    let d = epd.interface.delay_us;
    let linux = epd.interface.linux;
    let script = display_frame_script(d, cap_us);
    let h = habits(epd, cap_us, false);
    let g = script_gauge(linux, blank(false), script);
    assert({
        &&& script_fits(linux, blank(false), script, h)
        &&& g.ready == false && g.idle_reads == 1 && g.rst == 0 && g.spent == 0
        &&& g.spare == 0
        &&& g.sent == 1
        &&& g.asides == 1
    }) by {
        broadcast use group_watch;

    }
    lemma_conducts(epd, script, cap_us, false, false, dc, replies);
}

/// Clearing waits before it sends anything, sends byte by byte, and does not wait for the
/// refresh.
pub proof fn law_clear_conduct<E>(
    epd: Epd7in5,
    cap_us: Option<u32>,
    dc: bool,
    replies: Seq<Reply<E>>,
)
    ensures
        ({
            let d = epd.interface.delay_us;
            let deeds = Deeds {
                leaves_idle: false,
                waits: 1,
                questions: 0,
                transfers: 96_008,
                resets: 0,
                pauses_us: 0,
                switches: 10,
            };
            conducts(
                epd,
                clear_frame_script(d, cap_us),
                cap_us,
                false,
                false,
                dc,
                replies,
                deeds,
            )
        }),
{
    let d = epd.interface.delay_us;
    let linux = epd.interface.linux;
    let script = clear_frame_script(d, cap_us);
    let h = habits(epd, cap_us, false);
    let g = script_gauge(linux, blank(false), script);
    assert({
        &&& script_fits(linux, blank(false), script, h)
        &&& g.ready == false && g.idle_reads == 1 && g.rst == 0 && g.spent == 0
        &&& g.spare == 0
        &&& g.sent == 96_008
        &&& g.asides == 10
    }) by {
        broadcast use group_watch;

    }
    lemma_conducts(epd, script, cap_us, false, false, dc, replies);
}

/// The cancellable full refresh waits before it sends anything, and does not wait for the
/// refresh. It asks the cancel hook three times and once for each band of 4096 bytes.
pub proof fn law_full_refresh_async_conduct<E>(
    epd: Epd7in5,
    cap_us: u32,
    buffer: Seq<u8>,
    dc: bool,
    replies: Seq<Reply<E>>,
)
    ensures
        ({
            let d = epd.interface.delay_us;
            let deeds = Deeds {
                leaves_idle: false,
                waits: 1,
                questions: 3 + 2 * pieces(buffer.len(), 4096),
                transfers: 3 + pieces(buffer.len(), 4096) + pieces(buffer.len(), 256),
                resets: 0,
                pauses_us: 0,
                switches: 3 + 2 * pieces(buffer.len(), 4096),
            };
            conducts(
                epd,
                update_async_script(d, cap_us, buffer),
                Some(cap_us),
                true,
                false,
                dc,
                replies,
                deeds,
            )
        }),
{
    let d = epd.interface.delay_us;
    let linux = epd.interface.linux;
    let script = update_async_script(d, cap_us, buffer);
    let h = habits(epd, Some(cap_us), true);
    let g = script_gauge(linux, blank(false), script);
    assert({
        &&& script_fits(linux, blank(false), script, h)
        &&& g.ready == false && g.idle_reads == 1 && g.rst == 0 && g.spent == 0
        &&& g.spare == 3 + 2 * pieces(buffer.len(), 4096)
        &&& g.sent == 3 + pieces(buffer.len(), 4096) + pieces(buffer.len(), 256)
        &&& g.asides == 3 + 2 * pieces(buffer.len(), 4096)
    }) by {
        broadcast use group_watch;

    }
    lemma_conducts(epd, script, Some(cap_us), true, false, dc, replies);
}

/// A windowed refresh waits before it sends anything, and again after the trigger, before
/// it sends anything more.
pub proof fn law_partial_refresh_conduct<E>(
    epd: Epd7in5,
    cap_us: Option<u32>,
    buffer: Seq<u8>,
    window: Seq<u8>,
    dc: bool,
    replies: Seq<Reply<E>>,
)
    requires
        window.len() == 9,
    ensures
        ({
            let d = epd.interface.delay_us;
            let deeds = Deeds {
                leaves_idle: true,
                waits: 2,
                questions: 0,
                transfers: 10 + data_count(epd.interface.linux, buffer.len()),
                resets: 0,
                pauses_us: 0,
                switches: 11,
            };
            conducts(
                epd,
                partial_script(d, cap_us, buffer, window),
                cap_us,
                false,
                false,
                dc,
                replies,
                deeds,
            )
        }),
{
    let d = epd.interface.delay_us;
    let linux = epd.interface.linux;
    let script = partial_script(d, cap_us, buffer, window);
    let h = habits(epd, cap_us, false);
    let g = script_gauge(linux, blank(false), script);
    assert({
        &&& script_fits(linux, blank(false), script, h)
        &&& g.ready == true && g.idle_reads == 2 && g.rst == 0 && g.spent == 0
        &&& g.spare == 0
        &&& g.sent == 10 + data_count(linux, buffer.len())
        &&& g.asides == 11
    }) by {
        broadcast use group_watch;

    }
    lemma_conducts(epd, script, cap_us, false, false, dc, replies);
}

/// So does the one with both images.
pub proof fn law_partial_refresh_dual_conduct<E>(
    epd: Epd7in5,
    cap_us: Option<u32>,
    old_buffer: Seq<u8>,
    new_buffer: Seq<u8>,
    window: Seq<u8>,
    dc: bool,
    replies: Seq<Reply<E>>,
)
    requires
        window.len() == 9,
    ensures
        ({
            let d = epd.interface.delay_us;
            let deeds = Deeds {
                leaves_idle: true,
                waits: 2,
                questions: 0,
                transfers: 11 + data_count(epd.interface.linux, old_buffer.len()) + data_count(
                    epd.interface.linux,
                    new_buffer.len(),
                ),
                resets: 0,
                pauses_us: 0,
                switches: 13,
            };
            conducts(
                epd,
                partial_dual_script(d, cap_us, old_buffer, new_buffer, window),
                cap_us,
                false,
                false,
                dc,
                replies,
                deeds,
            )
        }),
{
    let d = epd.interface.delay_us;
    let linux = epd.interface.linux;
    let script = partial_dual_script(d, cap_us, old_buffer, new_buffer, window);
    let h = habits(epd, cap_us, false);
    let g = script_gauge(linux, blank(false), script);
    assert({
        &&& script_fits(linux, blank(false), script, h)
        &&& g.ready == true && g.idle_reads == 2 && g.rst == 0 && g.spent == 0
        &&& g.spare == 0
        &&& g.sent == 11 + data_count(linux, old_buffer.len()) + data_count(linux, new_buffer.len())
        &&& g.asides == 13
    }) by {
        broadcast use group_watch;

    }
    lemma_conducts(epd, script, cap_us, false, false, dc, replies);
}

/// So does the cancellable one. It asks the cancel hook twice and once for each band of
/// 4096 bytes.
pub proof fn law_partial_refresh_dual_async_conduct<E>(
    epd: Epd7in5,
    cap_us: u32,
    old_buffer: Seq<u8>,
    new_buffer: Seq<u8>,
    window: Seq<u8>,
    dc: bool,
    replies: Seq<Reply<E>>,
)
    requires
        window.len() == 9,
    ensures
        ({
            let d = epd.interface.delay_us;
            let deeds = Deeds {
                leaves_idle: true,
                waits: 2,
                questions: 2 + pieces(old_buffer.len(), 4096) + pieces(new_buffer.len(), 4096),
                transfers: 11 + pieces(old_buffer.len(), 4096) + pieces(new_buffer.len(), 4096),
                resets: 0,
                pauses_us: 0,
                switches: 11 + pieces(old_buffer.len(), 4096) + pieces(new_buffer.len(), 4096),
            };
            conducts(
                epd,
                partial_dual_async_script(d, cap_us, old_buffer, new_buffer, window),
                Some(cap_us),
                true,
                false,
                dc,
                replies,
                deeds,
            )
        }),
{
    let d = epd.interface.delay_us;
    let linux = epd.interface.linux;
    let script = partial_dual_async_script(d, cap_us, old_buffer, new_buffer, window);
    let h = habits(epd, Some(cap_us), true);
    let g = script_gauge(linux, blank(false), script);
    assert({
        &&& script_fits(linux, blank(false), script, h)
        &&& g.ready == true && g.idle_reads == 2 && g.rst == 0 && g.spent == 0
        &&& g.spare == 2 + pieces(old_buffer.len(), 4096) + pieces(new_buffer.len(), 4096)
        &&& g.sent == 11 + pieces(old_buffer.len(), 4096) + pieces(new_buffer.len(), 4096)
        &&& g.asides == 11 + pieces(old_buffer.len(), 4096) + pieces(new_buffer.len(), 4096)
    }) by {
        broadcast use group_watch;

    }
    lemma_conducts(epd, script, Some(cap_us), true, false, dc, replies);
}

/// And so does the fast one.
pub proof fn law_fast_partial_refresh_conduct<E>(
    epd: Epd7in5,
    cap_us: u32,
    old_buffer: Seq<u8>,
    new_buffer: Seq<u8>,
    window: Seq<u8>,
    dc: bool,
    replies: Seq<Reply<E>>,
)
    requires
        window.len() == 9,
    ensures
        ({
            let d = epd.interface.delay_us;
            let deeds = Deeds {
                leaves_idle: true,
                waits: 2,
                questions: 2 + pieces(old_buffer.len(), 4096) + pieces(new_buffer.len(), 4096),
                transfers: 7 + pieces(old_buffer.len(), 4096) + pieces(new_buffer.len(), 4096),
                resets: 0,
                pauses_us: 0,
                switches: 7 + pieces(old_buffer.len(), 4096) + pieces(new_buffer.len(), 4096),
            };
            conducts(
                epd,
                fast_partial_script(d, cap_us, old_buffer, new_buffer, window),
                Some(cap_us),
                true,
                false,
                dc,
                replies,
                deeds,
            )
        }),
{
    let d = epd.interface.delay_us;
    let linux = epd.interface.linux;
    let script = fast_partial_script(d, cap_us, old_buffer, new_buffer, window);
    let h = habits(epd, Some(cap_us), true);
    let g = script_gauge(linux, blank(false), script);
    assert({
        &&& script_fits(linux, blank(false), script, h)
        &&& g.ready == true && g.idle_reads == 2 && g.rst == 0 && g.spent == 0
        &&& g.spare == 2 + pieces(old_buffer.len(), 4096) + pieces(new_buffer.len(), 4096)
        &&& g.sent == 7 + pieces(old_buffer.len(), 4096) + pieces(new_buffer.len(), 4096)
        &&& g.asides == 7 + pieces(old_buffer.len(), 4096) + pieces(new_buffer.len(), 4096)
    }) by {
        broadcast use group_watch;

    }
    lemma_conducts(epd, script, Some(cap_us), true, false, dc, replies);
}

// ---------------------------------------------------------------------------
// A busy panel

/// Whether every BUSY read finds the pin asserted.
pub open spec fn always_busy<E>(replies: Seq<Reply<E>>) -> bool {
    forall|j: int|
        0 <= j < replies.len() && (#[trigger] replies[j] is Busy) ==> replies[j] == Reply::<
            E,
        >::Busy(Some(true))
}

/// The panel is sent nothing but status queries, and the operation does not complete.
pub open spec fn left_alone<E>(
    epd: Epd7in5,
    script: Seq<Block>,
    dc: bool,
    replies: Seq<Reply<E>>,
) -> bool {
    let course = run(epd.runs::<E>(script), replies);
    &&& all_transfers(course.signals, dc, only_command(0x71))
    &&& course.end != completed::<E>()
}

proof fn lemma_left_alone<E>(
    epd: Epd7in5,
    script: Seq<Block>,
    cap_us: Option<u32>,
    asks: bool,
    dc: bool,
    replies: Seq<Reply<E>>,
)
    requires
        always_busy(replies),
        script.len() > 0,
        script[0] == idle(epd.interface.delay_us, cap_us, asks),
    ensures
        left_alone(epd, script, dc, replies),
{
    broadcast use lemma_script_push;

    let link = epd.interface.link();
    let wait = busy_wait(Some(0x71u8), true, epd.interface.delay_us, cap_us, asks);
    let entry = Seq::empty().push(Block::Wait(wait));
    let rest = script.skip(1);
    let a = script_ops(link, entry);
    assert(script =~= entry + rest);
    assert(a =~= wait_ops(wait));
    lemma_script_append(link, entry, rest);
    law_one_after_the_other(a, script_ops(link, rest), replies);
    assert(a[a.len() - 1] is Poll);
    law_stuck_panel(a, replies, a.len() - 1);
    lemma_wait_allowed(wait, 0x71, dc);
    law_only_allowed_transfers(a, dc, only_command(0x71), replies);
}

/// As long as BUSY stays asserted, a panel that is at work is left alone by every
/// operation but the inits, which reset it: it is sent nothing but status queries, and
/// the operation does not complete.
pub proof fn law_busy_panel_is_left_alone<E>(
    epd: Epd7in5,
    cap_us: Option<u32>,
    async_us: u32,
    asks: bool,
    old_buffer: Seq<u8>,
    new_buffer: Seq<u8>,
    window: Seq<u8>,
    dc: bool,
    replies: Seq<Reply<E>>,
)
    requires
        always_busy(replies),
    ensures
        ({
            let d = epd.interface.delay_us;
            &&& left_alone(epd, sleep_script(d, cap_us), dc, replies)
            &&& left_alone(epd, Seq::empty().push(idle(d, cap_us, asks)), dc, replies)
            &&& left_alone(epd, update_frame_script(d, cap_us, new_buffer), dc, replies)
            &&& left_alone(epd, full_refresh_script(d, cap_us, new_buffer), dc, replies)
            &&& left_alone(epd, display_frame_script(d, cap_us), dc, replies)
            &&& left_alone(epd, clear_frame_script(d, cap_us), dc, replies)
            &&& left_alone(epd, update_async_script(d, async_us, new_buffer), dc, replies)
            &&& left_alone(epd, partial_script(d, cap_us, new_buffer, window), dc, replies)
            &&& left_alone(
                epd,
                partial_dual_script(d, cap_us, old_buffer, new_buffer, window),
                dc,
                replies,
            )
            &&& left_alone(
                epd,
                partial_dual_async_script(d, async_us, old_buffer, new_buffer, window),
                dc,
                replies,
            )
            &&& left_alone(
                epd,
                fast_partial_script(d, async_us, old_buffer, new_buffer, window),
                dc,
                replies,
            )
        }),
{
    let d = epd.interface.delay_us;
    let async_cap = Some(async_us);
    lemma_left_alone(epd, sleep_script(d, cap_us), cap_us, false, dc, replies);
    lemma_left_alone(epd, Seq::empty().push(idle(d, cap_us, asks)), cap_us, asks, dc, replies);
    lemma_left_alone(
        epd,
        update_frame_script(d, cap_us, new_buffer),
        cap_us,
        false,
        dc,
        replies,
    );
    lemma_left_alone(
        epd,
        full_refresh_script(d, cap_us, new_buffer),
        cap_us,
        false,
        dc,
        replies,
    );
    lemma_left_alone(epd, display_frame_script(d, cap_us), cap_us, false, dc, replies);
    lemma_left_alone(epd, clear_frame_script(d, cap_us), cap_us, false, dc, replies);
    lemma_left_alone(
        epd,
        update_async_script(d, async_us, new_buffer),
        async_cap,
        true,
        dc,
        replies,
    );
    lemma_left_alone(
        epd,
        partial_script(d, cap_us, new_buffer, window),
        cap_us,
        false,
        dc,
        replies,
    );
    lemma_left_alone(
        epd,
        partial_dual_script(d, cap_us, old_buffer, new_buffer, window),
        cap_us,
        false,
        dc,
        replies,
    );
    lemma_left_alone(
        epd,
        partial_dual_async_script(d, async_us, old_buffer, new_buffer, window),
        async_cap,
        true,
        dc,
        replies,
    );
    lemma_left_alone(
        epd,
        fast_partial_script(d, async_us, old_buffer, new_buffer, window),
        async_cap,
        true,
        dc,
        replies,
    );
}

// ---------------------------------------------------------------------------
// The reset pulse

/// The reset pulse of the panel.
pub open spec fn pulse() -> Seq<Signal> {
    seq![
        Signal::Rst(true),
        Signal::DelayUs(10_000),
        Signal::Rst(false),
        Signal::DelayUs(2_000),
        Signal::Rst(true),
        Signal::DelayUs(200_000),
    ]
}

/// Whether the run, as far as it has come, starts with the reset pulse.
pub open spec fn starts_with_pulse<E>(
    epd: Epd7in5,
    script: Seq<Block>,
    replies: Seq<Reply<E>>,
) -> bool {
    let signals = run(epd.runs::<E>(script), replies).signals;
    forall|i: int| 0 <= i < 6 && i < signals.len() ==> #[trigger] signals[i] == pulse()[i]
}

proof fn lemma_starts_with_pulse<E>(epd: Epd7in5, script: Seq<Block>, replies: Seq<Reply<E>>)
    requires
        script.len() > 0,
        script[0] == (Block::Reset { initial_delay: 10_000, duration: 2_000 }),
    ensures
        starts_with_pulse(epd, script, replies),
{
    broadcast use lemma_script_push;

    let link = epd.interface.link();
    let entry = Seq::empty().push(script[0]);
    let rest = script.skip(1);
    let ops = script_ops(link, script);
    assert(script =~= entry + rest);
    lemma_script_append(link, entry, rest);
    assert(script_ops(link, entry) =~= reset_ops(10_000, 2_000));
    assert(ops =~= reset_ops(10_000, 2_000) + script_ops(link, rest));
    assert forall|i: int| 0 <= i < 6 implies !(#[trigger] ops[i] is Poll || ops[i] is Hook) by {
        assert(ops[i] == reset_ops(10_000, 2_000)[i]);
    }
    lemma_prefix(ops, 6, replies);
    let signals = run(epd.runs::<E>(script), replies).signals;
    assert forall|i: int| 0 <= i < 6 && i < signals.len() implies #[trigger] signals[i]
        == pulse()[i] by {
        assert(ops[i] == reset_ops(10_000, 2_000)[i]);
    }
}

/// Both inits start with the reset pulse, which wakes the controller from deep sleep and
/// takes leftover settings away: nothing else is done before it is over.
pub proof fn law_inits_reset_first<E>(
    epd: Epd7in5,
    cap_us: Option<u32>,
    fast_us: u32,
    waveform: FastPartialWaveform,
    replies: Seq<Reply<E>>,
)
    ensures
        starts_with_pulse(epd, init_script(epd.interface.delay_us, cap_us), replies),
        starts_with_pulse(
            epd,
            init_fast_script(epd.interface.delay_us, fast_us, waveform),
            replies,
        ),
{
    lemma_starts_with_pulse(epd, init_script(epd.interface.delay_us, cap_us), replies);
    lemma_starts_with_pulse(
        epd,
        init_fast_script(epd.interface.delay_us, fast_us, waveform),
        replies,
    );
}

} // verus!
