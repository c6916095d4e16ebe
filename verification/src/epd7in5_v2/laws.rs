//! What holds of the panel's operations, however the panel, the bus and the
//! cancel hook behave.
//!
//! Each law speaks of `epd.runs(script)`, the state in which the driver methods
//! hand an operation over, and of any sequence of replies.
use crate::caps::{
    law_looser_script, lemma_looser_cap, lemma_looser_push, looser_cap, same_until_timeout,
};
use crate::epd7in5_v2::command::Command;
use crate::epd7in5_v2::sequences::{
    clear_frame_script, command, differential_interval, display_frame_script, fast_partial_prefix,
    fast_partial_script, full_interval, full_refresh_script, idle, init_fast_script, init_script,
    partial_dual_async_prefix, partial_dual_async_script, partial_dual_script, partial_script,
    setting, sleep_script, update_async_prefix, update_async_script, update_frame_script,
    window_bytes, window_fits,
};
use crate::epd7in5_v2::{fast_partial_table, Epd7in5, FastPartialWaveform};
use crate::operation::{answers, busy_wait, inverted, poll_limit, start, Op, Reply, Signal};
use crate::packets::{
    group_packets, law_panel_receives_script, lemma_command_packet, lemma_more_data,
    lemma_packets_push, lemma_setting_packet, lemma_status_push, packet, received,
    received_after, script_packets, status_only, Packet,
};
use crate::runs::{
    all_answer, asked, benign, cancelled, completed, fresh, law_more_entries,
    law_one_after_the_other, law_smooth_run_completes, run, timed_out, with_replies,
};
use crate::script::{block_ops, lemma_script_push, script_ops, wait_ops, Block};
use crate::spacing::{law_hook_is_asked_often, lemma_carried_push, lemma_keeps_push, spaced};
use crate::stops::{
    asks, guarded_command, latched, law_cancelled_before, law_hook_guards_command,
    law_latched_cancel, law_no_timeout, law_not_cancellable, law_timed_out_before,
    law_timed_out_in_wait, lemma_no_questions, lemma_questions_append, lemma_script_append,
    lemma_uncancellable, lemma_uncancellable_push, lemma_unlimited, lemma_unlimited_push,
    never_asks, questions, uncancellable, unlimited,
};
use crate::timing::{
    law_bounded_wait, law_limited_script_ends, law_stuck_panel_is_reported, lemma_limited_push,
    lemma_pause_push, lemma_script_fresh, lemma_wait_pause, limited, reads, script_pause, slept,
    total_actions, undisturbed,
};
use crate::traits;
use crate::wire::{
    all_transfers, avoids, law_never_sends, lemma_avoids, lemma_avoids_push, no_command,
    only_command, transfers,
};
use vstd::prelude::*;

verus! {

/// The byte of a command.
pub open spec fn code(command: Command) -> u8 {
    traits::Command::code(command)
}

/// A packet with the given command.
pub open spec fn sent(command: Command, data: Seq<u8>) -> Packet {
    packet(code(command), data)
}

/// If the script completes, a panel that had received some packets has received these
/// in all, but for status queries.
pub open spec fn delivers<E>(
    epd: Epd7in5,
    script: Seq<Block>,
    packets: Seq<Packet>,
    dc: bool,
    replies: Seq<Reply<E>>,
    more: Seq<Packet>,
) -> bool {
    let course = run(epd.runs::<E>(script), replies);
    course.end == completed::<E>() ==> received_after(
        packets,
        transfers(course.signals, dc),
        code(Command::GetStatus),
    ) == more
}

proof fn lemma_delivers<E>(
    epd: Epd7in5,
    script: Seq<Block>,
    packets: Seq<Packet>,
    dc: bool,
    replies: Seq<Reply<E>>,
)
    requires
        status_only(script, code(Command::GetStatus)),
    ensures
        delivers(
            epd,
            script,
            packets,
            dc,
            replies,
            script_packets(packets, script, code(Command::GetStatus)),
        ),
{
    if run(epd.runs::<E>(script), replies).end == completed::<E>() {
        law_panel_receives_script(
            epd.interface.link(),
            script,
            packets,
            dc,
            code(Command::GetStatus),
            replies,
        );
    }
}

/// If every action is answered, the panel is idle, no write fails and nobody cancels,
/// then every operation does exactly what it was planned to, and completes.
pub proof fn law_idle_panel_completes<E>(
    epd: Epd7in5,
    script: Seq<Block>,
    replies: Seq<Reply<E>>,
)
    requires
        ({
            let ops = script_ops(epd.interface.link(), script);
            &&& replies.len() == ops.len()
            &&& forall|i: int| 0 <= i < ops.len() ==> answers(ops[i], #[trigger] replies[i])
            &&& forall|i: int| 0 <= i < ops.len() ==> benign(#[trigger] replies[i])
        }),
    ensures
        run(epd.runs::<E>(script), replies).end == completed::<E>(),
        run(epd.runs::<E>(script), replies).signals == asked(
            script_ops(epd.interface.link(), script),
        ),
{
    lemma_script_fresh(epd.interface.link(), script);
    law_smooth_run_completes(script_ops(epd.interface.link(), script), replies);
}

// ---------------------------------------------------------------------------
// What the panel receives

/// A framebuffer as old image, its complement as new image.
pub open spec fn frame_packets(packets: Seq<Packet>, buffer: Seq<u8>) -> Seq<Packet> {
    packets
        .push(sent(Command::DataStartTransmission1, buffer))
        .push(sent(Command::DataStartTransmission2, inverted(buffer)))
}

/// A frame transfer gives the panel the framebuffer as old image and its
/// complement as new image.
pub proof fn law_frame_transfer<E>(
    epd: Epd7in5,
    timeout_us: Option<u32>,
    buffer: Seq<u8>,
    packets: Seq<Packet>,
    dc: bool,
    replies: Seq<Reply<E>>,
)
    ensures
        delivers(
            epd,
            update_frame_script(epd.interface.delay_us, timeout_us, buffer),
            packets,
            dc,
            replies,
            packets
                .push(packet(0x10, buffer))
                .push(packet(0x13, inverted(buffer))),
        ),
{
    broadcast use group_packets;

    let script = update_frame_script(epd.interface.delay_us, timeout_us, buffer);
    lemma_delivers(epd, script, packets, dc, replies);
}

/// A frame transfer and the trigger.
pub open spec fn full_refresh_packets(packets: Seq<Packet>, buffer: Seq<u8>) -> Seq<Packet> {
    frame_packets(packets, buffer).push(sent(Command::DisplayRefresh, Seq::empty()))
}

/// A full refresh, with or without a time cap, gives the panel the framebuffer as
/// old image, its complement as new image, and the trigger.
pub proof fn law_full_refresh<E>(
    epd: Epd7in5,
    timeout_us: Option<u32>,
    buffer: Seq<u8>,
    packets: Seq<Packet>,
    dc: bool,
    replies: Seq<Reply<E>>,
)
    ensures
        delivers(
            epd,
            full_refresh_script(epd.interface.delay_us, timeout_us, buffer),
            packets,
            dc,
            replies,
            packets
                .push(packet(0x10, buffer))
                .push(packet(0x13, inverted(buffer)))
                .push(packet(0x12, Seq::empty())),
        ),
{
    broadcast use group_packets;

    let script = full_refresh_script(epd.interface.delay_us, timeout_us, buffer);
    lemma_delivers(epd, script, packets, dc, replies);
}

/// The cancellable full refresh gives the panel the same as the plain one.
pub proof fn law_full_refresh_async<E>(
    epd: Epd7in5,
    timeout_us: u32,
    buffer: Seq<u8>,
    packets: Seq<Packet>,
    dc: bool,
    replies: Seq<Reply<E>>,
)
    ensures
        delivers(
            epd,
            update_async_script(epd.interface.delay_us, timeout_us, buffer),
            packets,
            dc,
            replies,
            packets
                .push(packet(0x10, buffer))
                .push(packet(0x13, inverted(buffer)))
                .push(packet(0x12, Seq::empty())),
        ),
{
    broadcast use group_packets;

    let script = update_async_script(epd.interface.delay_us, timeout_us, buffer);
    lemma_delivers(epd, script, packets, dc, replies);
}

/// The differential waveform, partial mode, the window, the new image raw, the trigger,
/// and both switched back.
pub open spec fn partial_packets(
    packets: Seq<Packet>,
    buffer: Seq<u8>,
    window: Seq<u8>,
) -> Seq<Packet> {
    packets
        .push(sent(Command::VcomAndDataIntervalSetting, seq![0xA9u8, 0x07u8]))
        .push(sent(Command::PartialIn, Seq::empty()))
        .push(sent(Command::PartialWindow, window))
        .push(sent(Command::DataStartTransmission2, buffer))
        .push(sent(Command::DisplayRefresh, Seq::empty()))
        .push(sent(Command::PartialOut, Seq::empty()))
        .push(sent(Command::VcomAndDataIntervalSetting, seq![0x20u8, 0x07u8]))
}

/// A windowed refresh switches to the differential waveform and to partial mode,
/// transfers the new image raw, triggers, and switches both back.
pub proof fn law_partial_refresh<E>(
    epd: Epd7in5,
    timeout_us: Option<u32>,
    buffer: Seq<u8>,
    window: Seq<u8>,
    packets: Seq<Packet>,
    dc: bool,
    replies: Seq<Reply<E>>,
)
    ensures
        delivers(
            epd,
            partial_script(epd.interface.delay_us, timeout_us, buffer, window),
            packets,
            dc,
            replies,
            packets
                .push(packet(0x50, seq![0xA9u8, 0x07u8]))
                .push(packet(0x91, Seq::empty()))
                .push(packet(0x90, window))
                .push(packet(0x13, buffer))
                .push(packet(0x12, Seq::empty()))
                .push(packet(0x92, Seq::empty()))
                .push(packet(0x50, seq![0x20u8, 0x07u8])),
        ),
{
    broadcast use group_packets;

    let script = partial_script(epd.interface.delay_us, timeout_us, buffer, window);
    lemma_delivers(epd, script, packets, dc, replies);
}

/// Partial mode, the window, the old and the new image raw, the trigger, and partial mode
/// switched back.
pub open spec fn fast_partial_packets(
    packets: Seq<Packet>,
    old_buffer: Seq<u8>,
    new_buffer: Seq<u8>,
    window: Seq<u8>,
) -> Seq<Packet> {
    packets
        .push(sent(Command::PartialIn, Seq::empty()))
        .push(sent(Command::PartialWindow, window))
        .push(sent(Command::DataStartTransmission1, old_buffer))
        .push(sent(Command::DataStartTransmission2, new_buffer))
        .push(sent(Command::DisplayRefresh, Seq::empty()))
        .push(sent(Command::PartialOut, Seq::empty()))
}

/// The packets of the fast windowed refresh, under the differential waveform.
pub open spec fn partial_dual_packets(
    packets: Seq<Packet>,
    old_buffer: Seq<u8>,
    new_buffer: Seq<u8>,
    window: Seq<u8>,
) -> Seq<Packet> {
    fast_partial_packets(
        packets.push(sent(Command::VcomAndDataIntervalSetting, seq![0xA9u8, 0x07u8])),
        old_buffer,
        new_buffer,
        window,
    ).push(sent(Command::VcomAndDataIntervalSetting, seq![0x20u8, 0x07u8]))
}

/// A windowed refresh with the old image too, raw as well.
pub proof fn law_partial_refresh_dual<E>(
    epd: Epd7in5,
    timeout_us: Option<u32>,
    old_buffer: Seq<u8>,
    new_buffer: Seq<u8>,
    window: Seq<u8>,
    packets: Seq<Packet>,
    dc: bool,
    replies: Seq<Reply<E>>,
)
    ensures
        delivers(
            epd,
            partial_dual_script(epd.interface.delay_us, timeout_us, old_buffer, new_buffer, window),
            packets,
            dc,
            replies,
            packets
                .push(packet(0x50, seq![0xA9u8, 0x07u8]))
                .push(packet(0x91, Seq::empty()))
                .push(packet(0x90, window))
                .push(packet(0x10, old_buffer))
                .push(packet(0x13, new_buffer))
                .push(packet(0x12, Seq::empty()))
                .push(packet(0x92, Seq::empty()))
                .push(packet(0x50, seq![0x20u8, 0x07u8])),
        ),
{
    broadcast use group_packets;

    let script = partial_dual_script(
        epd.interface.delay_us,
        timeout_us,
        old_buffer,
        new_buffer,
        window,
    );
    lemma_delivers(epd, script, packets, dc, replies);
}

/// The cancellable windowed refresh gives the panel the same as the plain one.
pub proof fn law_partial_refresh_dual_async<E>(
    epd: Epd7in5,
    timeout_us: u32,
    old_buffer: Seq<u8>,
    new_buffer: Seq<u8>,
    window: Seq<u8>,
    packets: Seq<Packet>,
    dc: bool,
    replies: Seq<Reply<E>>,
)
    ensures
        delivers(
            epd,
            partial_dual_async_script(
                epd.interface.delay_us,
                timeout_us,
                old_buffer,
                new_buffer,
                window,
            ),
            packets,
            dc,
            replies,
            packets
                .push(packet(0x50, seq![0xA9u8, 0x07u8]))
                .push(packet(0x91, Seq::empty()))
                .push(packet(0x90, window))
                .push(packet(0x10, old_buffer))
                .push(packet(0x13, new_buffer))
                .push(packet(0x12, Seq::empty()))
                .push(packet(0x92, Seq::empty()))
                .push(packet(0x50, seq![0x20u8, 0x07u8])),
        ),
{
    broadcast use group_packets;

    let script = partial_dual_async_script(
        epd.interface.delay_us,
        timeout_us,
        old_buffer,
        new_buffer,
        window,
    );
    lemma_delivers(epd, script, packets, dc, replies);
}

/// The fast windowed refresh gives the panel what the cancellable one does, without the
/// two changes of CDI.
pub proof fn law_fast_partial_refresh<E>(
    epd: Epd7in5,
    timeout_us: u32,
    old_buffer: Seq<u8>,
    new_buffer: Seq<u8>,
    window: Seq<u8>,
    packets: Seq<Packet>,
    dc: bool,
    replies: Seq<Reply<E>>,
)
    ensures
        delivers(
            epd,
            fast_partial_script(epd.interface.delay_us, timeout_us, old_buffer, new_buffer, window),
            packets,
            dc,
            replies,
            packets
                .push(packet(0x91, Seq::empty()))
                .push(packet(0x90, window))
                .push(packet(0x10, old_buffer))
                .push(packet(0x13, new_buffer))
                .push(packet(0x12, Seq::empty()))
                .push(packet(0x92, Seq::empty())),
        ),
{
    broadcast use group_packets;

    let script = fast_partial_script(
        epd.interface.delay_us,
        timeout_us,
        old_buffer,
        new_buffer,
        window,
    );
    lemma_delivers(epd, script, packets, dc, replies);
}

/// Power and booster, power-on, and the other settings of the full waveform.
pub open spec fn init_packets(packets: Seq<Packet>) -> Seq<Packet> {
    packets
        .push(sent(Command::PowerSetting, seq![0x07u8, 0x07u8, 0x3fu8, 0x3fu8]))
        .push(sent(Command::BoosterSoftStart, seq![0x17u8, 0x17u8, 0x28u8, 0x17u8]))
        .push(sent(Command::PowerOn, Seq::empty()))
        .push(sent(Command::PanelSetting, [0x1Fu8]@))
        .push(sent(Command::TconResolution, seq![0x03u8, 0x20u8, 0x01u8, 0xE0u8]))
        .push(sent(Command::DualSpi, [0x00u8]@))
        .push(sent(Command::VcomAndDataIntervalSetting, seq![0x20u8, 0x07u8]))
        .push(sent(Command::TconSetting, [0x22u8]@))
}

/// Init, with or without a time cap, gives the panel these settings, and powers it
/// on before most of them.
pub proof fn law_init<E>(
    epd: Epd7in5,
    timeout_us: Option<u32>,
    packets: Seq<Packet>,
    dc: bool,
    replies: Seq<Reply<E>>,
)
    ensures
        delivers(
            epd,
            init_script(epd.interface.delay_us, timeout_us),
            packets,
            dc,
            replies,
            packets
                .push(packet(0x01, seq![0x07u8, 0x07u8, 0x3fu8, 0x3fu8]))
                .push(packet(0x06, seq![0x17u8, 0x17u8, 0x28u8, 0x17u8]))
                .push(packet(0x04, Seq::empty()))
                .push(packet(0x00, [0x1Fu8]@))
                .push(packet(0x61, seq![0x03u8, 0x20u8, 0x01u8, 0xE0u8]))
                .push(packet(0x15, [0x00u8]@))
                .push(packet(0x50, seq![0x20u8, 0x07u8]))
                .push(packet(0x60, [0x22u8]@)),
        ),
{
    broadcast use group_packets;

    let script = init_script(epd.interface.delay_us, timeout_us);
    lemma_delivers(epd, script, packets, dc, replies);
}

/// The common settings of the fast-partial mode.
pub open spec fn fast_common_packets(packets: Seq<Packet>) -> Seq<Packet> {
    packets
        .push(sent(Command::PanelSetting, [0x1Fu8]@))
        .push(sent(Command::PowerSetting, seq![0x07u8, 0x07u8, 0x3Fu8, 0x3Fu8, 0x09u8]))
        .push(sent(Command::BoosterSoftStart, seq![0x17u8, 0x17u8, 0x28u8, 0x17u8]))
        .push(sent(Command::TconResolution, seq![0x03u8, 0x20u8, 0x01u8, 0xE0u8]))
        .push(sent(Command::DualSpi, [0x00u8]@))
        .push(sent(Command::VcomAndDataIntervalSetting, seq![0x29u8, 0x07u8]))
        .push(sent(Command::TconSetting, [0x22u8]@))
        .push(sent(Command::PowerSaving, [0x22u8]@))
}

/// The settings of the fast-partial mode, those of the waveform source, and power-on.
pub open spec fn fast_init_packets(
    packets: Seq<Packet>,
    waveform: FastPartialWaveform,
) -> Seq<Packet> {
    match waveform {
        FastPartialWaveform::OtpForcedTemperature => fast_common_packets(packets)
            .push(sent(Command::CascadeSetting, [0x02u8]@))
            .push(sent(Command::ForceTemperature, [0x6Eu8]@))
            .push(sent(Command::PowerOn, Seq::empty())),
        FastPartialWaveform::RegisterLut => fast_common_packets(packets)
            .push(sent(Command::PanelSetting, [0x3Fu8]@))
            .push(sent(Command::VcmDcSetting, [0x30u8]@))
            .push(sent(Command::VcomAndDataIntervalSetting, seq![0x39u8, 0x07u8]))
            .push(sent(Command::LutForVcom, fast_partial_table(0x00)))
            .push(sent(Command::LutBlack, fast_partial_table(0x00)))
            .push(sent(Command::LutWhite, fast_partial_table(0x5A)))
            .push(sent(Command::LutGray1, fast_partial_table(0x84)))
            .push(sent(Command::LutGray2, fast_partial_table(0x00)))
            .push(sent(Command::LutRed0, fast_partial_table(0x00)))
            .push(sent(Command::PowerOn, Seq::empty())),
    }
}

/// Fast-partial init gives the panel all settings, and the tables where they are the
/// waveform source, and only then powers it on.
#[verifier::rlimit(20)]
pub proof fn law_fast_init<E>(
    epd: Epd7in5,
    timeout_us: u32,
    waveform: FastPartialWaveform,
    packets: Seq<Packet>,
    dc: bool,
    replies: Seq<Reply<E>>,
)
    ensures
        delivers(
            epd,
            init_fast_script(epd.interface.delay_us, timeout_us, waveform),
            packets,
            dc,
            replies,
            ({
                let common = packets
                    .push(packet(0x00, [0x1Fu8]@))
                    .push(packet(0x01, seq![0x07u8, 0x07u8, 0x3Fu8, 0x3Fu8, 0x09u8]))
                    .push(packet(0x06, seq![0x17u8, 0x17u8, 0x28u8, 0x17u8]))
                    .push(packet(0x61, seq![0x03u8, 0x20u8, 0x01u8, 0xE0u8]))
                    .push(packet(0x15, [0x00u8]@))
                    .push(packet(0x50, seq![0x29u8, 0x07u8]))
                    .push(packet(0x60, [0x22u8]@))
                    .push(packet(0xE3, [0x22u8]@));
                match waveform {
                    FastPartialWaveform::OtpForcedTemperature => common
                        .push(packet(0xE0, [0x02u8]@))
                        .push(packet(0xE5, [0x6Eu8]@))
                        .push(packet(0x04, Seq::empty())),
                    FastPartialWaveform::RegisterLut => common
                        .push(packet(0x00, [0x3Fu8]@))
                        .push(packet(0x82, [0x30u8]@))
                        .push(packet(0x50, seq![0x39u8, 0x07u8]))
                        .push(packet(0x20, fast_partial_table(0x00)))
                        .push(packet(0x21, fast_partial_table(0x00)))
                        .push(packet(0x22, fast_partial_table(0x5A)))
                        .push(packet(0x23, fast_partial_table(0x84)))
                        .push(packet(0x24, fast_partial_table(0x00)))
                        .push(packet(0x25, fast_partial_table(0x00)))
                        .push(packet(0x04, Seq::empty())),
                }
            }),
        ),
{
    let script = init_fast_script(epd.interface.delay_us, timeout_us, waveform);
    assert(status_only(script, code(Command::GetStatus))) by {
        broadcast use lemma_status_push;

    }
    broadcast use {lemma_packets_push, lemma_command_packet, lemma_setting_packet};

    lemma_delivers(epd, script, packets, dc, replies);
}

/// Power-off and deep sleep.
pub open spec fn sleep_packets(packets: Seq<Packet>) -> Seq<Packet> {
    packets
        .push(sent(Command::PowerOff, Seq::empty()))
        .push(sent(Command::DeepSleep, [0xA5u8]@))
}

/// Sleep powers the panel off and puts the controller into deep sleep.
pub proof fn law_sleep<E>(
    epd: Epd7in5,
    timeout_us: Option<u32>,
    packets: Seq<Packet>,
    dc: bool,
    replies: Seq<Reply<E>>,
)
    ensures
        delivers(
            epd,
            sleep_script(epd.interface.delay_us, timeout_us),
            packets,
            dc,
            replies,
            packets
                .push(packet(0x02, Seq::empty()))
                .push(packet(0x07, [0xA5u8]@)),
        ),
{
    broadcast use group_packets;

    let script = sleep_script(epd.interface.delay_us, timeout_us);
    lemma_delivers(epd, script, packets, dc, replies);
}

/// Showing a frame sends nothing but the trigger.
pub proof fn law_display<E>(
    epd: Epd7in5,
    timeout_us: Option<u32>,
    packets: Seq<Packet>,
    dc: bool,
    replies: Seq<Reply<E>>,
)
    ensures
        delivers(
            epd,
            display_frame_script(epd.interface.delay_us, timeout_us),
            packets,
            dc,
            replies,
            packets.push(packet(0x12, Seq::empty())),
        ),
{
    broadcast use group_packets;

    let script = display_frame_script(epd.interface.delay_us, timeout_us);
    lemma_delivers(epd, script, packets, dc, replies);
}

/// The resolution, an old image of ones, a new image of zeros, and the trigger.
pub open spec fn clear_packets(packets: Seq<Packet>) -> Seq<Packet> {
    packets
        .push(sent(Command::TconResolution, seq![0x03u8, 0x20u8, 0x01u8, 0xE0u8]))
        .push(sent(Command::DataStartTransmission1, Seq::new(48_000, |i: int| 0xFFu8)))
        .push(sent(Command::DataStartTransmission2, Seq::new(48_000, |i: int| 0x00u8)))
        .push(sent(Command::DisplayRefresh, Seq::empty()))
}

/// Clearing gives the panel its resolution, an old image of ones and a new image
/// of zeros, one bit for each pixel, and the trigger.
pub proof fn law_clear<E>(
    epd: Epd7in5,
    timeout_us: Option<u32>,
    packets: Seq<Packet>,
    dc: bool,
    replies: Seq<Reply<E>>,
)
    ensures
        delivers(
            epd,
            clear_frame_script(epd.interface.delay_us, timeout_us),
            packets,
            dc,
            replies,
            packets
                .push(packet(0x61, seq![0x03u8, 0x20u8, 0x01u8, 0xE0u8]))
                .push(packet(0x10, Seq::new(48_000, |i: int| 0xFFu8)))
                .push(packet(0x13, Seq::new(48_000, |i: int| 0x00u8)))
                .push(packet(0x12, Seq::empty())),
        ),
{
    broadcast use {group_packets, lemma_more_data};

    assert([0x03u8]@ + [0x20u8]@ + [0x01u8]@ + [0xE0u8]@ =~= seq![
        0x03u8,
        0x20u8,
        0x01u8,
        0xE0u8,
    ]);
    let script = clear_frame_script(epd.interface.delay_us, timeout_us);
    lemma_delivers(epd, script, packets, dc, replies);
}

/// Waiting sends nothing but status queries.
pub proof fn law_wait<E>(
    epd: Epd7in5,
    timeout_us: Option<u32>,
    cancellable: bool,
    packets: Seq<Packet>,
    dc: bool,
    replies: Seq<Reply<E>>,
)
    ensures
        delivers(
            epd,
            Seq::empty().push(idle(epd.interface.delay_us, timeout_us, cancellable)),
            packets,
            dc,
            replies,
            packets,
        ),
{
    broadcast use group_packets;

    let script = Seq::empty().push(idle(epd.interface.delay_us, timeout_us, cancellable));
    lemma_delivers(epd, script, packets, dc, replies);
}

/// Once completed, the cancellable windowed refresh has given the panel what the fast
/// one gives it, between the two changes of CDI, whatever the replies to either.
pub proof fn law_fast_partial_sends_partial_without_interval<E>(
    epd: Epd7in5,
    timeout_us: u32,
    old_buffer: Seq<u8>,
    new_buffer: Seq<u8>,
    window: Seq<u8>,
    dc: bool,
    slow: Seq<Reply<E>>,
    fast: Seq<Reply<E>>,
)
    requires
        run(
            epd.runs::<E>(
                partial_dual_async_script(
                    epd.interface.delay_us,
                    timeout_us,
                    old_buffer,
                    new_buffer,
                    window,
                ),
            ),
            slow,
        ).end == completed::<E>(),
        run(
            epd.runs::<E>(
                fast_partial_script(
                    epd.interface.delay_us,
                    timeout_us,
                    old_buffer,
                    new_buffer,
                    window,
                ),
            ),
            fast,
        ).end == completed::<E>(),
    ensures
        ({
            let status = code(Command::GetStatus);
            let slow_script = partial_dual_async_script(
                epd.interface.delay_us,
                timeout_us,
                old_buffer,
                new_buffer,
                window,
            );
            let fast_script = fast_partial_script(
                epd.interface.delay_us,
                timeout_us,
                old_buffer,
                new_buffer,
                window,
            );
            received(run(epd.runs::<E>(slow_script), slow).signals, dc, status) == seq![
                sent(Command::VcomAndDataIntervalSetting, seq![0xA9u8, 0x07u8]),
            ] + received(run(epd.runs::<E>(fast_script), fast).signals, dc, status) + seq![
                sent(Command::VcomAndDataIntervalSetting, seq![0x20u8, 0x07u8]),
            ]
        }),
{
    let none = Seq::<Packet>::empty();
    law_partial_refresh_dual_async(
        epd,
        timeout_us,
        old_buffer,
        new_buffer,
        window,
        none,
        dc,
        slow,
    );
    law_fast_partial_refresh(epd, timeout_us, old_buffer, new_buffer, window, none, dc, fast);
}

/// The part of the cancellable windowed refreshes before the panel is sent anything
/// but status queries.
pub open spec fn window_entry(delay_us: u32, timeout_us: u32) -> Seq<Block> {
    Seq::empty().push(idle(delay_us, Some(timeout_us), true)).push(Block::CancelPoint)
}

/// The replies to a fast windowed refresh, with good ones to the two changes of CDI put
/// in where the other refresh makes them: after the entry, and at the very end.
pub open spec fn with_interval_replies<E>(
    epd: Epd7in5,
    timeout_us: u32,
    old_buffer: Seq<u8>,
    new_buffer: Seq<u8>,
    window: Seq<u8>,
    replies: Seq<Reply<E>>,
) -> Seq<Reply<E>> {
    let link = epd.interface.link();
    let d = epd.interface.delay_us;
    let entry = window_entry(d, timeout_us);
    let slow = partial_dual_async_script(d, timeout_us, old_buffer, new_buffer, window);
    with_replies(
        script_ops(link, slow.drop_last()),
        block_ops(link, full_interval()),
        with_replies(
            script_ops(link, entry),
            block_ops(link, differential_interval()),
            replies,
        ),
    )
}

/// Without the two changes of CDI, the windowed refresh is the fast one, however the
/// panel, the bus and the cancel hook behave: where the changes of CDI are answered
/// well, it comes to the same end, asks the cancel hook as many times, and asks for the
/// same, but for the first change of CDI once it has got past its entry, and the second
/// one once all else is done.
pub proof fn law_fast_partial_is_partial_without_interval<E>(
    epd: Epd7in5,
    timeout_us: u32,
    old_buffer: Seq<u8>,
    new_buffer: Seq<u8>,
    window: Seq<u8>,
    replies: Seq<Reply<E>>,
)
    ensures
        ({
            let link = epd.interface.link();
            let d = epd.interface.delay_us;
            let entry = run(epd.runs::<E>(window_entry(d, timeout_us)), replies);
            let fast = run(
                epd.runs::<E>(
                    fast_partial_script(d, timeout_us, old_buffer, new_buffer, window),
                ),
                replies,
            );
            let slow = run(
                epd.runs::<E>(
                    partial_dual_async_script(d, timeout_us, old_buffer, new_buffer, window),
                ),
                with_interval_replies(epd, timeout_us, old_buffer, new_buffer, window, replies),
            );
            let n = entry.signals.len() as int;
            &&& fast.end is Ended ==> slow.end == fast.end
            &&& fast.end is Running ==> slow.end is Running
            &&& questions(slow.signals) == questions(fast.signals)
            &&& n <= fast.signals.len()
            &&& slow.signals == (if entry.end == completed::<E>() {
                fast.signals.take(n) + asked(block_ops(link, differential_interval()))
                    + fast.signals.skip(n)
            } else {
                fast.signals
            }) + (if fast.end == completed::<E>() {
                asked(block_ops(link, full_interval()))
            } else {
                Seq::empty()
            })
        }),
{
    let link = epd.interface.link();
    let d = epd.interface.delay_us;
    let fast_script = fast_partial_script(d, timeout_us, old_buffer, new_buffer, window);
    let set = block_ops(link, differential_interval());
    let restore = block_ops(link, full_interval());
    lemma_window_ops(epd, timeout_us, old_buffer, new_buffer, window);
    assert(never_asks(set));
    assert(never_asks(restore));
    lemma_more_around(
        script_ops(link, window_entry(d, timeout_us)),
        set,
        script_ops(link, fast_script.skip(2)),
        restore,
        replies,
    );
}

/// What the two cancellable windowed refreshes have in common.
proof fn lemma_window_ops(
    epd: Epd7in5,
    timeout_us: u32,
    old_buffer: Seq<u8>,
    new_buffer: Seq<u8>,
    window: Seq<u8>,
)
    ensures
        ({
            let link = epd.interface.link();
            let d = epd.interface.delay_us;
            let fast = fast_partial_script(d, timeout_us, old_buffer, new_buffer, window);
            let slow = partial_dual_async_script(d, timeout_us, old_buffer, new_buffer, window);
            let a = script_ops(link, window_entry(d, timeout_us));
            let b = script_ops(link, fast.skip(2));
            let set = block_ops(link, differential_interval());
            &&& script_ops(link, fast) == a + b
            &&& script_ops(link, slow.drop_last()) == a + set + b
            &&& script_ops(link, slow) == a + set + b + block_ops(link, full_interval())
        }),
{
    broadcast use lemma_script_push;

    let link = epd.interface.link();
    let d = epd.interface.delay_us;
    let entry = window_entry(d, timeout_us);
    let fast = fast_partial_script(d, timeout_us, old_buffer, new_buffer, window);
    let slow = partial_dual_async_script(d, timeout_us, old_buffer, new_buffer, window);
    let core = fast.skip(2);
    assert(fast =~= entry + core);
    assert(slow.drop_last() =~= entry.push(differential_interval()) + core);
    lemma_script_append(link, entry, core);
    lemma_script_append(link, entry.push(differential_interval()), core);
}

/// More entries in the middle of an operation and at its end, none of which asks the
/// cancel hook.
proof fn lemma_more_around<E>(
    a: Seq<Op>,
    set: Seq<Op>,
    b: Seq<Op>,
    restore: Seq<Op>,
    replies: Seq<Reply<E>>,
)
    requires
        never_asks(set),
        never_asks(restore),
    ensures
        ({
            let entry = run(start(a), replies);
            let less = run(start::<E>(a + b), replies);
            let more = run(
                start::<E>(a + set + b + restore),
                with_replies(a + set + b, restore, with_replies(a, set, replies)),
            );
            let n = entry.signals.len() as int;
            &&& less.end is Ended ==> more.end == less.end
            &&& less.end is Running ==> more.end is Running
            &&& questions(more.signals) == questions(less.signals)
            &&& n <= less.signals.len()
            &&& more.signals == (if entry.end == completed::<E>() {
                less.signals.take(n) + asked(set) + less.signals.skip(n)
            } else {
                less.signals
            }) + (if less.end == completed::<E>() {
                asked(restore)
            } else {
                Seq::empty()
            })
        }),
{
    let with_set = with_replies(a, set, replies);
    let all = a + set + b;
    assert(fresh(set)) by {
        assert forall|i: int| 0 <= i < set.len() implies !(#[trigger] set[i] is Hook) by {
            assert(!asks(set[i]));
        }
    }
    assert(fresh(restore)) by {
        assert forall|i: int| 0 <= i < restore.len() implies !(#[trigger] restore[i] is Hook) by {
            assert(!asks(restore[i]));
        }
    }
    law_more_entries(a, set, b, replies);
    law_more_entries(all, restore, Seq::empty(), with_set);
    assert(all + Seq::<Op>::empty() =~= all);
    assert(all + restore + Seq::<Op>::empty() =~= all + restore);
    let less = run(start::<E>(a + b), replies);
    let middle = run(start::<E>(all), with_set);
    let more = run(start::<E>(all + restore), with_replies(all, restore, with_set));
    let n = run(start(a), replies).signals.len() as int;
    let head = less.signals.take(n);
    let tail = less.signals.skip(n);
    let k = middle.signals.len() as int;
    assert(middle.signals.take(k) =~= middle.signals);
    assert(middle.signals.skip(k) =~= Seq::empty());
    assert(head + tail =~= less.signals);
    lemma_no_questions(set);
    lemma_no_questions(restore);
    lemma_questions_append(head, tail);
    lemma_questions_append(head, asked(set));
    lemma_questions_append(head + asked(set), tail);
    lemma_questions_append(middle.signals, asked(restore));
    assert(more.signals =~= middle.signals + (if less.end == completed::<E>() {
        asked(restore)
    } else {
        Seq::empty()
    }));
}

// ---------------------------------------------------------------------------
// What the panel is never sent

/// No transfer of the run is the command.
pub open spec fn never_sent<E>(
    epd: Epd7in5,
    script: Seq<Block>,
    dc: bool,
    replies: Seq<Reply<E>>,
    command: Command,
) -> bool {
    all_transfers(run(epd.runs::<E>(script), replies).signals, dc, no_command(code(command)))
}

/// The fast windowed refresh never touches CDI, however it ends.
pub proof fn law_fast_partial_leaves_interval_alone<E>(
    epd: Epd7in5,
    timeout_us: u32,
    old_buffer: Seq<u8>,
    new_buffer: Seq<u8>,
    window: Seq<u8>,
    dc: bool,
    replies: Seq<Reply<E>>,
)
    ensures
        never_sent(
            epd,
            fast_partial_script(
                epd.interface.delay_us,
                timeout_us,
                old_buffer,
                new_buffer,
                window,
            ),
            dc,
            replies,
            Command::VcomAndDataIntervalSetting,
        ),
{
    broadcast use lemma_avoids_push;

    law_never_sends(
        epd.interface.link(),
        fast_partial_script(epd.interface.delay_us, timeout_us, old_buffer, new_buffer, window),
        code(Command::VcomAndDataIntervalSetting),
        dc,
        replies,
    );
}

/// If sleep times out, deep sleep was not entered.
pub proof fn law_sleep_timeout_skips_deep_sleep<E>(
    epd: Epd7in5,
    timeout_us: Option<u32>,
    dc: bool,
    replies: Seq<Reply<E>>,
)
    requires
        run(
            epd.runs::<E>(sleep_script(epd.interface.delay_us, timeout_us)),
            replies,
        ).end == timed_out::<E>(),
    ensures
        never_sent(
            epd,
            sleep_script(epd.interface.delay_us, timeout_us),
            dc,
            replies,
            Command::DeepSleep,
        ),
{
    broadcast use {lemma_avoids_push, lemma_unlimited_push};

    let link = epd.interface.link();
    let drain = idle(epd.interface.delay_us, timeout_us, false);
    let before = Seq::empty()
        .push(drain)
        .push(command(Command::PowerOff))
        .push(drain);
    let rest = Seq::empty().push(setting(Command::DeepSleep, [0xA5u8]@));
    let script = sleep_script(epd.interface.delay_us, timeout_us);
    assert(script =~= before + rest);
    lemma_avoids(link, before, code(Command::DeepSleep));
    law_timed_out_before(link, before, rest, dc, no_command(code(Command::DeepSleep)), replies);
}

/// If a full refresh times out, nothing of the frame was sent and no refresh
/// was triggered.
pub proof fn law_refresh_timeout_sends_no_frame<E>(
    epd: Epd7in5,
    timeout_us: Option<u32>,
    buffer: Seq<u8>,
    dc: bool,
    replies: Seq<Reply<E>>,
)
    requires
        run(
            epd.runs::<E>(full_refresh_script(epd.interface.delay_us, timeout_us, buffer)),
            replies,
        ).end == timed_out::<E>(),
    ensures
        all_transfers(
            run(
                epd.runs::<E>(full_refresh_script(epd.interface.delay_us, timeout_us, buffer)),
                replies,
            ).signals,
            dc,
            only_command(code(Command::GetStatus)),
        ),
{
    broadcast use lemma_unlimited_push;

    let link = epd.interface.link();
    let drain = idle(epd.interface.delay_us, timeout_us, false);
    let before = Seq::empty().push(drain);
    let rest = Seq::empty()
        .push(setting(Command::DataStartTransmission1, buffer))
        .push(command(Command::DataStartTransmission2))
        .push(Block::Inverted(buffer))
        .push(command(Command::DisplayRefresh));
    let script = full_refresh_script(epd.interface.delay_us, timeout_us, buffer);
    assert(script =~= before + rest);
    law_timed_out_in_wait(link, drain, code(Command::GetStatus), rest, dc, replies);
}

/// If the cancellable full refresh is cancelled, no refresh was triggered.
pub proof fn law_cancelled_full_refresh_is_not_triggered<E>(
    epd: Epd7in5,
    timeout_us: u32,
    buffer: Seq<u8>,
    dc: bool,
    replies: Seq<Reply<E>>,
)
    requires
        run(
            epd.runs::<E>(update_async_script(epd.interface.delay_us, timeout_us, buffer)),
            replies,
        ).end == cancelled::<E>(),
    ensures
        never_sent(
            epd,
            update_async_script(epd.interface.delay_us, timeout_us, buffer),
            dc,
            replies,
            Command::DisplayRefresh,
        ),
{
    broadcast use {lemma_avoids_push, lemma_uncancellable_push};

    let link = epd.interface.link();
    let before = update_async_prefix(epd.interface.delay_us, timeout_us, buffer);
    let rest = Seq::empty().push(command(Command::DisplayRefresh));
    assert(update_async_script(epd.interface.delay_us, timeout_us, buffer) =~= before + rest);
    lemma_avoids(link, before, code(Command::DisplayRefresh));
    let ok = no_command(code(Command::DisplayRefresh));
    law_cancelled_before(link, before, rest, dc, ok, replies);
}

/// If the script is cancelled, the panel was not taken out of partial mode. If it is
/// cancelled in the part up to the trigger, no refresh was triggered.
pub open spec fn stops_in_window<E>(
    epd: Epd7in5,
    prefix: Seq<Block>,
    script: Seq<Block>,
    dc: bool,
    replies: Seq<Reply<E>>,
) -> bool {
    &&& run(epd.runs::<E>(script), replies).end == cancelled::<E>() ==> never_sent(
        epd,
        script,
        dc,
        replies,
        Command::PartialOut,
    )
    &&& run(epd.runs::<E>(prefix), replies).end == cancelled::<E>() ==> {
        &&& run(epd.runs::<E>(script), replies).end == cancelled::<E>()
        &&& never_sent(epd, script, dc, replies, Command::DisplayRefresh)
    }
}

/// If the cancellable windowed refresh is cancelled, the panel was not taken
/// out of partial mode. If it is cancelled before the trigger, no refresh was
/// triggered.
pub proof fn law_cancelled_partial_refresh<E>(
    epd: Epd7in5,
    timeout_us: u32,
    old_buffer: Seq<u8>,
    new_buffer: Seq<u8>,
    window: Seq<u8>,
    dc: bool,
    replies: Seq<Reply<E>>,
)
    ensures
        ({
            let d = epd.interface.delay_us;
            stops_in_window(
                epd,
                partial_dual_async_prefix(d, timeout_us, old_buffer, new_buffer, window),
                partial_dual_async_script(d, timeout_us, old_buffer, new_buffer, window),
                dc,
                replies,
            )
        }),
{
    broadcast use {lemma_avoids_push, lemma_uncancellable_push};

    let d = epd.interface.delay_us;
    let prefix = partial_dual_async_prefix(d, timeout_us, old_buffer, new_buffer, window);
    let leave = Seq::empty().push(command(Command::PartialOut)).push(full_interval());
    assert(partial_dual_async_script(d, timeout_us, old_buffer, new_buffer, window)
        =~= prefix.push(command(Command::DisplayRefresh)).push(idle(d, Some(timeout_us), true))
        + leave);
    lemma_stops_in_window(epd, prefix, timeout_us, leave, dc, replies);
}

/// The same of the fast windowed refresh.
pub proof fn law_cancelled_fast_partial_refresh<E>(
    epd: Epd7in5,
    timeout_us: u32,
    old_buffer: Seq<u8>,
    new_buffer: Seq<u8>,
    window: Seq<u8>,
    dc: bool,
    replies: Seq<Reply<E>>,
)
    ensures
        ({
            let d = epd.interface.delay_us;
            stops_in_window(
                epd,
                fast_partial_prefix(d, timeout_us, old_buffer, new_buffer, window),
                fast_partial_script(d, timeout_us, old_buffer, new_buffer, window),
                dc,
                replies,
            )
        }),
{
    broadcast use {lemma_avoids_push, lemma_uncancellable_push};

    let d = epd.interface.delay_us;
    let prefix = fast_partial_prefix(d, timeout_us, old_buffer, new_buffer, window);
    let leave = Seq::empty().push(command(Command::PartialOut));
    assert(fast_partial_script(d, timeout_us, old_buffer, new_buffer, window) =~= prefix.push(
        command(Command::DisplayRefresh),
    ).push(idle(d, Some(timeout_us), true)) + leave);
    lemma_stops_in_window(epd, prefix, timeout_us, leave, dc, replies);
}

/// A windowed refresh: a part up to the trigger, the trigger, the wait for the
/// refresh, and what follows it.
proof fn lemma_stops_in_window<E>(
    epd: Epd7in5,
    prefix: Seq<Block>,
    timeout_us: u32,
    leave: Seq<Block>,
    dc: bool,
    replies: Seq<Reply<E>>,
)
    requires
        avoids(prefix, code(Command::PartialOut)),
        avoids(prefix, code(Command::DisplayRefresh)),
        uncancellable(leave),
    ensures
        stops_in_window(
            epd,
            prefix,
            prefix.push(command(Command::DisplayRefresh)).push(
                idle(epd.interface.delay_us, Some(timeout_us), true),
            ) + leave,
            dc,
            replies,
        ),
{
    broadcast use lemma_avoids_push;

    let link = epd.interface.link();
    let left = code(Command::PartialOut);
    let drain = idle(epd.interface.delay_us, Some(timeout_us), true);
    let refresh = Seq::empty().push(command(Command::DisplayRefresh)).push(drain);
    let before = prefix.push(command(Command::DisplayRefresh)).push(drain);
    assert(before + leave =~= prefix + (refresh + leave));
    lemma_avoids(link, before, left);
    if run(epd.runs::<E>(before + leave), replies).end == cancelled::<E>() {
        law_cancelled_before(link, before, leave, dc, no_command(left), replies);
    }
    lemma_cancelled_in_prefix(epd, prefix, refresh + leave, dc, replies);
}

proof fn lemma_cancelled_in_prefix<E>(
    epd: Epd7in5,
    prefix: Seq<Block>,
    rest: Seq<Block>,
    dc: bool,
    replies: Seq<Reply<E>>,
)
    requires
        avoids(prefix, code(Command::DisplayRefresh)),
    ensures
        run(epd.runs::<E>(prefix), replies).end == cancelled::<E>() ==> {
            &&& run(epd.runs::<E>(prefix + rest), replies).end == cancelled::<E>()
            &&& never_sent(epd, prefix + rest, dc, replies, Command::DisplayRefresh)
        },
{
    let link = epd.interface.link();
    lemma_script_append(link, prefix, rest);
    law_one_after_the_other(script_ops(link, prefix), script_ops(link, rest), replies);
    law_never_sends(link, prefix, code(Command::DisplayRefresh), dc, replies);
}

// ---------------------------------------------------------------------------
// The cancel hook

/// The refresh is triggered at most once, and then right after the cancel hook
/// was asked.
pub open spec fn trigger_guarded<E>(
    epd: Epd7in5,
    script: Seq<Block>,
    dc: bool,
    replies: Seq<Reply<E>>,
) -> bool {
    guarded_command(
        run(epd.runs::<E>(script), replies).signals,
        dc,
        code(Command::DisplayRefresh),
    )
}

/// The cancellable refreshes ask the hook immediately before the trigger.
pub proof fn law_hook_is_asked_before_trigger<E>(
    epd: Epd7in5,
    timeout_us: u32,
    old_buffer: Seq<u8>,
    new_buffer: Seq<u8>,
    window: Seq<u8>,
    dc: bool,
    replies: Seq<Reply<E>>,
)
    ensures
        trigger_guarded(
            epd,
            update_async_script(epd.interface.delay_us, timeout_us, new_buffer),
            dc,
            replies,
        ),
        trigger_guarded(
            epd,
            partial_dual_async_script(
                epd.interface.delay_us,
                timeout_us,
                old_buffer,
                new_buffer,
                window,
            ),
            dc,
            replies,
        ),
        trigger_guarded(
            epd,
            fast_partial_script(
                epd.interface.delay_us,
                timeout_us,
                old_buffer,
                new_buffer,
                window,
            ),
            dc,
            replies,
        ),
{
    broadcast use lemma_avoids_push;

    let link = epd.interface.link();
    let delay_us = epd.interface.delay_us;
    let trigger = code(Command::DisplayRefresh);
    let full = update_async_prefix(delay_us, timeout_us, new_buffer).drop_last();
    let none = Seq::<Block>::empty();
    assert(full.push(Block::CancelPoint) =~= update_async_prefix(delay_us, timeout_us, new_buffer));
    assert(update_async_script(delay_us, timeout_us, new_buffer) =~= full.push(
        Block::CancelPoint,
    ).push(Block::Command(trigger)) + none);
    law_hook_guards_command(link, full, trigger, none, dc, replies);

    let tail = Seq::empty()
        .push(idle(delay_us, Some(timeout_us), true))
        .push(command(Command::PartialOut));
    let slow_prefix = partial_dual_async_prefix(
        delay_us,
        timeout_us,
        old_buffer,
        new_buffer,
        window,
    );
    let slow = slow_prefix.drop_last();
    assert(slow.push(Block::CancelPoint) =~= slow_prefix);
    assert(partial_dual_async_script(delay_us, timeout_us, old_buffer, new_buffer, window)
        =~= slow.push(Block::CancelPoint).push(Block::Command(trigger)) + tail.push(
        full_interval(),
    ));
    law_hook_guards_command(link, slow, trigger, tail.push(full_interval()), dc, replies);

    let fast_prefix = fast_partial_prefix(delay_us, timeout_us, old_buffer, new_buffer, window);
    let fast = fast_prefix.drop_last();
    assert(fast.push(Block::CancelPoint) =~= fast_prefix);
    assert(fast_partial_script(delay_us, timeout_us, old_buffer, new_buffer, window) =~= fast.push(
        Block::CancelPoint,
    ).push(Block::Command(trigger)) + tail);
    law_hook_guards_command(link, fast, trigger, tail, dc, replies);
}

/// The cancellable refreshes never send more than a band of the framebuffer, or one
/// byte over in a windowed refresh, without asking the cancel hook.
pub proof fn law_hook_is_asked_once_per_band<E>(
    epd: Epd7in5,
    timeout_us: u32,
    old_buffer: Seq<u8>,
    new_buffer: Seq<u8>,
    x: u32,
    y: u32,
    width: u32,
    height: u32,
    replies: Seq<Reply<E>>,
)
    ensures
        ({
            let delay_us = epd.interface.delay_us;
            let window = window_bytes(x, y, width, height);
            let full = update_async_script(delay_us, timeout_us, new_buffer);
            let slow = partial_dual_async_script(
                delay_us,
                timeout_us,
                old_buffer,
                new_buffer,
                window,
            );
            let fast = fast_partial_script(delay_us, timeout_us, old_buffer, new_buffer, window);
            &&& spaced(run(epd.runs::<E>(full), replies).signals, 0, 4096)
            &&& spaced(run(epd.runs::<E>(slow), replies).signals, 0, 4097)
            &&& spaced(run(epd.runs::<E>(fast), replies).signals, 0, 4097)
        }),
{
    broadcast use {lemma_keeps_push, lemma_carried_push};

    let link = epd.interface.link();
    let d = epd.interface.delay_us;
    let window = window_bytes(x, y, width, height);
    law_hook_is_asked_often(link, update_async_script(d, timeout_us, new_buffer), 4096, replies);
    law_hook_is_asked_often(
        link,
        partial_dual_async_script(d, timeout_us, old_buffer, new_buffer, window),
        4097,
        replies,
    );
    law_hook_is_asked_often(
        link,
        fast_partial_script(d, timeout_us, old_buffer, new_buffer, window),
        4097,
        replies,
    );
}

/// Nothing but status queries is sent, and the operation does not complete.
pub open spec fn caught_on_entry<E>(
    epd: Epd7in5,
    script: Seq<Block>,
    dc: bool,
    replies: Seq<Reply<E>>,
) -> bool {
    let course = run(epd.runs::<E>(script), replies);
    &&& all_transfers(course.signals, dc, only_command(code(Command::GetStatus)))
    &&& course.end != completed::<E>()
}

/// A cancel that is latched on entry is caught before any frame data is sent and
/// before the panel is switched to partial mode.
pub proof fn law_latched_cancel_is_caught_on_entry<E>(
    epd: Epd7in5,
    timeout_us: u32,
    old_buffer: Seq<u8>,
    new_buffer: Seq<u8>,
    window: Seq<u8>,
    dc: bool,
    replies: Seq<Reply<E>>,
)
    requires
        latched(replies),
    ensures
        caught_on_entry(
            epd,
            update_async_script(epd.interface.delay_us, timeout_us, new_buffer),
            dc,
            replies,
        ),
        caught_on_entry(
            epd,
            partial_dual_async_script(
                epd.interface.delay_us,
                timeout_us,
                old_buffer,
                new_buffer,
                window,
            ),
            dc,
            replies,
        ),
        caught_on_entry(
            epd,
            fast_partial_script(
                epd.interface.delay_us,
                timeout_us,
                old_buffer,
                new_buffer,
                window,
            ),
            dc,
            replies,
        ),
{
    let delay_us = epd.interface.delay_us;
    lemma_entry(
        epd,
        update_async_script(delay_us, timeout_us, new_buffer),
        timeout_us,
        dc,
        replies,
    );
    lemma_entry(
        epd,
        partial_dual_async_script(delay_us, timeout_us, old_buffer, new_buffer, window),
        timeout_us,
        dc,
        replies,
    );
    lemma_entry(
        epd,
        fast_partial_script(delay_us, timeout_us, old_buffer, new_buffer, window),
        timeout_us,
        dc,
        replies,
    );
}

proof fn lemma_entry<E>(
    epd: Epd7in5,
    script: Seq<Block>,
    timeout_us: u32,
    dc: bool,
    replies: Seq<Reply<E>>,
)
    requires
        latched(replies),
        script.len() >= 2,
        script[0] == idle(epd.interface.delay_us, Some(timeout_us), true),
        script[1] == Block::CancelPoint,
    ensures
        caught_on_entry(epd, script, dc, replies),
{
    let wait = busy_wait(
        Some(code(Command::GetStatus)),
        true,
        epd.interface.delay_us,
        Some(timeout_us),
        true,
    );
    let rest = script.skip(2);
    assert(script =~= window_entry(epd.interface.delay_us, timeout_us) + rest);
    law_latched_cancel(
        epd.interface.link(),
        wait,
        code(Command::GetStatus),
        rest,
        dc,
        replies,
    );
}

/// The operation never asks the cancel hook and is never cancelled.
pub open spec fn runs_to_the_end<E>(
    epd: Epd7in5,
    script: Seq<Block>,
    replies: Seq<Reply<E>>,
) -> bool {
    let course = run(epd.runs::<E>(script), replies);
    &&& !course.signals.contains(Signal::AskCancel)
    &&& course.end != cancelled::<E>()
}

/// Init, fast-partial init and sleep run to the end: the cancel hook is not asked.
pub proof fn law_init_and_sleep_are_not_cancellable<E>(
    epd: Epd7in5,
    timeout_us: Option<u32>,
    cap_us: u32,
    waveform: FastPartialWaveform,
    replies: Seq<Reply<E>>,
)
    ensures
        runs_to_the_end(epd, init_script(epd.interface.delay_us, timeout_us), replies),
        runs_to_the_end(epd, sleep_script(epd.interface.delay_us, timeout_us), replies),
        runs_to_the_end(epd, init_fast_script(epd.interface.delay_us, cap_us, waveform), replies),
{
    broadcast use lemma_uncancellable_push;

    let delay_us = epd.interface.delay_us;
    lemma_runs_to_the_end(epd, init_script(delay_us, timeout_us), replies);
    lemma_runs_to_the_end(epd, sleep_script(delay_us, timeout_us), replies);
    lemma_runs_to_the_end(epd, init_fast_script(delay_us, cap_us, waveform), replies);
}

/// The refreshes that are not cancellable by design do not ask the cancel hook.
pub proof fn law_plain_refreshes_are_not_cancellable<E>(
    epd: Epd7in5,
    timeout_us: Option<u32>,
    old_buffer: Seq<u8>,
    new_buffer: Seq<u8>,
    window: Seq<u8>,
    replies: Seq<Reply<E>>,
)
    ensures
        runs_to_the_end(
            epd,
            full_refresh_script(epd.interface.delay_us, timeout_us, new_buffer),
            replies,
        ),
        runs_to_the_end(
            epd,
            partial_script(epd.interface.delay_us, timeout_us, new_buffer, window),
            replies,
        ),
        runs_to_the_end(
            epd,
            partial_dual_script(
                epd.interface.delay_us,
                timeout_us,
                old_buffer,
                new_buffer,
                window,
            ),
            replies,
        ),
        runs_to_the_end(epd, clear_frame_script(epd.interface.delay_us, timeout_us), replies),
        runs_to_the_end(epd, display_frame_script(epd.interface.delay_us, timeout_us), replies),
{
    broadcast use lemma_uncancellable_push;

    let delay_us = epd.interface.delay_us;
    lemma_runs_to_the_end(
        epd,
        full_refresh_script(delay_us, timeout_us, new_buffer),
        replies,
    );
    lemma_runs_to_the_end(epd, partial_script(delay_us, timeout_us, new_buffer, window), replies);
    lemma_runs_to_the_end(
        epd,
        partial_dual_script(delay_us, timeout_us, old_buffer, new_buffer, window),
        replies,
    );
    lemma_runs_to_the_end(epd, clear_frame_script(delay_us, timeout_us), replies);
    lemma_runs_to_the_end(epd, display_frame_script(delay_us, timeout_us), replies);
}

proof fn lemma_runs_to_the_end<E>(epd: Epd7in5, script: Seq<Block>, replies: Seq<Reply<E>>)
    requires
        uncancellable(script),
    ensures
        runs_to_the_end(epd, script, replies),
{
    lemma_uncancellable(epd.interface.link(), script);
    law_not_cancellable(script_ops(epd.interface.link(), script), replies);
}

// ---------------------------------------------------------------------------
// Time

/// A bounded wait for the panel sleeps no longer than its cap and one poll
/// period. If it times out, it has slept for longer than the cap, unless the
/// poll period is zero.
pub proof fn law_wait_keeps_its_cap<E>(
    epd: Epd7in5,
    cap_us: u32,
    cancellable: bool,
    replies: Seq<Reply<E>>,
)
    ensures
        ({
            let delay_us = epd.interface.delay_us;
            let script = Seq::empty().push(idle(delay_us, Some(cap_us), cancellable));
            let course = run(epd.runs::<E>(script), replies);
            &&& ends_in_time(epd, script, replies, cap_us + delay_us)
            &&& course.end == timed_out::<E>() && delay_us > 0 ==> slept(course.signals) > cap_us
            &&& course.end == timed_out::<E>() ==> reads(course.signals) == poll_limit(
                delay_us,
                cap_us,
            ) + 1
        }),
{
    broadcast use {lemma_script_push, lemma_limited_push, lemma_pause_push};

    let d = epd.interface.delay_us;
    let status = code(Command::GetStatus);
    let script = Seq::empty().push(idle(d, Some(cap_us), cancellable));
    let wait = busy_wait(Some(status), true, d, Some(cap_us), cancellable);
    assert(script_ops(epd.interface.link(), script) =~= wait_ops(wait));
    law_bounded_wait(status, true, d, cap_us, cancellable, replies);
    lemma_wait_pause(status, true, d, cap_us, cancellable);
    lemma_ends_in_time(epd, script, replies);
}

/// A stuck panel is reported by every operation that waits for it: while BUSY
/// stays asserted it does not complete, and if no write fails and nobody cancels,
/// the only way in which it ends is the timeout.
pub proof fn law_stuck_panel_times_out<E>(
    epd: Epd7in5,
    script: Seq<Block>,
    i: int,
    cap_us: u32,
    cancellable: bool,
    replies: Seq<Reply<E>>,
)
    requires
        0 <= i < script.len(),
        script[i] == idle(epd.interface.delay_us, Some(cap_us), cancellable),
        forall|j: int|
            0 <= j < replies.len() && (#[trigger] replies[j] is Busy) ==> replies[j] == Reply::<
                E,
            >::Busy(Some(true)),
    ensures
        run(epd.runs::<E>(script), replies).end != completed::<E>(),
        undisturbed(replies) && run(epd.runs::<E>(script), replies).end is Ended ==> run(
            epd.runs::<E>(script),
            replies,
        ).end == timed_out::<E>(),
{
    law_stuck_panel_is_reported(epd.interface.link(), script, i, replies);
}

/// Without a time cap an operation never times out.
pub proof fn law_no_cap_no_timeout<E>(
    epd: Epd7in5,
    buffer: Seq<u8>,
    window: Seq<u8>,
    replies: Seq<Reply<E>>,
)
    ensures
        run(
            epd.runs::<E>(init_script(epd.interface.delay_us, None)),
            replies,
        ).end != timed_out::<E>(),
        run(
            epd.runs::<E>(sleep_script(epd.interface.delay_us, None)),
            replies,
        ).end != timed_out::<E>(),
        run(
            epd.runs::<E>(full_refresh_script(epd.interface.delay_us, None, buffer)),
            replies,
        ).end != timed_out::<E>(),
        run(
            epd.runs::<E>(partial_script(epd.interface.delay_us, None, buffer, window)),
            replies,
        ).end != timed_out::<E>(),
        run(
            epd.runs::<E>(clear_frame_script(epd.interface.delay_us, None)),
            replies,
        ).end != timed_out::<E>(),
        run(
            epd.runs::<E>(update_frame_script(epd.interface.delay_us, None, buffer)),
            replies,
        ).end != timed_out::<E>(),
        run(
            epd.runs::<E>(display_frame_script(epd.interface.delay_us, None)),
            replies,
        ).end != timed_out::<E>(),
        run(
            epd.runs::<E>(Seq::empty().push(idle(epd.interface.delay_us, None, false))),
            replies,
        ).end != timed_out::<E>(),
{
    broadcast use lemma_unlimited_push;

    let d = epd.interface.delay_us;
    lemma_no_timeout(epd, init_script(d, None), replies);
    lemma_no_timeout(epd, sleep_script(d, None), replies);
    lemma_no_timeout(epd, update_frame_script(d, None, buffer), replies);
    lemma_no_timeout(epd, full_refresh_script(d, None, buffer), replies);
    lemma_no_timeout(epd, partial_script(d, None, buffer, window), replies);
    lemma_no_timeout(epd, clear_frame_script(d, None), replies);
    lemma_no_timeout(epd, display_frame_script(d, None), replies);
    lemma_no_timeout(epd, Seq::empty().push(idle(d, None, false)), replies);
}

proof fn lemma_no_timeout<E>(epd: Epd7in5, script: Seq<Block>, replies: Seq<Reply<E>>)
    requires
        unlimited(script),
    ensures
        run(epd.runs::<E>(script), replies).end != timed_out::<E>(),
{
    lemma_unlimited(epd.interface.link(), script);
    law_no_timeout(script_ops(epd.interface.link(), script), replies);
}

/// Whether the second script runs as the first one does, for as long as that does not
/// time out.
pub open spec fn mirrors<E>(
    epd: Epd7in5,
    script: Seq<Block>,
    other: Seq<Block>,
    replies: Seq<Reply<E>>,
) -> bool {
    same_until_timeout(
        run(epd.runs::<E>(script), replies),
        run(epd.runs::<E>(other), replies),
    )
}

/// The operations with a time cap mirror those without: as long as the cap does not run
/// out, they ask for the same and come to the same end, whatever the replies. A longer
/// cap changes nothing either.
pub proof fn law_cap_changes_nothing_but_timeout<E>(
    epd: Epd7in5,
    cap_us: Option<u32>,
    other_us: Option<u32>,
    old_buffer: Seq<u8>,
    new_buffer: Seq<u8>,
    window: Seq<u8>,
    replies: Seq<Reply<E>>,
)
    requires
        looser_cap(cap_us, other_us),
    ensures
        ({
            let d = epd.interface.delay_us;
            &&& mirrors(epd, init_script(d, cap_us), init_script(d, other_us), replies)
            &&& mirrors(epd, sleep_script(d, cap_us), sleep_script(d, other_us), replies)
            &&& mirrors(
                epd,
                Seq::empty().push(idle(d, cap_us, false)),
                Seq::empty().push(idle(d, other_us, false)),
                replies,
            )
            &&& mirrors(
                epd,
                full_refresh_script(d, cap_us, new_buffer),
                full_refresh_script(d, other_us, new_buffer),
                replies,
            )
            &&& mirrors(
                epd,
                partial_script(d, cap_us, new_buffer, window),
                partial_script(d, other_us, new_buffer, window),
                replies,
            )
            &&& mirrors(
                epd,
                partial_dual_script(d, cap_us, old_buffer, new_buffer, window),
                partial_dual_script(d, other_us, old_buffer, new_buffer, window),
                replies,
            )
        }),
{
    broadcast use lemma_looser_push;

    let d = epd.interface.delay_us;
    let link = epd.interface.link();
    let status = Some(code(Command::GetStatus));
    lemma_looser_cap(status, true, d, cap_us, other_us, false);
    law_looser_script(link, init_script(d, cap_us), init_script(d, other_us), replies);
    law_looser_script(link, sleep_script(d, cap_us), sleep_script(d, other_us), replies);
    law_looser_script(
        link,
        Seq::empty().push(idle(d, cap_us, false)),
        Seq::empty().push(idle(d, other_us, false)),
        replies,
    );
    law_looser_script(
        link,
        full_refresh_script(d, cap_us, new_buffer),
        full_refresh_script(d, other_us, new_buffer),
        replies,
    );
    law_looser_script(
        link,
        partial_script(d, cap_us, new_buffer, window),
        partial_script(d, other_us, new_buffer, window),
        replies,
    );
    law_looser_script(
        link,
        partial_dual_script(d, cap_us, old_buffer, new_buffer, window),
        partial_dual_script(d, other_us, old_buffer, new_buffer, window),
        replies,
    );
}

/// A longer cap changes nothing about the cancellable operations and the fast-partial
/// init either, unless the shorter one runs out.
pub proof fn law_longer_cap_changes_nothing_but_timeout<E>(
    epd: Epd7in5,
    cap_us: u32,
    longer_us: u32,
    waveform: FastPartialWaveform,
    old_buffer: Seq<u8>,
    new_buffer: Seq<u8>,
    window: Seq<u8>,
    replies: Seq<Reply<E>>,
)
    requires
        cap_us <= longer_us,
    ensures
        ({
            let d = epd.interface.delay_us;
            &&& mirrors(
                epd,
                init_fast_script(d, cap_us, waveform),
                init_fast_script(d, longer_us, waveform),
                replies,
            )
            &&& mirrors(
                epd,
                Seq::empty().push(idle(d, Some(cap_us), true)),
                Seq::empty().push(idle(d, Some(longer_us), true)),
                replies,
            )
            &&& mirrors(
                epd,
                update_async_script(d, cap_us, new_buffer),
                update_async_script(d, longer_us, new_buffer),
                replies,
            )
            &&& mirrors(
                epd,
                partial_dual_async_script(d, cap_us, old_buffer, new_buffer, window),
                partial_dual_async_script(d, longer_us, old_buffer, new_buffer, window),
                replies,
            )
            &&& mirrors(
                epd,
                fast_partial_script(d, cap_us, old_buffer, new_buffer, window),
                fast_partial_script(d, longer_us, old_buffer, new_buffer, window),
                replies,
            )
        }),
{
    broadcast use lemma_looser_push;

    let d = epd.interface.delay_us;
    let link = epd.interface.link();
    let status = Some(code(Command::GetStatus));
    lemma_looser_cap(status, true, d, Some(cap_us), Some(longer_us), false);
    lemma_looser_cap(status, true, d, Some(cap_us), Some(longer_us), true);
    law_looser_script(
        link,
        init_fast_script(d, cap_us, waveform),
        init_fast_script(d, longer_us, waveform),
        replies,
    );
    law_looser_script(
        link,
        Seq::empty().push(idle(d, Some(cap_us), true)),
        Seq::empty().push(idle(d, Some(longer_us), true)),
        replies,
    );
    law_looser_script(
        link,
        update_async_script(d, cap_us, new_buffer),
        update_async_script(d, longer_us, new_buffer),
        replies,
    );
    law_looser_script(
        link,
        partial_dual_async_script(d, cap_us, old_buffer, new_buffer, window),
        partial_dual_async_script(d, longer_us, old_buffer, new_buffer, window),
        replies,
    );
    law_looser_script(
        link,
        fast_partial_script(d, cap_us, old_buffer, new_buffer, window),
        fast_partial_script(d, longer_us, old_buffer, new_buffer, window),
        replies,
    );
}

/// The operation asks for a limited number of actions, comes to an end if they are
/// answered, and sleeps for no longer than the given time.
pub open spec fn ends_in_time<E>(
    epd: Epd7in5,
    script: Seq<Block>,
    replies: Seq<Reply<E>>,
    pause_us: int,
) -> bool {
    let most = total_actions(script_ops(epd.interface.link(), script));
    let course = run(epd.runs::<E>(script), replies);
    &&& course.signals.len() <= most
    &&& all_answer(epd.runs::<E>(script), replies) && replies.len() >= most ==> course.end is Ended
    &&& slept(course.signals) <= pause_us
}

proof fn lemma_ends_in_time<E>(epd: Epd7in5, script: Seq<Block>, replies: Seq<Reply<E>>)
    requires
        limited(script),
    ensures
        ends_in_time(epd, script, replies, script_pause(script) as int),
{
    law_limited_script_ends(epd.interface.link(), script, replies);
}

/// With a cap on every BUSY wait no operation hangs on a stuck panel: init, sleep
/// and the refreshes end in limited time. Each wait adds at most its cap and one
/// poll period to the fixed pauses.
#[verifier::rlimit(20)]
pub proof fn law_capped_operations_end_in_time<E>(
    epd: Epd7in5,
    cap_us: u32,
    waveform: FastPartialWaveform,
    old_buffer: Seq<u8>,
    new_buffer: Seq<u8>,
    window: Seq<u8>,
    replies: Seq<Reply<E>>,
)
    ensures
        ({
            let delay_us = epd.interface.delay_us;
            let wait_us = cap_us + delay_us;
            &&& ends_in_time(epd, init_script(delay_us, Some(cap_us)), replies, 312_000 + wait_us)
            &&& ends_in_time(
                epd,
                init_fast_script(delay_us, cap_us, waveform),
                replies,
                312_000 + wait_us,
            )
            &&& ends_in_time(epd, sleep_script(delay_us, Some(cap_us)), replies, 2 * wait_us)
            &&& ends_in_time(
                epd,
                full_refresh_script(delay_us, Some(cap_us), new_buffer),
                replies,
                wait_us,
            )
            &&& ends_in_time(
                epd,
                partial_script(delay_us, Some(cap_us), new_buffer, window),
                replies,
                2 * wait_us,
            )
            &&& ends_in_time(
                epd,
                partial_dual_script(delay_us, Some(cap_us), old_buffer, new_buffer, window),
                replies,
                2 * wait_us,
            )
            &&& ends_in_time(
                epd,
                update_async_script(delay_us, cap_us, new_buffer),
                replies,
                wait_us,
            )
            &&& ends_in_time(
                epd,
                partial_dual_async_script(delay_us, cap_us, old_buffer, new_buffer, window),
                replies,
                2 * wait_us,
            )
            &&& ends_in_time(
                epd,
                fast_partial_script(delay_us, cap_us, old_buffer, new_buffer, window),
                replies,
                2 * wait_us,
            )
        }),
{
    broadcast use {lemma_limited_push, lemma_pause_push};

    let d = epd.interface.delay_us;
    let status = code(Command::GetStatus);
    lemma_wait_pause(status, true, d, cap_us, false);
    lemma_wait_pause(status, true, d, cap_us, true);
    let full = full_refresh_script(d, Some(cap_us), new_buffer);
    lemma_ends_in_time(epd, init_script(d, Some(cap_us)), replies);
    lemma_ends_in_time(epd, init_fast_script(d, cap_us, waveform), replies);
    lemma_ends_in_time(epd, sleep_script(d, Some(cap_us)), replies);
    lemma_ends_in_time(epd, full, replies);
    lemma_ends_in_time(epd, partial_script(d, Some(cap_us), new_buffer, window), replies);
    lemma_ends_in_time(
        epd,
        partial_dual_script(d, Some(cap_us), old_buffer, new_buffer, window),
        replies,
    );
    lemma_ends_in_time(epd, update_async_script(d, cap_us, new_buffer), replies);
    lemma_ends_in_time(
        epd,
        partial_dual_async_script(d, cap_us, old_buffer, new_buffer, window),
        replies,
    );
    lemma_ends_in_time(
        epd,
        fast_partial_script(d, cap_us, old_buffer, new_buffer, window),
        replies,
    );
}

// ---------------------------------------------------------------------------
// Encodings

/// The window data gives back the window: first and last column and row, as long
/// as they are 16-bit numbers.
pub proof fn law_window_is_readable(x: u32, y: u32, width: u32, height: u32)
    requires
        1 <= x + width <= 0x1_0000,
        1 <= y + height <= 0x1_0000,
        x < 0x1_0000,
        y < 0x1_0000,
    ensures
        ({
            let w = window_bytes(x, y, width, height);
            &&& w.len() == 9
            &&& w[0] * 256 + w[1] == x
            &&& w[2] * 256 + w[3] == x + width - 1
            &&& w[4] * 256 + w[5] == y
            &&& w[6] * 256 + w[7] == y + height - 1
        }),
{
}

/// Of any window, the data holds the lower 16 bits of first and last column and row, and
/// the scan flag.
pub proof fn law_window_wraps(x: u32, y: u32, width: u32, height: u32)
    ensures
        ({
            let w = window_bytes(x, y, width, height);
            &&& w.len() == 9
            &&& w[0] * 256 + w[1] == x % 0x1_0000
            &&& w[2] * 256 + w[3] == (x + width - 1) % 0x1_0000
            &&& w[4] * 256 + w[5] == y % 0x1_0000
            &&& w[6] * 256 + w[7] == (y + height - 1) % 0x1_0000
            &&& w[8] == 1
        }),
{
}

/// A window fits its buffer exactly when the buffer has one bit for each pixel, and the
/// window starts at a whole byte and is whole bytes wide.
pub proof fn law_window_has_a_bit_for_each_pixel(
    len: nat,
    x: u32,
    y: u32,
    width: u32,
    height: u32,
)
    requires
        1 <= x + width <= u32::MAX,
        1 <= y + height <= u32::MAX,
    ensures
        window_fits(len, x, y, width, height) <==> x % 8 == 0 && width % 8 == 0 && 8 * len
            == width * height,
{
    assert(8 * ((width / 8) * height) == (8 * (width / 8)) * height) by (nonlinear_arith);
}

/// A look-up table fills its register: the drive levels, the frames of the four phases,
/// the repeat count, then zeros.
pub proof fn law_table_fills_register(levels: u8)
    ensures
        fast_partial_table(levels).len() == 42,
        fast_partial_table(levels)[0] == levels,
        fast_partial_table(levels)[1] == 30,
        fast_partial_table(levels)[2] == 5,
        fast_partial_table(levels)[3] == 30,
        fast_partial_table(levels)[4] == 5,
        fast_partial_table(levels)[5] == 1,
        forall|i: int| 6 <= i < 42 ==> fast_partial_table(levels)[i] == 0,
{
}

/// No two commands have the same byte, so that the panel can tell them apart.
pub proof fn law_commands_differ(one: Command, other: Command)
    ensures
        code(one) == code(other) ==> one == other,
{
}

} // verus!
