//! Sessions: what holds of the panel after an init and any number of completed calls.
use crate::epd7in5_v2::command::Command;
use crate::epd7in5_v2::laws::{
    clear_packets, code, delivers, fast_init_packets, fast_partial_packets, frame_packets,
    full_refresh_packets, init_packets, law_clear, law_display, law_fast_init,
    law_fast_partial_refresh, law_frame_transfer, law_full_refresh, law_full_refresh_async,
    law_init, law_partial_refresh, law_partial_refresh_dual, law_partial_refresh_dual_async,
    law_sleep, law_wait, partial_dual_packets, partial_packets, sent, sleep_packets,
};
use crate::epd7in5_v2::sequences::{
    clear_frame_script, display_frame_script, fast_partial_script, full_refresh_script, idle,
    init_fast_script, init_script, partial_dual_async_script, partial_dual_script,
    partial_script, sleep_script, update_async_script, update_frame_script,
};
use crate::epd7in5_v2::{Epd7in5, FastPartialWaveform};
use crate::operation::{Reply, Signal};
use crate::packets::{
    lemma_received_append, packet, received, Packet,
};
use crate::runs::{completed, run};
use crate::script::Block;
use crate::wire::{lemma_transfers_append, level_after, transfers};
use vstd::prelude::*;

verus! {

/// A call of a driver method, with its time cap if it has one.
pub ghost enum Call {
    /// `wake_up`, `wake_up_with_timeout` or `reinit_full_with_timeout_async`.
    WakeUp(Option<u32>),
    /// `sleep`, `sleep_with_timeout` or `sleep_with_timeout_async`.
    Sleep(Option<u32>),
    /// `wait_until_idle`, `wait_until_idle_with_timeout` or, with the flag set,
    /// `wait_until_idle_with_timeout_async`.
    Wait(Option<u32>, bool),
    /// `update_frame`.
    UpdateFrame(Seq<u8>),
    /// `display_frame`.
    DisplayFrame,
    /// `clear_frame`.
    ClearFrame,
    /// `update_and_display_frame` or `update_and_display_frame_with_timeout`.
    FullRefresh(Option<u32>, Seq<u8>),
    /// `update_and_display_frame_with_timeout_async`.
    FullRefreshAsync(u32, Seq<u8>),
    /// `update_partial_frame` or `update_partial_frame_with_timeout`, with the data of
    /// the window.
    Partial(Option<u32>, Seq<u8>, Seq<u8>),
    /// `update_partial_frame_dual_with_timeout`, with old image, new image and window.
    PartialDual(u32, Seq<u8>, Seq<u8>, Seq<u8>),
    /// `update_partial_frame_dual_with_timeout_async`.
    PartialDualAsync(u32, Seq<u8>, Seq<u8>, Seq<u8>),
    /// `update_fast_partial_frame_dual_with_timeout_async`.
    FastPartialDual(u32, Seq<u8>, Seq<u8>, Seq<u8>),
}

/// The script of the operation that a call gives.
pub open spec fn script_of(delay_us: u32, call: Call) -> Seq<Block> {
    match call {
        Call::WakeUp(timeout_us) => init_script(delay_us, timeout_us),
        Call::Sleep(timeout_us) => sleep_script(delay_us, timeout_us),
        Call::Wait(timeout_us, cancellable) => Seq::empty().push(
            idle(delay_us, timeout_us, cancellable),
        ),
        Call::UpdateFrame(buffer) => update_frame_script(delay_us, None, buffer),
        Call::DisplayFrame => display_frame_script(delay_us, None),
        Call::ClearFrame => clear_frame_script(delay_us, None),
        Call::FullRefresh(timeout_us, buffer) => full_refresh_script(delay_us, timeout_us, buffer),
        Call::FullRefreshAsync(timeout_us, buffer) => update_async_script(
            delay_us,
            timeout_us,
            buffer,
        ),
        Call::Partial(timeout_us, buffer, window) => partial_script(
            delay_us,
            timeout_us,
            buffer,
            window,
        ),
        Call::PartialDual(timeout_us, old_buffer, new_buffer, window) => partial_dual_script(
            delay_us,
            Some(timeout_us),
            old_buffer,
            new_buffer,
            window,
        ),
        Call::PartialDualAsync(timeout_us, old_buffer, new_buffer, window) =>
            partial_dual_async_script(delay_us, timeout_us, old_buffer, new_buffer, window),
        Call::FastPartialDual(timeout_us, old_buffer, new_buffer, window) => fast_partial_script(
            delay_us,
            timeout_us,
            old_buffer,
            new_buffer,
            window,
        ),
    }
}

/// A call and the replies that its operation is given.
pub ghost struct Turn<E> {
    pub call: Call,
    pub replies: Seq<Reply<E>>,
}

/// Whether the operation of a turn completes.
pub open spec fn completes<E>(epd: Epd7in5, turn: Turn<E>) -> bool {
    let script = script_of(epd.interface.delay_us, turn.call);
    run(epd.runs::<E>(script), turn.replies).end == completed::<E>()
}

pub open spec fn all_complete<E>(epd: Epd7in5, turns: Seq<Turn<E>>) -> bool {
    forall|i: int| 0 <= i < turns.len() ==> completes(epd, #[trigger] turns[i])
}

/// What is asked for in the course of some turns.
pub open spec fn session_signals<E>(epd: Epd7in5, turns: Seq<Turn<E>>) -> Seq<Signal>
    decreases turns.len(),
{
    if turns.len() == 0 {
        Seq::empty()
    } else {
        let script = script_of(epd.interface.delay_us, turns.last().call);
        session_signals(epd, turns.drop_last()) + run(
            epd.runs::<E>(script),
            turns.last().replies,
        ).signals
    }
}

/// The packets that the panel has received, but for status queries, after an init and
/// some turns.
pub open spec fn session_packets<E>(
    epd: Epd7in5,
    init: Seq<Block>,
    replies: Seq<Reply<E>>,
    turns: Seq<Turn<E>>,
    dc: bool,
) -> Seq<Packet> {
    received(
        run(epd.runs::<E>(init), replies).signals + session_signals(epd, turns),
        dc,
        code(Command::GetStatus),
    )
}

// ---------------------------------------------------------------------------
// CDI and partial mode

/// The data of all packets with the given command.
pub open spec fn payloads(packets: Seq<Packet>, address: u8) -> Seq<Seq<u8>>
    decreases packets.len(),
{
    if packets.len() == 0 {
        Seq::empty()
    } else {
        let before = payloads(packets.drop_last(), address);
        if packets.last().command == seq![address] {
            before.push(packets.last().data)
        } else {
            before
        }
    }
}

/// Whether the last packet with the command carries this data.
pub open spec fn last_is(packets: Seq<Packet>, command: Command, value: Seq<u8>) -> bool {
    let values = payloads(packets, code(command));
    values.len() > 0 && values.last() == value
}

/// Whether the panel was last given this CDI.
pub open spec fn interval_is(packets: Seq<Packet>, value: Seq<u8>) -> bool {
    last_is(packets, Command::VcomAndDataIntervalSetting, value)
}

/// The switches of partial mode: `true` for every `PartialIn`, `false` for every
/// `PartialOut`.
pub open spec fn switches(packets: Seq<Packet>) -> Seq<bool>
    decreases packets.len(),
{
    if packets.len() == 0 {
        Seq::empty()
    } else {
        let before = switches(packets.drop_last());
        if packets.last().command == seq![code(Command::PartialIn)] {
            before.push(true)
        } else if packets.last().command == seq![code(Command::PartialOut)] {
            before.push(false)
        } else {
            before
        }
    }
}

/// Whether `PartialIn` and `PartialOut` alternate, `PartialIn` first.
pub open spec fn alternating(packets: Seq<Packet>) -> bool {
    forall|i: int|
        0 <= i < switches(packets).len() ==> #[trigger] switches(packets)[i] == (i % 2 == 0)
}

/// Whether there is a `PartialIn` without its `PartialOut`.
pub open spec fn in_partial_mode(packets: Seq<Packet>) -> bool {
    switches(packets).len() % 2 == 1
}

/// CDI for full refreshes.
pub open spec fn full_value() -> Seq<u8> {
    seq![0x20u8, 0x07u8]
}

/// CDI for windowed refreshes.
pub open spec fn differential_value() -> Seq<u8> {
    seq![0xA9u8, 0x07u8]
}

/// CDI as the fast-partial init leaves it.
pub open spec fn fast_value(waveform: FastPartialWaveform) -> Seq<u8> {
    match waveform {
        FastPartialWaveform::OtpForcedTemperature => seq![0x29u8, 0x07u8],
        FastPartialWaveform::RegisterLut => seq![0x39u8, 0x07u8],
    }
}

/// Whether a refresh that is triggered now has the waveform that it needs: the
/// differential one in partial mode, the full one otherwise.
pub open spec fn waveform_fits(packets: Seq<Packet>) -> bool {
    interval_is(
        packets,
        if in_partial_mode(packets) {
            differential_value()
        } else {
            full_value()
        },
    )
}

/// Whether every refresh had the waveform that it needs when it was triggered.
pub open spec fn refreshes_fit(packets: Seq<Packet>) -> bool {
    forall|k: int|
        0 <= k < packets.len() && (#[trigger] packets[k]).command == seq![
            code(Command::DisplayRefresh),
        ] ==> waveform_fits(packets.take(k))
}

broadcast proof fn lemma_payloads_push(
    packets: Seq<Packet>,
    address: u8,
    data: Seq<u8>,
    wanted: u8,
)
    ensures
        #[trigger] payloads(packets.push(packet(address, data)), wanted) == if address == wanted {
            payloads(packets, wanted).push(data)
        } else {
            payloads(packets, wanted)
        },
{
    assert(packets.push(packet(address, data)).drop_last() =~= packets);
    assert(seq![address][0] == address && seq![wanted][0] == wanted);
}

broadcast proof fn lemma_switches_push(packets: Seq<Packet>, address: u8, data: Seq<u8>)
    ensures
        #[trigger] switches(packets.push(packet(address, data))) == if address == code(
            Command::PartialIn,
        ) {
            switches(packets).push(true)
        } else if address == code(Command::PartialOut) {
            switches(packets).push(false)
        } else {
            switches(packets)
        },
{
    let enter = code(Command::PartialIn);
    let leave = code(Command::PartialOut);
    assert(packets.push(packet(address, data)).drop_last() =~= packets);
    assert(seq![address][0] == address && seq![enter][0] == enter && seq![leave][0] == leave);
}

broadcast proof fn lemma_fit_push(packets: Seq<Packet>, address: u8, data: Seq<u8>)
    ensures
        #[trigger] refreshes_fit(packets.push(packet(address, data))) == (refreshes_fit(packets)
            && (address == code(Command::DisplayRefresh) ==> waveform_fits(packets))),
{
    let trigger = code(Command::DisplayRefresh);
    let longer = packets.push(packet(address, data));
    let n = packets.len() as int;
    assert(seq![address][0] == address && seq![trigger][0] == trigger);
    assert(longer.take(n) =~= packets);
    assert forall|k: int| 0 <= k < n implies longer.take(k) == packets.take(k) by {
        assert(longer.take(k) =~= packets.take(k));
    }
    if refreshes_fit(longer) {
        assert(longer[n].command == seq![address]);
        assert forall|k: int|
            0 <= k < n && (#[trigger] packets[k]).command == seq![trigger] implies waveform_fits(
            packets.take(k),
        ) by {
            assert(longer[k] == packets[k]);
        }
    }
    if refreshes_fit(packets) && (address == trigger ==> waveform_fits(packets)) {
        assert forall|k: int|
            0 <= k < longer.len() && (#[trigger] longer[k]).command == seq![
                trigger,
            ] implies waveform_fits(longer.take(k)) by {
            if k < n {
                assert(packets[k] == longer[k]);
            }
        }
    }
}

broadcast group group_session {
    lemma_payloads_push,
    lemma_switches_push,
    lemma_fit_push,
}

/// Whether a call sets CDI.
pub open spec fn sets_interval(call: Call) -> bool {
    match call {
        Call::WakeUp(_) => true,
        Call::Partial(_, _, _) => true,
        Call::PartialDual(_, _, _, _) => true,
        Call::PartialDualAsync(_, _, _, _) => true,
        _ => false,
    }
}

/// Whether a call switches to partial mode and back.
pub open spec fn opens_window(call: Call) -> bool {
    match call {
        Call::Partial(_, _, _) => true,
        Call::PartialDual(_, _, _, _) => true,
        Call::PartialDualAsync(_, _, _, _) => true,
        Call::FastPartialDual(_, _, _, _) => true,
        _ => false,
    }
}

/// The packets after a completed call.
pub open spec fn call_packets(packets: Seq<Packet>, call: Call) -> Seq<Packet> {
    match call {
        Call::WakeUp(_) => init_packets(packets),
        Call::Sleep(_) => sleep_packets(packets),
        Call::Wait(_, _) => packets,
        Call::UpdateFrame(buffer) => frame_packets(packets, buffer),
        Call::DisplayFrame => packets.push(sent(Command::DisplayRefresh, Seq::empty())),
        Call::ClearFrame => clear_packets(packets),
        Call::FullRefresh(_, buffer) => full_refresh_packets(packets, buffer),
        Call::FullRefreshAsync(_, buffer) => full_refresh_packets(packets, buffer),
        Call::Partial(_, buffer, window) => partial_packets(packets, buffer, window),
        Call::PartialDual(_, old_buffer, new_buffer, window) => partial_dual_packets(
            packets,
            old_buffer,
            new_buffer,
            window,
        ),
        Call::PartialDualAsync(_, old_buffer, new_buffer, window) => partial_dual_packets(
            packets,
            old_buffer,
            new_buffer,
            window,
        ),
        Call::FastPartialDual(_, old_buffer, new_buffer, window) => fast_partial_packets(
            packets,
            old_buffer,
            new_buffer,
            window,
        ),
    }
}

proof fn lemma_call_delivers<E>(
    epd: Epd7in5,
    turn: Turn<E>,
    packets: Seq<Packet>,
    dc: bool,
)
    ensures
        delivers(
            epd,
            script_of(epd.interface.delay_us, turn.call),
            packets,
            dc,
            turn.replies,
            call_packets(packets, turn.call),
        ),
{
    let replies = turn.replies;
    match turn.call {
        Call::WakeUp(cap) => law_init(epd, cap, packets, dc, replies),
        Call::Sleep(cap) => law_sleep(epd, cap, packets, dc, replies),
        Call::Wait(cap, cancellable) => law_wait(epd, cap, cancellable, packets, dc, replies),
        Call::UpdateFrame(buffer) => law_frame_transfer(epd, None, buffer, packets, dc, replies),
        Call::DisplayFrame => law_display(epd, None, packets, dc, replies),
        Call::ClearFrame => law_clear(epd, None, packets, dc, replies),
        Call::FullRefresh(cap, buffer) => law_full_refresh(epd, cap, buffer, packets, dc, replies),
        Call::FullRefreshAsync(cap, buffer) => law_full_refresh_async(
            epd,
            cap,
            buffer,
            packets,
            dc,
            replies,
        ),
        Call::Partial(cap, buffer, window) => law_partial_refresh(
            epd,
            cap,
            buffer,
            window,
            packets,
            dc,
            replies,
        ),
        Call::PartialDual(cap, old_buffer, new_buffer, window) => law_partial_refresh_dual(
            epd,
            Some(cap),
            old_buffer,
            new_buffer,
            window,
            packets,
            dc,
            replies,
        ),
        Call::PartialDualAsync(cap, old_buffer, new_buffer, window) =>
            law_partial_refresh_dual_async(
            epd,
            cap,
            old_buffer,
            new_buffer,
            window,
            packets,
            dc,
            replies,
        ),
        Call::FastPartialDual(cap, old_buffer, new_buffer, window) => law_fast_partial_refresh(
            epd,
            cap,
            old_buffer,
            new_buffer,
            window,
            packets,
            dc,
            replies,
        ),
    }
}

/// One more completed turn adds the packets of its call.
proof fn lemma_turn<E>(
    epd: Epd7in5,
    init: Seq<Block>,
    replies: Seq<Reply<E>>,
    turns: Seq<Turn<E>>,
    dc: bool,
)
    requires
        turns.len() > 0,
        completes(epd, turns.last()),
    ensures
        session_packets(epd, init, replies, turns, dc) == call_packets(
            session_packets(epd, init, replies, turns.drop_last(), dc),
            turns.last().call,
        ),
{
    let status = code(Command::GetStatus);
    let turn = turns.last();
    let script = script_of(epd.interface.delay_us, turn.call);
    let first = run(epd.runs::<E>(init), replies).signals;
    let before = first + session_signals(epd, turns.drop_last());
    let last = run(epd.runs::<E>(script), turn.replies).signals;
    let level = level_after(before, dc);
    assert(first + session_signals(epd, turns) =~= before + last);
    lemma_transfers_append(before, last, dc);
    lemma_received_append(
        Seq::empty(),
        transfers(before, dc),
        transfers(last, level),
        status,
    );
    lemma_call_delivers(epd, turn, received(before, dc, status), level);
}

/// What a call does to CDI and to partial mode.
proof fn lemma_call(packets: Seq<Packet>, call: Call)
    ensures
        ({
            let more = call_packets(packets, call);
            let interval = code(Command::VcomAndDataIntervalSetting);
            let panel = code(Command::PanelSetting);
            &&& call is WakeUp ==> last_is(more, Command::PanelSetting, [0x1Fu8]@)
            &&& !(call is WakeUp) ==> payloads(more, panel) == payloads(packets, panel)
            &&& sets_interval(call) ==> interval_is(more, full_value())
            &&& !sets_interval(call) ==> payloads(more, interval) == payloads(packets, interval)
            &&& switches(more) == if opens_window(call) {
                switches(packets).push(true).push(false)
            } else {
                switches(packets)
            }
            &&& !(call is FastPartialDual) && refreshes_fit(packets) && !in_partial_mode(packets)
                && interval_is(packets, full_value()) ==> refreshes_fit(more)
        }),
{
    broadcast use group_session;

}

/// Whether some turn has set CDI.
pub open spec fn some_sets_interval<E>(turns: Seq<Turn<E>>) -> bool {
    exists|i: int| 0 <= i < turns.len() && sets_interval((#[trigger] turns[i]).call)
}

/// Whether some turn was a plain init.
pub open spec fn some_wakes_up<E>(turns: Seq<Turn<E>>) -> bool {
    exists|i: int| 0 <= i < turns.len() && ((#[trigger] turns[i]).call is WakeUp)
}

/// Whether no turn is a fast windowed refresh, which is made for a session of its own.
pub open spec fn no_fast_refresh<E>(turns: Seq<Turn<E>>) -> bool {
    forall|i: int| 0 <= i < turns.len() ==> !((#[trigger] turns[i]).call is FastPartialDual)
}

/// The last turn and those before it.
proof fn lemma_last_turn<E>(epd: Epd7in5, turns: Seq<Turn<E>>)
    requires
        turns.len() > 0,
    ensures
        ({
            let before = turns.drop_last();
            let call = turns.last().call;
            &&& all_complete(epd, turns) ==> all_complete(epd, before)
            &&& no_fast_refresh(turns) ==> no_fast_refresh(before) && !(call is FastPartialDual)
            &&& some_sets_interval(turns) == (some_sets_interval(before) || sets_interval(call))
            &&& some_wakes_up(turns) == (some_wakes_up(before) || call is WakeUp)
        }),
{
    let before = turns.drop_last();
    let last = turns.len() - 1;
    assert(turns[last] == turns.last());
    assert forall|i: int| 0 <= i < before.len() implies #[trigger] before[i] == turns[i] by {}
    assert forall|i: int| 0 <= i < last implies #[trigger] turns[i] == before[i] by {}
    if some_sets_interval(before) {
        let i = choose|i: int| 0 <= i < before.len() && sets_interval((#[trigger] before[i]).call);
        assert(sets_interval(turns[i].call));
    }
    if some_wakes_up(before) {
        let i = choose|i: int| 0 <= i < before.len() && ((#[trigger] before[i]).call is WakeUp);
        assert(turns[i].call is WakeUp);
    }
}

/// The turns of a session whose init has left this CDI, outside partial mode.
proof fn lemma_session<E>(
    epd: Epd7in5,
    init: Seq<Block>,
    replies: Seq<Reply<E>>,
    turns: Seq<Turn<E>>,
    dc: bool,
    value: Seq<u8>,
)
    requires
        all_complete(epd, turns),
        ({
            let packets = session_packets(epd, init, replies, Seq::<Turn<E>>::empty(), dc);
            &&& interval_is(packets, value)
            &&& switches(packets).len() == 0
            &&& refreshes_fit(packets)
        }),
    ensures
        ({
            let packets = session_packets(epd, init, replies, turns, dc);
            &&& interval_is(
                packets,
                if some_sets_interval(turns) {
                    full_value()
                } else {
                    value
                },
            )
            &&& alternating(packets)
            &&& !in_partial_mode(packets)
            &&& some_wakes_up(turns) ==> last_is(packets, Command::PanelSetting, [0x1Fu8]@)
            &&& value == full_value() && no_fast_refresh(turns) ==> refreshes_fit(packets)
        }),
    decreases turns.len(),
{
    if turns.len() == 0 {
        assert(turns =~= Seq::empty());
    } else {
        let before = turns.drop_last();
        let packets = session_packets(epd, init, replies, before, dc);
        let last = turns[turns.len() - 1];
        assert(completes(epd, last));
        lemma_last_turn(epd, turns);
        lemma_session(epd, init, replies, before, dc, value);
        lemma_turn(epd, init, replies, turns, dc);
        lemma_call(packets, last.call);
        let more = switches(call_packets(packets, last.call));
        assert forall|i: int| 0 <= i < more.len() implies #[trigger] more[i] == (i % 2 == 0) by {
            if i < switches(packets).len() {
                assert(more[i] == switches(packets)[i]);
            }
        }
    }
}

proof fn lemma_after_init<E>(
    epd: Epd7in5,
    init: Seq<Block>,
    replies: Seq<Reply<E>>,
    dc: bool,
    more: Seq<Packet>,
)
    requires
        run(epd.runs::<E>(init), replies).end == completed::<E>(),
        delivers(epd, init, Seq::empty(), dc, replies, more),
    ensures
        session_packets(epd, init, replies, Seq::<Turn<E>>::empty(), dc) == more,
{
    let first = run(epd.runs::<E>(init), replies).signals;
    assert(first + session_signals(epd, Seq::<Turn<E>>::empty()) =~= first);
}

/// Whatever calls have completed since a completed `new`, CDI is back at its value for
/// full refreshes, and the panel has been taken out of partial mode as often as it was
/// put into it, in turn.
pub proof fn law_session_restores_interval<E>(
    epd: Epd7in5,
    timeout_us: Option<u32>,
    replies: Seq<Reply<E>>,
    turns: Seq<Turn<E>>,
    dc: bool,
)
    requires
        run(
            epd.runs::<E>(init_script(epd.interface.delay_us, timeout_us)),
            replies,
        ).end == completed::<E>(),
        all_complete(epd, turns),
    ensures
        ({
            let init = init_script(epd.interface.delay_us, timeout_us);
            let packets = session_packets(epd, init, replies, turns, dc);
            &&& interval_is(packets, full_value())
            &&& alternating(packets)
            &&& !in_partial_mode(packets)
        }),
{
    lemma_plain_session(epd, timeout_us, replies, turns, dc);
}

/// In the course of completed calls after a completed `new`, every refresh is triggered
/// under the waveform that it needs: the differential one inside a window, the full one
/// for the whole panel.
pub proof fn law_refreshes_have_their_waveform<E>(
    epd: Epd7in5,
    timeout_us: Option<u32>,
    replies: Seq<Reply<E>>,
    turns: Seq<Turn<E>>,
    dc: bool,
)
    requires
        run(
            epd.runs::<E>(init_script(epd.interface.delay_us, timeout_us)),
            replies,
        ).end == completed::<E>(),
        all_complete(epd, turns),
        no_fast_refresh(turns),
    ensures
        refreshes_fit(
            session_packets(
                epd,
                init_script(epd.interface.delay_us, timeout_us),
                replies,
                turns,
                dc,
            ),
        ),
{
    lemma_plain_session(epd, timeout_us, replies, turns, dc);
}

proof fn lemma_plain_session<E>(
    epd: Epd7in5,
    timeout_us: Option<u32>,
    replies: Seq<Reply<E>>,
    turns: Seq<Turn<E>>,
    dc: bool,
)
    requires
        run(
            epd.runs::<E>(init_script(epd.interface.delay_us, timeout_us)),
            replies,
        ).end == completed::<E>(),
        all_complete(epd, turns),
    ensures
        ({
            let init = init_script(epd.interface.delay_us, timeout_us);
            let packets = session_packets(epd, init, replies, turns, dc);
            &&& interval_is(packets, full_value())
            &&& alternating(packets)
            &&& !in_partial_mode(packets)
            &&& no_fast_refresh(turns) ==> refreshes_fit(packets)
        }),
{
    broadcast use group_session;

    let init = init_script(epd.interface.delay_us, timeout_us);
    let none = Seq::<Packet>::empty();
    law_init(epd, timeout_us, none, dc, replies);
    lemma_after_init(epd, init, replies, dc, init_packets(none));
    lemma_session(epd, init, replies, turns, dc, full_value());
}

/// Whatever calls have completed since a completed fast-partial init, CDI is as that
/// init has left it, unless one of the calls was a plain init or a windowed refresh
/// under the differential waveform: then it is at its value for full refreshes. The
/// panel has been taken out of partial mode as often as it was put into it, in turn. Once
/// a plain init has completed, the panel setting is that of the full waveform too.
pub proof fn law_fast_session_keeps_interval<E>(
    epd: Epd7in5,
    timeout_us: u32,
    waveform: FastPartialWaveform,
    replies: Seq<Reply<E>>,
    turns: Seq<Turn<E>>,
    dc: bool,
)
    requires
        run(
            epd.runs::<E>(init_fast_script(epd.interface.delay_us, timeout_us, waveform)),
            replies,
        ).end == completed::<E>(),
        all_complete(epd, turns),
    ensures
        ({
            let init = init_fast_script(epd.interface.delay_us, timeout_us, waveform);
            let packets = session_packets(epd, init, replies, turns, dc);
            &&& interval_is(
                packets,
                if some_sets_interval(turns) {
                    full_value()
                } else {
                    fast_value(waveform)
                },
            )
            &&& alternating(packets)
            &&& !in_partial_mode(packets)
            &&& some_wakes_up(turns) ==> last_is(packets, Command::PanelSetting, [0x1Fu8]@)
        }),
{
    broadcast use group_session;

    let init = init_fast_script(epd.interface.delay_us, timeout_us, waveform);
    let none = Seq::<Packet>::empty();
    law_fast_init(epd, timeout_us, waveform, none, dc, replies);
    lemma_after_init(epd, init, replies, dc, fast_init_packets(none, waveform));
    lemma_session(epd, init, replies, turns, dc, fast_value(waveform));
}

} // verus!
