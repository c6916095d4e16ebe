//! The command sequences of the panel, as scripts.
use crate::epd7in5_v2::command::Command;
use crate::epd7in5_v2::{fast_partial_table, FastPartialWaveform};
use crate::operation::busy_wait;
use crate::script::Block;
use crate::traits;
use vstd::prelude::*;

verus! {

/// A bare command.
pub open spec fn command(command: Command) -> Block {
    Block::Command(traits::Command::code(command))
}

/// A command with its data.
pub open spec fn setting(command: Command, data: Seq<u8>) -> Block {
    Block::Setting(traits::Command::code(command), data)
}

/// A wait until the panel is idle, with `GetStatus` before every poll. The panel
/// pulls BUSY low while it is busy.
pub open spec fn idle(delay_us: u32, timeout_us: Option<u32>, cancellable: bool) -> Block {
    Block::Wait(
        busy_wait(
            Some(traits::Command::code(Command::GetStatus)),
            true,
            delay_us,
            timeout_us,
            cancellable,
        ),
    )
}

/// CDI for full refreshes: black border, full waveform.
pub open spec fn full_interval() -> Block {
    setting(Command::VcomAndDataIntervalSetting, seq![0x20u8, 0x07u8])
}

/// CDI for windowed refreshes: the differential waveform.
pub open spec fn differential_interval() -> Block {
    setting(Command::VcomAndDataIntervalSetting, seq![0xA9u8, 0x07u8])
}

/// Reset, power-on and the settings of the full waveform.
pub open spec fn init_script(delay_us: u32, timeout_us: Option<u32>) -> Seq<Block> {
    Seq::empty()
        .push(Block::Reset { initial_delay: 10_000, duration: 2_000 })
        .push(setting(Command::PowerSetting, seq![0x07u8, 0x07u8, 0x3fu8, 0x3fu8]))
        .push(setting(Command::BoosterSoftStart, seq![0x17u8, 0x17u8, 0x28u8, 0x17u8]))
        .push(command(Command::PowerOn))
        .push(Block::DelayMs(100))
        .push(idle(delay_us, timeout_us, false))
        .push(setting(Command::PanelSetting, [0x1Fu8]@))
        .push(setting(Command::TconResolution, seq![0x03u8, 0x20u8, 0x01u8, 0xE0u8]))
        .push(setting(Command::DualSpi, [0x00u8]@))
        .push(full_interval())
        .push(setting(Command::TconSetting, [0x22u8]@))
}

/// Drain, power off, drain, deep sleep.
pub open spec fn sleep_script(delay_us: u32, timeout_us: Option<u32>) -> Seq<Block> {
    Seq::empty()
        .push(idle(delay_us, timeout_us, false))
        .push(command(Command::PowerOff))
        .push(idle(delay_us, timeout_us, false))
        .push(setting(Command::DeepSleep, [0xA5u8]@))
}

/// The framebuffer as old image, its complement as new image.
pub open spec fn update_frame_script(
    delay_us: u32,
    timeout_us: Option<u32>,
    buffer: Seq<u8>,
) -> Seq<Block> {
    Seq::empty()
        .push(idle(delay_us, timeout_us, false))
        .push(setting(Command::DataStartTransmission1, buffer))
        .push(command(Command::DataStartTransmission2))
        .push(Block::Inverted(buffer))
}

/// A frame transfer and the refresh.
pub open spec fn full_refresh_script(
    delay_us: u32,
    timeout_us: Option<u32>,
    buffer: Seq<u8>,
) -> Seq<Block> {
    update_frame_script(delay_us, timeout_us, buffer).push(command(Command::DisplayRefresh))
}

/// A refresh of what was transferred before.
pub open spec fn display_frame_script(delay_us: u32, timeout_us: Option<u32>) -> Seq<Block> {
    Seq::empty()
        .push(idle(delay_us, timeout_us, false))
        .push(command(Command::DisplayRefresh))
}

/// All pixels from black to white.
pub open spec fn clear_frame_script(delay_us: u32, timeout_us: Option<u32>) -> Seq<Block> {
    Seq::empty()
        .push(idle(delay_us, timeout_us, false))
        .push(command(Command::TconResolution))
        .push(Block::Data([0x03u8]@))
        .push(Block::Data([0x20u8]@))
        .push(Block::Data([0x01u8]@))
        .push(Block::Data([0xE0u8]@))
        .push(command(Command::DataStartTransmission1))
        .push(Block::Fill(0xFF, 48_000))
        .push(command(Command::DataStartTransmission2))
        .push(Block::Fill(0x00, 48_000))
        .push(command(Command::DisplayRefresh))
}

/// The second lowest byte of a number.
pub open spec fn high_byte(n: int) -> u8 {
    ((n / 256) % 256) as u8
}

/// The lowest byte of a number.
pub open spec fn low_byte(n: int) -> u8 {
    (n % 256) as u8
}

/// The data of `PartialWindow`: first and last column, first and last row, and
/// the scan flag.
pub open spec fn window_bytes(x: u32, y: u32, width: u32, height: u32) -> Seq<u8> {
    let x_end = x + width - 1;
    let y_end = y + height - 1;
    seq![
        high_byte(x as int),
        low_byte(x as int),
        high_byte(x_end),
        low_byte(x_end),
        high_byte(y as int),
        low_byte(y as int),
        high_byte(y_end),
        low_byte(y_end),
        0x01u8,
    ]
}

/// Whether a window can be addressed (each byte is eight pixels of a row) and a
/// buffer of `len` bytes fills it.
pub open spec fn window_fits(len: nat, x: u32, y: u32, width: u32, height: u32) -> bool {
    &&& x % 8 == 0
    &&& width % 8 == 0
    &&& len == (width / 8) * height
    &&& 1 <= x + width <= u32::MAX
    &&& 1 <= y + height <= u32::MAX
}

/// A windowed refresh with the new image only.
pub open spec fn partial_script(
    delay_us: u32,
    timeout_us: Option<u32>,
    buffer: Seq<u8>,
    window: Seq<u8>,
) -> Seq<Block> {
    Seq::empty()
        .push(idle(delay_us, timeout_us, false))
        .push(differential_interval())
        .push(command(Command::PartialIn))
        .push(setting(Command::PartialWindow, window))
        .push(setting(Command::DataStartTransmission2, buffer))
        .push(command(Command::DisplayRefresh))
        .push(idle(delay_us, timeout_us, false))
        .push(command(Command::PartialOut))
        .push(full_interval())
}

/// A windowed refresh with the old and the new image.
pub open spec fn partial_dual_script(
    delay_us: u32,
    timeout_us: Option<u32>,
    old_buffer: Seq<u8>,
    new_buffer: Seq<u8>,
    window: Seq<u8>,
) -> Seq<Block> {
    Seq::empty()
        .push(idle(delay_us, timeout_us, false))
        .push(differential_interval())
        .push(command(Command::PartialIn))
        .push(setting(Command::PartialWindow, window))
        .push(setting(Command::DataStartTransmission1, old_buffer))
        .push(setting(Command::DataStartTransmission2, new_buffer))
        .push(command(Command::DisplayRefresh))
        .push(idle(delay_us, timeout_us, false))
        .push(command(Command::PartialOut))
        .push(full_interval())
}

/// The cancellable full refresh up to its trigger.
pub open spec fn update_async_prefix(
    delay_us: u32,
    timeout_us: u32,
    buffer: Seq<u8>,
) -> Seq<Block> {
    Seq::empty()
        .push(idle(delay_us, Some(timeout_us), true))
        .push(Block::CancelPoint)
        .push(command(Command::DataStartTransmission1))
        .push(Block::Bands(buffer, false))
        .push(Block::CancelPoint)
        .push(command(Command::DataStartTransmission2))
        .push(Block::Bands(buffer, true))
        .push(Block::CancelPoint)
}

/// The cancellable full refresh.
pub open spec fn update_async_script(
    delay_us: u32,
    timeout_us: u32,
    buffer: Seq<u8>,
) -> Seq<Block> {
    update_async_prefix(delay_us, timeout_us, buffer).push(command(Command::DisplayRefresh))
}

/// The cancellable windowed refresh up to its trigger.
pub open spec fn partial_dual_async_prefix(
    delay_us: u32,
    timeout_us: u32,
    old_buffer: Seq<u8>,
    new_buffer: Seq<u8>,
    window: Seq<u8>,
) -> Seq<Block> {
    Seq::empty()
        .push(idle(delay_us, Some(timeout_us), true))
        .push(Block::CancelPoint)
        .push(differential_interval())
        .push(command(Command::PartialIn))
        .push(setting(Command::PartialWindow, window))
        .push(command(Command::DataStartTransmission1))
        .push(Block::Bands(old_buffer, false))
        .push(command(Command::DataStartTransmission2))
        .push(Block::Bands(new_buffer, false))
        .push(Block::CancelPoint)
}

/// The cancellable windowed refresh.
pub open spec fn partial_dual_async_script(
    delay_us: u32,
    timeout_us: u32,
    old_buffer: Seq<u8>,
    new_buffer: Seq<u8>,
    window: Seq<u8>,
) -> Seq<Block> {
    partial_dual_async_prefix(delay_us, timeout_us, old_buffer, new_buffer, window)
        .push(command(Command::DisplayRefresh))
        .push(idle(delay_us, Some(timeout_us), true))
        .push(command(Command::PartialOut))
        .push(full_interval())
}

/// The fast windowed refresh up to its trigger.
pub open spec fn fast_partial_prefix(
    delay_us: u32,
    timeout_us: u32,
    old_buffer: Seq<u8>,
    new_buffer: Seq<u8>,
    window: Seq<u8>,
) -> Seq<Block> {
    Seq::empty()
        .push(idle(delay_us, Some(timeout_us), true))
        .push(Block::CancelPoint)
        .push(command(Command::PartialIn))
        .push(setting(Command::PartialWindow, window))
        .push(command(Command::DataStartTransmission1))
        .push(Block::Bands(old_buffer, false))
        .push(command(Command::DataStartTransmission2))
        .push(Block::Bands(new_buffer, false))
        .push(Block::CancelPoint)
}

/// The fast windowed refresh: CDI stays as the fast-partial init has left it.
pub open spec fn fast_partial_script(
    delay_us: u32,
    timeout_us: u32,
    old_buffer: Seq<u8>,
    new_buffer: Seq<u8>,
    window: Seq<u8>,
) -> Seq<Block> {
    fast_partial_prefix(delay_us, timeout_us, old_buffer, new_buffer, window)
        .push(command(Command::DisplayRefresh))
        .push(idle(delay_us, Some(timeout_us), true))
        .push(command(Command::PartialOut))
}

/// The common settings of the fast-partial mode.
pub open spec fn fast_common() -> Seq<Block> {
    Seq::empty()
        .push(Block::Reset { initial_delay: 10_000, duration: 2_000 })
        .push(setting(Command::PanelSetting, [0x1Fu8]@))
        .push(setting(Command::PowerSetting, seq![0x07u8, 0x07u8, 0x3Fu8, 0x3Fu8, 0x09u8]))
        .push(setting(Command::BoosterSoftStart, seq![0x17u8, 0x17u8, 0x28u8, 0x17u8]))
        .push(setting(Command::TconResolution, seq![0x03u8, 0x20u8, 0x01u8, 0xE0u8]))
        .push(setting(Command::DualSpi, [0x00u8]@))
        .push(setting(Command::VcomAndDataIntervalSetting, seq![0x29u8, 0x07u8]))
        .push(setting(Command::TconSetting, [0x22u8]@))
        .push(setting(Command::PowerSaving, [0x22u8]@))
}

/// The common settings and those of the waveform source.
pub open spec fn fast_settings(waveform: FastPartialWaveform) -> Seq<Block> {
    match waveform {
        FastPartialWaveform::OtpForcedTemperature => fast_common()
            .push(setting(Command::CascadeSetting, [0x02u8]@))
            .push(setting(Command::ForceTemperature, [0x6Eu8]@)),
        FastPartialWaveform::RegisterLut => fast_common()
            .push(setting(Command::PanelSetting, [0x3Fu8]@))
            .push(setting(Command::VcmDcSetting, [0x30u8]@))
            .push(setting(Command::VcomAndDataIntervalSetting, seq![0x39u8, 0x07u8]))
            .push(setting(Command::LutForVcom, fast_partial_table(0x00)))
            .push(setting(Command::LutBlack, fast_partial_table(0x00)))
            .push(setting(Command::LutWhite, fast_partial_table(0x5A)))
            .push(setting(Command::LutGray1, fast_partial_table(0x84)))
            .push(setting(Command::LutGray2, fast_partial_table(0x00)))
            .push(setting(Command::LutRed0, fast_partial_table(0x00))),
    }
}

/// Reset, the settings of the fast-partial mode, and only then power-on.
pub open spec fn init_fast_script(
    delay_us: u32,
    timeout_us: u32,
    waveform: FastPartialWaveform,
) -> Seq<Block> {
    fast_settings(waveform)
        .push(command(Command::PowerOn))
        .push(Block::DelayMs(100))
        .push(idle(delay_us, Some(timeout_us), false))
}

} // verus!
