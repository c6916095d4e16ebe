//! Commands of the UC8179 controller.
use crate::traits;
use vstd::prelude::*;

verus! {

/// The commands that the driver sends.
#[derive(Debug, Clone, Copy, PartialEq, Eq, Structural)]
pub enum Command {
    /// Resolution, look-up table selection, scan and shift direction, booster.
    PanelSetting,
    /// Internal and external power.
    PowerSetting,
    PowerOff,
    PowerOn,
    BoosterSoftStart,
    /// Puts the controller to sleep until a hardware reset. The check code 0xA5
    /// goes with it.
    DeepSleep,
    /// Starts the transfer of the old image.
    DataStartTransmission1,
    /// Refreshes the panel from the transferred images.
    DisplayRefresh,
    /// Starts the transfer of the new image.
    DataStartTransmission2,
    DualSpi,
    /// Look-up table for VCOM.
    LutForVcom,
    /// Look-up table for white to white.
    LutBlack,
    /// Look-up table for black to white.
    LutWhite,
    /// Look-up table for white to black.
    LutGray1,
    /// Look-up table for black to black.
    LutGray2,
    /// Look-up table for the border.
    LutRed0,
    /// Border and data polarity (CDI).
    VcomAndDataIntervalSetting,
    TconSetting,
    /// The resolution in pixels.
    TconResolution,
    /// Makes the controller put its state on the BUSY pin.
    GetStatus,
    VcmDcSetting,
    /// The window of a partial refresh.
    PartialWindow,
    PartialIn,
    PartialOut,
    CascadeSetting,
    PowerSaving,
    ForceTemperature,
}

impl traits::Command for Command {
    open spec fn code(self) -> u8 {
        match self {
            Command::PanelSetting => 0x00,
            Command::PowerSetting => 0x01,
            Command::PowerOff => 0x02,
            Command::PowerOn => 0x04,
            Command::BoosterSoftStart => 0x06,
            Command::DeepSleep => 0x07,
            Command::DataStartTransmission1 => 0x10,
            Command::DisplayRefresh => 0x12,
            Command::DataStartTransmission2 => 0x13,
            Command::DualSpi => 0x15,
            Command::LutForVcom => 0x20,
            Command::LutBlack => 0x21,
            Command::LutWhite => 0x22,
            Command::LutGray1 => 0x23,
            Command::LutGray2 => 0x24,
            Command::LutRed0 => 0x25,
            Command::VcomAndDataIntervalSetting => 0x50,
            Command::TconSetting => 0x60,
            Command::TconResolution => 0x61,
            Command::GetStatus => 0x71,
            Command::VcmDcSetting => 0x82,
            Command::PartialWindow => 0x90,
            Command::PartialIn => 0x91,
            Command::PartialOut => 0x92,
            Command::CascadeSetting => 0xE0,
            Command::PowerSaving => 0xE3,
            Command::ForceTemperature => 0xE5,
        }
    }

    /// Returns the address of the command.
    fn address(self) -> u8 {
        match self {
            Command::PanelSetting => 0x00,
            Command::PowerSetting => 0x01,
            Command::PowerOff => 0x02,
            Command::PowerOn => 0x04,
            Command::BoosterSoftStart => 0x06,
            Command::DeepSleep => 0x07,
            Command::DataStartTransmission1 => 0x10,
            Command::DisplayRefresh => 0x12,
            Command::DataStartTransmission2 => 0x13,
            Command::DualSpi => 0x15,
            Command::LutForVcom => 0x20,
            Command::LutBlack => 0x21,
            Command::LutWhite => 0x22,
            Command::LutGray1 => 0x23,
            Command::LutGray2 => 0x24,
            Command::LutRed0 => 0x25,
            Command::VcomAndDataIntervalSetting => 0x50,
            Command::TconSetting => 0x60,
            Command::TconResolution => 0x61,
            Command::GetStatus => 0x71,
            Command::VcmDcSetting => 0x82,
            Command::PartialWindow => 0x90,
            Command::PartialIn => 0x91,
            Command::PartialOut => 0x92,
            Command::CascadeSetting => 0xE0,
            Command::PowerSaving => 0xE3,
            Command::ForceTemperature => 0xE5,
        }
    }
}

} // verus!
