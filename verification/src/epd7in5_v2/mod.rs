//! Driver for the Waveshare 7.5" E-Ink Display (V2), 800x480, UC8179 controller.
use self::command::Command;
use self::sequences::{
    clear_frame_script, display_frame_script, fast_partial_script, full_refresh_script, high_byte,
    init_fast_script, init_script, low_byte, partial_dual_async_script, partial_dual_script,
    partial_script, sleep_script, update_async_script, update_frame_script, window_bytes,
    window_fits,
};
use crate::color::Color;
pub use crate::interface::BusyTimeoutError;
use crate::interface::{DEFAULT_DELAY_US, DisplayInterface};
pub use crate::operation::RefreshOutcome;
use crate::operation::{start, Bytes, Operation, Plan, State, SHORT_LEN};
use crate::script::{block_ops, lemma_script_push, script_ops, Block};
use vstd::prelude::*;

pub mod command;
pub mod conduct;
pub mod laws;
pub mod sequences;
pub mod session;
pub mod watch;

verus! {

/// Width of the display
pub const WIDTH: u32 = 800;

/// Height of the display
pub const HEIGHT: u32 = 480;

/// Default Background Color
pub const DEFAULT_BACKGROUND_COLOR: Color = Color::White;

const IS_BUSY_LOW: bool = true;

const SINGLE_BYTE_WRITE: bool = false;

/// Waveform source for the fast partial-refresh mode.
///
/// The plain init leaves the panel on the full waveform of its one-time
/// programmable memory (OTP), so that every refresh, a windowed one too, takes
/// about four seconds. The short partial waveform comes from one of these.
#[derive(Debug, Clone, Copy, PartialEq, Eq, Structural)]
pub enum FastPartialWaveform {
    /// Short look-up tables loaded into the controller registers. They do not
    /// depend on the panel batch; their frame counts are empirical.
    RegisterLut,
    /// The factory fast-partial waveform that newer glass holds in OTP at the
    /// forced temperature index 0x6E. Only works on batches whose OTP has it.
    OtpForcedTemperature,
}

/// Length of the look-up table registers of the UC8179, commands 0x20 to 0x25.
pub const FAST_PARTIAL_LUT_LEN: usize = 42;

/// Drive levels for VCOM: no drive.
const LEVELS_VCOM: u8 = 0x00;

/// Drive levels from white to white: no drive.
const LEVELS_WHITE_TO_WHITE: u8 = 0x00;

/// Drive levels from black to white: `01 01 10 10`.
const LEVELS_BLACK_TO_WHITE: u8 = 0x5A;

/// Drive levels from white to black: `10 00 01 00`.
const LEVELS_WHITE_TO_BLACK: u8 = 0x84;

/// Drive levels from black to black: no drive.
const LEVELS_BLACK_TO_BLACK: u8 = 0x00;

/// Drive levels for the border: no drive, it keeps what it shows.
const LEVELS_BORDER: u8 = 0x00;

/// A look-up table with one group of phases, zero-padded to the register's
/// length: four packed 2-bit drive levels, then 30 frames of charge balance, 5
/// frames of extension, 30 frames of color change, 5 frames of extension, once.
pub open spec fn fast_partial_table(levels: u8) -> Seq<u8> {
    seq![levels, 30u8, 5u8, 30u8, 5u8, 1u8] + Seq::new(36, |i: int| 0u8)
}

/// One fast-partial look-up table for the given drive levels.
pub fn fast_partial_lut(levels: u8) -> (lut: [u8; FAST_PARTIAL_LUT_LEN])
    ensures
        lut@ == fast_partial_table(levels),
{
    let mut lut = [0u8; 42];
    lut[0] = levels;
    lut[1] = 30;
    lut[2] = 5;
    lut[3] = 30;
    lut[4] = 5;
    lut[5] = 1;
    assert(lut@ =~= fast_partial_table(levels));
    lut
}

/// A way in which a window or its buffer is unfit for a partial refresh.
#[derive(Debug, Clone, Copy, PartialEq, Eq, Structural)]
pub enum WindowFault {
    /// The first column is no multiple of eight.
    X,
    /// The width is no multiple of eight.
    Width,
    /// The buffer does not hold one bit for each pixel of the window.
    BufferSize,
    /// The last column or row is below zero or not a 32-bit number.
    Overflow,
}

/// Looks for the first fault of a window with a buffer of `len` bytes.
pub fn check_window(len: usize, x: u32, y: u32, width: u32, height: u32) -> (r: Result<
    (),
    WindowFault,
>)
    ensures
        r is Ok <==> window_fits(len as nat, x, y, width, height),
        r == Err::<(), WindowFault>(WindowFault::X) <==> x % 8 != 0,
        r == Err::<(), WindowFault>(WindowFault::Width) <==> x % 8 == 0 && width % 8 != 0,
        r == Err::<(), WindowFault>(WindowFault::BufferSize) <==> x % 8 == 0 && width % 8 == 0
            && len != (width / 8) * height,
        r == Err::<(), WindowFault>(WindowFault::Overflow) <==> x % 8 == 0 && width % 8 == 0
            && len == (width / 8) * height && !(1 <= x + width <= u32::MAX && 1 <= y + height
            <= u32::MAX),
{
    if x % 8 != 0 {
        return Err(WindowFault::X);
    }
    if width % 8 != 0 {
        return Err(WindowFault::Width);
    }
    proof {
        assert((width / 8) * height <= 0x2000_0000 * 0x1_0000_0000) by (nonlinear_arith)
            requires
                0 <= width / 8 <= 0x2000_0000,
                0 <= height <= 0x1_0000_0000,
        ;
    }
    if len as u64 != (width / 8) as u64 * height as u64 {
        return Err(WindowFault::BufferSize);
    }
    if width > u32::MAX - x || height > u32::MAX - y || x + width == 0 || y + height == 0 {
        return Err(WindowFault::Overflow);
    }
    Ok(())
}

/// The data of `PartialWindow`.
fn partial_window(x: u32, y: u32, width: u32, height: u32) -> (r: [u8; 9])
    requires
        1 <= x + width <= u32::MAX,
        1 <= y + height <= u32::MAX,
    ensures
        r@ == window_bytes(x, y, width, height),
{
    let x_end: u32 = x + width - 1;
    let y_end: u32 = y + height - 1;
    proof {
        lemma_bytes_of(x);
        lemma_bytes_of(x_end);
        lemma_bytes_of(y);
        lemma_bytes_of(y_end);
    }
    let bytes: [u8; 9] = [
        (x >> 8) as u8,
        (x & 0xFF) as u8,
        (x_end >> 8) as u8,
        (x_end & 0xFF) as u8,
        (y >> 8) as u8,
        (y & 0xFF) as u8,
        (y_end >> 8) as u8,
        (y_end & 0xFF) as u8,
        0x01u8,
    ];
    assert(bytes@ =~= window_bytes(x, y, width, height));
    bytes
}

proof fn lemma_bytes_of(n: u32)
    ensures
        (n >> 8) as u8 == high_byte(n as int),
        (n & 0xFF) as u8 == low_byte(n as int),
        n as u8 == low_byte(n as int),
{
    assert((n >> 8) as u8 == ((n / 256) % 256) as u8) by (bit_vector);
    assert((n & 0xFF) as u8 == (n % 256) as u8) by (bit_vector);
    assert(n as u8 == (n % 256) as u8) by (bit_vector);
}

/// Epd7in5 (V2) driver
#[derive(Debug)]
pub struct Epd7in5 {
    /// Connection Interface
    pub interface: DisplayInterface<SINGLE_BYTE_WRITE>,
    /// Background Color
    pub color: Color,
}

impl Epd7in5 {
    /// The operation that consists of the given script on this driver's link.
    pub open spec fn runs<E>(self, script: Seq<Block>) -> State<E> {
        start(script_ops(self.interface.link(), script))
    }

    // ----- Building blocks -----

    fn command<'a>(&self, plan: &mut Plan<'a>, command: Command)
        ensures
            final(plan)@ == old(plan)@ + block_ops(
                self.interface.link(),
                sequences::command(command),
            ),
    {
        self.interface.cmd(plan, command);
    }

    fn send_data<'a>(&self, plan: &mut Plan<'a>, data: Bytes<'a>)
        ensures
            final(plan)@ == old(plan)@ + block_ops(self.interface.link(), Block::Data(data@)),
    {
        self.interface.data(plan, data);
    }

    fn cmd_with_data<'a>(&self, plan: &mut Plan<'a>, command: Command, data: Bytes<'a>)
        ensures
            final(plan)@ == old(plan)@ + block_ops(
                self.interface.link(),
                sequences::setting(command, data@),
            ),
    {
        self.interface.cmd_with_data(plan, command, data);
    }

    /// Sends a command with a copy of a few bytes.
    fn setting<'a>(&self, plan: &mut Plan<'a>, command: Command, data: &[u8])
        requires
            data@.len() <= SHORT_LEN,
        ensures
            final(plan)@ == old(plan)@ + block_ops(
                self.interface.link(),
                sequences::setting(command, data@),
            ),
    {
        self.cmd_with_data(plan, command, Bytes::short(data));
    }

    /// Waits until the panel is idle: without limit, bounded, or bounded and
    /// with the cancel hook asked at every busy poll.
    fn idle<'a>(&self, plan: &mut Plan<'a>, timeout_us: Option<u32>, cancellable: bool)
        requires
            cancellable ==> timeout_us is Some,
        ensures
            final(plan)@ == old(plan)@ + block_ops(
                self.interface.link(),
                sequences::idle(self.interface.delay_us, timeout_us, cancellable),
            ),
    {
        match timeout_us {
            None => self.interface.wait_until_idle_with_cmd(plan, IS_BUSY_LOW, Command::GetStatus),
            Some(cap) => if cancellable {
                self.interface.wait_until_idle_with_cmd_timeout_async(
                    plan,
                    IS_BUSY_LOW,
                    Command::GetStatus,
                    cap,
                );
            } else {
                self.interface.wait_until_idle_with_cmd_timeout(
                    plan,
                    IS_BUSY_LOW,
                    Command::GetStatus,
                    cap,
                );
            },
        }
    }

    /// Asks the cancel hook and stops if it fires.
    fn cancel_point<'a>(&self, plan: &mut Plan<'a>)
        ensures
            final(plan)@ == old(plan)@ + block_ops(self.interface.link(), Block::CancelPoint),
    {
        plan.cancel_point();
    }

    /// Reset, power-on and settings, in the order the panel's datasheet gives.
    fn init<'a>(&self, timeout_us: Option<u32>) -> (plan: Plan<'a>)
        ensures
            plan@ == script_ops(
                self.interface.link(),
                init_script(self.interface.delay_us, timeout_us),
            ),
    {
        broadcast use lemma_script_push;

        let mut plan = Plan::new();
        self.interface.reset(&mut plan, 10_000, 2_000);
        self.setting(&mut plan, Command::PowerSetting, &[0x07, 0x07, 0x3f, 0x3f]);
        self.setting(&mut plan, Command::BoosterSoftStart, &[0x17, 0x17, 0x28, 0x17]);
        self.command(&mut plan, Command::PowerOn);
        plan.delay_ms(100);
        self.idle(&mut plan, timeout_us, false);
        self.setting(&mut plan, Command::PanelSetting, &[0x1F]);
        self.setting(&mut plan, Command::TconResolution, &[0x03, 0x20, 0x01, 0xE0]);
        self.setting(&mut plan, Command::DualSpi, &[0x00]);
        // CDI byte 0x20 drives the strip outside the pixel array black. The
        // default 0x10 drives it white, which shows as a gutter at the bezel.
        self.setting(&mut plan, Command::VcomAndDataIntervalSetting, &[0x20, 0x07]);
        self.setting(&mut plan, Command::TconSetting, &[0x22]);
        plan
    }

    /// Reset and settings of the fast-partial mode, then power-on. The plain init
    /// powers on first.
    fn init_fast_partial<'a>(
        &self,
        waveform: FastPartialWaveform,
        timeout_us: u32,
    ) -> (plan: Plan<'a>)
        ensures
            plan@ == script_ops(
                self.interface.link(),
                init_fast_script(self.interface.delay_us, timeout_us, waveform),
            ),
    {
        broadcast use lemma_script_push;

        let mut plan = Plan::new();
        self.interface.reset(&mut plan, 10_000, 2_000);
        self.setting(&mut plan, Command::PanelSetting, &[0x1F]);
        // The fifth byte, which the plain init does not send, is VDHR = 4.2 V.
        self.setting(&mut plan, Command::PowerSetting, &[0x07, 0x07, 0x3F, 0x3F, 0x09]);
        self.setting(&mut plan, Command::BoosterSoftStart, &[0x17, 0x17, 0x28, 0x17]);
        self.setting(&mut plan, Command::TconResolution, &[0x03, 0x20, 0x01, 0xE0]);
        self.setting(&mut plan, Command::DualSpi, &[0x00]);
        // CDI 0x29: border as black to white, new image copied to old.
        self.setting(&mut plan, Command::VcomAndDataIntervalSetting, &[0x29, 0x07]);
        self.setting(&mut plan, Command::TconSetting, &[0x22]);
        self.setting(&mut plan, Command::PowerSaving, &[0x22]);
        match waveform {
            FastPartialWaveform::OtpForcedTemperature => {
                self.setting(&mut plan, Command::CascadeSetting, &[0x02]);
                self.setting(&mut plan, Command::ForceTemperature, &[0x6E]);
            },
            FastPartialWaveform::RegisterLut => {
                self.setting(&mut plan, Command::PanelSetting, &[0x3F]);
                // VCOM_DC -2.5 V
                self.setting(&mut plan, Command::VcmDcSetting, &[0x30]);
                // CDI 0x39: border by its own table, new image copied to old.
                self.setting(&mut plan, Command::VcomAndDataIntervalSetting, &[0x39, 0x07]);
                self.load_table(&mut plan, Command::LutForVcom, LEVELS_VCOM);
                self.load_table(&mut plan, Command::LutBlack, LEVELS_WHITE_TO_WHITE);
                self.load_table(&mut plan, Command::LutWhite, LEVELS_BLACK_TO_WHITE);
                self.load_table(&mut plan, Command::LutGray1, LEVELS_WHITE_TO_BLACK);
                self.load_table(&mut plan, Command::LutGray2, LEVELS_BLACK_TO_BLACK);
                self.load_table(&mut plan, Command::LutRed0, LEVELS_BORDER);
            },
        }
        self.command(&mut plan, Command::PowerOn);
        plan.delay_ms(100);
        self.idle(&mut plan, Some(timeout_us), false);
        plan
    }

    /// Loads one look-up table register.
    fn load_table<'a>(&self, plan: &mut Plan<'a>, command: Command, levels: u8)
        ensures
            final(plan)@ == old(plan)@ + block_ops(
                self.interface.link(),
                sequences::setting(command, fast_partial_table(levels)),
            ),
    {
        let lut = fast_partial_lut(levels);
        self.setting(plan, command, &lut);
    }

    /// Transfers the framebuffer raw as old image and inverted as new image.
    ///
    /// In the framebuffer a set bit is white; the second register expects the
    /// opposite. Opposite polarity in both registers forces a full transition of
    /// every pixel.
    fn update_frame_no_wait<'a>(&self, plan: &mut Plan<'a>, buffer: &'a [u8])
        ensures
            final(plan)@ == old(plan)@ + block_ops(
                self.interface.link(),
                sequences::setting(Command::DataStartTransmission1, buffer@),
            ) + block_ops(
                self.interface.link(),
                sequences::command(Command::DataStartTransmission2),
            ) + block_ops(self.interface.link(), Block::Inverted(buffer@)),
    {
        self.cmd_with_data(plan, Command::DataStartTransmission1, Bytes::Borrowed(buffer));
        self.command(plan, Command::DataStartTransmission2);
        self.interface.data_inverted(plan, buffer);
    }

    /// Sends the resolution byte by byte.
    fn send_resolution<'a>(&self, plan: &mut Plan<'a>)
        ensures
            final(plan)@ == old(plan)@ + block_ops(
                self.interface.link(),
                sequences::command(Command::TconResolution),
            ) + block_ops(self.interface.link(), Block::Data([0x03u8]@)) + block_ops(
                self.interface.link(),
                Block::Data([0x20u8]@),
            ) + block_ops(self.interface.link(), Block::Data([0x01u8]@)) + block_ops(
                self.interface.link(),
                Block::Data([0xE0u8]@),
            ),
    {
        let w = self.width();
        let h = self.height();
        proof {
            lemma_bytes_of(w);
            lemma_bytes_of(h);
        }
        let bytes: [u8; 4] = [(w >> 8) as u8, w as u8, (h >> 8) as u8, h as u8];
        assert(bytes@ =~= seq![0x03u8, 0x20u8, 0x01u8, 0xE0u8]);
        self.command(plan, Command::TconResolution);
        self.send_byte(plan, bytes[0]);
        self.send_byte(plan, bytes[1]);
        self.send_byte(plan, bytes[2]);
        self.send_byte(plan, bytes[3]);
    }

    /// Sends one data byte.
    fn send_byte<'a>(&self, plan: &mut Plan<'a>, byte: u8)
        ensures
            final(plan)@ == old(plan)@ + block_ops(self.interface.link(), Block::Data([byte]@)),
    {
        self.send_data(plan, Bytes::short(&[byte]));
    }

    /// A windowed refresh, from the wait before it to the restored CDI.
    fn partial_refresh<'a>(
        &self,
        old_buffer: Option<&'a [u8]>,
        new_buffer: &'a [u8],
        x: u32,
        y: u32,
        width: u32,
        height: u32,
        timeout_us: Option<u32>,
    ) -> (plan: Plan<'a>)
        requires
            1 <= x + width <= u32::MAX,
            1 <= y + height <= u32::MAX,
        ensures
            plan@ == script_ops(
                self.interface.link(),
                match old_buffer {
                    None => partial_script(
                        self.interface.delay_us,
                        timeout_us,
                        new_buffer@,
                        window_bytes(x, y, width, height),
                    ),
                    Some(old_buffer) => partial_dual_script(
                        self.interface.delay_us,
                        timeout_us,
                        old_buffer@,
                        new_buffer@,
                        window_bytes(x, y, width, height),
                    ),
                },
            ),
    {
        broadcast use lemma_script_push;

        let mut plan = Plan::new();
        self.idle(&mut plan, timeout_us, false);
        // CDI 0xA9 selects the differential waveform; the value of the init
        // drives the full one and would ghost. Restored at the end.
        self.setting(&mut plan, Command::VcomAndDataIntervalSetting, &[0xA9, 0x07]);
        self.command(&mut plan, Command::PartialIn);
        let window = partial_window(x, y, width, height);
        self.setting(&mut plan, Command::PartialWindow, &window);
        // Raw polarity in both registers: the differential waveform compensates.
        if let Some(old_buffer) = old_buffer {
            self.cmd_with_data(
                &mut plan,
                Command::DataStartTransmission1,
                Bytes::Borrowed(old_buffer),
            );
        }
        self.cmd_with_data(&mut plan, Command::DataStartTransmission2, Bytes::Borrowed(new_buffer));
        self.command(&mut plan, Command::DisplayRefresh);
        self.idle(&mut plan, timeout_us, false);
        self.command(&mut plan, Command::PartialOut);
        self.setting(&mut plan, Command::VcomAndDataIntervalSetting, &[0x20, 0x07]);
        plan
    }

    // ----- Operations without a time cap -----

    /// Creates a new driver and the operation that initializes the panel.
    pub fn new<'a, E>(delay_us: Option<u32>, linux: bool) -> (r: (Self, Operation<'a, E>))
        ensures
            r.0.is_new(delay_us, linux),
            r.0.interface.delay_us == match delay_us {
                Some(us) => us,
                None => 10_000,
            },
            r.0.interface.linux == linux,
            r.0.color == Color::White,
            r.1@ == r.0.runs::<E>(init_script(r.0.interface.delay_us, None)),
    {
        let epd = Epd7in5 {
            interface: DisplayInterface::new(delay_us, linux),
            color: DEFAULT_BACKGROUND_COLOR,
        };
        let op = epd.init(None).into_operation();
        (epd, op)
    }

    /// A freshly created driver.
    pub open spec fn is_new(self, delay_us: Option<u32>, linux: bool) -> bool {
        &&& self.interface.delay_us == match delay_us {
            Some(us) => us,
            None => DEFAULT_DELAY_US,
        }
        &&& self.interface.linux == linux
        &&& self.color == DEFAULT_BACKGROUND_COLOR
    }

    /// Wakes the panel from deep sleep.
    pub fn wake_up<'a, E>(&self) -> (op: Operation<'a, E>)
        ensures
            op@ == self.runs::<E>(init_script(self.interface.delay_us, None)),
    {
        self.init(None).into_operation()
    }

    /// Lets the panel enter deep sleep. It is woken with `wake_up`.
    pub fn sleep<'a, E>(&self) -> (op: Operation<'a, E>)
        ensures
            op@ == self.runs::<E>(sleep_script(self.interface.delay_us, None)),
    {
        self.sleep_plan(None).into_operation()
    }

    fn sleep_plan<'a>(&self, timeout_us: Option<u32>) -> (plan: Plan<'a>)
        ensures
            plan@ == script_ops(
                self.interface.link(),
                sleep_script(self.interface.delay_us, timeout_us),
            ),
    {
        broadcast use lemma_script_push;

        let mut plan = Plan::new();
        self.idle(&mut plan, timeout_us, false);
        self.command(&mut plan, Command::PowerOff);
        self.idle(&mut plan, timeout_us, false);
        self.setting(&mut plan, Command::DeepSleep, &[0xA5]);
        plan
    }

    /// Transfers a full frame without showing it.
    pub fn update_frame<'a, E>(&self, buffer: &'a [u8]) -> (op: Operation<'a, E>)
        ensures
            op@ == self.runs::<E>(update_frame_script(self.interface.delay_us, None, buffer@)),
    {
        broadcast use lemma_script_push;

        let mut plan = Plan::new();
        self.idle(&mut plan, None, false);
        self.update_frame_no_wait(&mut plan, buffer);
        plan.into_operation()
    }

    /// Refreshes a window from a buffer that holds its pixels.
    ///
    /// The x axis is addressed in bytes: `x` and `width` are multiples of eight.
    pub fn update_partial_frame<'a, E>(
        &self,
        buffer: &'a [u8],
        x: u32,
        y: u32,
        width: u32,
        height: u32,
    ) -> (op: Operation<'a, E>)
        requires
            window_fits(buffer@.len(), x, y, width, height),
        ensures
            op@ == self.runs::<E>(
                partial_script(
                    self.interface.delay_us,
                    None,
                    buffer@,
                    window_bytes(x, y, width, height),
                ),
            ),
    {
        self.partial_refresh(None, buffer, x, y, width, height, None).into_operation()
    }

    /// Shows the frame that was transferred before.
    pub fn display_frame<'a, E>(&self) -> (op: Operation<'a, E>)
        ensures
            op@ == self.runs::<E>(display_frame_script(self.interface.delay_us, None)),
    {
        broadcast use lemma_script_push;

        let mut plan = Plan::new();
        self.idle(&mut plan, None, false);
        self.command(&mut plan, Command::DisplayRefresh);
        plan.into_operation()
    }

    /// Transfers a full frame and shows it.
    pub fn update_and_display_frame<'a, E>(&self, buffer: &'a [u8]) -> (op: Operation<'a, E>)
        ensures
            op@ == self.runs::<E>(full_refresh_script(self.interface.delay_us, None, buffer@)),
    {
        self.update_and_display_plan(buffer, None).into_operation()
    }

    fn update_and_display_plan<'a>(
        &self,
        buffer: &'a [u8],
        timeout_us: Option<u32>,
    ) -> (plan: Plan<'a>)
        ensures
            plan@ == script_ops(
                self.interface.link(),
                full_refresh_script(self.interface.delay_us, timeout_us, buffer@),
            ),
    {
        broadcast use lemma_script_push;

        let mut plan = Plan::new();
        self.idle(&mut plan, timeout_us, false);
        self.update_frame_no_wait(&mut plan, buffer);
        self.command(&mut plan, Command::DisplayRefresh);
        plan
    }

    /// Clears the panel: every pixel goes from black to white.
    pub fn clear_frame<'a, E>(&self) -> (op: Operation<'a, E>)
        ensures
            op@ == self.runs::<E>(clear_frame_script(self.interface.delay_us, None)),
    {
        broadcast use lemma_script_push;

        let mut plan = Plan::new();
        self.idle(&mut plan, None, false);
        self.send_resolution(&mut plan);
        self.command(&mut plan, Command::DataStartTransmission1);
        self.interface.data_x_times(&mut plan, 0xFF, WIDTH / 8 * HEIGHT);
        self.command(&mut plan, Command::DataStartTransmission2);
        self.interface.data_x_times(&mut plan, 0x00, WIDTH / 8 * HEIGHT);
        self.command(&mut plan, Command::DisplayRefresh);
        plan.into_operation()
    }

    /// Waits until the panel is idle.
    pub fn wait_until_idle<'a, E>(&self) -> (op: Operation<'a, E>)
        ensures
            op@ == self.runs::<E>(
                Seq::empty().push(sequences::idle(self.interface.delay_us, None, false)),
            ),
    {
        broadcast use lemma_script_push;

        let mut plan = Plan::new();
        self.idle(&mut plan, None, false);
        plan.into_operation()
    }

    /// Sets the background color.
    pub fn set_background_color(&mut self, color: Color)
        ensures
            final(self).color == color,
            final(self).interface == old(self).interface,
    {
        self.color = color;
    }

    /// The background color.
    pub fn background_color(&self) -> (color: &Color)
        ensures
            *color == self.color,
    {
        &self.color
    }

    /// The width of the display.
    pub fn width(&self) -> (w: u32)
        ensures
            w == WIDTH == 800,
    {
        WIDTH
    }

    /// The height of the display.
    pub fn height(&self) -> (h: u32)
        ensures
            h == HEIGHT == 480,
    {
        HEIGHT
    }

    // ----- Operations with a cap on every BUSY wait -----

    /// `new` with a BUSY-wait cap.
    pub fn new_with_timeout<'a, E>(
        delay_us: Option<u32>,
        linux: bool,
        timeout_us: u32,
    ) -> (r: (Self, Operation<'a, E>))
        ensures
            r.0.is_new(delay_us, linux),
            r.0.interface.delay_us == match delay_us {
                Some(us) => us,
                None => 10_000,
            },
            r.0.interface.linux == linux,
            r.0.color == Color::White,
            r.1@ == r.0.runs::<E>(init_script(r.0.interface.delay_us, Some(timeout_us))),
    {
        let epd = Epd7in5 {
            interface: DisplayInterface::new(delay_us, linux),
            color: DEFAULT_BACKGROUND_COLOR,
        };
        let op = epd.init(Some(timeout_us)).into_operation();
        (epd, op)
    }

    /// Bounded poll on BUSY with the `GetStatus` probe between polls.
    pub fn wait_until_idle_with_timeout<'a, E>(&self, timeout_us: u32) -> (op: Operation<'a, E>)
        ensures
            op@ == self.runs::<E>(
                Seq::empty().push(
                    sequences::idle(self.interface.delay_us, Some(timeout_us), false),
                ),
            ),
    {
        broadcast use lemma_script_push;

        let mut plan = Plan::new();
        self.idle(&mut plan, Some(timeout_us), false);
        plan.into_operation()
    }

    /// `update_and_display_frame` with a BUSY-wait cap. The refresh is
    /// triggered and not waited for.
    pub fn update_and_display_frame_with_timeout<'a, E>(
        &self,
        buffer: &'a [u8],
        timeout_us: u32,
    ) -> (op: Operation<'a, E>)
        ensures
            op@ == self.runs::<E>(
                full_refresh_script(self.interface.delay_us, Some(timeout_us), buffer@),
            ),
    {
        self.update_and_display_plan(buffer, Some(timeout_us)).into_operation()
    }

    /// `update_partial_frame` with a BUSY-wait cap.
    pub fn update_partial_frame_with_timeout<'a, E>(
        &self,
        buffer: &'a [u8],
        x: u32,
        y: u32,
        width: u32,
        height: u32,
        timeout_us: u32,
    ) -> (op: Operation<'a, E>)
        requires
            window_fits(buffer@.len(), x, y, width, height),
        ensures
            op@ == self.runs::<E>(
                partial_script(
                    self.interface.delay_us,
                    Some(timeout_us),
                    buffer@,
                    window_bytes(x, y, width, height),
                ),
            ),
    {
        self.partial_refresh(None, buffer, x, y, width, height, Some(timeout_us)).into_operation()
    }

    /// Windowed partial refresh that transfers the old image, which is on the
    /// glass, and the new one before it triggers.
    ///
    /// Needed after deep sleep, in which the controller loses both.
    pub fn update_partial_frame_dual_with_timeout<'a, E>(
        &self,
        old_buffer: &'a [u8],
        new_buffer: &'a [u8],
        x: u32,
        y: u32,
        width: u32,
        height: u32,
        timeout_us: u32,
    ) -> (op: Operation<'a, E>)
        requires
            window_fits(old_buffer@.len(), x, y, width, height),
            window_fits(new_buffer@.len(), x, y, width, height),
        ensures
            op@ == self.runs::<E>(
                partial_dual_script(
                    self.interface.delay_us,
                    Some(timeout_us),
                    old_buffer@,
                    new_buffer@,
                    window_bytes(x, y, width, height),
                ),
            ),
    {
        self.partial_refresh(
            Some(old_buffer),
            new_buffer,
            x,
            y,
            width,
            height,
            Some(timeout_us),
        ).into_operation()
    }

    /// `sleep` with a BUSY-wait cap. On timeout deep sleep is not entered; the
    /// caller is expected to cut the power to force a cold reset.
    pub fn sleep_with_timeout<'a, E>(&self, timeout_us: u32) -> (op: Operation<'a, E>)
        ensures
            op@ == self.runs::<E>(sleep_script(self.interface.delay_us, Some(timeout_us))),
    {
        self.sleep_plan(Some(timeout_us)).into_operation()
    }

    /// `wake_up` with a BUSY-wait cap.
    pub fn wake_up_with_timeout<'a, E>(&self, timeout_us: u32) -> (op: Operation<'a, E>)
        ensures
            op@ == self.runs::<E>(init_script(self.interface.delay_us, Some(timeout_us))),
    {
        self.init(Some(timeout_us)).into_operation()
    }

    // ----- Operations for asynchronous, cooperatively cancellable use -----

    /// Like `new_with_timeout`; never asks the cancel hook, for init must run to
    /// completion to leave the panel usable.
    pub fn new_with_timeout_async<'a, E>(
        delay_us: Option<u32>,
        linux: bool,
        timeout_us: u32,
    ) -> (r: (Self, Operation<'a, E>))
        ensures
            r.0.is_new(delay_us, linux),
            r.0.interface.delay_us == match delay_us {
                Some(us) => us,
                None => 10_000,
            },
            r.0.interface.linux == linux,
            r.0.color == Color::White,
            r.1@ == r.0.runs::<E>(init_script(r.0.interface.delay_us, Some(timeout_us))),
    {
        Self::new_with_timeout(delay_us, linux, timeout_us)
    }

    /// Bounded poll on BUSY that asks the cancel hook at every busy poll.
    pub fn wait_until_idle_with_timeout_async<'a, E>(
        &self,
        timeout_us: u32,
    ) -> (op: Operation<'a, E>)
        ensures
            op@ == self.runs::<E>(
                Seq::empty().push(sequences::idle(self.interface.delay_us, Some(timeout_us), true)),
            ),
    {
        broadcast use lemma_script_push;

        let mut plan = Plan::new();
        self.idle(&mut plan, Some(timeout_us), true);
        plan.into_operation()
    }

    /// Cancellable full refresh: drains to idle, transfers the framebuffer raw
    /// and inverted in bands, and triggers. The cancel hook is asked after the
    /// wait, at each phase boundary, before each band and right before the
    /// trigger. The refresh is not waited for.
    pub fn update_and_display_frame_with_timeout_async<'a, E>(
        &self,
        buffer: &'a [u8],
        timeout_us: u32,
    ) -> (op: Operation<'a, E>)
        ensures
            op@ == self.runs::<E>(
                update_async_script(self.interface.delay_us, timeout_us, buffer@),
            ),
    {
        broadcast use lemma_script_push;

        let mut plan = Plan::new();
        self.idle(&mut plan, Some(timeout_us), true);
        // A cancel latched on entry is caught here if the panel was idle.
        self.cancel_point(&mut plan);
        self.command(&mut plan, Command::DataStartTransmission1);
        self.interface.data_in_bands(&mut plan, buffer, false);
        // A cancel latched during the final band is caught here.
        self.cancel_point(&mut plan);
        self.command(&mut plan, Command::DataStartTransmission2);
        self.interface.data_in_bands(&mut plan, buffer, true);
        self.cancel_point(&mut plan);
        self.command(&mut plan, Command::DisplayRefresh);
        plan.into_operation()
    }

    /// The cancellable part of a windowed refresh: the window, the old and the
    /// new image in bands, the trigger and the wait after it.
    fn windowed_refresh<'a>(
        &self,
        plan: &mut Plan<'a>,
        old_buffer: &'a [u8],
        new_buffer: &'a [u8],
        window: [u8; 9],
        timeout_us: u32,
    )
        ensures
            final(plan)@ == old(plan)@ + block_ops(
                self.interface.link(),
                sequences::command(Command::PartialIn),
            ) + block_ops(
                self.interface.link(),
                sequences::setting(Command::PartialWindow, window@),
            ) + block_ops(
                self.interface.link(),
                sequences::command(Command::DataStartTransmission1),
            ) + block_ops(self.interface.link(), Block::Bands(old_buffer@, false)) + block_ops(
                self.interface.link(),
                sequences::command(Command::DataStartTransmission2),
            ) + block_ops(self.interface.link(), Block::Bands(new_buffer@, false)) + block_ops(
                self.interface.link(),
                Block::CancelPoint,
            ) + block_ops(
                self.interface.link(),
                sequences::command(Command::DisplayRefresh),
            ) + block_ops(
                self.interface.link(),
                sequences::idle(self.interface.delay_us, Some(timeout_us), true),
            ) + block_ops(self.interface.link(), sequences::command(Command::PartialOut)),
    {
        self.command(plan, Command::PartialIn);
        self.setting(plan, Command::PartialWindow, &window);
        self.command(plan, Command::DataStartTransmission1);
        self.interface.data_in_bands(plan, old_buffer, false);
        self.command(plan, Command::DataStartTransmission2);
        self.interface.data_in_bands(plan, new_buffer, false);
        self.cancel_point(plan);
        self.command(plan, Command::DisplayRefresh);
        self.idle(plan, Some(timeout_us), true);
        self.command(plan, Command::PartialOut);
    }

    /// Cancellable windowed refresh with old and new image under the
    /// differential waveform, both sent raw.
    ///
    /// The cancel hook is asked at every busy poll, on entry before the panel is
    /// switched to partial mode, before each band and right before the trigger.
    /// Cancelled before the trigger, no refresh has started, but the panel may
    /// be in partial mode; cancelled after it, the panel is mid-refresh.
    pub fn update_partial_frame_dual_with_timeout_async<'a, E>(
        &self,
        old_buffer: &'a [u8],
        new_buffer: &'a [u8],
        x: u32,
        y: u32,
        width: u32,
        height: u32,
        timeout_us: u32,
    ) -> (op: Operation<'a, E>)
        requires
            window_fits(old_buffer@.len(), x, y, width, height),
            window_fits(new_buffer@.len(), x, y, width, height),
        ensures
            op@ == self.runs::<E>(
                partial_dual_async_script(
                    self.interface.delay_us,
                    timeout_us,
                    old_buffer@,
                    new_buffer@,
                    window_bytes(x, y, width, height),
                ),
            ),
    {
        broadcast use lemma_script_push;

        let mut plan = Plan::new();
        self.idle(&mut plan, Some(timeout_us), true);
        self.cancel_point(&mut plan);
        self.setting(&mut plan, Command::VcomAndDataIntervalSetting, &[0xA9, 0x07]);
        let window = partial_window(x, y, width, height);
        self.windowed_refresh(&mut plan, old_buffer, new_buffer, window, timeout_us);
        self.setting(&mut plan, Command::VcomAndDataIntervalSetting, &[0x20, 0x07]);
        plan.into_operation()
    }

    /// Like `sleep_with_timeout`; never asks the cancel hook, for the power-down
    /// must run to completion.
    pub fn sleep_with_timeout_async<'a, E>(&self, timeout_us: u32) -> (op: Operation<'a, E>)
        ensures
            op@ == self.runs::<E>(sleep_script(self.interface.delay_us, Some(timeout_us))),
    {
        self.sleep_plan(Some(timeout_us)).into_operation()
    }

    /// Creates a new driver and the operation that initializes the panel in
    /// fast-partial mode.
    ///
    /// Such a session is for `update_fast_partial_frame_dual_with_timeout_async`;
    /// `reinit_full_with_timeout_async` switches back for a full refresh.
    pub fn new_fast_partial_with_timeout_async<'a, E>(
        delay_us: Option<u32>,
        linux: bool,
        waveform: FastPartialWaveform,
        timeout_us: u32,
    ) -> (r: (Self, Operation<'a, E>))
        ensures
            r.0.is_new(delay_us, linux),
            r.0.interface.delay_us == match delay_us {
                Some(us) => us,
                None => 10_000,
            },
            r.0.interface.linux == linux,
            r.0.color == Color::White,
            r.1@ == r.0.runs::<E>(
                init_fast_script(r.0.interface.delay_us, timeout_us, waveform),
            ),
    {
        let epd = Epd7in5 {
            interface: DisplayInterface::new(delay_us, linux),
            color: DEFAULT_BACKGROUND_COLOR,
        };
        let op = epd.init_fast_partial(waveform, timeout_us).into_operation();
        (epd, op)
    }

    /// Runs the plain init again on an existing driver: back from fast-partial
    /// mode, or to recover in mid-session.
    pub fn reinit_full_with_timeout_async<'a, E>(&self, timeout_us: u32) -> (op: Operation<'a, E>)
        ensures
            op@ == self.runs::<E>(init_script(self.interface.delay_us, Some(timeout_us))),
    {
        self.init(Some(timeout_us)).into_operation()
    }

    /// Windowed refresh with old and new image for a session in fast-partial
    /// mode. Does what `update_partial_frame_dual_with_timeout_async` does, but
    /// leaves CDI alone, which the fast-partial init has set.
    pub fn update_fast_partial_frame_dual_with_timeout_async<'a, E>(
        &self,
        old_buffer: &'a [u8],
        new_buffer: &'a [u8],
        x: u32,
        y: u32,
        width: u32,
        height: u32,
        timeout_us: u32,
    ) -> (op: Operation<'a, E>)
        requires
            window_fits(old_buffer@.len(), x, y, width, height),
            window_fits(new_buffer@.len(), x, y, width, height),
        ensures
            op@ == self.runs::<E>(
                fast_partial_script(
                    self.interface.delay_us,
                    timeout_us,
                    old_buffer@,
                    new_buffer@,
                    window_bytes(x, y, width, height),
                ),
            ),
    {
        broadcast use lemma_script_push;

        let mut plan = Plan::new();
        self.idle(&mut plan, Some(timeout_us), true);
        self.cancel_point(&mut plan);
        let window = partial_window(x, y, width, height);
        self.windowed_refresh(&mut plan, old_buffer, new_buffer, window, timeout_us);
        plan.into_operation()
    }
}

} // verus!
