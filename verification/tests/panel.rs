use epd_waveshare::color::Color;
use epd_waveshare::epd7in5_v2::command::Command;
use epd_waveshare::epd7in5_v2::{
    check_window, fast_partial_lut, BusyTimeoutError, Epd7in5, FastPartialWaveform, RefreshOutcome,
    WindowFault, DEFAULT_BACKGROUND_COLOR, HEIGHT, WIDTH,
};
use epd_waveshare::operation::{Action, Operation, Reply};
use epd_waveshare::traits::Command as CommandTrait;

/// What a simulated board has been asked to do.
#[derive(Debug, Clone, PartialEq, Eq)]
enum Did {
    Rst(bool),
    DelayUs(u32),
    DelayMs(u32),
    /// A write with the level of the data/command pin.
    Sent(bool, Vec<u8>),
    ReadLow,
    ReadHigh,
    Asked,
}

/// A simulated board: how often BUSY reads as asserted, which question to the
/// hook it answers with yes, which write fails.
struct Board {
    busy_reads: usize,
    cancel_at: Option<usize>,
    fail_at: Option<usize>,
    dc: bool,
    writes: usize,
    asked: usize,
    did: Vec<Did>,
}

fn board() -> Board {
    Board {
        busy_reads: 0,
        cancel_at: None,
        fail_at: None,
        dc: false,
        writes: 0,
        asked: 0,
        did: Vec::new(),
    }
}

impl Board {
    fn perform(&mut self, action: Action) -> Reply<i32> {
        match action {
            Action::SetDc(high) => {
                self.dc = high;
                Reply::Done
            }
            Action::SetRst(high) => {
                self.did.push(Did::Rst(high));
                Reply::Done
            }
            Action::DelayUs(us) => {
                self.did.push(Did::DelayUs(us));
                Reply::Done
            }
            Action::DelayMs(ms) => {
                self.did.push(Did::DelayMs(ms));
                Reply::Done
            }
            Action::Write(bytes) => self.write(bytes),
            Action::WriteChunk(chunk) => self.write(chunk.as_slice()),
            Action::IsBusyPinLow => {
                self.did.push(Did::ReadLow);
                self.read()
            }
            Action::IsBusyPinHigh => {
                self.did.push(Did::ReadHigh);
                self.read()
            }
            Action::ShouldCancel => {
                self.did.push(Did::Asked);
                self.asked += 1;
                Reply::Cancel(self.cancel_at.map_or(false, |n| self.asked >= n))
            }
        }
    }

    fn write(&mut self, bytes: &[u8]) -> Reply<i32> {
        self.did.push(Did::Sent(self.dc, bytes.to_vec()));
        self.writes += 1;
        if self.fail_at == Some(self.writes) {
            Reply::Written(Err(-7))
        } else {
            Reply::Written(Ok(()))
        }
    }

    fn read(&mut self) -> Reply<i32> {
        if self.busy_reads > 0 {
            self.busy_reads -= 1;
            Reply::Busy(Some(true))
        } else {
            Reply::Busy(Some(false))
        }
    }

    fn run(&mut self, mut op: Operation<i32>) -> Result<RefreshOutcome, BusyTimeoutError<i32>> {
        while let Some(action) = op.action() {
            let reply = self.perform(action);
            op.resume(reply);
        }
        op.into_result().unwrap()
    }

    /// The packets received, status queries left out.
    fn packets(&self) -> Vec<(u8, Vec<u8>)> {
        let mut packets: Vec<(u8, Vec<u8>)> = Vec::new();
        for did in &self.did {
            if let Did::Sent(data, bytes) = did {
                if *data {
                    packets.last_mut().unwrap().1.extend_from_slice(bytes);
                } else {
                    assert_eq!(bytes.len(), 1);
                    if bytes[0] != 0x71 {
                        packets.push((bytes[0], Vec::new()));
                    }
                }
            }
        }
        packets
    }

    fn commands(&self) -> Vec<u8> {
        let mut commands = Vec::new();
        for did in &self.did {
            if let Did::Sent(false, bytes) = did {
                commands.push(bytes[0]);
            }
        }
        commands
    }

    fn count(&self, what: &Did) -> usize {
        self.did.iter().filter(|did| *did == what).count()
    }

    fn data_writes(&self) -> Vec<Vec<u8>> {
        let mut writes = Vec::new();
        for did in &self.did {
            if let Did::Sent(true, bytes) = did {
                writes.push(bytes.clone());
            }
        }
        writes
    }
}

fn driver(delay_us: u32, linux: bool) -> Epd7in5 {
    let (epd, _op): (Epd7in5, Operation<i32>) = Epd7in5::new(Some(delay_us), linux);
    epd
}

fn completed(result: Result<RefreshOutcome, BusyTimeoutError<i32>>) -> bool {
    matches!(result, Ok(RefreshOutcome::Completed))
}

fn cancelled(result: Result<RefreshOutcome, BusyTimeoutError<i32>>) -> bool {
    matches!(result, Ok(RefreshOutcome::Cancelled))
}

fn timed_out(result: Result<RefreshOutcome, BusyTimeoutError<i32>>) -> bool {
    matches!(result, Err(BusyTimeoutError::BusyTimeout))
}

fn frame() -> Vec<u8> {
    (0..48_000u32).map(|i| (i % 251) as u8).collect()
}

fn flipped(bytes: &[u8]) -> Vec<u8> {
    bytes.iter().map(|b| !b).collect()
}

#[test]
fn epd_size() {
    assert_eq!(WIDTH, 800);
    assert_eq!(HEIGHT, 480);
    assert_eq!(DEFAULT_BACKGROUND_COLOR, Color::White);
}

#[test]
fn init_does_everything_in_order() {
    let (epd, op): (Epd7in5, Operation<i32>) = Epd7in5::new(None, false);
    assert_eq!(epd.interface.delay_us, 10_000);
    assert_eq!(*epd.background_color(), Color::White);
    let mut board = board();
    assert!(completed(board.run(op)));
    let expected = vec![
        Did::Rst(true),
        Did::DelayUs(10_000),
        Did::Rst(false),
        Did::DelayUs(2_000),
        Did::Rst(true),
        Did::DelayUs(200_000),
        Did::Sent(false, vec![0x01]),
        Did::Sent(true, vec![0x07, 0x07, 0x3f, 0x3f]),
        Did::Sent(false, vec![0x06]),
        Did::Sent(true, vec![0x17, 0x17, 0x28, 0x17]),
        Did::Sent(false, vec![0x04]),
        Did::DelayMs(100),
        Did::Sent(false, vec![0x71]),
        Did::DelayUs(10_000),
        Did::ReadLow,
        Did::Sent(false, vec![0x00]),
        Did::Sent(true, vec![0x1F]),
        Did::Sent(false, vec![0x61]),
        Did::Sent(true, vec![0x03, 0x20, 0x01, 0xE0]),
        Did::Sent(false, vec![0x15]),
        Did::Sent(true, vec![0x00]),
        Did::Sent(false, vec![0x50]),
        Did::Sent(true, vec![0x20, 0x07]),
        Did::Sent(false, vec![0x60]),
        Did::Sent(true, vec![0x22]),
    ];
    assert_eq!(board.did, expected);
}

#[test]
fn all_inits_of_the_full_waveform_are_the_same() {
    let (epd, first): (Epd7in5, Operation<i32>) = Epd7in5::new(Some(500), true);
    let (_, second): (Epd7in5, Operation<i32>) = Epd7in5::new_with_timeout(Some(500), true, 9_000);
    let (_, third): (Epd7in5, Operation<i32>) =
        Epd7in5::new_with_timeout_async(Some(500), true, 9_000);
    let mut reference = board();
    assert!(completed(reference.run(first)));
    for op in [
        second,
        third,
        epd.wake_up(),
        epd.wake_up_with_timeout(9_000),
        epd.reinit_full_with_timeout_async(9_000),
    ] {
        let mut board = board();
        assert!(completed(board.run(op)));
        assert_eq!(board.did, reference.did);
        assert_eq!(board.asked, 0);
    }
}

#[test]
fn capped_init_gives_up_on_a_stuck_panel() {
    let (_, op): (Epd7in5, Operation<i32>) = Epd7in5::new_with_timeout(Some(1_000), false, 3_500);
    let mut board = board();
    board.busy_reads = 1_000;
    assert!(timed_out(board.run(op)));
    assert_eq!(board.count(&Did::ReadLow), 4);
    // the panel settings after the wait were not sent
    assert_eq!(board.commands(), vec![0x01, 0x06, 0x04, 0x71, 0x71, 0x71, 0x71]);
}

#[test]
fn fast_init_with_the_factory_waveform() {
    let (_, op): (Epd7in5, Operation<i32>) = Epd7in5::new_fast_partial_with_timeout_async(
        None,
        false,
        FastPartialWaveform::OtpForcedTemperature,
        1_000_000,
    );
    let mut board = board();
    assert!(completed(board.run(op)));
    let expected: Vec<(u8, Vec<u8>)> = vec![
        (0x00, vec![0x1F]),
        (0x01, vec![0x07, 0x07, 0x3F, 0x3F, 0x09]),
        (0x06, vec![0x17, 0x17, 0x28, 0x17]),
        (0x61, vec![0x03, 0x20, 0x01, 0xE0]),
        (0x15, vec![0x00]),
        (0x50, vec![0x29, 0x07]),
        (0x60, vec![0x22]),
        (0xE3, vec![0x22]),
        (0xE0, vec![0x02]),
        (0xE5, vec![0x6E]),
        (0x04, vec![]),
    ];
    assert_eq!(board.packets(), expected);
    assert_eq!(board.count(&Did::DelayMs(100)), 1);
    assert_eq!(board.asked, 0);
}

#[test]
fn fast_init_with_tables() {
    let (_, op): (Epd7in5, Operation<i32>) = Epd7in5::new_fast_partial_with_timeout_async(
        None,
        true,
        FastPartialWaveform::RegisterLut,
        1_000_000,
    );
    let mut board = board();
    assert!(completed(board.run(op)));
    let packets = board.packets();
    assert_eq!(packets.len(), 8 + 9 + 1);
    assert_eq!(packets[8], (0x00, vec![0x3F]));
    assert_eq!(packets[9], (0x82, vec![0x30]));
    assert_eq!(packets[10], (0x50, vec![0x39, 0x07]));
    let levels = [0x00u8, 0x00, 0x5A, 0x84, 0x00, 0x00];
    for i in 0..6 {
        assert_eq!(packets[11 + i].0, 0x20 + i as u8);
        assert_eq!(packets[11 + i].1, fast_partial_lut(levels[i]).to_vec());
    }
    assert_eq!(packets[17], (0x04, vec![]));
}

#[test]
fn table_is_padded_with_zeros() {
    let lut = fast_partial_lut(0x5A);
    assert_eq!(lut.len(), 42);
    assert_eq!(lut[..6], [0x5A, 30, 5, 30, 5, 1]);
    assert!(lut[6..].iter().all(|b| *b == 0));
}

#[test]
fn wait_goes_round_until_idle() {
    let epd = driver(250, false);
    let mut board = board();
    board.busy_reads = 3;
    assert!(completed(board.run(epd.wait_until_idle())));
    let mut expected = Vec::new();
    for _ in 0..4 {
        expected.push(Did::Sent(false, vec![0x71]));
        expected.push(Did::DelayUs(250));
        expected.push(Did::ReadLow);
    }
    assert_eq!(board.did, expected);
}

#[test]
fn bounded_wait_counts_its_polls() {
    let epd = driver(10_000, false);
    // five periods fit into the cap: six reads, then the timeout
    let mut stuck = board();
    stuck.busy_reads = 1_000;
    assert!(timed_out(stuck.run(epd.wait_until_idle_with_timeout(59_999))));
    assert_eq!(stuck.count(&Did::ReadLow), 6);
    assert_eq!(stuck.count(&Did::DelayUs(10_000)), 6);
    // idle at the sixth read: in time
    let mut slow = board();
    slow.busy_reads = 5;
    assert!(completed(slow.run(epd.wait_until_idle_with_timeout(59_999))));
    assert_eq!(slow.count(&Did::ReadLow), 6);
}

#[test]
fn bounded_wait_without_pause_counts_microseconds() {
    let epd = driver(0, false);
    let mut board = board();
    board.busy_reads = 1_000;
    assert!(timed_out(board.run(epd.wait_until_idle_with_timeout(3))));
    assert_eq!(board.count(&Did::ReadLow), 4);
    assert!(board.did.iter().all(|did| !matches!(did, Did::DelayUs(_))));
}

#[test]
fn cap_below_the_period_allows_one_poll() {
    let epd = driver(10_000, false);
    let mut board = board();
    board.busy_reads = 1;
    assert!(timed_out(board.run(epd.wait_until_idle_with_timeout(9_999))));
    assert_eq!(board.count(&Did::ReadLow), 1);
}

#[test]
fn unreadable_busy_pin_counts_as_idle() {
    let epd = driver(0, false);
    let mut op: Operation<i32> = epd.wait_until_idle();
    op.resume(Reply::Done);
    op.resume(Reply::Written(Ok(())));
    assert!(matches!(op.action(), Some(Action::IsBusyPinLow)));
    op.resume(Reply::Busy(None));
    assert!(op.action().is_none());
    assert!(completed(op.into_result().unwrap()));
}

#[test]
fn stray_replies_are_ignored() {
    let epd = driver(0, false);
    let mut op: Operation<i32> = epd.wait_until_idle();
    op.resume(Reply::Cancel(true));
    op.resume(Reply::Busy(Some(true)));
    op.resume(Reply::Written(Err(1)));
    assert!(matches!(op.action(), Some(Action::SetDc(false))));
    op.resume(Reply::Done);
    op.resume(Reply::Done);
    assert!(matches!(op.action(), Some(Action::Write(_))));
    assert!(op.into_result().is_none());
}

#[test]
fn failed_write_ends_the_operation() {
    let epd = driver(0, false);
    let mut board = board();
    board.fail_at = Some(3);
    let result = board.run(epd.sleep());
    assert!(matches!(result, Err(BusyTimeoutError::Spi(-7))));
    assert_eq!(board.commands(), vec![0x71, 0x02, 0x71]);
    assert_eq!(board.writes, 3);
}

#[test]
fn spi_errors_convert() {
    assert!(matches!(BusyTimeoutError::from(5u8), BusyTimeoutError::Spi(5)));
}

#[test]
fn sleep_powers_off_first() {
    let epd = driver(0, false);
    for op in [
        epd.sleep(),
        epd.sleep_with_timeout(10),
        epd.sleep_with_timeout_async(10),
    ] {
        let mut board = board();
        assert!(completed(board.run(op)));
        assert_eq!(board.packets(), vec![(0x02, vec![]), (0x07, vec![0xA5])]);
        assert_eq!(board.commands(), vec![0x71, 0x02, 0x71, 0x07]);
        assert_eq!(board.asked, 0);
    }
}

#[test]
fn sleep_that_times_out_skips_deep_sleep() {
    let epd = driver(100, false);
    let mut op: Operation<i32> = epd.sleep_with_timeout(250);
    let mut first = true;
    let mut commands: Vec<u8> = Vec::new();
    let mut dc = true;
    while let Some(action) = op.action() {
        let reply = match action {
            Action::SetDc(high) => {
                dc = high;
                Reply::Done
            }
            Action::Write(bytes) => {
                if !dc {
                    commands.push(bytes[0]);
                }
                Reply::Written(Ok(()))
            }
            Action::IsBusyPinLow => {
                // idle before power-off, stuck afterwards
                let busy = !first;
                first = false;
                Reply::Busy(Some(busy))
            }
            _ => Reply::Done,
        };
        op.resume(reply);
    }
    assert!(timed_out(op.into_result().unwrap()));
    assert_eq!(commands, vec![0x71, 0x02, 0x71, 0x71, 0x71]);
}

#[test]
fn frame_is_sent_raw_and_inverted() {
    let buffer = frame();
    for linux in [false, true] {
        let epd = driver(0, linux);
        let mut board = board();
        assert!(completed(board.run(epd.update_frame(&buffer))));
        assert_eq!(
            board.packets(),
            vec![(0x10, buffer.clone()), (0x13, flipped(&buffer))]
        );
        let writes = board.data_writes();
        // one transfer or twelve for the raw frame, 188 for the inverted one
        let raw = if linux { 12 } else { 1 };
        assert_eq!(writes.len(), raw + 188);
        if linux {
            assert!(writes.iter().all(|w| w.len() <= 4096));
            assert_eq!(writes[0].len(), 4096);
            assert_eq!(writes[11].len(), 48_000 - 11 * 4096);
        }
        assert!(writes[raw..raw + 187].iter().all(|w| w.len() == 256));
        assert_eq!(writes[raw + 187].len(), 128);
    }
}

#[test]
fn full_refreshes_send_the_same() {
    let buffer = frame();
    for linux in [false, true] {
        let epd = driver(20, linux);
        for op in [
            epd.update_and_display_frame(&buffer),
            epd.update_and_display_frame_with_timeout(&buffer, 1_000),
            epd.update_and_display_frame_with_timeout_async(&buffer, 1_000),
        ] {
            let mut board = board();
            board.busy_reads = 2;
            assert!(completed(board.run(op)));
            assert_eq!(
                board.packets(),
                vec![
                    (0x10, buffer.clone()),
                    (0x13, flipped(&buffer)),
                    (0x12, vec![])
                ]
            );
        }
    }
}

#[test]
fn display_only_triggers() {
    let epd = driver(0, false);
    let mut board = board();
    assert!(completed(board.run(epd.display_frame())));
    assert_eq!(board.packets(), vec![(0x12, vec![])]);
}

#[test]
fn empty_buffer_is_one_empty_write_or_none() {
    let buffer: Vec<u8> = Vec::new();
    let mut plain = board();
    assert!(completed(plain.run(driver(0, false).update_frame(&buffer))));
    assert_eq!(plain.data_writes(), vec![Vec::<u8>::new()]);
    let mut linux = board();
    assert!(completed(linux.run(driver(0, true).update_frame(&buffer))));
    assert_eq!(linux.data_writes(), Vec::<Vec<u8>>::new());
}

#[test]
fn clear_fills_both_images() {
    let epd = driver(0, true);
    let mut board = board();
    assert!(completed(board.run(epd.clear_frame())));
    assert_eq!(
        board.packets(),
        vec![
            (0x61, vec![0x03, 0x20, 0x01, 0xE0]),
            (0x10, vec![0xFF; 48_000]),
            (0x13, vec![0x00; 48_000]),
            (0x12, vec![]),
        ]
    );
    // byte by byte
    assert_eq!(board.data_writes().len(), 4 + 96_000);
}

#[test]
fn partial_refresh_switches_back() {
    let epd = driver(0, false);
    let buffer = vec![0xF0u8; 2 * 3];
    for op in [
        epd.update_partial_frame(&buffer, 264, 300, 16, 3),
        epd.update_partial_frame_with_timeout(&buffer, 264, 300, 16, 3, 50),
    ] {
        let mut board = board();
        assert!(completed(board.run(op)));
        assert_eq!(
            board.packets(),
            vec![
                (0x50, vec![0xA9, 0x07]),
                (0x91, vec![]),
                (0x90, vec![0x01, 0x08, 0x01, 0x17, 0x01, 0x2C, 0x01, 0x2E, 0x01]),
                (0x13, buffer.clone()),
                (0x12, vec![]),
                (0x92, vec![]),
                (0x50, vec![0x20, 0x07]),
            ]
        );
    }
}

#[test]
fn dual_partial_refreshes_send_the_same() {
    let epd = driver(0, true);
    let before = vec![0x0Fu8; 8];
    let now = vec![0xAAu8; 8];
    for op in [
        epd.update_partial_frame_dual_with_timeout(&before, &now, 8, 16, 32, 2, 50),
        epd.update_partial_frame_dual_with_timeout_async(&before, &now, 8, 16, 32, 2, 50),
    ] {
        let mut board = board();
        assert!(completed(board.run(op)));
        assert_eq!(
            board.packets(),
            vec![
                (0x50, vec![0xA9, 0x07]),
                (0x91, vec![]),
                (0x90, vec![0x00, 0x08, 0x00, 0x27, 0x00, 0x10, 0x00, 0x11, 0x01]),
                (0x10, before.clone()),
                (0x13, now.clone()),
                (0x12, vec![]),
                (0x92, vec![]),
                (0x50, vec![0x20, 0x07]),
            ]
        );
    }
}

#[test]
fn fast_partial_refresh_leaves_the_interval_alone() {
    let epd = driver(0, true);
    let before = vec![0x0Fu8; 8];
    let now = vec![0xAAu8; 8];
    let mut board = board();
    let op =
        epd.update_fast_partial_frame_dual_with_timeout_async(&before, &now, 8, 16, 32, 2, 50);
    assert!(completed(board.run(op)));
    assert_eq!(
        board.packets(),
        vec![
            (0x91, vec![]),
            (0x90, vec![0x00, 0x08, 0x00, 0x27, 0x00, 0x10, 0x00, 0x11, 0x01]),
            (0x10, before),
            (0x13, now),
            (0x12, vec![]),
            (0x92, vec![]),
        ]
    );
    assert!(!board.commands().contains(&0x50));
}

#[test]
fn window_of_no_width_ends_before_it_starts() {
    let epd = driver(0, false);
    let buffer: Vec<u8> = Vec::new();
    assert_eq!(check_window(0, 8, 5, 0, 1), Ok(()));
    let mut board = board();
    assert!(completed(board.run(epd.update_partial_frame(&buffer, 8, 5, 0, 1))));
    assert_eq!(
        board.packets()[2],
        (0x90, vec![0x00, 0x08, 0x00, 0x07, 0x00, 0x05, 0x00, 0x05, 0x01])
    );
}

#[test]
fn windows_are_checked() {
    assert_eq!(check_window(6, 264, 300, 16, 3), Ok(()));
    assert_eq!(check_window(48_000, 0, 0, 800, 480), Ok(()));
    assert_eq!(check_window(6, 4, 300, 16, 3), Err(WindowFault::X));
    assert_eq!(check_window(6, 8, 300, 12, 3), Err(WindowFault::Width));
    assert_eq!(check_window(7, 8, 300, 16, 3), Err(WindowFault::BufferSize));
    assert_eq!(check_window(0, 0, 0, 0, 1), Err(WindowFault::Overflow));
    assert_eq!(check_window(0, 0, 0, 8, 0), Err(WindowFault::Overflow));
    assert_eq!(
        check_window(1, 0xFFFF_FFF8, 0, 8, 1),
        Err(WindowFault::Overflow)
    );
    assert_eq!(
        check_window(1, 0, 0xFFFF_FFFF, 8, 1),
        Err(WindowFault::Overflow)
    );
}

#[test]
fn hook_is_asked_at_every_boundary() {
    let buffer = frame();
    let epd = driver(0, false);
    let mut board = board();
    board.busy_reads = 2;
    let op = epd.update_and_display_frame_with_timeout_async(&buffer, 1_000);
    assert!(completed(board.run(op)));
    // two busy polls, the entry, twelve bands, the middle, twelve bands, the trigger
    assert_eq!(board.asked, 2 + 1 + 12 + 1 + 12 + 1);
    let n = board.did.len();
    assert_eq!(board.did[n - 2], Did::Asked);
    assert_eq!(board.did[n - 1], Did::Sent(false, vec![0x12]));
}

#[test]
fn cancelled_full_refresh_is_not_triggered() {
    let buffer = frame();
    let epd = driver(0, true);
    for at in 1..=27 {
        let mut board = board();
        board.cancel_at = Some(at);
        let op = epd.update_and_display_frame_with_timeout_async(&buffer, 1_000);
        assert!(cancelled(board.run(op)));
        assert_eq!(board.asked, at);
        assert!(!board.commands().contains(&0x12));
        assert_eq!(board.did.last(), Some(&Did::Asked));
    }
}

#[test]
fn latched_cancel_is_caught_on_entry() {
    let buffer = vec![0u8; 8];
    let epd = driver(0, false);
    for busy in [0, 5] {
        for op in [
            epd.update_and_display_frame_with_timeout_async(&buffer, 1_000),
            epd.update_partial_frame_dual_with_timeout_async(&buffer, &buffer, 8, 16, 32, 2, 1_000),
            epd.update_fast_partial_frame_dual_with_timeout_async(
                &buffer, &buffer, 8, 16, 32, 2, 1_000,
            ),
        ] {
            let mut board = board();
            board.busy_reads = busy;
            board.cancel_at = Some(1);
            assert!(cancelled(board.run(op)));
            assert_eq!(board.commands(), vec![0x71]);
        }
    }
}

#[test]
fn partial_refresh_cancelled_after_its_trigger_stays_in_partial_mode() {
    let buffer = vec![0u8; 8];
    let epd = driver(0, false);
    let mut op: Operation<i32> =
        epd.update_partial_frame_dual_with_timeout_async(&buffer, &buffer, 8, 16, 32, 2, 1_000);
    let mut board = board();
    // idle on entry, busy once the refresh is triggered
    while let Some(action) = op.action() {
        let reply = board.perform(action);
        op.resume(reply);
        if board.commands().contains(&0x12) && board.cancel_at.is_none() {
            board.busy_reads = 100;
            board.cancel_at = Some(board.asked + 2);
        }
    }
    assert!(cancelled(op.into_result().unwrap()));
    assert!(board.commands().contains(&0x12));
    assert!(!board.commands().contains(&0x92));
}

#[test]
fn cancelled_wait_reports_it() {
    let epd = driver(5, false);
    let mut stopped = board();
    stopped.busy_reads = 100;
    stopped.cancel_at = Some(3);
    assert!(cancelled(stopped.run(epd.wait_until_idle_with_timeout_async(1_000))));
    assert_eq!(stopped.count(&Did::ReadLow), 3);
    // the hook is asked before the poll budget is looked at
    let mut stuck = board();
    stuck.busy_reads = 100;
    assert!(timed_out(stuck.run(epd.wait_until_idle_with_timeout_async(10))));
    assert_eq!(stuck.count(&Did::ReadLow), 3);
    assert_eq!(stuck.asked, 3);
    // an idle panel is not asked about
    let mut idle = board();
    idle.cancel_at = Some(1);
    assert!(completed(idle.run(epd.wait_until_idle_with_timeout_async(1_000))));
    assert_eq!(idle.asked, 0);
}

/// Runs three operations on equal boards that read busy `n` times: one with a short cap,
/// one with a longer cap, one without or with an even longer one.
fn compare_caps(n: usize, short: Operation<i32>, long: Operation<i32>, free: Operation<i32>) -> bool {
    let mut boards = [board(), board(), board()];
    let mut results: Vec<String> = Vec::new();
    for (board, op) in boards.iter_mut().zip([short, long, free]) {
        board.busy_reads = n;
        results.push(format!("{:?}", board.run(op)));
    }
    for i in 0..2 {
        if results[i] == "Err(BusyTimeout)" {
            assert!(boards[i + 1].did.starts_with(&boards[i].did));
        } else {
            assert_eq!(results[i], results[i + 1]);
            assert_eq!(boards[i].did, boards[i + 1].did);
        }
    }
    results[0] == "Err(BusyTimeout)"
}

#[test]
fn cap_changes_nothing_but_the_timeout() {
    let epd = driver(100, false);
    let part = vec![0x3C; 20];
    for n in 0..8 {
        let (_, short): (Epd7in5, Operation<i32>) =
            Epd7in5::new_with_timeout(Some(100), false, 250);
        let (_, long): (Epd7in5, Operation<i32>) =
            Epd7in5::new_with_timeout(Some(100), false, 500);
        let (_, free): (Epd7in5, Operation<i32>) = Epd7in5::new(Some(100), false);
        assert_eq!(compare_caps(n, short, long, free), n > 2);
        assert_eq!(
            compare_caps(
                n,
                epd.update_partial_frame_with_timeout(&part, 8, 3, 16, 10, 250),
                epd.update_partial_frame_with_timeout(&part, 8, 3, 16, 10, 500),
                epd.update_partial_frame(&part, 8, 3, 16, 10),
            ),
            n > 2
        );
        assert_eq!(
            compare_caps(
                n,
                epd.update_partial_frame_dual_with_timeout_async(&part, &part, 8, 3, 16, 10, 250),
                epd.update_partial_frame_dual_with_timeout_async(&part, &part, 8, 3, 16, 10, 500),
                epd.update_partial_frame_dual_with_timeout_async(&part, &part, 8, 3, 16, 10, 900),
            ),
            n > 2
        );
    }
}

/// What was done, without the settings of CDI.
fn without_interval(did: &[Did]) -> Vec<Did> {
    let mut left = Vec::new();
    let mut skip = false;
    for one in did {
        if *one == Did::Sent(false, vec![0x50]) {
            skip = true;
        } else if skip {
            assert!(matches!(one, Did::Sent(true, _)));
            skip = false;
        } else {
            left.push(one.clone());
        }
    }
    left
}

fn run_both(
    setup: fn(&mut Board, usize, bool),
    n: usize,
) -> (String, String, Board, Board) {
    let epd = driver(1_000, false);
    let old = vec![0x0F; 10_000];
    let new = vec![0xF0; 10_000];
    let mut fast = board();
    setup(&mut fast, n, false);
    let fast_result = fast.run(epd.update_fast_partial_frame_dual_with_timeout_async(
        &old, &new, 0, 0, 800, 100, 3_000,
    ));
    let mut slow = board();
    setup(&mut slow, n, true);
    let slow_result = slow.run(epd.update_partial_frame_dual_with_timeout_async(
        &old, &new, 0, 0, 800, 100, 3_000,
    ));
    (format!("{:?}", fast_result), format!("{:?}", slow_result), fast, slow)
}

#[test]
fn fast_refresh_is_the_slow_one_without_interval_however_it_ends() {
    let mut ends: Vec<String> = Vec::new();
    // cancelled at the n-th question, or not at all
    for n in 1..10 {
        let (fast_result, slow_result, fast, slow) =
            run_both(|board, n, _| board.cancel_at = Some(n), n);
        assert_eq!(fast_result, slow_result);
        assert_eq!(fast.asked, slow.asked);
        assert_eq!(fast.did, without_interval(&slow.did));
        ends.push(fast_result);
    }
    // busy for n reads, in the first wait
    for n in 0..6 {
        let (fast_result, slow_result, fast, slow) =
            run_both(|board, n, _| board.busy_reads = n, n);
        assert_eq!(fast_result, slow_result);
        assert_eq!(fast.asked, slow.asked);
        assert_eq!(fast.did, without_interval(&slow.did));
        ends.push(fast_result);
    }
    // the n-th write fails; CDI takes two writes after the first status query
    for n in 1..16 {
        let (fast_result, slow_result, fast, slow) = run_both(
            |board, n, slow| board.fail_at = Some(if slow && n > 1 { n + 2 } else { n }),
            n,
        );
        assert_eq!(fast_result, slow_result);
        assert_eq!(fast.asked, slow.asked);
        assert_eq!(fast.did, without_interval(&slow.did));
        ends.push(fast_result);
    }
    for end in ["Ok(Completed)", "Ok(Cancelled)", "Err(BusyTimeout)", "Err(Spi(-7))"] {
        assert!(ends.iter().any(|e| e == end), "{}", end);
    }
}

/// Checks the packets of a session: the last CDI, the switches of partial mode, and
/// whether every refresh had the waveform that it needs.
fn check_session(board: &Board, interval: &[u8], waveforms: bool) {
    let mut last: Vec<u8> = Vec::new();
    let mut open = false;
    for (command, data) in board.packets() {
        match command {
            0x50 => last = data,
            0x91 => {
                assert!(!open);
                open = true;
            }
            0x92 => {
                assert!(open);
                open = false;
            }
            0x12 => {
                if waveforms {
                    assert_eq!(last, if open { vec![0xA9, 0x07] } else { vec![0x20, 0x07] });
                }
            }
            _ => {}
        }
    }
    assert!(!open);
    assert_eq!(last, interval);
}

#[test]
fn session_restores_the_interval() {
    let (epd, op): (Epd7in5, Operation<i32>) = Epd7in5::new(Some(0), false);
    let frame = frame();
    let part = vec![0x3C; 20];
    let mut board = board();
    assert!(completed(board.run(op)));
    check_session(&board, &[0x20, 0x07], true);
    for op in [
        epd.update_partial_frame(&part, 8, 3, 16, 10),
        epd.update_and_display_frame(&frame),
        epd.wait_until_idle(),
        epd.update_partial_frame_dual_with_timeout(&part, &part, 0, 0, 8, 20, 5_000),
        epd.update_and_display_frame_with_timeout_async(&frame, 5_000),
        epd.update_partial_frame_dual_with_timeout_async(&part, &part, 0, 0, 8, 20, 5_000),
        epd.clear_frame(),
        epd.sleep(),
        epd.wake_up(),
        epd.update_frame(&frame),
        epd.display_frame(),
        epd.update_partial_frame_with_timeout(&part, 8, 3, 16, 10, 5_000),
    ] {
        assert!(completed(board.run(op)));
        check_session(&board, &[0x20, 0x07], true);
    }
}

#[test]
fn fast_session_keeps_the_interval_until_it_is_left() {
    for (waveform, interval) in [
        (FastPartialWaveform::OtpForcedTemperature, [0x29, 0x07]),
        (FastPartialWaveform::RegisterLut, [0x39, 0x07]),
    ] {
        let (epd, op): (Epd7in5, Operation<i32>) =
            Epd7in5::new_fast_partial_with_timeout_async(Some(0), true, waveform, 5_000);
        let part = vec![0x3C; 20];
        let mut board = board();
        assert!(completed(board.run(op)));
        check_session(&board, &interval, false);
        for _ in 0..3 {
            let op = epd.update_fast_partial_frame_dual_with_timeout_async(
                &part, &part, 0, 0, 8, 20, 5_000,
            );
            assert!(completed(board.run(op)));
            check_session(&board, &interval, false);
        }
        assert!(completed(board.run(epd.reinit_full_with_timeout_async(5_000))));
        check_session(&board, &[0x20, 0x07], false);
        let packets = board.packets();
        let panel = packets.iter().rev().find(|(command, _)| *command == 0x00).unwrap();
        assert_eq!(panel.1, vec![0x1F]);
    }
}

#[test]
fn background_color_is_kept() {
    let mut epd = driver(0, false);
    assert_eq!(*epd.background_color(), Color::White);
    epd.set_background_color(Color::Black);
    assert_eq!(*epd.background_color(), Color::Black);
    assert_eq!(epd.width(), 800);
    assert_eq!(epd.height(), 480);
}

#[test]
fn command_addresses() {
    let table = [
        (Command::PanelSetting, 0x00u8),
        (Command::PowerSetting, 0x01),
        (Command::PowerOff, 0x02),
        (Command::PowerOn, 0x04),
        (Command::BoosterSoftStart, 0x06),
        (Command::DeepSleep, 0x07),
        (Command::DataStartTransmission1, 0x10),
        (Command::DisplayRefresh, 0x12),
        (Command::DataStartTransmission2, 0x13),
        (Command::DualSpi, 0x15),
        (Command::LutForVcom, 0x20),
        (Command::LutBlack, 0x21),
        (Command::LutWhite, 0x22),
        (Command::LutGray1, 0x23),
        (Command::LutGray2, 0x24),
        (Command::LutRed0, 0x25),
        (Command::VcomAndDataIntervalSetting, 0x50),
        (Command::TconSetting, 0x60),
        (Command::TconResolution, 0x61),
        (Command::GetStatus, 0x71),
        (Command::VcmDcSetting, 0x82),
        (Command::PartialWindow, 0x90),
        (Command::PartialIn, 0x91),
        (Command::PartialOut, 0x92),
        (Command::CascadeSetting, 0xE0),
        (Command::PowerSaving, 0xE3),
        (Command::ForceTemperature, 0xE5),
    ];
    for (command, address) in table {
        assert_eq!(command.address(), address);
    }
}
