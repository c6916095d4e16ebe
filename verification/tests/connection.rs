use epd_waveshare::epd7in5_v2::command::Command;
use epd_waveshare::epd7in5_v2::RefreshOutcome;
use epd_waveshare::interface::DisplayInterface;
use epd_waveshare::operation::{
    Action, BusyWait, Bytes, Inline, Operation, Plan, Reply,
};

/// Runs a plan on a board that reads busy as often as told; a text per action.
fn run(plan: Plan, mut busy_reads: usize) -> (Vec<String>, bool) {
    let mut op: Operation<u8> = plan.into_operation();
    let mut log: Vec<String> = Vec::new();
    while let Some(action) = op.action() {
        let reply = match action {
            Action::SetDc(high) => {
                log.push(format!("dc {}", high));
                Reply::Done
            }
            Action::SetRst(high) => {
                log.push(format!("rst {}", high));
                Reply::Done
            }
            Action::DelayUs(us) => {
                log.push(format!("us {}", us));
                Reply::Done
            }
            Action::DelayMs(ms) => {
                log.push(format!("ms {}", ms));
                Reply::Done
            }
            Action::Write(bytes) => {
                log.push(format!("write {:?}", bytes));
                Reply::Written(Ok(()))
            }
            Action::WriteChunk(chunk) => {
                log.push(format!("write {:?}", chunk.as_slice()));
                Reply::Written(Ok(()))
            }
            Action::IsBusyPinLow => {
                log.push("low?".to_string());
                busy_reads = busy_reads.saturating_sub(1);
                Reply::Busy(Some(busy_reads > 0))
            }
            Action::IsBusyPinHigh => {
                log.push("high?".to_string());
                busy_reads = busy_reads.saturating_sub(1);
                Reply::Busy(Some(busy_reads > 0))
            }
            Action::ShouldCancel => {
                log.push("cancel?".to_string());
                Reply::Cancel(false)
            }
        };
        op.resume(reply);
    }
    let completed = matches!(op.into_result(), Some(Ok(RefreshOutcome::Completed)));
    (log, completed)
}

#[test]
fn default_delay_is_ten_milliseconds() {
    let interface: DisplayInterface<false> = DisplayInterface::new(None, false);
    assert_eq!(interface.delay_us, 10_000);
    let interface: DisplayInterface<false> = DisplayInterface::new(Some(7), true);
    assert_eq!(interface.delay_us, 7);
    assert!(interface.linux);
}

#[test]
fn command_and_data_use_the_pin() {
    let interface: DisplayInterface<false> = DisplayInterface::new(None, true);
    let data = [9u8, 8, 7];
    let mut plan = Plan::new();
    interface.cmd_with_data(&mut plan, Command::DualSpi, Bytes::Borrowed(&data));
    let (log, completed) = run(plan, 0);
    assert!(completed);
    assert_eq!(log, vec!["dc false", "write [21]", "dc true", "write [9, 8, 7]"]);
}

#[test]
fn single_byte_writes() {
    let interface: DisplayInterface<true> = DisplayInterface::new(None, false);
    let mut plan = Plan::new();
    interface.data(&mut plan, Bytes::short(&[1, 2, 3]));
    let (log, _) = run(plan, 0);
    assert_eq!(log, vec!["dc true", "write [1]", "write [2]", "write [3]"]);
}

#[test]
fn long_data_is_split_on_linux() {
    let interface: DisplayInterface<false> = DisplayInterface::new(None, true);
    let mut plan = Plan::new();
    let data = vec![5; 4097];
    interface.write(&mut plan, Bytes::Borrowed(&data));
    let (log, _) = run(plan, 0);
    assert_eq!(log.len(), 2);
    assert_eq!(log[0].len(), "write []".len() + 4096 * 3 - 2);
    assert_eq!(log[1], "write [5]");
}

#[test]
fn inverted_data() {
    let interface: DisplayInterface<false> = DisplayInterface::new(None, false);
    let data = [0x00u8, 0xFF, 0x5A];
    let mut plan = Plan::new();
    interface.data_inverted(&mut plan, &data);
    let (log, _) = run(plan, 0);
    assert_eq!(log, vec!["dc true", "write [255, 0, 165]"]);
    let once = Inline::<256>::inverted(&data);
    assert_eq!(Inline::<256>::inverted(once.as_slice()).as_slice(), &data);
}

#[test]
fn repeated_data() {
    let interface: DisplayInterface<false> = DisplayInterface::new(None, false);
    let mut plan = Plan::new();
    interface.data_x_times(&mut plan, 7, 3);
    interface.data_x_times(&mut plan, 8, 0);
    let (log, completed) = run(plan, 0);
    assert!(completed);
    assert_eq!(log, vec!["dc true", "write [7]", "write [7]", "write [7]", "dc true"]);
}

#[test]
fn wait_without_a_status_command_polls_first() {
    let interface: DisplayInterface<false> = DisplayInterface::new(Some(40), false);
    let mut plan = Plan::new();
    interface.wait_until_idle(&mut plan, false);
    let (log, completed) = run(plan, 3);
    assert!(completed);
    assert_eq!(log, vec!["high?", "us 40", "high?", "us 40", "high?"]);
}

#[test]
fn wait_with_a_status_command_sends_it_first() {
    let interface: DisplayInterface<false> = DisplayInterface::new(Some(40), false);
    let mut plan = Plan::new();
    interface.wait_until_idle_with_cmd(&mut plan, true, Command::GetStatus);
    let (log, completed) = run(plan, 2);
    assert!(completed);
    assert_eq!(
        log,
        vec![
            "dc false",
            "write [113]",
            "us 40",
            "low?",
            "dc false",
            "write [113]",
            "us 40",
            "low?"
        ]
    );
}

#[test]
fn cancellable_wait_asks_at_busy_polls() {
    let interface: DisplayInterface<false> = DisplayInterface::new(Some(0), false);
    let mut plan = Plan::new();
    interface.wait_until_idle_with_cmd_timeout_async(&mut plan, true, Command::GetStatus, 9);
    let (log, completed) = run(plan, 2);
    assert!(completed);
    assert_eq!(
        log,
        vec!["dc false", "write [113]", "low?", "cancel?", "dc false", "write [113]", "low?"]
    );
}

#[test]
fn bands_ask_before_each() {
    let interface: DisplayInterface<false> = DisplayInterface::new(None, false);
    let data = vec![1u8; 4096 + 1];
    let mut plan = Plan::new();
    interface.data_in_bands(&mut plan, &data, true);
    let (log, _) = run(plan, 0);
    // sixteen chunks of the first band, one byte of the second
    assert_eq!(log.len(), 2 + 16 + 2 + 1);
    assert_eq!(log[0], "cancel?");
    assert_eq!(log[1], "dc true");
    assert_eq!(log[18], "cancel?");
    assert_eq!(log[20], "write [254]");
}

#[test]
fn reset_pulse() {
    let interface: DisplayInterface<false> = DisplayInterface::new(None, false);
    let mut plan = Plan::new();
    interface.reset(&mut plan, 11, 22);
    plan.delay_ms(3);
    let (log, _) = run(plan, 0);
    assert_eq!(
        log,
        vec!["rst true", "us 11", "rst false", "us 22", "rst true", "us 200000", "ms 3"]
    );
}

#[test]
fn only_an_asserted_pin_is_busy() {
    let wait = BusyWait {
        status_command: None,
        is_busy_low: true,
        delay_us: 0,
        max_polls: None,
        cancellable: false,
    };
    assert!(wait.is_busy(Some(true)));
    assert!(!wait.is_busy(Some(false)));
    assert!(!wait.is_busy(None));
}

#[test]
fn empty_plan_is_done() {
    let op: Operation<u8> = Plan::new().into_operation();
    assert!(op.action().is_none());
    assert!(matches!(op.into_result(), Some(Ok(RefreshOutcome::Completed))));
}

#[test]
fn bytes_have_parts() {
    let data = [1u8, 2, 3, 4];
    let borrowed = Bytes::Borrowed(&data);
    assert_eq!(borrowed.len(), 4);
    assert_eq!(borrowed.part(1, 3).as_slice(), &[2, 3]);
    let short = Bytes::short(&[1, 2, 3, 4]);
    assert_eq!(short.len(), 4);
    assert_eq!(short.part(0, 2).as_slice(), &[1, 2]);
    assert_eq!(short.part(4, 4).len(), 0);
}
