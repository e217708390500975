use grovean::config::{SerialConfig, DEFAULT_OUTPUT_EMPTY_MASK};
use grovean::console::{Console, Level};
use grovean::memory;
use grovean::port::{SerialPort, WriteError};
use grovean::registers::{MockRegisters, UartRegisters, MOCK_BUSY, MOCK_READY};

/// A UART whose status register replays a fixed script, then reports busy.
struct ScriptedUart {
    statuses: Vec<u8>,
    next: usize,
    sent: Vec<u8>,
}

impl ScriptedUart {
    fn new(statuses: Vec<u8>) -> Self {
        ScriptedUart { statuses, next: 0, sent: Vec::new() }
    }
}

impl UartRegisters for ScriptedUart {
    fn read_line_status(&mut self) -> u8 {
        let s = if self.next < self.statuses.len() { self.statuses[self.next] } else { MOCK_BUSY };
        self.next += 1;
        s
    }

    fn write_data(&mut self, byte: u8) {
        self.sent.push(byte);
    }
}

const B: u8 = MOCK_BUSY;
const R: u8 = MOCK_READY;
use grovean::state::SerialRuntimeState;

fn config_with_limit(limit: usize) -> SerialConfig {
    SerialConfig {
        base: 0x1000,
        line_status_offset: 5,
        output_empty_mask: 1 << 5,
        write_spin_limit: limit,
    }
}

fn console(limit: usize, regs: MockRegisters) -> Console<MockRegisters> {
    Console::new(SerialPort::new(config_with_limit(limit), regs))
}

#[test]
fn default_config_has_expected_16550_values() {
    let config = SerialConfig::default_config();
    assert_eq!(config.base, 0x0900_0000);
    assert_eq!(config.line_status_offset, 5);
    assert_eq!(config.output_empty_mask, 1 << 5);
    assert_eq!(config.write_spin_limit, 100_000);
}

#[test]
fn default_config_register_addresses() {
    let config = SerialConfig::default_config();
    assert_eq!(config.data_addr(), 0x0900_0000);
    assert_eq!(config.line_status_addr(), 0x0900_0005);
}

#[test]
fn line_status_address_uses_base_plus_offset() {
    let config = config_with_limit(10);
    assert_eq!(config.line_status_addr(), 0x1005);
    assert_eq!(config.data_addr(), 0x1000);
}

#[test]
fn output_empty_bit_is_tested_alone() {
    let config = SerialConfig::default_config();
    assert!(config.is_output_empty(0x20));
    assert!(config.is_output_empty(0x60));
    assert!(config.is_output_empty(0xff));
    assert!(!config.is_output_empty(0x00));
    assert!(!config.is_output_empty(0xdf));
    assert_eq!(DEFAULT_OUTPUT_EMPTY_MASK, 0x20);
}

#[test]
fn runtime_state_disables_once_set() {
    let mut state = SerialRuntimeState::new();
    assert!(!state.is_disabled());
    state.disable();
    assert!(state.is_disabled());
}

#[test]
fn runtime_state_stays_disabled_after_success() {
    let mut state = SerialRuntimeState::new();
    state.record(true);
    assert!(!state.is_disabled());
    state.record(false);
    assert!(state.is_disabled());
    state.record(true);
    assert!(state.is_disabled());
}

#[test]
fn mock_reports_busy_then_ready() {
    let mut regs = MockRegisters::ready_after(2);
    assert_eq!(regs.read_line_status(), MOCK_BUSY);
    assert_eq!(regs.read_line_status(), MOCK_BUSY);
    assert_eq!(regs.read_line_status(), MOCK_READY);
    assert_eq!(regs.read_line_status(), MOCK_READY);
    regs.write_data(7);
    assert_eq!(regs.sent_bytes(), &[7u8][..]);
}

#[test]
fn byte_written_once_ready_before_limit() {
    let mut port = SerialPort::new(config_with_limit(10), MockRegisters::ready_after(9));
    assert_eq!(port.write_byte_non_blocking(0x41), Ok(()));
    assert_eq!(port.regs.sent_bytes(), &[0x41u8][..]);
}

#[test]
fn byte_write_fails_when_never_ready() {
    let mut port = SerialPort::new(config_with_limit(10), MockRegisters::never_ready());
    assert_eq!(port.write_byte_non_blocking(0x41), Err(WriteError));
    assert!(port.regs.sent_bytes().is_empty());
}

#[test]
fn byte_write_fails_when_ready_only_at_limit() {
    let mut port = SerialPort::new(config_with_limit(10), MockRegisters::ready_after(10));
    assert_eq!(port.write_byte_non_blocking(0x41), Err(WriteError));
    assert!(port.regs.sent_bytes().is_empty());
    // The spin limit was used up: exactly ten busy polls were made, so the
    // next poll sees the transmitter ready.
    assert_eq!(port.regs.read_line_status(), MOCK_READY);
}

#[test]
fn byte_write_fails_with_zero_spin_limit() {
    let mut port = SerialPort::new(config_with_limit(0), MockRegisters::ready_after(0));
    assert_eq!(port.write_byte_non_blocking(0x41), Err(WriteError));
    assert!(port.regs.sent_bytes().is_empty());
}

#[test]
fn write_str_sends_all_bytes() {
    let mut port = SerialPort::new(config_with_limit(4), MockRegisters::ready_after(3));
    assert_eq!(port.write_str("héllo"), Ok(()));
    assert_eq!(port.regs.sent_bytes(), "héllo".as_bytes());
}

#[test]
fn write_str_fails_without_output() {
    let mut port = SerialPort::new(config_with_limit(4), MockRegisters::ready_after(4));
    assert_eq!(port.write_str("abc"), Err(WriteError));
    assert!(port.regs.sent_bytes().is_empty());
}

#[test]
fn write_of_empty_str_succeeds() {
    let mut port = SerialPort::new(config_with_limit(4), MockRegisters::never_ready());
    assert_eq!(port.write_str(""), Ok(()));
    assert!(port.regs.sent_bytes().is_empty());
}

#[test]
fn info_line_without_newline() {
    let mut c = console(10, MockRegisters::ready_after(0));
    c.log(Level::Info, "boot ok", false);
    assert_eq!(c.port.regs.sent_bytes(), b"INFO: boot ok");
    assert!(!c.is_disabled());
}

#[test]
fn info_line_with_newline() {
    let mut c = console(10, MockRegisters::ready_after(0));
    c.log(Level::Info, "boot ok", true);
    assert_eq!(c.port.regs.sent_bytes(), b"INFO: boot ok\n");
}

#[test]
fn level_prefixes() {
    assert_eq!(Level::Plain.prefix(), "");
    assert_eq!(Level::Info.prefix(), "INFO: ");
    assert_eq!(Level::Debug.prefix(), "DEBUG: ");
    assert_eq!(Level::Warn.prefix(), "WARN: ");
    assert_eq!(Level::Danger.prefix(), "DANGER: ");
}

#[test]
fn every_level_prints_its_prefix() {
    let mut c = console(10, MockRegisters::ready_after(1));
    c.log(Level::Debug, "d", true);
    c.log(Level::Warn, "w", false);
    c.log(Level::Danger, "x", true);
    c.log(Level::Plain, "p", true);
    assert_eq!(c.port.regs.sent_bytes(), b"DEBUG: d\nWARN: wDANGER: x\np\n");
}

#[test]
fn empty_plain_line_is_a_line_feed() {
    let mut c = console(10, MockRegisters::ready_after(0));
    c.log(Level::Plain, "", true);
    assert_eq!(c.port.regs.sent_bytes(), b"\n");
}

#[test]
fn prints_are_kept_whole_and_in_order() {
    let mut c = console(10, MockRegisters::ready_after(5));
    c.print("first message");
    c.print("second message");
    assert_eq!(c.port.regs.sent_bytes(), b"first messagesecond message");
}

#[test]
fn failure_silences_later_calls() {
    // Ready only after seven polls, but the limit is five: the first call
    // times out; the next one would find the transmitter ready, yet sends
    // nothing because the console is disabled.
    let mut c = console(5, MockRegisters::ready_after(7));
    c.log(Level::Info, "boot ok", true);
    assert!(c.is_disabled());
    assert!(c.port.regs.sent_bytes().is_empty());
    c.log(Level::Info, "still alive", true);
    assert!(c.is_disabled());
    assert!(c.port.regs.sent_bytes().is_empty());
    c.print("still alive");
    assert!(c.is_disabled());
    assert!(c.port.regs.sent_bytes().is_empty());
}

#[test]
fn never_ready_uart_disables_console() {
    let mut c = console(3, MockRegisters::never_ready());
    assert!(!c.is_disabled());
    c.print("x");
    assert!(c.is_disabled());
    assert!(c.port.regs.sent_bytes().is_empty());
}

#[test]
fn memory_init_returns() {
    memory::init();
}

#[test]
fn spin_budget_restarts_for_each_byte() {
    // Each byte waits three polls against a limit of four: seven busy polls
    // in total, more than the limit, yet every byte goes out.
    let script = vec![B, B, B, R, B, B, B, R];
    let mut port = SerialPort::new(config_with_limit(4), ScriptedUart::new(script));
    assert_eq!(port.write_str("ab"), Ok(()));
    assert_eq!(port.regs.sent, b"ab".to_vec());
    assert_eq!(port.regs.next, 8);
}

#[test]
fn write_stops_at_byte_that_times_out() {
    // The third byte never finds the transmitter ready: the first two stay
    // sent, and nothing is tried after the third.
    let script = vec![R, B, R, B, B, B];
    let mut port = SerialPort::new(config_with_limit(3), ScriptedUart::new(script));
    assert_eq!(port.write_str("abcd"), Err(WriteError));
    assert_eq!(port.regs.sent, b"ab".to_vec());
    assert_eq!(port.regs.next, 6);
}

#[test]
fn reads_stay_within_bytes_times_limit() {
    let mut port = SerialPort::new(config_with_limit(5), ScriptedUart::new(vec![]));
    assert_eq!(port.write_str("xyz"), Err(WriteError));
    assert_eq!(port.regs.next, 5);
    assert!(port.regs.sent.is_empty());
}

#[test]
fn two_bytes_on_ready_transmitter() {
    let mut port = SerialPort::new(config_with_limit(1), MockRegisters::ready_after(0));
    assert_eq!(port.write_str("ab"), Ok(()));
    assert_eq!(port.regs.sent_bytes(), b"ab");
}

#[test]
fn partial_print_disables_console() {
    let script = vec![R, R, B, B];
    let mut c = Console::new(SerialPort::new(config_with_limit(2), ScriptedUart::new(script)));
    c.print("abc");
    assert_eq!(c.port.regs.sent, b"ab".to_vec());
    assert!(c.is_disabled());
    c.print("still alive");
    assert_eq!(c.port.regs.sent, b"ab".to_vec());
    assert_eq!(c.port.regs.next, 4);
}

#[test]
fn warn_line_with_formatted_message() {
    let mut c = console(10, MockRegisters::ready_after(0));
    let msg = format!("x = {}", 5);
    c.log(Level::Warn, &msg, false);
    assert_eq!(c.port.regs.sent_bytes(), b"WARN: x = 5");
}
