use vstd::prelude::*;
use vstd::string::StringSliceAdditionalSpecFns;
use vstd::utf8::encode_utf8;

use crate::config::status_ready;
use crate::port::{
    lemma_failed_write_covers, lemma_ready_stream_sends_all, lemma_write_then_write,
    write_effect, SerialPort,
};
use crate::registers::UartRegisters;
use crate::state::SerialRuntimeState;

verus! {

/// Severity of a log line; `Plain` carries no prefix.
#[derive(Clone, Copy, Debug, PartialEq, Eq, Structural)]
pub enum Level {
    Plain,
    Info,
    Debug,
    Warn,
    Danger,
}

/// The literal text put before a message of the given level.
pub open spec fn level_prefix(level: Level) -> Seq<char> {
    match level {
        Level::Plain => ""@,
        Level::Info => "INFO: "@,
        Level::Debug => "DEBUG: "@,
        Level::Warn => "WARN: "@,
        Level::Danger => "DANGER: "@,
    }
}

/// The bytes of one log line: the level's prefix, the message, and a line
/// feed when asked for.
pub open spec fn line_bytes(level: Level, msg: Seq<u8>, newline: bool) -> Seq<u8> {
    encode_utf8(level_prefix(level)) + msg + if newline {
        encode_utf8("\n"@)
    } else {
        Seq::<u8>::empty()
    }
}

impl Level {
    pub fn prefix(&self) -> (r: &'static str)
        ensures
            r@ == level_prefix(*self),
    {
        match self {
            Level::Plain => "",
            Level::Info => "INFO: ",
            Level::Debug => "DEBUG: ",
            Level::Warn => "WARN: ",
            Level::Danger => "DANGER: ",
        }
    }
}

/// The process-wide console: one UART and the flag that shuts it off after
/// the first failed write.
pub struct Console<R> {
    pub port: SerialPort<R>,
    pub state: SerialRuntimeState,
}

/// What printing `bytes` does to a console. A disabled console is left as it
/// was, without touching its registers. An enabled one writes the bytes as
/// `write_effect` describes, each with its own spin budget, and is disabled
/// exactly when a byte timed out.
pub open spec fn print_effect<R: UartRegisters>(
    before: Console<R>,
    after: Console<R>,
    bytes: Seq<u8>,
) -> bool {
    &&& after.port.config == before.port.config
    &&& before.state.is_disabled_spec() ==> after == before
    &&& !before.state.is_disabled_spec() ==> write_effect(
        before.port.regs,
        after.port.regs,
        before.port.config.output_empty_mask,
        before.port.config.write_spin_limit as nat,
        bytes,
        !after.state.is_disabled_spec(),
    )
}

impl<R: UartRegisters> Console<R> {
    /// A console over `port`, enabled.
    pub fn new(port: SerialPort<R>) -> (r: Console<R>)
        ensures
            r.port == port,
            !r.state.is_disabled_spec(),
    {
        Console { port, state: SerialRuntimeState::new() }
    }

    pub fn is_disabled(&self) -> (r: bool)
        ensures
            r == self.state.is_disabled_spec(),
    {
        self.state.is_disabled()
    }

    /// Print `s` as it stands.
    pub fn print(&mut self, s: &str)
        ensures
            print_effect(*old(self), *final(self), s.spec_bytes()),
    {
        if self.state.is_disabled() {
            return ;
        }
        let r = self.port.write_str(s);
        self.state.record(r.is_ok());
    }

    /// Print one log line: the level's prefix, then `msg`, then a line feed
    /// when `newline` is set. The line goes out in one piece.
    pub fn log(&mut self, level: Level, msg: &str, newline: bool)
        ensures
            print_effect(*old(self), *final(self), line_bytes(level, msg.spec_bytes(), newline)),
    {
        if self.state.is_disabled() {
            return ;
        }
        let ghost s0 = self.port.regs;
        let ghost mask = self.port.config.output_empty_mask;
        let ghost limit = self.port.config.write_spin_limit as nat;
        let prefix = level.prefix();
        let ghost p = prefix.spec_bytes();
        let ghost m = msg.spec_bytes();
        let mut r = self.port.write_str(prefix);
        let ghost s1 = self.port.regs;
        if r.is_ok() {
            r = self.port.write_str(msg);
            proof {
                lemma_write_then_write(s0, s1, self.port.regs, mask, limit, p, m, r.is_ok());
            }
        } else {
            proof {
                lemma_failed_write_covers(s0, s1, mask, limit, p, m);
            }
        }
        let ghost s2 = self.port.regs;
        let ghost nl: Seq<u8> = if newline {
            encode_utf8("\n"@)
        } else {
            Seq::<u8>::empty()
        };
        if newline {
            if r.is_ok() {
                r = self.port.write_str("\n");
                proof {
                    lemma_write_then_write(s0, s2, self.port.regs, mask, limit, p + m, nl, r.is_ok());
                }
            } else {
                proof {
                    lemma_failed_write_covers(s0, s2, mask, limit, p + m, nl);
                }
            }
        } else {
            assert(p + m + nl =~= p + m);
        }
        assert(line_bytes(level, m, newline) == p + m + nl);
        self.state.record(r.is_ok());
    }
}

/// Two prints in a row have the effect of one print of both messages, the
/// first before the second: their bytes are never mixed, the second message
/// is dropped whole once the first one failed, and when both go through the
/// output is the first message followed by the second.
pub proof fn lemma_prints_in_call_order<R: UartRegisters>(
    c0: Console<R>,
    c1: Console<R>,
    c2: Console<R>,
    a: Seq<u8>,
    b: Seq<u8>,
)
    requires
        print_effect(c0, c1, a),
        print_effect(c1, c2, b),
    ensures
        print_effect(c0, c2, a + b),
        !c2.state.is_disabled_spec() ==> c2.port.regs.sent() == c0.port.regs.sent() + a + b,
{
    let mask = c0.port.config.output_empty_mask;
    let limit = c0.port.config.write_spin_limit as nat;
    if !c0.state.is_disabled_spec() {
        if c1.state.is_disabled_spec() {
            lemma_failed_write_covers(c0.port.regs, c1.port.regs, mask, limit, a, b);
        } else {
            lemma_write_then_write(
                c0.port.regs,
                c1.port.regs,
                c2.port.regs,
                mask,
                limit,
                a,
                b,
                !c2.state.is_disabled_spec(),
            );
        }
    }
    if !c2.state.is_disabled_spec() {
        assert((a + b).subrange(0, (a + b).len() as int) =~= a + b);
    }
}

/// An enabled console whose transmitter reports ready on every read, with a
/// spin limit above zero, sends the whole message and stays enabled.
pub proof fn lemma_ready_console_prints_all<R: UartRegisters>(
    c0: Console<R>,
    c1: Console<R>,
    bytes: Seq<u8>,
)
    requires
        !c0.state.is_disabled_spec(),
        c0.port.config.write_spin_limit > 0,
        forall|j: nat| #[trigger]
            status_ready(c0.port.regs.status_at(j), c0.port.config.output_empty_mask),
        print_effect(c0, c1, bytes),
    ensures
        !c1.state.is_disabled_spec(),
        c1.port.regs.sent() == c0.port.regs.sent() + bytes,
{
    lemma_ready_stream_sends_all(
        c0.port.regs,
        c0.port.config.output_empty_mask,
        c0.port.config.write_spin_limit as nat,
        0,
        bytes.len(),
    );
    assert(bytes.subrange(0, bytes.len() as int) =~= bytes);
}

} // verus!
