use vstd::prelude::*;

verus! {

/// One access to a UART register: a read of the line status register and
/// the value it gave, or a store of a byte into the data register.
#[derive(Clone, Copy, Debug, PartialEq, Eq, Structural)]
pub enum RegisterAccess {
    StatusRead(u8),
    DataWrite(u8),
}

/// Access to the two registers of a UART that a polling writer needs: the
/// line status register, read before each byte, and the data register, which
/// takes the byte.
///
/// The model keeps what was sent, how many status reads were made, and the
/// statuses that the next reads will return as long as no byte is written in
/// between.
///
/// The model functions have closed defaults so that a device driven from
/// plain Rust (memory-mapped registers behind volatile accesses) needs only
/// the two register methods. Code generic over the trait never sees the
/// defaults. Such a device's impl is not verified and does not meet the
/// method contracts over the defaults: what is proved here carries over to it
/// only on trust that its register accesses behave as the contracts describe.
pub trait UartRegisters {
    /// Every register access so far, oldest first.
    closed spec fn accesses(&self) -> Seq<RegisterAccess> {
        Seq::empty()
    }

    /// Every byte stored into the data register so far, oldest first.
    closed spec fn sent(&self) -> Seq<u8> {
        Seq::empty()
    }

    /// How many times the line status register has been read.
    closed spec fn reads(&self) -> nat {
        0
    }

    /// The status that the `k`-th read from now returns, if no byte is
    /// written before it.
    closed spec fn status_at(&self, k: nat) -> u8 {
        0
    }

    fn read_line_status(&mut self) -> (r: u8)
        ensures
            r == old(self).status_at(0),
            final(self).accesses() == old(self).accesses().push(RegisterAccess::StatusRead(r)),
            forall|k: nat| #[trigger] final(self).status_at(k) == old(self).status_at(k + 1),
            final(self).reads() == old(self).reads() + 1,
            final(self).sent() == old(self).sent(),
    ;

    fn write_data(&mut self, byte: u8)
        ensures
            final(self).sent() == old(self).sent().push(byte),
            final(self).reads() == old(self).reads(),
            final(self).accesses() == old(self).accesses().push(RegisterAccess::DataWrite(byte)),
            forall|k: nat| #[trigger] final(self).status_at(k) == old(self).status_at(k),
    ;
}

/// Status value that an in-memory UART reports when it can take a byte.
pub const MOCK_READY: u8 = 0x20;

/// Status value that an in-memory UART reports while it is busy.
pub const MOCK_BUSY: u8 = 0;

/// An in-memory UART: its transmitter reports busy for a given number of
/// status reads, or for ever, and then stays ready; every byte written to it
/// is kept.
pub struct MockRegisters {
    never_ready: bool,
    busy_left: usize,
    data: Vec<u8>,
    read_count: Ghost<nat>,
    log: Ghost<Seq<RegisterAccess>>,
}

/// Status of an in-memory UART at its `k`-th read from now.
pub open spec fn mock_status(never_ready: bool, busy_left: nat, k: nat) -> u8 {
    if !never_ready && k >= busy_left {
        MOCK_READY
    } else {
        MOCK_BUSY
    }
}

impl MockRegisters {
    /// The transmitter never becomes ready.
    pub closed spec fn is_never_ready(&self) -> bool {
        self.never_ready
    }

    /// How many more reads report busy before the transmitter is ready.
    pub closed spec fn busy_reads_left(&self) -> nat {
        self.busy_left as nat
    }

    /// A UART that reports busy for the first `busy_polls` reads and ready
    /// from then on.
    pub fn ready_after(busy_polls: usize) -> (r: MockRegisters)
        ensures
            !r.is_never_ready(),
            r.busy_reads_left() == busy_polls,
            r.sent() == Seq::<u8>::empty(),
            r.reads() == 0,
            r.accesses() == Seq::<RegisterAccess>::empty(),
    {
        MockRegisters { never_ready: false, busy_left: busy_polls, data: Vec::new(), read_count: Ghost(0), log: Ghost(Seq::empty()) }
    }

    /// A UART whose transmitter never reports ready.
    pub fn never_ready() -> (r: MockRegisters)
        ensures
            r.is_never_ready(),
            r.sent() == Seq::<u8>::empty(),
            r.reads() == 0,
            r.accesses() == Seq::<RegisterAccess>::empty(),
    {
        MockRegisters { never_ready: true, busy_left: 0, data: Vec::new(), read_count: Ghost(0), log: Ghost(Seq::empty()) }
    }

    /// The bytes written to the data register so far.
    pub fn sent_bytes(&self) -> (r: &[u8])
        ensures
            r@ == self.sent(),
    {
        self.data.as_slice()
    }
}

impl UartRegisters for MockRegisters {
    closed spec fn sent(&self) -> Seq<u8> {
        self.data@
    }

    closed spec fn reads(&self) -> nat {
        self.read_count@
    }

    closed spec fn accesses(&self) -> Seq<RegisterAccess> {
        self.log@
    }

    open spec fn status_at(&self, k: nat) -> u8 {
        mock_status(self.is_never_ready(), self.busy_reads_left(), k)
    }

    fn read_line_status(&mut self) -> (r: u8) {
        self.read_count = Ghost(self.read_count@ + 1);
        let r = if self.never_ready {
            MOCK_BUSY
        } else if self.busy_left > 0 {
            self.busy_left = self.busy_left - 1;
            MOCK_BUSY
        } else {
            MOCK_READY
        };
        self.log = Ghost(self.log@.push(RegisterAccess::StatusRead(r)));
        r
    }

    fn write_data(&mut self, byte: u8) {
        self.data.push(byte);
        self.log = Ghost(self.log@.push(RegisterAccess::DataWrite(byte)));
    }
}

} // verus!
