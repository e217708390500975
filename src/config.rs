use vstd::prelude::*;

verus! {

/// Base address of the 16550-compatible UART on the QEMU virt platform.
pub const DEFAULT_BASE: usize = 0x0900_0000;

/// Offset of the 16550 line status register from the base address.
pub const DEFAULT_LINE_STATUS_OFFSET: usize = 5;

/// Line status bit 5: transmitter holding register empty.
pub const DEFAULT_OUTPUT_EMPTY_MASK: u8 = 0x20;

/// Upper bound on status polls for one byte, so that a write never hangs.
pub const DEFAULT_WRITE_SPIN_LIMIT: usize = 100_000;

/// Fixed description of a memory-mapped UART: where its registers are, which
/// status bit reports a free transmitter, and how long to wait for it.
#[derive(Clone, Copy, Debug, PartialEq, Eq)]
pub struct SerialConfig {
    pub base: usize,
    pub line_status_offset: usize,
    pub output_empty_mask: u8,
    pub write_spin_limit: usize,
}

impl SerialConfig {
    /// The register addresses can be formed without leaving the address space.
    pub open spec fn wf(&self) -> bool {
        self.base + self.line_status_offset <= usize::MAX
    }

    /// Address of the line status register.
    pub open spec fn line_status_spec(&self) -> int {
        self.base + self.line_status_offset
    }

    /// The configuration of the QEMU virt platform's UART.
    pub fn default_config() -> (r: SerialConfig)
        ensures
            r.base == 0x0900_0000,
            r.line_status_offset == 5,
            r.output_empty_mask == 1u8 << 5u8,
            r.output_empty_mask == 0x20,
            r.write_spin_limit == 100_000,
            r.wf(),
    {
        let r = SerialConfig {
            base: DEFAULT_BASE,
            line_status_offset: DEFAULT_LINE_STATUS_OFFSET,
            output_empty_mask: DEFAULT_OUTPUT_EMPTY_MASK,
            write_spin_limit: DEFAULT_WRITE_SPIN_LIMIT,
        };
        assert(1u8 << 5u8 == 0x20u8) by (bit_vector);
        r
    }

    /// Address of the data (transmit holding) register.
    pub fn data_addr(&self) -> (r: usize)
        ensures
            r == self.base,
    {
        self.base
    }

    /// Address of the line status register: the base plus the status offset.
    pub fn line_status_addr(&self) -> (r: usize)
        requires
            self.wf(),
        ensures
            r == self.line_status_spec(),
    {
        self.base + self.line_status_offset
    }

    /// Whether a line status value reports the transmitter ready for a byte.
    pub fn is_output_empty(&self, status: u8) -> (r: bool)
        ensures
            r == status_ready(status, self.output_empty_mask),
    {
        status & self.output_empty_mask != 0
    }
}

/// Whether a line-status value has any bit of `mask` set.
pub open spec fn status_ready(status: u8, mask: u8) -> bool {
    status & mask != 0
}

/// The default configuration puts the status register at `base + 5` and
/// tests bit 5 of it.
pub proof fn lemma_default_layout(c: SerialConfig)
    requires
        c.base == DEFAULT_BASE,
        c.line_status_offset == DEFAULT_LINE_STATUS_OFFSET,
        c.output_empty_mask == DEFAULT_OUTPUT_EMPTY_MASK,
    ensures
        c.wf(),
        c.line_status_spec() == c.base + c.line_status_offset,
        c.line_status_spec() == 0x0900_0005,
        c.output_empty_mask == 1u8 << 5u8,
{
    assert(1u8 << 5u8 == 0x20u8) by (bit_vector);
}

} // verus!
