use vstd::prelude::*;
use vstd::string::StringSliceAdditionalSpecFns;

use crate::config::{status_ready, SerialConfig};
use crate::registers::{MockRegisters, RegisterAccess, UartRegisters, MOCK_BUSY, MOCK_READY};

verus! {

/// The transmitter did not become ready within the spin limit.
#[derive(Clone, Copy, Debug, PartialEq, Eq)]
pub struct WriteError;

/// Whether a byte whose polling starts at the `pos`-th upcoming status finds
/// a ready status within `limit` polls.
pub open spec fn byte_ok<R: UartRegisters>(regs: R, mask: u8, pos: nat, limit: nat) -> bool
    decreases limit,
{
    if limit == 0 {
        false
    } else if status_ready(regs.status_at(pos), mask) {
        true
    } else {
        byte_ok(regs, mask, pos + 1, (limit - 1) as nat)
    }
}

/// How many status reads that byte takes: up to and including the first
/// ready status, or the whole limit when none comes.
pub open spec fn byte_polls<R: UartRegisters>(regs: R, mask: u8, pos: nat, limit: nat) -> nat
    decreases limit,
{
    if limit == 0 {
        0
    } else if status_ready(regs.status_at(pos), mask) {
        1
    } else {
        1 + byte_polls(regs, mask, pos + 1, (limit - 1) as nat)
    }
}

/// How many of `n` bytes go out when polling starts at the `pos`-th upcoming
/// status: each byte gets a fresh spin budget of `limit` polls, and the first
/// byte that times out ends the write.
pub open spec fn bytes_through<R: UartRegisters>(
    regs: R,
    mask: u8,
    limit: nat,
    pos: nat,
    n: nat,
) -> nat
    decreases n,
{
    if n == 0 {
        0
    } else if byte_ok(regs, mask, pos, limit) {
        1 + bytes_through(regs, mask, limit, pos + byte_polls(regs, mask, pos, limit), (n - 1) as nat)
    } else {
        0
    }
}

/// How many status reads writing those `n` bytes takes.
pub open spec fn reads_for<R: UartRegisters>(regs: R, mask: u8, limit: nat, pos: nat, n: nat) -> nat
    decreases n,
{
    if n == 0 {
        0
    } else if byte_ok(regs, mask, pos, limit) {
        byte_polls(regs, mask, pos, limit) + reads_for(
            regs,
            mask,
            limit,
            pos + byte_polls(regs, mask, pos, limit),
            (n - 1) as nat,
        )
    } else {
        byte_polls(regs, mask, pos, limit)
    }
}

/// The effect of writing `bytes` to registers that went from `before` to
/// `after`: the bytes up to the first one that timed out are sent, `ok`
/// tells whether that was all of them, and the status stream moves on by the
/// reads that were made.
pub open spec fn write_effect<R: UartRegisters>(
    before: R,
    after: R,
    mask: u8,
    limit: nat,
    bytes: Seq<u8>,
    ok: bool,
) -> bool {
    let k = bytes_through(before, mask, limit, 0, bytes.len());
    let rd = reads_for(before, mask, limit, 0, bytes.len());
    &&& ok == (k == bytes.len())
    &&& after.sent() == before.sent() + bytes.subrange(0, k as int)
    &&& after.reads() == before.reads() + rd
    &&& forall|j: nat| #[trigger] after.status_at(j) == before.status_at(j + rd)
}

/// The status reads of `n` polls from the `pos`-th upcoming status, in order.
pub open spec fn poll_reads<R: UartRegisters>(regs: R, pos: nat, n: nat) -> Seq<RegisterAccess> {
    Seq::new(n, |i: int| RegisterAccess::StatusRead(regs.status_at(pos + i as nat)))
}

/// A memory-mapped UART driven by polling, with a bound on how long it waits
/// for the transmitter.
pub struct SerialPort<R> {
    pub config: SerialConfig,
    pub regs: R,
}

/// Relies on core::hint::spin_loop: a processor hint inside a busy-wait, with
/// no effect on the program's state.
#[verifier::external_body]
fn spin_hint() {
    core::hint::spin_loop()
}

impl<R: UartRegisters> SerialPort<R> {
    /// A port over `regs`, which the caller has brought up already.
    pub fn new(config: SerialConfig, regs: R) -> (r: SerialPort<R>)
        ensures
            r.config == config,
            r.regs == regs,
    {
        SerialPort { config, regs }
    }

    /// Write one byte: poll the line status register up to the spin limit and
    /// store the byte at the first ready status. Nothing is written when the
    /// transmitter stays busy for the whole limit.
    pub fn write_byte_non_blocking(&mut self, byte: u8) -> (r: Result<(), WriteError>)
        ensures
            final(self).config == old(self).config,
            r.is_ok() == byte_ok(
                old(self).regs,
                old(self).config.output_empty_mask,
                0,
                old(self).config.write_spin_limit as nat,
            ),
            r.is_ok() ==> final(self).regs.sent() == old(self).regs.sent().push(byte),
            r.is_err() ==> final(self).regs.sent() == old(self).regs.sent(),
            final(self).regs.accesses() == old(self).regs.accesses() + poll_reads(
                old(self).regs,
                0,
                byte_polls(
                    old(self).regs,
                    old(self).config.output_empty_mask,
                    0,
                    old(self).config.write_spin_limit as nat,
                ),
            ) + if r.is_ok() {
                seq![RegisterAccess::DataWrite(byte)]
            } else {
                Seq::<RegisterAccess>::empty()
            },
            final(self).regs.reads() == old(self).regs.reads() + byte_polls(
                old(self).regs,
                old(self).config.output_empty_mask,
                0,
                old(self).config.write_spin_limit as nat,
            ),
            forall|j: nat| #[trigger]
                final(self).regs.status_at(j) == old(self).regs.status_at(
                    j + byte_polls(
                        old(self).regs,
                        old(self).config.output_empty_mask,
                        0,
                        old(self).config.write_spin_limit as nat,
                    ),
                ),
    {
        let ghost start = self.regs;
        let ghost mask = self.config.output_empty_mask;
        let limit = self.config.write_spin_limit;
        let mut i: usize = 0;
        while i < limit
            invariant
                self.config == old(self).config,
                start == old(self).regs,
                mask == self.config.output_empty_mask,
                limit == self.config.write_spin_limit,
                i <= limit,
                self.regs.sent() == start.sent(),
                self.regs.reads() == start.reads() + i,
                self.regs.accesses() == start.accesses() + poll_reads(start, 0, i as nat),
                forall|k: nat| #[trigger] self.regs.status_at(k) == start.status_at(k + i as nat),
                byte_ok(start, mask, 0, limit as nat) == byte_ok(
                    start,
                    mask,
                    i as nat,
                    (limit - i) as nat,
                ),
                byte_polls(start, mask, 0, limit as nat) == i + byte_polls(
                    start,
                    mask,
                    i as nat,
                    (limit - i) as nat,
                ),
            decreases limit - i,
        {
            let status = self.regs.read_line_status();
            assert(status == start.status_at(0 + i as nat));
            assert(poll_reads(start, 0, (i + 1) as nat) =~= poll_reads(start, 0, i as nat).push(
                RegisterAccess::StatusRead(status),
            ));
            if self.config.is_output_empty(status) {
                self.regs.write_data(byte);
                assert(self.regs.accesses() =~= start.accesses() + poll_reads(start, 0, (i + 1) as nat)
                    + seq![RegisterAccess::DataWrite(byte)]);
                assert forall|k: nat| #[trigger]
                    self.regs.status_at(k) == start.status_at(k + (i + 1) as nat) by {
                    assert(start.status_at((k + 1) + i as nat) == start.status_at(k + (i + 1) as nat));
                }
                return Ok(());
            }
            spin_hint();
            i = i + 1;
            assert forall|k: nat| #[trigger] self.regs.status_at(k) == start.status_at(k + i as nat) by {
                assert(start.status_at((k + 1) + (i - 1) as nat) == start.status_at(k + i as nat));
            }
        }
        assert(self.regs.accesses() =~= start.accesses() + poll_reads(start, 0, limit as nat)
            + Seq::<RegisterAccess>::empty());
        Err(WriteError)
    }

    /// Write the bytes in order, each with its own spin budget, stopping at the
    /// first byte that could not be written. Bytes already sent stay sent.
    pub fn write_bytes(&mut self, bytes: &[u8]) -> (r: Result<(), WriteError>)
        ensures
            final(self).config == old(self).config,
            write_effect(
                old(self).regs,
                final(self).regs,
                old(self).config.output_empty_mask,
                old(self).config.write_spin_limit as nat,
                bytes@,
                r.is_ok(),
            ),
    {
        let ghost start = self.regs;
        let ghost mask = self.config.output_empty_mask;
        let ghost limit = self.config.write_spin_limit as nat;
        let ghost n = bytes@.len();
        let ghost mut pos: nat = 0;
        let mut i: usize = 0;
        while i < bytes.len()
            invariant
                self.config == old(self).config,
                start == old(self).regs,
                mask == self.config.output_empty_mask,
                limit == self.config.write_spin_limit,
                n == bytes@.len(),
                i <= n,
                self.regs.sent() == start.sent() + bytes@.subrange(0, i as int),
                self.regs.reads() == start.reads() + pos,
                forall|k: nat| #[trigger] self.regs.status_at(k) == start.status_at(k + pos),
                bytes_through(start, mask, limit, 0, n) == i + bytes_through(
                    start,
                    mask,
                    limit,
                    pos,
                    (n - i) as nat,
                ),
                reads_for(start, mask, limit, 0, n) == pos + reads_for(
                    start,
                    mask,
                    limit,
                    pos,
                    (n - i) as nat,
                ),
            decreases n - i,
        {
            let ghost cur = self.regs;
            proof {
                lemma_byte_shift(cur, start, mask, pos, 0, limit);
            }
            let r = self.write_byte_non_blocking(bytes[i]);
            let ghost p = byte_polls(start, mask, pos, limit);
            match r {
                Ok(()) => {},
                Err(e) => {
                    assert forall|k: nat| #[trigger]
                        self.regs.status_at(k) == start.status_at(k + (pos + p)) by {
                        assert(cur.status_at(k + p) == start.status_at((k + p) + pos));
                    }
                    assert(bytes@.subrange(0, i as int) =~= bytes@.subrange(
                        0,
                        bytes_through(start, mask, limit, 0, n) as int,
                    ));
                    return Err(e);
                },
            }
            assert forall|k: nat| #[trigger] self.regs.status_at(k) == start.status_at(k + (pos + p)) by {
                assert(cur.status_at(k + p) == start.status_at((k + p) + pos));
            }
            assert(bytes@.subrange(0, i + 1) =~= bytes@.subrange(0, i as int).push(bytes@[i as int]));
            proof {
                pos = pos + p;
            }
            i = i + 1;
        }
        assert(bytes@.subrange(0, n as int) =~= bytes@);
        Ok(())
    }

    /// Write the UTF-8 bytes of `s`, as `write_bytes` does.
    pub fn write_str(&mut self, s: &str) -> (r: Result<(), WriteError>)
        ensures
            final(self).config == old(self).config,
            write_effect(
                old(self).regs,
                final(self).regs,
                old(self).config.output_empty_mask,
                old(self).config.write_spin_limit as nat,
                s.spec_bytes(),
                r.is_ok(),
            ),
    {
        self.write_bytes(s.as_bytes())
    }
}

/// Registers whose status stream is that of `b` moved on by `d` reads behave,
/// for one byte, as `b` does `d` positions later.
proof fn lemma_byte_shift<R: UartRegisters>(a: R, b: R, mask: u8, d: nat, q: nat, limit: nat)
    requires
        forall|j: nat| #[trigger] a.status_at(j) == b.status_at(j + d),
    ensures
        byte_ok(a, mask, q, limit) == byte_ok(b, mask, q + d, limit),
        byte_polls(a, mask, q, limit) == byte_polls(b, mask, q + d, limit),
    decreases limit,
{
    if limit > 0 {
        assert(a.status_at(q) == b.status_at(q + d));
        lemma_byte_shift(a, b, mask, d, q + 1, (limit - 1) as nat);
        assert(q + 1 + d == q + d + 1);
    }
}

/// The same for a run of `n` bytes.
proof fn lemma_bytes_shift<R: UartRegisters>(
    a: R,
    b: R,
    mask: u8,
    limit: nat,
    d: nat,
    q: nat,
    n: nat,
)
    requires
        forall|j: nat| #[trigger] a.status_at(j) == b.status_at(j + d),
    ensures
        bytes_through(a, mask, limit, q, n) == bytes_through(b, mask, limit, q + d, n),
        reads_for(a, mask, limit, q, n) == reads_for(b, mask, limit, q + d, n),
    decreases n,
{
    if n > 0 {
        lemma_byte_shift(a, b, mask, d, q, limit);
        let p = byte_polls(a, mask, q, limit);
        lemma_bytes_shift(a, b, mask, limit, d, q + p, (n - 1) as nat);
        assert(q + p + d == q + d + p);
    }
}

/// Writing `n1 + n2` bytes is writing `n1` bytes and then, if all of them
/// went out, `n2` more from where the first run left the status stream.
proof fn lemma_bytes_concat<R: UartRegisters>(
    regs: R,
    mask: u8,
    limit: nat,
    pos: nat,
    n1: nat,
    n2: nat,
)
    ensures
        bytes_through(regs, mask, limit, pos, n1 + n2) == if bytes_through(
            regs,
            mask,
            limit,
            pos,
            n1,
        ) == n1 {
            n1 + bytes_through(regs, mask, limit, pos + reads_for(regs, mask, limit, pos, n1), n2)
        } else {
            bytes_through(regs, mask, limit, pos, n1)
        },
        reads_for(regs, mask, limit, pos, n1 + n2) == if bytes_through(regs, mask, limit, pos, n1)
            == n1 {
            reads_for(regs, mask, limit, pos, n1) + reads_for(
                regs,
                mask,
                limit,
                pos + reads_for(regs, mask, limit, pos, n1),
                n2,
            )
        } else {
            reads_for(regs, mask, limit, pos, n1)
        },
        bytes_through(regs, mask, limit, pos, n1) <= n1,
    decreases n1,
{
    if n1 > 0 {
        let p = byte_polls(regs, mask, pos, limit);
        lemma_bytes_concat(regs, mask, limit, pos + p, (n1 - 1) as nat, n2);
        assert((n1 + n2 - 1) as nat == (n1 - 1) as nat + n2);
    } else {
        assert(n1 + n2 == n2);
    }
}

/// A write that went through in full followed by another write has the
/// effect of one write of both byte strings, in that order.
pub proof fn lemma_write_then_write<R: UartRegisters>(
    s0: R,
    s1: R,
    s2: R,
    mask: u8,
    limit: nat,
    a: Seq<u8>,
    b: Seq<u8>,
    ok: bool,
)
    requires
        write_effect(s0, s1, mask, limit, a, true),
        write_effect(s1, s2, mask, limit, b, ok),
    ensures
        write_effect(s0, s2, mask, limit, a + b, ok),
{
    let r1 = reads_for(s0, mask, limit, 0, a.len());
    lemma_bytes_shift(s1, s0, mask, limit, r1, 0, b.len());
    lemma_bytes_concat(s0, mask, limit, 0, a.len(), b.len());
    assert((a + b).len() == a.len() + b.len());
    let k2 = bytes_through(s1, mask, limit, 0, b.len());
    lemma_bytes_concat(s1, mask, limit, 0, b.len(), 0);
    assert((a + b).subrange(0, (a.len() + k2) as int) =~= a + b.subrange(0, k2 as int));
    assert(a.subrange(0, a.len() as int) =~= a);
    let r2 = reads_for(s1, mask, limit, 0, b.len());
    assert(bytes_through(s0, mask, limit, 0, a.len()) == a.len());
    assert(bytes_through(s1, mask, limit, 0, b.len()) == bytes_through(s0, mask, limit, 0 + r1, b.len()));
    assert(bytes_through(s0, mask, limit, 0, (a + b).len()) == a.len() + k2);
    assert(reads_for(s0, mask, limit, 0, (a + b).len()) == r1 + r2);
    assert(s2.sent() == s0.sent() + (a + b).subrange(0, (a.len() + k2) as int));
    assert forall|j: nat| #[trigger] s2.status_at(j) == s0.status_at(j + (r1 + r2)) by {
        assert(s1.status_at(j + r2) == s0.status_at((j + r2) + r1));
        assert((j + r2) + r1 == j + (r1 + r2));
    }
}

/// A write that stopped short has the effect that a write of more bytes
/// after it would have had: the extra bytes are never tried.
pub proof fn lemma_failed_write_covers<R: UartRegisters>(
    s0: R,
    s1: R,
    mask: u8,
    limit: nat,
    a: Seq<u8>,
    b: Seq<u8>,
)
    requires
        write_effect(s0, s1, mask, limit, a, false),
    ensures
        write_effect(s0, s1, mask, limit, a + b, false),
{
    lemma_bytes_concat(s0, mask, limit, 0, a.len(), b.len());
    let k = bytes_through(s0, mask, limit, 0, a.len());
    assert((a + b).subrange(0, k as int) =~= a.subrange(0, k as int));
}

/// A write never makes more than `limit` status reads per byte, nor sends
/// more bytes than it was given.
pub proof fn lemma_write_bounded<R: UartRegisters>(
    regs: R,
    mask: u8,
    limit: nat,
    pos: nat,
    n: nat,
)
    ensures
        bytes_through(regs, mask, limit, pos, n) <= n,
        reads_for(regs, mask, limit, pos, n) <= n * limit,
    decreases n,
{
    if n > 0 {
        lemma_polls_bounded(regs, mask, pos, limit);
        let p = byte_polls(regs, mask, pos, limit);
        lemma_write_bounded(regs, mask, limit, pos + p, (n - 1) as nat);
        assert((n - 1) as nat * limit + limit == n * limit) by (nonlinear_arith)
            requires
                n > 0,
        ;
    }
}

proof fn lemma_polls_bounded<R: UartRegisters>(regs: R, mask: u8, pos: nat, limit: nat)
    ensures
        byte_polls(regs, mask, pos, limit) <= limit,
    decreases limit,
{
    if limit > 0 {
        lemma_polls_bounded(regs, mask, pos + 1, (limit - 1) as nat);
    }
}

/// Where the status register reports ready on every read and the spin limit
/// is not zero, every byte goes out on its first poll.
pub proof fn lemma_ready_stream_sends_all<R: UartRegisters>(
    regs: R,
    mask: u8,
    limit: nat,
    pos: nat,
    n: nat,
)
    requires
        limit > 0,
        forall|j: nat| #[trigger] status_ready(regs.status_at(j), mask),
    ensures
        bytes_through(regs, mask, limit, pos, n) == n,
        reads_for(regs, mask, limit, pos, n) == n,
    decreases n,
{
    if n > 0 {
        assert(status_ready(regs.status_at(pos), mask));
        lemma_ready_stream_sends_all(regs, mask, limit, pos + 1, (n - 1) as nat);
    }
}

/// Where the `k`-th status from `pos` is the first ready one and `k` is under
/// the limit, the byte goes out after exactly `k + 1` reads.
pub proof fn lemma_first_ready<R: UartRegisters>(
    regs: R,
    mask: u8,
    pos: nat,
    limit: nat,
    k: nat,
)
    requires
        k < limit,
        status_ready(regs.status_at(pos + k), mask),
        forall|j: nat| j < k ==> !#[trigger] status_ready(regs.status_at(pos + j), mask),
    ensures
        byte_ok(regs, mask, pos, limit),
        byte_polls(regs, mask, pos, limit) == k + 1,
    decreases k,
{
    if k > 0 {
        assert(!status_ready(regs.status_at(pos + 0), mask));
        assert forall|j: nat| j < (k - 1) as nat implies !#[trigger] status_ready(
            regs.status_at((pos + 1) + j),
            mask,
        ) by {
            assert(!status_ready(regs.status_at(pos + (j + 1)), mask));
            assert((pos + 1) + j == pos + (j + 1));
        }
        assert((pos + 1) + (k - 1) as nat == pos + k);
        lemma_first_ready(regs, mask, pos + 1, (limit - 1) as nat, (k - 1) as nat);
    } else {
        assert(pos + 0 == pos);
    }
}

/// Where none of the `limit` statuses from `pos` is ready, the byte fails
/// after exactly `limit` reads.
pub proof fn lemma_none_ready<R: UartRegisters>(regs: R, mask: u8, pos: nat, limit: nat)
    requires
        forall|j: nat| j < limit ==> !#[trigger] status_ready(regs.status_at(pos + j), mask),
    ensures
        !byte_ok(regs, mask, pos, limit),
        byte_polls(regs, mask, pos, limit) == limit,
    decreases limit,
{
    if limit > 0 {
        assert(!status_ready(regs.status_at(pos + 0), mask));
        assert forall|j: nat| j < (limit - 1) as nat implies !#[trigger] status_ready(
            regs.status_at((pos + 1) + j),
            mask,
        ) by {
            assert(!status_ready(regs.status_at(pos + (j + 1)), mask));
            assert((pos + 1) + j == pos + (j + 1));
        }
        lemma_none_ready(regs, mask, pos + 1, (limit - 1) as nat);
    }
}

/// An in-memory UART that reports busy for fewer reads than the spin limit,
/// and then ready under a mask that sees its ready bit, lets a byte through
/// after exactly its busy reads and one more.
pub proof fn lemma_mock_ready_before_limit(m: MockRegisters, mask: u8, limit: nat)
    requires
        !m.is_never_ready(),
        m.busy_reads_left() < limit,
        status_ready(MOCK_READY, mask),
    ensures
        byte_ok(m, mask, 0, limit),
        byte_polls(m, mask, 0, limit) == m.busy_reads_left() + 1,
{
    lemma_busy_never_ready(mask);
    let n = m.busy_reads_left();
    assert(status_ready(m.status_at(0 + n), mask));
    assert forall|j: nat| j < n implies !#[trigger] status_ready(m.status_at(0 + j), mask) by {
        assert(m.status_at(0 + j) == MOCK_BUSY);
    }
    lemma_first_ready(m, mask, 0, limit, n);
}

/// An in-memory UART that is never ready makes a byte write fail after
/// exactly `limit` polls, however long the spin limit.
pub proof fn lemma_mock_never_ready(m: MockRegisters, mask: u8, limit: nat)
    requires
        m.is_never_ready(),
    ensures
        !byte_ok(m, mask, 0, limit),
        byte_polls(m, mask, 0, limit) == limit,
{
    lemma_busy_never_ready(mask);
    assert forall|j: nat| j < limit implies !#[trigger] status_ready(m.status_at(0 + j), mask) by {
        assert(m.status_at(0 + j) == MOCK_BUSY);
    }
    lemma_none_ready(m, mask, 0, limit);
}

/// An in-memory UART with no busy reads left reports ready on every read,
/// under a mask that sees its ready bit.
pub proof fn lemma_mock_always_ready(m: MockRegisters, mask: u8)
    requires
        !m.is_never_ready(),
        m.busy_reads_left() == 0,
        status_ready(MOCK_READY, mask),
    ensures
        forall|j: nat| #[trigger] status_ready(m.status_at(j), mask),
{
}

proof fn lemma_busy_never_ready(mask: u8)
    ensures
        !status_ready(MOCK_BUSY, mask),
{
    assert(0u8 & mask == 0) by (bit_vector);
}

} // verus!
