//! SPI-side logic: the software-backed PSRAM store used for time banks, the
//! PSRAM command frames, and the host command/response encoding.

use vstd::prelude::*;
use std::collections::BTreeMap;

verus! {

broadcast use vstd::laws_cmp::group_laws_cmp;

/// SPI error types
#[derive(Debug, Clone, Copy, PartialEq, Eq, Structural)]
pub enum SpiError {
    BusError,
    DeviceError,
    Timeout,
    InvalidAddress,
    BufferTooLarge,
}

/// PSRAM bank size used by the time-slicing layer (64 KiB).
pub const BANK_SIZE: u32 = 65536;

/// Total PSRAM capacity available to the firmware (64 MiB).
pub const PSRAM_CAPACITY_BYTES: u32 = 67108864;

/// PSRAM command set.
#[derive(Debug, Clone, Copy, PartialEq, Eq, Structural)]
pub enum PsramCommand {
    /// Read data
    Read,
    /// Fast read
    FastRead,
    /// Page program (write)
    PageProgram,
    /// Sector erase (4KB)
    SectorErase,
    /// Block erase (64KB)
    BlockErase,
    /// Chip erase
    ChipErase,
    /// Read status register
    ReadStatus,
    /// Write enable
    WriteEnable,
    /// Write disable
    WriteDisable,
    /// Read JEDEC ID
    ReadJedecId,
}

impl PsramCommand {
    pub open spec fn code_spec(self) -> u8 {
        match self {
            PsramCommand::Read => 0x03,
            PsramCommand::FastRead => 0x0B,
            PsramCommand::PageProgram => 0x02,
            PsramCommand::SectorErase => 0x20,
            PsramCommand::BlockErase => 0xD8,
            PsramCommand::ChipErase => 0xC7,
            PsramCommand::ReadStatus => 0x05,
            PsramCommand::WriteEnable => 0x06,
            PsramCommand::WriteDisable => 0x04,
            PsramCommand::ReadJedecId => 0x9F,
        }
    }

    /// The opcode byte sent on the bus.
    pub fn code(self) -> (r: u8)
        ensures
            r == self.code_spec(),
    {
        match self {
            PsramCommand::Read => 0x03,
            PsramCommand::FastRead => 0x0B,
            PsramCommand::PageProgram => 0x02,
            PsramCommand::SectorErase => 0x20,
            PsramCommand::BlockErase => 0xD8,
            PsramCommand::ChipErase => 0xC7,
            PsramCommand::ReadStatus => 0x05,
            PsramCommand::WriteEnable => 0x06,
            PsramCommand::WriteDisable => 0x04,
            PsramCommand::ReadJedecId => 0x9F,
        }
    }
}

/// The abstract state of the PSRAM store: whether it is enabled, and the
/// bytes written so far (unwritten bytes read as zero).
pub ghost struct PsramView {
    pub enabled: bool,
    pub memory: Map<u32, u8>,
}

/// Software-backed PSRAM: a byte store addressed by `u32`.
pub struct Psram {
    enabled: bool,
    memory: BTreeMap<u32, u8>,
}

impl View for Psram {
    type V = PsramView;

    closed spec fn view(&self) -> PsramView {
        PsramView { enabled: self.enabled, memory: self.memory@ }
    }
}

/// The byte at an address: the last byte written there, or 0.
pub open spec fn psram_byte(m: Map<u32, u8>, a: int) -> u8 {
    if 0 <= a <= u32::MAX && m.contains_key(a as u32) {
        m[a as u32]
    } else {
        0
    }
}

/// `len` bytes read from `addr`.
pub open spec fn psram_bytes(m: Map<u32, u8>, addr: int, len: int) -> Seq<u8> {
    Seq::new(len as nat, |i: int| psram_byte(m, addr + i))
}

/// Whether `[addr, addr + len)` lies inside the PSRAM.
pub open spec fn psram_range_ok(addr: u32, len: int) -> bool {
    addr + len <= PSRAM_CAPACITY_BYTES
}

/// The memory after writing `data` at `addr`.
pub open spec fn psram_written(m: Map<u32, u8>, addr: u32, data: Seq<u8>) -> Map<u32, u8> {
    Map::new(
        |a: u32| m.contains_key(a) || (addr <= a < addr + data.len()),
        |a: u32|
            if addr <= a < addr + data.len() {
                data[a - addr]
            } else {
                m[a]
            },
    )
}

impl Psram {
    /// A store that is disabled and holds no data.
    pub fn new() -> (r: Self)
        ensures
            r@ == (PsramView { enabled: false, memory: Map::empty() }),
    {
        Psram { enabled: false, memory: BTreeMap::new() }
    }
}

/// Check that `[addr, addr + len)` lies inside the PSRAM.
pub fn validate_psram_range(addr: u32, len: usize) -> (r: Result<(), SpiError>)
    requires
        len <= u32::MAX,
    ensures
        r is Ok <==> psram_range_ok(addr, len as int),
        r matches Err(e) ==> e == SpiError::InvalidAddress,
{
    let l = len as u32;
    if l > u32::MAX - addr {
        return Err(SpiError::InvalidAddress);
    }
    let end = addr + l;
    if end > PSRAM_CAPACITY_BYTES {
        return Err(SpiError::InvalidAddress);
    }
    Ok(())
}

/// The three address bytes of a PSRAM command, most significant first.
pub fn encode_address(addr: u32) -> (r: [u8; 3])
    ensures
        r@ == seq![((addr / 65536) % 256) as u8, ((addr / 256) % 256) as u8, (addr % 256) as u8],
{
    let b0 = ((addr >> 16u32) & 0xff) as u8;
    let b1 = ((addr >> 8u32) & 0xff) as u8;
    let b2 = (addr & 0xff) as u8;
    assert(((addr >> 16u32) & 0xff) == (addr / 65536) % 256) by (bit_vector);
    assert(((addr >> 8u32) & 0xff) == (addr / 256) % 256) by (bit_vector);
    assert((addr & 0xff) == addr % 256) by (bit_vector);
    let r = [b0, b1, b2];
    assert(r@ =~= seq![((addr / 65536) % 256) as u8, ((addr / 256) % 256) as u8, (addr % 256) as u8]);
    r
}

/// Enable the PSRAM interface.
pub fn psram_enable(psram: &mut Psram) -> (r: Result<(), SpiError>)
    ensures
        r is Ok,
        final(psram)@ == (PsramView { enabled: true, ..old(psram)@ }),
{
    psram.enabled = true;
    Ok(())
}

/// Reset the PSRAM interface: the store is cleared and disabled.
pub fn psram_reset(psram: &mut Psram) -> (r: Result<(), SpiError>)
    ensures
        r is Ok,
        final(psram)@ == (PsramView { enabled: false, memory: Map::empty() }),
{
    psram.enabled = false;
    psram.memory = BTreeMap::new();
    Ok(())
}

/// Write bytes at `addr`; the range must lie inside the PSRAM.
pub fn psram_write(psram: &mut Psram, addr: u32, data: &[u8]) -> (r: Result<(), SpiError>)
    requires
        data@.len() <= u32::MAX,
    ensures
        r is Ok <==> psram_range_ok(addr, data@.len() as int),
        r matches Err(e) ==> e == SpiError::InvalidAddress,
        r is Ok ==> final(psram)@ == (PsramView {
            enabled: true,
            memory: psram_written(old(psram)@.memory, addr, data@),
        }),
        r is Err ==> final(psram)@ == old(psram)@,
{
    validate_psram_range(addr, data.len())?;
    psram.enabled = true;
    let n = data.len();
    let ghost m0 = psram.memory@;
    let mut i: usize = 0;
    while i < n
        invariant
            n == data@.len(),
            i <= n,
            psram_range_ok(addr, n as int),
            psram.enabled,
            psram.memory@ == psram_written(m0, addr, data@.subrange(0, i as int)),
        decreases n - i,
    {
        let a = addr + i as u32;
        psram.memory.insert(a, data[i]);
        assert(psram.memory@ =~= psram_written(m0, addr, data@.subrange(0, i + 1)));
        i += 1;
    }
    assert(data@.subrange(0, n as int) =~= data@);
    Ok(())
}

/// Read `len` bytes from `addr` (unwritten bytes read as 0); the range must
/// lie inside the PSRAM.
pub fn psram_read(psram: &mut Psram, addr: u32, len: usize) -> (r: Result<Vec<u8>, SpiError>)
    requires
        len <= u32::MAX,
    ensures
        r is Ok <==> psram_range_ok(addr, len as int),
        r matches Err(e) ==> e == SpiError::InvalidAddress,
        r matches Ok(d) ==> d@ == psram_bytes(old(psram)@.memory, addr as int, len as int),
        r is Ok ==> final(psram)@ == (PsramView { enabled: true, ..old(psram)@ }),
        r is Err ==> final(psram)@ == old(psram)@,
{
    validate_psram_range(addr, len)?;
    psram.enabled = true;
    let mut out: Vec<u8> = Vec::new();
    let mut i: usize = 0;
    while i < len
        invariant
            i <= len,
            psram_range_ok(addr, len as int),
            out@ == psram_bytes(psram.memory@, addr as int, i as int),
        decreases len - i,
    {
        let a = addr + i as u32;
        let b = match psram.memory.get(&a) {
            Some(v) => *v,
            None => 0u8,
        };
        out.push(b);
        assert(out@ =~= psram_bytes(psram.memory@, addr as int, i + 1));
        i += 1;
    }
    Ok(out)
}

/// A successful write is read back unchanged.
pub proof fn law_psram_read_after_write(m: Map<u32, u8>, addr: u32, data: Seq<u8>)
    requires
        psram_range_ok(addr, data.len() as int),
    ensures
        psram_bytes(psram_written(m, addr, data), addr as int, data.len() as int) == data,
{
    assert(psram_bytes(psram_written(m, addr, data), addr as int, data.len() as int) =~= data);
}

/// A write leaves every byte outside its range as it was.
pub proof fn law_psram_write_elsewhere(m: Map<u32, u8>, addr: u32, data: Seq<u8>, a: int)
    requires
        psram_range_ok(addr, data.len() as int),
        a < addr || a >= addr + data.len(),
    ensures
        psram_byte(psram_written(m, addr, data), a) == psram_byte(m, a),
{
}


/// The memory after a sequence of `psram_write` calls, each given as its
/// address and bytes; a call whose range does not fit changes nothing.
pub open spec fn psram_writes(m: Map<u32, u8>, ws: Seq<(u32, Seq<u8>)>) -> Map<u32, u8>
    decreases ws.len(),
{
    if ws.len() == 0 {
        m
    } else {
        let prev = psram_writes(m, ws.drop_last());
        let (a, d) = ws.last();
        if psram_range_ok(a, d.len() as int) {
            psram_written(prev, a, d)
        } else {
            prev
        }
    }
}

/// Whether a write of `d` at `a` touches none of the bytes `[lo, hi)`.
pub open spec fn psram_write_misses(w: (u32, Seq<u8>), lo: int, hi: int) -> bool {
    w.0 + w.1.len() <= lo || w.0 >= hi
}

/// Writes that miss an address leave its byte as it was.
proof fn lemma_psram_writes_keep(m: Map<u32, u8>, ws: Seq<(u32, Seq<u8>)>, a: int)
    requires
        forall|k: int| 0 <= k < ws.len() ==> #[trigger] psram_write_misses(ws[k], a, a + 1),
    ensures
        psram_byte(psram_writes(m, ws), a) == psram_byte(m, a),
    decreases ws.len(),
{
    if ws.len() > 0 {
        let wp = ws.drop_last();
        assert forall|k: int| 0 <= k < wp.len() implies #[trigger] psram_write_misses(wp[k], a, a + 1) by {
            assert(psram_write_misses(ws[k], a, a + 1));
        }
        lemma_psram_writes_keep(m, wp, a);
        assert(psram_write_misses(ws[ws.len() - 1], a, a + 1));
    }
}

/// Bytes written by a successful `psram_write` read back unchanged after any
/// sequence of later writes that touch none of them (reads change no byte).
pub proof fn law_psram_read_after_writes(
    m: Map<u32, u8>,
    addr: u32,
    data: Seq<u8>,
    later: Seq<(u32, Seq<u8>)>,
)
    requires
        psram_range_ok(addr, data.len() as int),
        forall|k: int|
            0 <= k < later.len() ==> #[trigger] psram_write_misses(later[k], addr as int, addr + data.len()),
    ensures
        psram_bytes(psram_writes(psram_written(m, addr, data), later), addr as int, data.len() as int)
            == data,
{
    let m1 = psram_written(m, addr, data);
    assert forall|i: int| 0 <= i < data.len() implies psram_byte(psram_writes(m1, later), addr + i)
        == data[i] by {
        assert forall|k: int| 0 <= k < later.len() implies #[trigger] psram_write_misses(
            later[k],
            addr + i,
            addr + i + 1,
        ) by {
            assert(psram_write_misses(later[k], addr as int, addr + data.len()));
        }
        lemma_psram_writes_keep(m1, later, addr + i);
    }
    assert(psram_bytes(psram_writes(m1, later), addr as int, data.len() as int) =~= data);
}

/// After `psram_reset`, a byte that no later write touched reads back as 0.
pub proof fn law_psram_unwritten_reads_zero(ws: Seq<(u32, Seq<u8>)>, a: int)
    requires
        forall|k: int| 0 <= k < ws.len() ==> #[trigger] psram_write_misses(ws[k], a, a + 1),
    ensures
        psram_byte(psram_writes(Map::empty(), ws), a) == 0,
{
    lemma_psram_writes_keep(Map::empty(), ws, a);
}

/// The byte at index `i`, or 0 past the end.
pub open spec fn byte_or_zero(data: Seq<u8>, i: int) -> u8 {
    if 0 <= i < data.len() {
        data[i]
    } else {
        0
    }
}

/// `hi * 256 + lo`.
pub open spec fn be16(hi: u8, lo: u8) -> u16 {
    (hi * 256 + lo) as u16
}

pub fn join16(hi: u8, lo: u8) -> (r: u16)
    ensures
        r == be16(hi, lo),
{
    let r = ((hi as u16) << 8u16) | (lo as u16);
    assert(((hi as u16) << 8u16) | (lo as u16) == hi * 256 + lo) by (bit_vector);
    r
}

fn get_or_zero(data: &[u8], i: usize) -> (r: u8)
    ensures
        r == byte_or_zero(data@, i as int),
{
    if i < data.len() {
        data[i]
    } else {
        0
    }
}

/// Commands from the host PC.
#[derive(Debug, Clone, Copy, PartialEq, Eq, Structural)]
pub enum HostCommand {
    /// Read from memory
    Read { bank: u8, address: u16 },
    /// Write to memory
    Write { bank: u8, address: u16, data: u32 },
    /// Apply phase to node
    ApplyPhase { node_id: u16, angle: u16 },
    /// Measure conductance
    MeasureConductance { node_id: u16 },
    /// Evolve system one time step
    Evolve { alpha: u16 },
    /// Synchronize time states
    SyncTime,
    /// Get status
    GetStatus,
    /// Reset chip
    Reset,
}

/// Four bytes read as a little-endian `u32`.
pub open spec fn le32(b0: u8, b1: u8, b2: u8, b3: u8) -> u32 {
    (b0 + 256 * b1 + 65536 * b2 + 16777216 * b3) as u32
}

pub fn join_le32(b0: u8, b1: u8, b2: u8, b3: u8) -> (r: u32)
    ensures
        r == le32(b0, b1, b2, b3),
{
    let r = (b0 as u32) | ((b1 as u32) << 8u32) | ((b2 as u32) << 16u32) | ((b3 as u32) << 24u32);
    assert((b0 as u32) | ((b1 as u32) << 8u32) | ((b2 as u32) << 16u32) | ((b3 as u32) << 24u32)
        == b0 + 256 * b1 + 65536 * b2 + 16777216 * b3) by (bit_vector);
    r
}

/// The command that a header and payload decode to.
pub open spec fn decode_spec(cmd_id: u8, param1: u8, param2: u8, data: Seq<u8>) -> Option<HostCommand> {
    if cmd_id == 0x01 {
        Some(HostCommand::Read { bank: param1, address: be16(param2, byte_or_zero(data, 0)) })
    } else if cmd_id == 0x02 {
        Some(
            HostCommand::Write {
                bank: param1,
                address: be16(param2, byte_or_zero(data, 0)),
                data: le32(
                    byte_or_zero(data, 1),
                    byte_or_zero(data, 2),
                    byte_or_zero(data, 3),
                    byte_or_zero(data, 4),
                ),
            },
        )
    } else if cmd_id == 0x03 {
        Some(
            HostCommand::ApplyPhase {
                node_id: be16(param1, param2),
                angle: be16(byte_or_zero(data, 0), byte_or_zero(data, 1)),
            },
        )
    } else if cmd_id == 0x04 {
        Some(HostCommand::MeasureConductance { node_id: be16(param1, param2) })
    } else if cmd_id == 0x05 {
        Some(HostCommand::Evolve { alpha: be16(param1, param2) })
    } else if cmd_id == 0x06 {
        Some(HostCommand::SyncTime)
    } else if cmd_id == 0x07 {
        Some(HostCommand::GetStatus)
    } else if cmd_id == 0x08 {
        Some(HostCommand::Reset)
    } else {
        None
    }
}

impl HostCommand {
    /// Decode a command from its header bytes and payload; unknown ids give
    /// `None`, missing payload bytes read as 0.
    pub fn decode(cmd_id: u8, param1: u8, param2: u8, data: &[u8]) -> (r: Option<Self>)
        ensures
            r == decode_spec(cmd_id, param1, param2, data@),
    {
        match cmd_id {
            0x01 => Some(
                HostCommand::Read { bank: param1, address: join16(param2, get_or_zero(data, 0)) },
            ),
            0x02 => Some(
                HostCommand::Write {
                    bank: param1,
                    address: join16(param2, get_or_zero(data, 0)),
                    data: join_le32(
                        get_or_zero(data, 1),
                        get_or_zero(data, 2),
                        get_or_zero(data, 3),
                        get_or_zero(data, 4),
                    ),
                },
            ),
            0x03 => Some(
                HostCommand::ApplyPhase {
                    node_id: join16(param1, param2),
                    angle: join16(get_or_zero(data, 0), get_or_zero(data, 1)),
                },
            ),
            0x04 => Some(HostCommand::MeasureConductance { node_id: join16(param1, param2) }),
            0x05 => Some(HostCommand::Evolve { alpha: join16(param1, param2) }),
            0x06 => Some(HostCommand::SyncTime),
            0x07 => Some(HostCommand::GetStatus),
            0x08 => Some(HostCommand::Reset),
            _ => None,
        }
    }
}

/// Responses to the host PC.
#[derive(Debug, Clone, Copy, PartialEq, Eq, Structural)]
pub enum HostResponse {
    /// Read data response
    ReadData { data: u32 },
    /// Write acknowledge
    WriteAck,
    /// Phase applied acknowledge
    PhaseAck,
    /// Conductance measurement result
    ConductanceResult { value: u16 },
    /// Evolution complete
    EvolutionComplete,
    /// Sync complete
    SyncComplete,
    /// Status response
    Status { firmware_version: u16, node_count: u16, current_time_bank: u8, flags: u8 },
    /// Reset acknowledge
    ResetAck,
    /// Error response
    Error { code: u8 },
}

pub fn low_byte_u16(x: u16) -> (r: u8)
    ensures
        r == x % 256,
{
    let r = (x & 0xff) as u8;
    assert(x & 0xff == x % 256) by (bit_vector);
    r
}

pub fn high_byte_u16(x: u16) -> (r: u8)
    ensures
        r == x / 256,
{
    let r = (x >> 8u16) as u8;
    assert(x >> 8u16 == x / 256) by (bit_vector);
    r
}

/// The four little-endian bytes of a `u32`.
pub open spec fn le32_bytes(x: u32) -> Seq<u8> {
    seq![(x % 256) as u8, ((x / 256) % 256) as u8, ((x / 65536) % 256) as u8, (x / 16777216) as u8]
}

pub fn u32_le_bytes(x: u32) -> (r: [u8; 4])
    ensures
        r@ == le32_bytes(x),
{
    let b0 = (x & 0xff) as u8;
    let b1 = ((x >> 8u32) & 0xff) as u8;
    let b2 = ((x >> 16u32) & 0xff) as u8;
    let b3 = (x >> 24u32) as u8;
    assert(x & 0xff == x % 256) by (bit_vector);
    assert((x >> 8u32) & 0xff == (x / 256) % 256) by (bit_vector);
    assert((x >> 16u32) & 0xff == (x / 65536) % 256) by (bit_vector);
    assert(x >> 24u32 == x / 16777216) by (bit_vector);
    let r = [b0, b1, b2, b3];
    assert(r@ =~= le32_bytes(x));
    r
}

/// The eight bytes a response is sent as.
pub open spec fn encode_spec(r: HostResponse) -> Seq<u8> {
    match r {
        HostResponse::ReadData { data } => seq![0x81u8] + le32_bytes(data) + seq![0u8, 0u8, 0u8],
        HostResponse::WriteAck => seq![0x82u8, 0, 0, 0, 0, 0, 0, 0],
        HostResponse::PhaseAck => seq![0x83u8, 0, 0, 0, 0, 0, 0, 0],
        HostResponse::ConductanceResult { value } => seq![
            0x84u8,
            (value % 256) as u8,
            (value / 256) as u8,
            0,
            0,
            0,
            0,
            0,
        ],
        HostResponse::EvolutionComplete => seq![0x85u8, 0, 0, 0, 0, 0, 0, 0],
        HostResponse::SyncComplete => seq![0x86u8, 0, 0, 0, 0, 0, 0, 0],
        HostResponse::Status { firmware_version, node_count, current_time_bank, flags } => seq![
            0x87u8,
            (firmware_version % 256) as u8,
            (firmware_version / 256) as u8,
            (node_count % 256) as u8,
            (node_count / 256) as u8,
            current_time_bank,
            flags,
            0,
        ],
        HostResponse::ResetAck => seq![0x88u8, 0, 0, 0, 0, 0, 0, 0],
        HostResponse::Error { code } => seq![0xFFu8, code, 0, 0, 0, 0, 0, 0],
    }
}

impl HostResponse {
    /// Encode the response as eight bytes: a tag byte, then little-endian
    /// fields, then zero padding.
    pub fn encode(&self) -> (r: [u8; 8])
        ensures
            r@ == encode_spec(*self),
    {
        let r = match self {
            HostResponse::ReadData { data } => {
                let b = u32_le_bytes(*data);
                [0x81u8, b[0], b[1], b[2], b[3], 0, 0, 0]
            },
            HostResponse::WriteAck => [0x82u8, 0, 0, 0, 0, 0, 0, 0],
            HostResponse::PhaseAck => [0x83u8, 0, 0, 0, 0, 0, 0, 0],
            HostResponse::ConductanceResult { value } => [
                0x84u8,
                low_byte_u16(*value),
                high_byte_u16(*value),
                0,
                0,
                0,
                0,
                0,
            ],
            HostResponse::EvolutionComplete => [0x85u8, 0, 0, 0, 0, 0, 0, 0],
            HostResponse::SyncComplete => [0x86u8, 0, 0, 0, 0, 0, 0, 0],
            HostResponse::Status { firmware_version, node_count, current_time_bank, flags } => [
                0x87u8,
                low_byte_u16(*firmware_version),
                high_byte_u16(*firmware_version),
                low_byte_u16(*node_count),
                high_byte_u16(*node_count),
                *current_time_bank,
                *flags,
                0,
            ],
            HostResponse::ResetAck => [0x88u8, 0, 0, 0, 0, 0, 0, 0],
            HostResponse::Error { code } => [0xFFu8, *code, 0, 0, 0, 0, 0, 0],
        };
        assert(r@ =~= encode_spec(*self));
        r
    }
}

/// `address + (len as u32)`, saturating at `u32::MAX` (the length is
/// narrowed as a cast to `u32` narrows it).
pub open spec fn saturating_end(address: u32, len: usize) -> int {
    let l = #[verifier::truncate] (len as u32);
    if address + l > u32::MAX {
        u32::MAX as int
    } else {
        address + l
    }
}

/// The four-byte frame that starts a PSRAM read of `len` bytes at `address`,
/// checked against the capacity (the end address saturates).
pub fn psram_read_frame(address: u32, len: usize, capacity: u32) -> (r: Result<[u8; 4], SpiError>)
    ensures
        r is Err <==> saturating_end(address, len) > capacity,
        r matches Err(e) ==> e == SpiError::InvalidAddress,
        r matches Ok(f) ==> f@ == seq![PsramCommand::Read.code_spec()] + seq![
            ((address / 65536) % 256) as u8,
            ((address / 256) % 256) as u8,
            (address % 256) as u8,
        ],
{
    let l: u32 = #[verifier::truncate] (len as u32);

    let end: u32 = if l > u32::MAX - address { u32::MAX } else { address + l };
    if end > capacity {
        return Err(SpiError::InvalidAddress);
    }
    let a = encode_address(address);
    let f = [PsramCommand::Read.code(), a[0], a[1], a[2]];
    Ok(f)
}


/// The checks a PSRAM page program makes before it touches the bus: the data
/// must fit in one page and end inside the capacity (end address saturating).
pub fn psram_write_check(address: u32, len: usize, page_size: u16, capacity: u32) -> (r: Result<(), SpiError>)
    ensures
        len > page_size ==> r == Err::<(), SpiError>(SpiError::BufferTooLarge),
        len <= page_size ==> (r is Err <==> saturating_end(address, len) > capacity),
        len <= page_size && r is Err ==> r == Err::<(), SpiError>(SpiError::InvalidAddress),
{
    if len > page_size as usize {
        return Err(SpiError::BufferTooLarge);
    }
    let l: u32 = #[verifier::truncate] (len as u32);
    let end: u32 = if l > u32::MAX - address { u32::MAX } else { address + l };
    if end > capacity {
        return Err(SpiError::InvalidAddress);
    }
    Ok(())
}

/// The page-program frame: opcode, three address bytes, then the data; a
/// frame longer than 260 bytes does not fit the command buffer.
pub fn psram_write_frame(address: u32, data: &[u8]) -> (r: Result<Vec<u8>, SpiError>)
    ensures
        r is Err <==> data@.len() + 4 > 260,
        r matches Err(e) ==> e == SpiError::BufferTooLarge,
        r matches Ok(f) ==> f@ == seq![
            PsramCommand::PageProgram.code_spec(),
            ((address / 65536) % 256) as u8,
            ((address / 256) % 256) as u8,
            (address % 256) as u8,
        ] + data@,
{
    if data.len() > 256 {
        return Err(SpiError::BufferTooLarge);
    }
    let a = encode_address(address);
    let mut f: Vec<u8> = Vec::new();
    f.push(PsramCommand::PageProgram.code());
    f.push(a[0]);
    f.push(a[1]);
    f.push(a[2]);
    let ghost head = f@;
    let n = data.len();
    let mut i: usize = 0;
    while i < n
        invariant
            n == data@.len(),
            i <= n,
            f@ == head + data@.subrange(0, i as int),
        decreases n - i,
    {
        f.push(data[i]);
        assert(f@ =~= head + data@.subrange(0, i + 1));
        i += 1;
    }
    assert(data@.subrange(0, n as int) =~= data@);
    Ok(f)
}

/// The sector-erase frame; the address must be sector-aligned.
pub fn psram_sector_erase_frame(address: u32, sector_size: u16) -> (r: Result<[u8; 4], SpiError>)
    requires
        sector_size != 0,
    ensures
        r is Err <==> address % (sector_size as u32) != 0,
        r matches Err(e) ==> e == SpiError::InvalidAddress,
        r matches Ok(f) ==> f@ == seq![
            PsramCommand::SectorErase.code_spec(),
            ((address / 65536) % 256) as u8,
            ((address / 256) % 256) as u8,
            (address % 256) as u8,
        ],
{
    if address % (sector_size as u32) != 0 {
        return Err(SpiError::InvalidAddress);
    }
    let a = encode_address(address);
    let f = [PsramCommand::SectorErase.code(), a[0], a[1], a[2]];
    assert(f@ =~= seq![
        PsramCommand::SectorErase.code_spec(),
        ((address / 65536) % 256) as u8,
        ((address / 256) % 256) as u8,
        (address % 256) as u8,
    ]);
    Ok(f)
}

/// A one-byte command frame (status read, write enable/disable, JEDEC id).
pub fn psram_command_frame(cmd: PsramCommand) -> (r: [u8; 1])
    ensures
        r@ == seq![cmd.code_spec()],
{
    let f = [cmd.code()];
    assert(f@ =~= seq![cmd.code_spec()]);
    f
}

/// Whether a PSRAM status byte reports a write or erase in progress (its
/// busy bit, bit 0, is set).
pub fn write_in_progress(status: u8) -> (r: bool)
    ensures
        r == (status % 2 == 1),
{
    assert((status & 1 != 0) == (status % 2 == 1)) by (bit_vector);
    status & 0x01 != 0
}

/// How many payload bytes the PC interface reads after a command header:
/// the header's length byte when it is between 1 and 252, otherwise none.
pub fn payload_len_to_read(header: [u8; 4]) -> (r: usize)
    ensures
        r == if 0 < header@[3] <= 252 { header@[3] as usize } else { 0 },
{
    let data_len = header[3] as usize;
    if data_len > 0 && data_len <= 252 {
        data_len
    } else {
        0
    }
}

} // verus!
