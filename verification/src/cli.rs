//! The host side of the bridge protocol: command packets sent to the chip,
//! the fixed 8-byte responses read back, and the argument parsing of the
//! command-line tool.

use vstd::prelude::*;
use crate::api::zeros;

verus! {

/// Default baud rate of the bridge.
pub const DEFAULT_BAUD: u32 = 115200;

/// Largest payload of a command packet.
pub const MAX_COMMAND_DATA_LEN: usize = 255;

/// Largest payload of a response packet.
pub const MAX_RESPONSE_DATA_LEN: usize = 6;

/// Bytes of a response read from the bridge.
pub const RESPONSE_LEN: usize = 8;

/// Commands the bridge understands.
#[derive(Debug, Clone, Copy, PartialEq, Eq, Structural)]
pub enum CommandId {
    GetStatus,
    Read,
    Write,
    ApplyPhase,
    MeasureConductance,
    Evolve,
    SyncTime,
    GetTimeBank,
    JumpTimeBank,
    Reset,
}

impl CommandId {
    /// The byte the command is sent as.
    pub open spec fn code_spec(self) -> u8 {
        match self {
            CommandId::GetStatus => 0x00,
            CommandId::Read => 0x01,
            CommandId::Write => 0x02,
            CommandId::ApplyPhase => 0x03,
            CommandId::MeasureConductance => 0x04,
            CommandId::Evolve => 0x05,
            CommandId::SyncTime => 0x06,
            CommandId::GetTimeBank => 0x07,
            CommandId::JumpTimeBank => 0x08,
            CommandId::Reset => 0x09,
        }
    }

    /// The byte the command is sent as.
    pub fn code(self) -> (r: u8)
        ensures
            r == self.code_spec(),
    {
        match self {
            CommandId::GetStatus => 0x00,
            CommandId::Read => 0x01,
            CommandId::Write => 0x02,
            CommandId::ApplyPhase => 0x03,
            CommandId::MeasureConductance => 0x04,
            CommandId::Evolve => 0x05,
            CommandId::SyncTime => 0x06,
            CommandId::GetTimeBank => 0x07,
            CommandId::JumpTimeBank => 0x08,
            CommandId::Reset => 0x09,
        }
    }
}

/// Status of a response.
#[derive(Debug, Clone, Copy, PartialEq, Eq, Structural)]
pub enum StatusCode {
    Success,
    Error,
    InvalidCommand,
    InvalidParameter,
    MemoryError,
    ComputeError,
    IoError,
    Timeout,
    Busy,
    NotImplemented,
}

/// The status a response byte stands for; an unknown byte is an error.
pub open spec fn status_from_byte(b: u8) -> StatusCode {
    if b == 0x00 {
        StatusCode::Success
    } else if b == 0x01 {
        StatusCode::Error
    } else if b == 0x02 {
        StatusCode::InvalidCommand
    } else if b == 0x03 {
        StatusCode::InvalidParameter
    } else if b == 0x04 {
        StatusCode::MemoryError
    } else if b == 0x05 {
        StatusCode::ComputeError
    } else if b == 0x06 {
        StatusCode::IoError
    } else if b == 0x07 {
        StatusCode::Timeout
    } else if b == 0x08 {
        StatusCode::Busy
    } else if b == 0x09 {
        StatusCode::NotImplemented
    } else {
        StatusCode::Error
    }
}

/// A command packet: id, two parameters and up to 255 payload bytes.
#[derive(Debug, Clone, Copy)]
pub struct CommandPacket {
    pub command: CommandId,
    pub param1: u8,
    pub param2: u8,
    pub data: [u8; 255],
    pub data_len: u8,
}

/// The bytes a command packet is sent as.
pub open spec fn packet_bytes(p: CommandPacket) -> Seq<u8> {
    seq![p.command.code_spec(), p.param1, p.param2, p.data_len] + p.data@.subrange(0, p.data_len as int)
}

impl CommandPacket {
    /// A packet without payload.
    pub fn new(command: CommandId, param1: u8, param2: u8) -> (r: Self)
        ensures
            r.command == command && r.param1 == param1 && r.param2 == param2,
            r.data_len == 0,
            r.data@ == zeros(255),
    {
        let r = CommandPacket { command, param1, param2, data: [0u8; 255], data_len: 0 };
        assert(r.data@ =~= zeros(255));
        r
    }

    /// The packet with a payload: the first 255 bytes of `data`, over the
    /// start of the previous payload.
    pub fn with_data(self, data: &[u8]) -> (r: Self)
        ensures
            r.command == self.command && r.param1 == self.param1 && r.param2 == self.param2,
            r.data_len == if data@.len() < 255 { data@.len() } else { 255 },
            r.data@ == data@.subrange(0, r.data_len as int) + self.data@.subrange(r.data_len as int, 255),
    {
        let mut p = self;
        let len: usize = if data.len() < MAX_COMMAND_DATA_LEN { data.len() } else { MAX_COMMAND_DATA_LEN };
        let mut i: usize = 0;
        while i < len
            invariant
                len <= data@.len(),
                len <= 255,
                i <= len,
                p.command == self.command && p.param1 == self.param1 && p.param2 == self.param2,
                p.data@ == data@.subrange(0, i as int) + self.data@.subrange(i as int, 255),
            decreases len - i,
        {
            p.data[i] = data[i];
            assert(p.data@ =~= data@.subrange(0, i + 1) + self.data@.subrange(i + 1, 255));
            i += 1;
        }
        p.data_len = len as u8;
        p
    }

    /// Write the packet's bytes to the front of `out`; returns their number.
    pub fn serialize(&self, out: &mut [u8]) -> (r: usize)
        requires
            old(out)@.len() >= 4 + self.data_len,
        ensures
            r == 4 + self.data_len,
            final(out)@.len() == old(out)@.len(),
            final(out)@.subrange(0, r as int) == packet_bytes(*self),
            final(out)@.subrange(r as int, old(out)@.len() as int) == old(out)@.subrange(
                r as int,
                old(out)@.len() as int,
            ),
    {
        let payload_len = self.data_len as usize;
        let packet_len = 4 + payload_len;
        out[0] = self.command.code();
        out[1] = self.param1;
        out[2] = self.param2;
        out[3] = self.data_len;
        let mut i: usize = 0;
        while i < payload_len
            invariant
                payload_len == self.data_len,
                packet_len == 4 + payload_len,
                i <= payload_len,
                out@.len() == old(out)@.len(),
                packet_len <= out@.len(),
                out@[0] == self.command.code_spec(),
                out@[1] == self.param1,
                out@[2] == self.param2,
                out@[3] == self.data_len,
                forall|k: int| 0 <= k < i ==> #[trigger] out@[4 + k] == self.data@[k],
                forall|k: int| 4 + i <= k < out@.len() ==> #[trigger] out@[k] == old(out)@[k],
            decreases payload_len - i,
        {
            out[4 + i] = self.data[i];
            i += 1;
        }
        assert forall|j: int| 0 <= j < packet_len implies out@[j] == #[trigger] packet_bytes(*self)[j] by {
            if j >= 4 {
                assert(out@[4 + (j - 4)] == self.data@[j - 4]);
            }
        }
        assert(out@.subrange(0, packet_len as int) =~= packet_bytes(*self));
        assert(out@.subrange(packet_len as int, old(out)@.len() as int) =~= old(out)@.subrange(
            packet_len as int,
            old(out)@.len() as int,
        ));
        packet_len
    }
}

/// A response: status and up to 6 data bytes.
#[derive(Debug, Clone, Copy, PartialEq, Eq)]
pub struct ResponsePacket {
    pub status: StatusCode,
    pub data: [u8; 6],
    pub data_len: u8,
}

/// Parse the bytes read back from the bridge; fewer than two bytes is an
/// incomplete response.
pub fn parse_response(buf: &[u8; 8], bytes_read: usize) -> (r: Result<ResponsePacket, String>)
    ensures
        r is Err <==> bytes_read < 2,
        r matches Err(e) ==> e@ == "Incomplete response received"@,
        r matches Ok(p) ==> {
            &&& p.status == status_from_byte(buf@[0])
            &&& p.data_len == if buf@[1] < 6 { buf@[1] } else { 6 }
            &&& p.data@ == buf@.subrange(2, 2 + p.data_len) + zeros((6 - p.data_len) as nat)
        },
{
    if bytes_read < 2 {
        return Err(String::from_str("Incomplete response received"));
    }
    let status = if buf[0] == 0x00 {
        StatusCode::Success
    } else if buf[0] == 0x01 {
        StatusCode::Error
    } else if buf[0] == 0x02 {
        StatusCode::InvalidCommand
    } else if buf[0] == 0x03 {
        StatusCode::InvalidParameter
    } else if buf[0] == 0x04 {
        StatusCode::MemoryError
    } else if buf[0] == 0x05 {
        StatusCode::ComputeError
    } else if buf[0] == 0x06 {
        StatusCode::IoError
    } else if buf[0] == 0x07 {
        StatusCode::Timeout
    } else if buf[0] == 0x08 {
        StatusCode::Busy
    } else if buf[0] == 0x09 {
        StatusCode::NotImplemented
    } else {
        StatusCode::Error
    };
    let data_len: u8 = if buf[1] < 6 { buf[1] } else { 6 };
    let mut data = [0u8; 6];
    let mut i: usize = 0;
    while i < data_len as usize
        invariant
            data_len <= 6,
            i <= data_len,
            data@ == buf@.subrange(2, 2 + i) + zeros((6 - i) as nat),
        decreases data_len - i,
    {
        data[i] = buf[2 + i];
        assert(data@ =~= buf@.subrange(2, 2 + i + 1) + zeros((6 - (i + 1)) as nat));
        i += 1;
    }
    Ok(ResponsePacket { status, data, data_len })
}

/// High and low byte of a 16-bit value.
pub open spec fn split16(v: u16) -> (u8, u8) {
    ((v / 256) as u8, (v % 256) as u8)
}

/// Little-endian bytes of a 16-bit value.
pub open spec fn le16(v: u16) -> Seq<u8> {
    seq![(v % 256) as u8, (v / 256) as u8]
}

/// Little-endian bytes of a 32-bit value.
pub open spec fn le32(v: u32) -> Seq<u8> {
    seq![
        (v % 256) as u8,
        ((v / 256) % 256) as u8,
        ((v / 65536) % 256) as u8,
        (v / 16777216) as u8,
    ]
}

/// High and low byte of a 16-bit value.
fn high_low(v: u16) -> (r: (u8, u8))
    ensures
        r == split16(v),
{
    let hi = ((v >> 8) & 0xFF) as u8;
    let lo = (v & 0xFF) as u8;
    assert((v >> 8) & 0xFF == v / 256) by (bit_vector);
    assert(v & 0xFF == v % 256) by (bit_vector);
    (hi, lo)
}

/// The status request.
pub fn status_command() -> (r: CommandPacket)
    ensures
        r.command == CommandId::GetStatus && r.param1 == 0 && r.param2 == 0 && r.data_len == 0,
{
    CommandPacket::new(CommandId::GetStatus, 0, 0)
}

/// A read of `address` in `bank`: the bank in the parameters (high byte
/// first), the address as little-endian payload.
pub fn read_command(bank: u16, address: u16) -> (r: CommandPacket)
    ensures
        r.command == CommandId::Read,
        (r.param1, r.param2) == split16(bank),
        r.data_len == 2,
        r.data@.subrange(0, 2) == le16(address),
{
    let (param1, param2) = high_low(bank);
    let addr_bytes = [(address & 0xFF) as u8, (address >> 8) as u8];
    assert(address & 0xFF == address % 256) by (bit_vector);
    assert(address >> 8 == address / 256) by (bit_vector);
    let r = CommandPacket::new(CommandId::Read, param1, param2).with_data(&addr_bytes);
    assert(r.data@.subrange(0, 2) =~= le16(address));
    r
}

/// A write of `data` to `address` in `bank`: the bank in the parameters,
/// the address and the value as little-endian payload.
pub fn write_command(bank: u16, address: u16, data: u32) -> (r: CommandPacket)
    ensures
        r.command == CommandId::Write,
        (r.param1, r.param2) == split16(bank),
        r.data_len == 6,
        r.data@.subrange(0, 6) == le16(address) + le32(data),
{
    let (param1, param2) = high_low(bank);
    let mut payload = [0u8; 6];
    payload[0] = (address & 0xFF) as u8;
    payload[1] = (address >> 8) as u8;
    payload[2] = (data & 0xFF) as u8;
    payload[3] = ((data >> 8) & 0xFF) as u8;
    payload[4] = ((data >> 16) & 0xFF) as u8;
    payload[5] = (data >> 24) as u8;
    assert(address & 0xFF == address % 256) by (bit_vector);
    assert(address >> 8 == address / 256) by (bit_vector);
    assert(data & 0xFF == data % 256) by (bit_vector);
    assert((data >> 8) & 0xFF == (data / 256) % 256) by (bit_vector);
    assert((data >> 16) & 0xFF == (data / 65536) % 256) by (bit_vector);
    assert(data >> 24 == data / 16777216) by (bit_vector);
    let r = CommandPacket::new(CommandId::Write, param1, param2).with_data(&payload);
    assert(r.data@.subrange(0, 6) =~= le16(address) + le32(data));
    r
}

/// A phase application to `node` with the phase angle code as
/// little-endian payload.
pub fn apply_phase_command(node: u16, angle_code: u16) -> (r: CommandPacket)
    ensures
        r.command == CommandId::ApplyPhase,
        (r.param1, r.param2) == split16(node),
        r.data_len == 2,
        r.data@.subrange(0, 2) == le16(angle_code),
{
    let (param1, param2) = high_low(node);
    let bytes = [(angle_code & 0xFF) as u8, (angle_code >> 8) as u8];
    assert(angle_code & 0xFF == angle_code % 256) by (bit_vector);
    assert(angle_code >> 8 == angle_code / 256) by (bit_vector);
    let r = CommandPacket::new(CommandId::ApplyPhase, param1, param2).with_data(&bytes);
    assert(r.data@.subrange(0, 2) =~= le16(angle_code));
    r
}

/// A conductance measurement of `node`.
pub fn measure_command(node: u16) -> (r: CommandPacket)
    ensures
        r.command == CommandId::MeasureConductance,
        (r.param1, r.param2) == split16(node),
        r.data_len == 0,
{
    let (param1, param2) = high_low(node);
    CommandPacket::new(CommandId::MeasureConductance, param1, param2)
}

/// An evolution with the alpha code in the parameters and the step count
/// as payload.
pub fn evolve_command(alpha_code: u16, steps: u8) -> (r: CommandPacket)
    ensures
        r.command == CommandId::Evolve,
        (r.param1, r.param2) == split16(alpha_code),
        r.data_len == 1,
        r.data@[0] == steps,
{
    let (param1, param2) = high_low(alpha_code);
    let bytes = [steps];
    CommandPacket::new(CommandId::Evolve, param1, param2).with_data(&bytes)
}

/// The time synchronization request.
pub fn sync_command() -> (r: CommandPacket)
    ensures
        r.command == CommandId::SyncTime && r.param1 == 0 && r.param2 == 0 && r.data_len == 0,
{
    CommandPacket::new(CommandId::SyncTime, 0, 0)
}

/// The request for the current time bank.
pub fn get_time_bank_command() -> (r: CommandPacket)
    ensures
        r.command == CommandId::GetTimeBank && r.param1 == 0 && r.param2 == 0 && r.data_len == 0,
{
    CommandPacket::new(CommandId::GetTimeBank, 0, 0)
}

/// A jump to a time bank.
pub fn jump_time_bank_command(bank: u16) -> (r: CommandPacket)
    ensures
        r.command == CommandId::JumpTimeBank,
        (r.param1, r.param2) == split16(bank),
        r.data_len == 0,
{
    let (param1, param2) = high_low(bank);
    CommandPacket::new(CommandId::JumpTimeBank, param1, param2)
}

/// The reset request.
pub fn reset_command() -> (r: CommandPacket)
    ensures
        r.command == CommandId::Reset && r.param1 == 0 && r.param2 == 0 && r.data_len == 0,
{
    CommandPacket::new(CommandId::Reset, 0, 0)
}

/// Status report of a successful status response with at least four data
/// bytes: the version (big-endian), the state byte and the flags byte.
pub fn status_fields(resp: &ResponsePacket) -> (r: Option<(u16, u8, u8)>)
    ensures
        r is Some <==> resp.status == StatusCode::Success && resp.data_len >= 4,
        r matches Some(f) ==> f == (
            (resp.data@[0] * 256 + resp.data@[1]) as u16,
            resp.data@[2],
            resp.data@[3],
        ),
{
    if resp.status == StatusCode::Success && resp.data_len >= 4 {
        let version = ((resp.data[0] as u16) << 8) | (resp.data[1] as u16);
        let d0 = resp.data[0];
        let d1 = resp.data[1];
        assert(((d0 as u16) << 8) | (d1 as u16) == d0 * 256 + d1) by (bit_vector);
        Some((version, resp.data[2], resp.data[3]))
    } else {
        None
    }
}

/// Major, minor and patch of a firmware version word: bits 12-15, bits
/// 8-11 and the low byte.
pub fn version_parts(version: u16) -> (r: (u16, u16, u16))
    ensures
        r == (version / 4096, (version / 256) % 16, version % 256),
{
    let major = (version >> 12) & 0xF;
    let minor = (version >> 8) & 0xF;
    let patch = version & 0xFF;
    assert((version >> 12) & 0xF == version / 4096) by (bit_vector);
    assert((version >> 8) & 0xF == (version / 256) % 16) by (bit_vector);
    assert(version & 0xFF == version % 256) by (bit_vector);
    (major, minor, patch)
}

/// The value a successful read response carries: its first four data bytes,
/// little-endian.
pub fn read_value(resp: &ResponsePacket) -> (r: Option<u32>)
    ensures
        r is Some <==> resp.status == StatusCode::Success && resp.data_len >= 4,
        r matches Some(v) ==> le32(v) == resp.data@.subrange(0, 4),
{
    if resp.status == StatusCode::Success && resp.data_len >= 4 {
        let b0 = resp.data[0];
        let b1 = resp.data[1];
        let b2 = resp.data[2];
        let b3 = resp.data[3];
        let v: u32 = (b0 as u32) | ((b1 as u32) << 8) | ((b2 as u32) << 16) | ((b3 as u32) << 24);
        assert(v % 256 == b0 && (v / 256) % 256 == b1 && (v / 65536) % 256 == b2 && v / 16777216 == b3)
            by (bit_vector)
            requires
                v == (b0 as u32) | ((b1 as u32) << 8) | ((b2 as u32) << 16) | ((b3 as u32) << 24),
        ;
        assert(le32(v) =~= resp.data@.subrange(0, 4));
        Some(v)
    } else {
        None
    }
}

/// The 16-bit value a successful response carries in its first two data
/// bytes, little-endian (a measurement or a time bank).
pub fn read_u16_value(resp: &ResponsePacket) -> (r: Option<u16>)
    ensures
        r is Some <==> resp.status == StatusCode::Success && resp.data_len >= 2,
        r matches Some(v) ==> le16(v) == resp.data@.subrange(0, 2),
{
    if resp.status == StatusCode::Success && resp.data_len >= 2 {
        let b0 = resp.data[0];
        let b1 = resp.data[1];
        let v: u16 = (b0 as u16) | ((b1 as u16) << 8);
        assert(v % 256 == b0 && v / 256 == b1) by (bit_vector)
            requires
                v == (b0 as u16) | ((b1 as u16) << 8),
        ;
        assert(le16(v) =~= resp.data@.subrange(0, 2));
        Some(v)
    } else {
        None
    }
}

/// The name of a chip state byte.
pub fn state_name(state: u8) -> (r: &'static str)
    ensures
        state == 0 ==> r@ == "Initializing"@,
        state == 1 ==> r@ == "Idle"@,
        state == 2 ==> r@ == "Computing"@,
        state == 3 ==> r@ == "MemoryAccess"@,
        state == 4 ==> r@ == "IoOperation"@,
        state == 5 ==> r@ == "Error"@,
        state > 5 ==> r@ == "Unknown"@,
{
    if state == 0 {
        "Initializing"
    } else if state == 1 {
        "Idle"
    } else if state == 2 {
        "Computing"
    } else if state == 3 {
        "MemoryAccess"
    } else if state == 4 {
        "IoOperation"
    } else if state == 5 {
        "Error"
    } else {
        "Unknown"
    }
}

/// The value of a digit character in a radix, if it is one.
pub open spec fn digit_value(c: char, radix: u32) -> Option<nat> {
    let v: int = if '0' <= c && c <= '9' {
        c as int - '0' as int
    } else if 'a' <= c && c <= 'z' {
        c as int - 'a' as int + 10
    } else if 'A' <= c && c <= 'Z' {
        c as int - 'A' as int + 10
    } else {
        -1
    };
    if 0 <= v < radix {
        Some(v as nat)
    } else {
        None
    }
}

/// The number that a sequence of digits spells in a radix, if every
/// character is a digit.
pub open spec fn digits_value(d: Seq<char>, radix: u32) -> Option<nat>
    decreases d.len(),
{
    if d.len() == 0 {
        Some(0)
    } else {
        match (digits_value(d.drop_last(), radix), digit_value(d.last(), radix)) {
            (Some(high), Some(low)) => Some((high * radix + low) as nat),
            _ => None,
        }
    }
}

/// What `u32::from_str_radix` accepts: an optional `+` then at least one
/// digit of the radix, with a value that fits in `u32`.
pub open spec fn u32_radix_value(s: Seq<char>, radix: u32) -> Option<u32> {
    let d = if s.len() > 0 && s[0] == '+' {
        s.skip(1)
    } else {
        s
    };
    if d.len() == 0 {
        None
    } else {
        match digits_value(d, radix) {
            Some(v) => if v <= u32::MAX {
                Some(v as u32)
            } else {
                None
            },
            None => None,
        }
    }
}

/// `u32::from_str_radix`, with the error turned into its message.
///
/// Trusted: the standard library documents that the string must be an
/// optional `+` followed by at least one digit of the radix (`0-9`, `a-z`,
/// `A-Z`) and that values past `u32::MAX` are an error; this contract says
/// exactly that. The error message text is left unsaid.
#[verifier::external_body]
fn parse_u32_radix(s: &str, radix: u32) -> (r: Result<u32, String>)
    requires
        2 <= radix <= 36,
    ensures
        r is Ok <==> u32_radix_value(s@, radix) is Some,
        r matches Ok(v) ==> u32_radix_value(s@, radix) == Some(v),
{
    u32::from_str_radix(s, radix).map_err(|e| e.to_string())
}

/// Whether a string starts with `0x` or `0X`.
pub open spec fn has_hex_prefix(s: Seq<char>) -> bool {
    s.len() >= 2 && s[0] == '0' && (s[1] == 'x' || s[1] == 'X')
}

/// The number a command-line value spells: hexadecimal after a `0x` or
/// `0X` prefix, decimal otherwise.
pub open spec fn hex_or_dec_value(s: Seq<char>) -> Option<u32> {
    if has_hex_prefix(s) {
        u32_radix_value(s.skip(2), 16)
    } else {
        u32_radix_value(s, 10)
    }
}

/// Parse a hexadecimal (`0x` prefix) or decimal number.
pub fn parse_hex_or_dec(s: &str) -> (r: Result<u32, String>)
    ensures
        r is Ok <==> hex_or_dec_value(s@) is Some,
        r matches Ok(v) ==> hex_or_dec_value(s@) == Some(v),
{
    let n = s.unicode_len();
    let prefixed = if n >= 2 {
        let c0 = s.get_char(0);
        let c1 = s.get_char(1);
        c0 == '0' && (c1 == 'x' || c1 == 'X')
    } else {
        false
    };
    if prefixed {
        let rest = s.substring_char(2, n);
        assert(rest@ == s@.skip(2));
        parse_u32_radix(rest, 16)
    } else {
        parse_u32_radix(s, 10)
    }
}

} // verus!
