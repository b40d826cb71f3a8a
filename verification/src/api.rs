//! Host command/response protocol.
//!
//! Command: `[CMD_ID:1][PARAM1:1][PARAM2:1][LEN:1][DATA:0-252]`;
//! response: `[STATUS:1][LEN:1][DATA:6]`.

use vstd::prelude::*;
use crate::spi::{le32_bytes, u32_le_bytes, low_byte_u16, high_byte_u16, decode_spec, HostCommand};
use crate::system::FIRMWARE_VERSION;

verus! {

/// Command identifiers.
#[derive(Debug, Clone, Copy, PartialEq, Eq, Structural)]
pub enum CommandId {
    /// No operation (ping)
    Nop,
    /// Read from memory
    Read,
    /// Write to memory
    Write,
    /// Apply phase to node
    ApplyPhase,
    /// Measure conductance
    MeasureConductance,
    /// Evolve system
    Evolve,
    /// Synchronize time
    SyncTime,
    /// Get system status
    GetStatus,
    /// Reset chip
    Reset,
    /// Set alpha parameter
    SetAlpha,
    /// Get current time bank
    GetTimeBank,
    /// Jump to time bank
    JumpTimeBank,
    /// Read eigenmode data
    ReadEigen,
    /// Write eigenmode data
    WriteEigen,
    /// Read edge cache
    ReadEdgeCache,
    /// Write edge cache
    WriteEdgeCache,
    /// Batch read
    BatchRead,
    /// Batch write
    BatchWrite,
    /// Error response
    Error,
}

impl CommandId {
    /// The wire byte of a command.
    pub open spec fn code_spec(self) -> u8 {
        match self {
            CommandId::Nop => 0x00,
            CommandId::Read => 0x01,
            CommandId::Write => 0x02,
            CommandId::ApplyPhase => 0x03,
            CommandId::MeasureConductance => 0x04,
            CommandId::Evolve => 0x05,
            CommandId::SyncTime => 0x06,
            CommandId::GetStatus => 0x07,
            CommandId::Reset => 0x08,
            CommandId::SetAlpha => 0x09,
            CommandId::GetTimeBank => 0x0A,
            CommandId::JumpTimeBank => 0x0B,
            CommandId::ReadEigen => 0x0C,
            CommandId::WriteEigen => 0x0D,
            CommandId::ReadEdgeCache => 0x0E,
            CommandId::WriteEdgeCache => 0x0F,
            CommandId::BatchRead => 0x10,
            CommandId::BatchWrite => 0x11,
            CommandId::Error => 0xFF,
        }
    }

    /// The wire byte of a command.
    pub fn code(self) -> (r: u8)
        ensures
            r == self.code_spec(),
    {
        match self {
            CommandId::Nop => 0x00,
            CommandId::Read => 0x01,
            CommandId::Write => 0x02,
            CommandId::ApplyPhase => 0x03,
            CommandId::MeasureConductance => 0x04,
            CommandId::Evolve => 0x05,
            CommandId::SyncTime => 0x06,
            CommandId::GetStatus => 0x07,
            CommandId::Reset => 0x08,
            CommandId::SetAlpha => 0x09,
            CommandId::GetTimeBank => 0x0A,
            CommandId::JumpTimeBank => 0x0B,
            CommandId::ReadEigen => 0x0C,
            CommandId::WriteEigen => 0x0D,
            CommandId::ReadEdgeCache => 0x0E,
            CommandId::WriteEdgeCache => 0x0F,
            CommandId::BatchRead => 0x10,
            CommandId::BatchWrite => 0x11,
            CommandId::Error => 0xFF,
        }
    }

    /// The command whose wire byte is `value`.
    pub open spec fn from_u8_spec(value: u8) -> Option<CommandId> {
        if value == 0x00 {
            Some(CommandId::Nop)
        } else if value == 0x01 {
            Some(CommandId::Read)
        } else if value == 0x02 {
            Some(CommandId::Write)
        } else if value == 0x03 {
            Some(CommandId::ApplyPhase)
        } else if value == 0x04 {
            Some(CommandId::MeasureConductance)
        } else if value == 0x05 {
            Some(CommandId::Evolve)
        } else if value == 0x06 {
            Some(CommandId::SyncTime)
        } else if value == 0x07 {
            Some(CommandId::GetStatus)
        } else if value == 0x08 {
            Some(CommandId::Reset)
        } else if value == 0x09 {
            Some(CommandId::SetAlpha)
        } else if value == 0x0A {
            Some(CommandId::GetTimeBank)
        } else if value == 0x0B {
            Some(CommandId::JumpTimeBank)
        } else if value == 0x0C {
            Some(CommandId::ReadEigen)
        } else if value == 0x0D {
            Some(CommandId::WriteEigen)
        } else if value == 0x0E {
            Some(CommandId::ReadEdgeCache)
        } else if value == 0x0F {
            Some(CommandId::WriteEdgeCache)
        } else if value == 0x10 {
            Some(CommandId::BatchRead)
        } else if value == 0x11 {
            Some(CommandId::BatchWrite)
        } else if value == 0xFF {
            Some(CommandId::Error)
        } else {
            None
        }
    }

    /// Convert from the raw byte; unknown bytes give `None`.
    pub fn from_u8(value: u8) -> (r: Option<Self>)
        ensures
            r == Self::from_u8_spec(value),
    {
        match value {
            0x00 => Some(CommandId::Nop),
            0x01 => Some(CommandId::Read),
            0x02 => Some(CommandId::Write),
            0x03 => Some(CommandId::ApplyPhase),
            0x04 => Some(CommandId::MeasureConductance),
            0x05 => Some(CommandId::Evolve),
            0x06 => Some(CommandId::SyncTime),
            0x07 => Some(CommandId::GetStatus),
            0x08 => Some(CommandId::Reset),
            0x09 => Some(CommandId::SetAlpha),
            0x0A => Some(CommandId::GetTimeBank),
            0x0B => Some(CommandId::JumpTimeBank),
            0x0C => Some(CommandId::ReadEigen),
            0x0D => Some(CommandId::WriteEigen),
            0x0E => Some(CommandId::ReadEdgeCache),
            0x0F => Some(CommandId::WriteEdgeCache),
            0x10 => Some(CommandId::BatchRead),
            0x11 => Some(CommandId::BatchWrite),
            0xFF => Some(CommandId::Error),
            _ => None,
        }
    }
}

/// Every command's wire byte decodes back to the command.
pub proof fn law_command_id_round_trip(c: CommandId)
    ensures
        CommandId::from_u8_spec(c.code_spec()) == Some(c),
{
}

/// A byte that decodes to a command is that command's wire byte.
pub proof fn law_command_id_from_u8_inverse(value: u8)
    requires
        CommandId::from_u8_spec(value) is Some,
    ensures
        CommandId::from_u8_spec(value).unwrap().code_spec() == value,
{
}

/// The protocol command that a host command is.
pub open spec fn host_command_id(h: HostCommand) -> CommandId {
    match h {
        HostCommand::Read { .. } => CommandId::Read,
        HostCommand::Write { .. } => CommandId::Write,
        HostCommand::ApplyPhase { .. } => CommandId::ApplyPhase,
        HostCommand::MeasureConductance { .. } => CommandId::MeasureConductance,
        HostCommand::Evolve { .. } => CommandId::Evolve,
        HostCommand::SyncTime => CommandId::SyncTime,
        HostCommand::GetStatus => CommandId::GetStatus,
        HostCommand::Reset => CommandId::Reset,
    }
}

/// Whether a protocol command has a host-command form.
pub open spec fn is_host_command(c: CommandId) -> bool {
    c == CommandId::Read || c == CommandId::Write || c == CommandId::ApplyPhase || c
        == CommandId::MeasureConductance || c == CommandId::Evolve || c == CommandId::SyncTime || c
        == CommandId::GetStatus || c == CommandId::Reset
}

/// Host-command decoding agrees with the command table: a byte decodes to a
/// host command exactly when it is the wire byte of a protocol command with
/// a host-command form, and then to a command of that very kind, whatever the
/// parameters and payload.
pub proof fn law_decode_agrees_with_command_ids(cmd_id: u8, param1: u8, param2: u8, data: Seq<u8>)
    ensures
        decode_spec(cmd_id, param1, param2, data) is Some <==> (CommandId::from_u8_spec(cmd_id) is Some
            && is_host_command(CommandId::from_u8_spec(cmd_id).unwrap())),
        decode_spec(cmd_id, param1, param2, data) matches Some(h) ==> CommandId::from_u8_spec(cmd_id)
            == Some(host_command_id(h)),
{
}

/// Every protocol command with a host-command form is decoded from its wire
/// byte to a command of that kind.
pub proof fn law_decode_command_code(c: CommandId, param1: u8, param2: u8, data: Seq<u8>)
    requires
        is_host_command(c),
    ensures
        decode_spec(c.code_spec(), param1, param2, data) matches Some(h) && host_command_id(h) == c,
{
}

/// Status codes for responses.
#[derive(Debug, Clone, Copy, PartialEq, Eq, Structural)]
pub enum StatusCode {
    /// Success
    Success,
    /// General error
    Error,
    /// Invalid command
    InvalidCommand,
    /// Invalid parameter
    InvalidParameter,
    /// Memory error
    MemoryError,
    /// Compute error
    ComputeError,
    /// I/O error
    IoError,
    /// Timeout
    Timeout,
    /// Busy (try again later)
    Busy,
    /// Not implemented
    NotImplemented,
}

impl StatusCode {
    pub open spec fn code_spec(self) -> u8 {
        match self {
            StatusCode::Success => 0x00,
            StatusCode::Error => 0x01,
            StatusCode::InvalidCommand => 0x02,
            StatusCode::InvalidParameter => 0x03,
            StatusCode::MemoryError => 0x04,
            StatusCode::ComputeError => 0x05,
            StatusCode::IoError => 0x06,
            StatusCode::Timeout => 0x07,
            StatusCode::Busy => 0x08,
            StatusCode::NotImplemented => 0x09,
        }
    }

    /// The wire byte of a status.
    pub fn code(self) -> (r: u8)
        ensures
            r == self.code_spec(),
    {
        match self {
            StatusCode::Success => 0x00,
            StatusCode::Error => 0x01,
            StatusCode::InvalidCommand => 0x02,
            StatusCode::InvalidParameter => 0x03,
            StatusCode::MemoryError => 0x04,
            StatusCode::ComputeError => 0x05,
            StatusCode::IoError => 0x06,
            StatusCode::Timeout => 0x07,
            StatusCode::Busy => 0x08,
            StatusCode::NotImplemented => 0x09,
        }
    }
}

/// Command packet.
#[derive(Debug, Clone, Copy)]
pub struct CommandPacket {
    /// Command ID
    pub cmd: CommandId,
    /// First parameter byte
    pub param1: u8,
    /// Second parameter byte
    pub param2: u8,
    /// Data length (0-252)
    pub data_len: u8,
    /// Data (up to 252 bytes)
    pub data: [u8; 252],
}

/// `n` zero bytes.
pub open spec fn zeros(n: nat) -> Seq<u8> {
    Seq::new(n, |i: int| 0u8)
}

/// The bytes a command packet is sent as: the four header bytes, then the
/// first `data_len` payload bytes.
pub open spec fn command_bytes(p: CommandPacket) -> Seq<u8> {
    seq![p.cmd.code_spec(), p.param1, p.param2, p.data_len] + p.data@.subrange(0, p.data_len as int)
}

/// Decoding a command packet: `None` when the buffer is shorter than the
/// header, the id is unknown or the reserved error id, the length byte names
/// more than the 252 payload bytes a packet holds, or the payload is cut
/// short.
pub open spec fn command_decode_ok(b: Seq<u8>) -> bool {
    &&& b.len() >= 4
    &&& CommandId::from_u8_spec(b[0]) is Some
    &&& b[0] != 0xFF
    &&& b[3] <= 252
    &&& b.len() >= 4 + b[3]
}

impl CommandPacket {
    /// A packet with no payload.
    pub fn new(cmd: CommandId, param1: u8, param2: u8) -> (r: Self)
        ensures
            r.cmd == cmd && r.param1 == param1 && r.param2 == param2 && r.data_len == 0,
            r.data@ == zeros(252),
    {
        let r = CommandPacket { cmd, param1, param2, data_len: 0, data: [0u8; 252] };
        assert(r.data@ =~= zeros(252));
        r
    }

    /// Set the payload to the first (at most 252) bytes of `data`; later
    /// payload bytes are kept.
    pub fn with_data(self, data: &[u8]) -> (r: Self)
        ensures
            r.cmd == self.cmd && r.param1 == self.param1 && r.param2 == self.param2,
            r.data_len == if data@.len() < 252 { data@.len() } else { 252 },
            r.data@ == data@.subrange(0, r.data_len as int) + self.data@.subrange(r.data_len as int, 252),
    {
        let mut p = self;
        let len: usize = if data.len() < 252 { data.len() } else { 252 };
        p.data_len = len as u8;
        let mut i: usize = 0;
        while i < len
            invariant
                len <= data@.len(),
                len <= 252,
                i <= len,
                p.cmd == self.cmd && p.param1 == self.param1 && p.param2 == self.param2,
                p.data_len == len,
                p.data@ == data@.subrange(0, i as int) + self.data@.subrange(i as int, 252),
            decreases len - i,
        {
            p.data[i] = data[i];
            assert(p.data@ =~= data@.subrange(0, i + 1) + self.data@.subrange(i + 1, 252));
            i += 1;
        }
        p
    }

    /// Write the packet into `buffer`; returns the number of bytes written,
    /// or 0 (leaving the buffer untouched) when it does not fit.
    pub fn serialize(&self, buffer: &mut [u8]) -> (r: usize)
        requires
            self.data_len <= 252,
        ensures
            old(buffer)@.len() < 4 + self.data_len ==> r == 0 && final(buffer)@ == old(buffer)@,
            old(buffer)@.len() >= 4 + self.data_len ==> {
                &&& r == 4 + self.data_len
                &&& final(buffer)@.len() == old(buffer)@.len()
                &&& final(buffer)@.subrange(0, r as int) == command_bytes(*self)
                &&& final(buffer)@.subrange(r as int, old(buffer)@.len() as int) == old(
                    buffer,
                )@.subrange(r as int, old(buffer)@.len() as int)
            },
    {
        let total = 4 + self.data_len as usize;
        if buffer.len() < total {
            return 0;
        }
        buffer[0] = self.cmd.code();
        buffer[1] = self.param1;
        buffer[2] = self.param2;
        buffer[3] = self.data_len;
        let dl = self.data_len as usize;
        let mut i: usize = 0;
        while i < dl
            invariant
                dl == self.data_len,
                dl <= 252,
                total == 4 + dl,
                i <= dl,
                buffer@.len() == old(buffer)@.len(),
                total <= buffer@.len(),
                buffer@[0] == self.cmd.code_spec(),
                buffer@[1] == self.param1,
                buffer@[2] == self.param2,
                buffer@[3] == self.data_len,
                forall|k: int| 0 <= k < i ==> #[trigger] buffer@[4 + k] == self.data@[k],
                forall|k: int| 4 + i <= k < buffer@.len() ==> #[trigger] buffer@[k] == old(buffer)@[k],
            decreases dl - i,
        {
            buffer[4 + i] = self.data[i];
            i += 1;
        }
        assert forall|j: int| 0 <= j < total implies buffer@[j] == #[trigger] command_bytes(*self)[j] by {
            if j >= 4 {
                assert(buffer@[4 + (j - 4)] == self.data@[j - 4]);
            }
        }
        assert(buffer@.subrange(0, total as int) =~= command_bytes(*self));
        assert(buffer@.subrange(total as int, old(buffer)@.len() as int) =~= old(buffer)@.subrange(
            total as int,
            old(buffer)@.len() as int,
        ));
        total
    }

    /// Parse a packet from the front of `buffer`.
    pub fn deserialize(buffer: &[u8]) -> (r: Option<Self>)
        ensures
            r is Some <==> command_decode_ok(buffer@),
            r matches Some(p) ==> {
                &&& p.cmd == CommandId::from_u8_spec(buffer@[0]).unwrap()
                &&& p.param1 == buffer@[1]
                &&& p.param2 == buffer@[2]
                &&& p.data_len == buffer@[3]
                &&& p.data@ == buffer@.subrange(4, 4 + buffer@[3]) + zeros((252 - buffer@[3]) as nat)
            },
    {
        if buffer.len() < 4 {
            return None;
        }
        if buffer[0] == 0xFF {
            return None;
        }
        let cmd = match CommandId::from_u8(buffer[0]) {
            Some(c) => c,
            None => {
                return None;
            },
        };
        let param1 = buffer[1];
        let param2 = buffer[2];
        let data_len = buffer[3];
        if data_len > 252 || buffer.len() < 4 + data_len as usize {
            return None;
        }
        let mut packet = Self::new(cmd, param1, param2);
        packet.data_len = data_len;
        let dl = data_len as usize;
        let mut i: usize = 0;
        while i < dl
            invariant
                dl == data_len,
                dl <= 252,
                4 + dl <= buffer@.len(),
                i <= dl,
                packet.cmd == cmd && packet.param1 == param1 && packet.param2 == param2,
                packet.data_len == data_len,
                packet.data@ == buffer@.subrange(4, 4 + i) + zeros((252 - i) as nat),
            decreases dl - i,
        {
            packet.data[i] = buffer[4 + i];
            assert(packet.data@ =~= buffer@.subrange(4, 4 + i + 1) + zeros((252 - i - 1) as nat));
            i += 1;
        }
        Some(packet)
    }
}

/// Any packet other than the reserved error command is decoded back from its
/// serialized bytes (followed by anything): the header fields and the first
/// `data_len` payload bytes come back, and the rest of the payload is zero.
pub proof fn law_command_packet_round_trip(p: CommandPacket, extra: Seq<u8>)
    requires
        p.data_len <= 252,
        p.cmd != CommandId::Error,
    ensures
        command_decode_ok(command_bytes(p) + extra),
        ({
            let b = command_bytes(p) + extra;
            &&& CommandId::from_u8_spec(b[0]) == Some(p.cmd)
            &&& b[1] == p.param1
            &&& b[2] == p.param2
            &&& b[3] == p.data_len
            &&& b.subrange(4, 4 + b[3]) == p.data@.subrange(0, p.data_len as int)
            &&& p.data@.subrange(p.data_len as int, 252) == zeros((252 - p.data_len) as nat)
                ==> b.subrange(4, 4 + b[3]) + zeros((252 - b[3]) as nat) == p.data@
        }),
{
    let b = command_bytes(p) + extra;
    law_command_id_round_trip(p.cmd);
    assert(b[0] == p.cmd.code_spec());
    assert(b[3] == p.data_len);
    assert(b.subrange(4, 4 + b[3]) =~= p.data@.subrange(0, p.data_len as int));
    assert(p.data@ =~= p.data@.subrange(0, p.data_len as int) + p.data@.subrange(
        p.data_len as int,
        252,
    ));
}


/// Response packet: a status, up to six data bytes, and their count.
#[derive(Debug, Clone, Copy)]
pub struct ResponsePacket {
    /// Status code
    pub status: StatusCode,
    /// Response data (up to 6 bytes)
    pub data: [u8; 6],
    /// Data length
    pub data_len: u8,
}

/// The eight bytes a response is sent as.
pub open spec fn response_bytes(r: ResponsePacket) -> Seq<u8> {
    seq![r.status.code_spec(), r.data_len] + r.data@
}

impl ResponsePacket {
    /// A success response with no data.
    pub fn ok() -> (r: Self)
        ensures
            r.status == StatusCode::Success && r.data_len == 0 && r.data@ == zeros(6),
    {
        let r = ResponsePacket { status: StatusCode::Success, data: [0u8; 6], data_len: 0 };
        assert(r.data@ =~= zeros(6));
        r
    }

    /// An error response with no data.
    pub fn error(code: StatusCode) -> (r: Self)
        ensures
            r.status == code && r.data_len == 0 && r.data@ == zeros(6),
    {
        let r = ResponsePacket { status: code, data: [0u8; 6], data_len: 0 };
        assert(r.data@ =~= zeros(6));
        r
    }

    /// Set the data to the first (at most 6) bytes of `data`; later bytes
    /// are kept.
    pub fn with_data(self, data: &[u8]) -> (r: Self)
        ensures
            r.status == self.status,
            r.data_len == if data@.len() < 6 { data@.len() } else { 6 },
            r.data@ == data@.subrange(0, r.data_len as int) + self.data@.subrange(r.data_len as int, 6),
    {
        let mut p = self;
        let len: usize = if data.len() < 6 { data.len() } else { 6 };
        p.data_len = len as u8;
        let mut i: usize = 0;
        while i < len
            invariant
                len <= data@.len(),
                len <= 6,
                i <= len,
                p.status == self.status,
                p.data_len == len,
                p.data@ == data@.subrange(0, i as int) + self.data@.subrange(i as int, 6),
            decreases len - i,
        {
            p.data[i] = data[i];
            assert(p.data@ =~= data@.subrange(0, i + 1) + self.data@.subrange(i + 1, 6));
            i += 1;
        }
        p
    }

    /// Set the data to the four little-endian bytes of `value`.
    pub fn with_u32(self, value: u32) -> (r: Self)
        ensures
            r.status == self.status,
            r.data_len == 4,
            r.data@ == le32_bytes(value) + self.data@.subrange(4, 6),
    {
        let b = u32_le_bytes(value);
        let r = self.with_data(b.as_slice());
        assert(b@.subrange(0, 4) =~= le32_bytes(value));
        r
    }

    /// Set the data to the two little-endian bytes of `value`.
    pub fn with_u16(self, value: u16) -> (r: Self)
        ensures
            r.status == self.status,
            r.data_len == 2,
            r.data@ == seq![(value % 256) as u8, (value / 256) as u8] + self.data@.subrange(2, 6),
    {
        let b = [low_byte_u16(value), high_byte_u16(value)];
        let r = self.with_data(b.as_slice());
        assert(b@.subrange(0, 2) =~= seq![(value % 256) as u8, (value / 256) as u8]);
        r
    }

    /// The eight wire bytes: status, length, then the six data bytes.
    pub fn serialize(&self) -> (r: [u8; 8])
        ensures
            r@ == response_bytes(*self),
    {
        let d = self.data;
        let r = [self.status.code(), self.data_len, d[0], d[1], d[2], d[3], d[4], d[5]];
        assert(r@ =~= response_bytes(*self));
        r
    }
}

/// Receive/transmit state of the API handler.
#[derive(Debug, Clone, Copy, PartialEq, Eq, Structural)]
pub enum HandlerState {
    Idle,
    Receiving,
    Processing,
    Transmitting,
}

/// The abstract state of an `ApiHandler`.
pub ghost struct ApiView {
    pub current_cmd: Option<CommandId>,
    pub rx: Seq<u8>,
    pub tx: Seq<u8>,
    pub rx_pos: nat,
    pub tx_pos: nat,
    pub state: HandlerState,
}

/// Receiving one byte: an idle handler starts a new command; the byte is
/// stored while there is room; the result says whether the stored bytes now
/// hold a whole command (header plus the payload its length byte names).
pub open spec fn rx_step(h: ApiView, byte: u8) -> (ApiView, bool) {
    let h1 = if h.state == HandlerState::Idle {
        ApiView { state: HandlerState::Receiving, rx_pos: 0, ..h }
    } else {
        h
    };
    if h1.rx_pos < 256 {
        let rx = h1.rx.update(h1.rx_pos as int, byte);
        let pos = h1.rx_pos + 1;
        (ApiView { rx, rx_pos: pos, ..h1 }, pos >= 4 && pos >= 4 + rx[3])
    } else {
        (h1, false)
    }
}

/// Transmitting one byte: while transmitting, the next of the eight response
/// bytes; after the last, the handler goes idle and gives `None`.
pub open spec fn tx_step(h: ApiView) -> (ApiView, Option<u8>) {
    if h.state != HandlerState::Transmitting {
        (h, None)
    } else if h.tx_pos < 8 {
        (ApiView { tx_pos: h.tx_pos + 1, ..h }, Some(h.tx[h.tx_pos as int]))
    } else {
        (ApiView { state: HandlerState::Idle, ..h }, None)
    }
}

/// The state after starting to transmit a response.
pub open spec fn start_tx_spec(h: ApiView, r: ResponsePacket) -> ApiView {
    ApiView {
        tx: response_bytes(r) + h.tx.subrange(8, 256),
        tx_pos: 0,
        state: HandlerState::Transmitting,
        ..h
    }
}

/// Feed bytes in order; the final state and each call's result.
pub open spec fn rx_feed(h: ApiView, bytes: Seq<u8>) -> (ApiView, Seq<bool>)
    decreases bytes.len(),
{
    if bytes.len() == 0 {
        (h, Seq::empty())
    } else {
        let (h1, flags) = rx_feed(h, bytes.drop_last());
        let (h2, done) = rx_step(h1, bytes.last());
        (h2, flags.push(done))
    }
}

/// Call `tx_step` `n` times; the final state and each call's result.
pub open spec fn tx_drain(h: ApiView, n: nat) -> (ApiView, Seq<Option<u8>>)
    decreases n,
{
    if n == 0 {
        (h, Seq::empty())
    } else {
        let (h1, out) = tx_drain(h, (n - 1) as nat);
        let (h2, b) = tx_step(h1);
        (h2, out.push(b))
    }
}

/// API request/response handler.
pub struct ApiHandler {
    current_cmd: Option<CommandId>,
    rx_buffer: [u8; 256],
    tx_buffer: [u8; 256],
    rx_pos: usize,
    tx_pos: usize,
    state: HandlerState,
}

impl View for ApiHandler {
    type V = ApiView;

    closed spec fn view(&self) -> ApiView {
        ApiView {
            current_cmd: self.current_cmd,
            rx: self.rx_buffer@,
            tx: self.tx_buffer@,
            rx_pos: self.rx_pos as nat,
            tx_pos: self.tx_pos as nat,
            state: self.state,
        }
    }
}

impl ApiHandler {
    /// The buffers hold 256 bytes and the positions stay inside them.
    pub closed spec fn wf(&self) -> bool {
        &&& self.rx_pos <= 256
        &&& self.tx_pos <= 8
    }

    /// The buffer lengths and positions that `wf` promises, stated over the
    /// view for callers outside this module.
    pub proof fn lemma_view_lens(&self)
        ensures
            self@.rx.len() == 256,
            self@.tx.len() == 256,
            self.wf() ==> self@.rx_pos <= 256 && self@.tx_pos <= 8,
    {
    }

    /// An idle handler with empty buffers.
    pub fn new() -> (r: Self)
        ensures
            r.wf(),
            r@ == (ApiView {
                current_cmd: None,
                rx: zeros(256),
                tx: zeros(256),
                rx_pos: 0,
                tx_pos: 0,
                state: HandlerState::Idle,
            }),
    {
        let r = ApiHandler {
            current_cmd: None,
            rx_buffer: [0u8; 256],
            tx_buffer: [0u8; 256],
            rx_pos: 0,
            tx_pos: 0,
            state: HandlerState::Idle,
        };
        assert(r.rx_buffer@ =~= zeros(256));
        assert(r.tx_buffer@ =~= zeros(256));
        r
    }

    /// Process an incoming byte; true when a complete command is buffered.
    pub fn rx_byte(&mut self, byte: u8) -> (r: bool)
        requires
            old(self).wf(),
        ensures
            final(self).wf(),
            (final(self)@, r) == rx_step(old(self)@, byte),
    {
        if self.state == HandlerState::Idle {
            self.state = HandlerState::Receiving;
            self.rx_pos = 0;
        }
        if self.rx_pos < 256 {
            self.rx_buffer[self.rx_pos] = byte;
            self.rx_pos += 1;
            if self.rx_pos >= 4 {
                let data_len = self.rx_buffer[3] as usize;
                if self.rx_pos >= 4 + data_len {
                    return true;
                }
            }
        }
        false
    }

    /// The command packet in the receive buffer, if it holds one.
    pub fn get_command(&self) -> (r: Option<CommandPacket>)
        requires
            self.wf(),
        ensures
            r is Some <==> command_decode_ok(self@.rx.subrange(0, self@.rx_pos as int)),
            r matches Some(p) ==> {
                let b = self@.rx.subrange(0, self@.rx_pos as int);
                &&& p.cmd == CommandId::from_u8_spec(b[0]).unwrap()
                &&& p.param1 == b[1]
                &&& p.param2 == b[2]
                &&& p.data_len == b[3]
                &&& p.data@ == b.subrange(4, 4 + b[3]) + zeros((252 - b[3]) as nat)
            },
    {
        CommandPacket::deserialize(vstd::slice::slice_subrange(self.rx_buffer.as_slice(), 0, self.rx_pos))
    }

    /// Start transmitting a response.
    pub fn start_tx(&mut self, response: &ResponsePacket)
        requires
            old(self).wf(),
        ensures
            final(self).wf(),
            final(self)@ == start_tx_spec(old(self)@, *response),
    {
        let data = response.serialize();
        let mut i: usize = 0;
        while i < 8
            invariant
                i <= 8,
                data@ == response_bytes(*response),
                self.tx_buffer@.len() == 256,
                forall|k: int| 0 <= k < i ==> #[trigger] self.tx_buffer@[k] == data@[k],
                forall|k: int| 8 <= k < 256 ==> #[trigger] self.tx_buffer@[k] == old(self).tx_buffer@[k],
                self.rx_buffer == old(self).rx_buffer,
                self.rx_pos == old(self).rx_pos,
                self.current_cmd == old(self).current_cmd,
                self.state == old(self).state,
                self.tx_pos == old(self).tx_pos,
            decreases 8 - i,
        {
            self.tx_buffer[i] = data[i];
            i += 1;
        }
        self.tx_pos = 0;
        self.state = HandlerState::Transmitting;
        assert(self.tx_buffer@ =~= response_bytes(*response) + old(self).tx_buffer@.subrange(8, 256));
    }

    /// The next byte to transmit, or `None` when the transmission is over
    /// (the handler then goes idle).
    pub fn tx_byte(&mut self) -> (r: Option<u8>)
        requires
            old(self).wf(),
        ensures
            final(self).wf(),
            (final(self)@, r) == tx_step(old(self)@),
    {
        if self.state != HandlerState::Transmitting {
            return None;
        }
        if self.tx_pos < 8 {
            let byte = self.tx_buffer[self.tx_pos];
            self.tx_pos += 1;
            Some(byte)
        } else {
            self.state = HandlerState::Idle;
            None
        }
    }

    /// Whether the handler is idle.
    pub fn is_idle(&self) -> (r: bool)
        ensures
            r == (self@.state == HandlerState::Idle),
    {
        self.state == HandlerState::Idle
    }

    /// Reset the handler state (buffers are kept).
    pub fn reset(&mut self)
        ensures
            final(self).wf(),
            final(self)@ == (ApiView {
                state: HandlerState::Idle,
                rx_pos: 0,
                tx_pos: 0,
                current_cmd: None,
                ..old(self)@
            }),
    {
        self.state = HandlerState::Idle;
        self.rx_pos = 0;
        self.tx_pos = 0;
        self.current_cmd = None;
    }
}

impl Default for ApiHandler {
    fn default() -> (r: Self)
        ensures
            r.wf(),
            r@ == (ApiView {
                current_cmd: None,
                rx: zeros(256),
                tx: zeros(256),
                rx_pos: 0,
                tx_pos: 0,
                state: HandlerState::Idle,
            }),
    {
        Self::new()
    }
}


proof fn lemma_tx_drain_prefix(h: ApiView, r: ResponsePacket, k: nat)
    requires
        h.tx.len() == 256,
        k <= 8,
    ensures
        tx_drain(start_tx_spec(h, r), k).0 == (ApiView { tx_pos: k, ..start_tx_spec(h, r) }),
        tx_drain(start_tx_spec(h, r), k).1 == response_bytes(r).take(k as int).map_values(
            |b: u8| Some(b),
        ),
    decreases k,
{
    let h0 = start_tx_spec(h, r);
    if k == 0 {
        assert(response_bytes(r).take(0).map_values(|b: u8| Some(b)) =~= Seq::<Option<u8>>::empty());
    } else {
        lemma_tx_drain_prefix(h, r, (k - 1) as nat);
        assert(h0.tx[k - 1] == response_bytes(r)[k - 1]);
        assert(response_bytes(r).take(k as int).map_values(|b: u8| Some(b)) =~= response_bytes(
            r,
        ).take(k - 1).map_values(|b: u8| Some(b)).push(Some(response_bytes(r)[k - 1])));
    }
}

/// After a response is handed to `start_tx`, the next eight `tx_byte` calls
/// give its eight wire bytes in order, and the ninth gives `None` and leaves
/// the handler idle.
pub proof fn law_transmit_response(h: ApiView, r: ResponsePacket)
    requires
        h.tx.len() == 256,
    ensures
        tx_drain(start_tx_spec(h, r), 8).1 == response_bytes(r).map_values(|b: u8| Some(b)),
        tx_step(tx_drain(start_tx_spec(h, r), 8).0).1 is None,
        tx_step(tx_drain(start_tx_spec(h, r), 8).0).0.state == HandlerState::Idle,
{
    lemma_tx_drain_prefix(h, r, 8);
    assert(response_bytes(r).take(8) =~= response_bytes(r));
}

/// Whether `k` bytes received hold a whole command whose length byte is
/// `len_byte`: the four header bytes and the payload they announce.
pub open spec fn rx_complete_at(k: int, len_byte: u8) -> bool {
    k >= 4 && k >= 4 + len_byte
}

/// An idle handler fed any bytes, up to the 256 its buffer holds, stores them
/// in order, and each `rx_byte` call reports a complete command exactly when
/// the bytes received so far hold the header and all the payload bytes its
/// length byte announces.
pub proof fn law_rx_stream(h: ApiView, b: Seq<u8>)
    requires
        h.state == HandlerState::Idle,
        h.rx.len() == 256,
        1 <= b.len() <= 256,
    ensures
        rx_feed(h, b).0.rx_pos == b.len(),
        rx_feed(h, b).0.state == HandlerState::Receiving,
        rx_feed(h, b).0.rx.len() == 256,
        rx_feed(h, b).0.rx.subrange(0, b.len() as int) == b,
        rx_feed(h, b).1 == Seq::new(b.len(), |j: int| rx_complete_at(j + 1, b[3])),
    decreases b.len(),
{
    let k = b.len();
    if k == 1 {
        assert(b.drop_last() =~= Seq::<u8>::empty());
        assert(rx_feed(h, b.drop_last()) == (h, Seq::<bool>::empty()));
        let (h2, done) = rx_step(h, b[0]);
        assert(rx_feed(h, b) == (h2, Seq::<bool>::empty().push(done)));
        assert(h2.rx.subrange(0, 1) =~= b);
        assert(rx_feed(h, b).1 =~= Seq::new(1, |j: int| rx_complete_at(j + 1, b[3])));
    } else {
        let bp = b.drop_last();
        law_rx_stream(h, bp);
        let (h1, flags) = rx_feed(h, bp);
        let (h2, done) = rx_step(h1, b[k - 1]);
        assert(h2.rx == h1.rx.update(k - 1, b[k - 1]));
        assert(h2.rx.subrange(0, k as int) =~= b) by {
            assert forall|j: int| 0 <= j < k implies h2.rx[j] == #[trigger] b[j] by {
                if j < k - 1 {
                    assert(h1.rx.subrange(0, k - 1)[j] == bp[j]);
                }
            }
        }
        if k >= 4 {
            assert(h2.rx[3] == b[3]) by {
                assert(h2.rx.subrange(0, k as int)[3] == b[3]);
            }
        }
        if k > 4 {
            assert(bp[3] == b[3]);
        }
        assert forall|j: int| 0 <= j < k - 1 implies rx_complete_at(j + 1, bp[3])
            == #[trigger] rx_complete_at(j + 1, b[3]) by {
            if j + 1 >= 4 {
                assert(bp[3] == b[3]);
            }
        }
        assert(flags.push(done) =~= Seq::new(k, |j: int| rx_complete_at(j + 1, b[3])));
    }
}

/// An idle handler fed the bytes of any command packet other than the
/// reserved error command reports a complete command on the last byte and on
/// no earlier one, and the packet it then decodes has the sent header and the
/// sent first `data_len` payload bytes.
pub proof fn law_receive_command(h: ApiView, p: CommandPacket)
    requires
        h.state == HandlerState::Idle,
        h.rx.len() == 256,
        p.data_len <= 252,
        p.cmd != CommandId::Error,
    ensures
        ({
            let b = command_bytes(p);
            let (h2, flags) = rx_feed(h, b);
            let got = h2.rx.subrange(0, h2.rx_pos as int);
            &&& flags == Seq::new(b.len(), |j: int| j == b.len() - 1)
            &&& got == b
            &&& command_decode_ok(got)
            &&& CommandId::from_u8_spec(got[0]) == Some(p.cmd)
            &&& got[1] == p.param1
            &&& got[2] == p.param2
            &&& got[3] == p.data_len
            &&& got.subrange(4, 4 + got[3]) == p.data@.subrange(0, p.data_len as int)
        }),
{
    let b = command_bytes(p);
    assert(b[3] == p.data_len);
    law_rx_stream(h, b);
    assert(Seq::new(b.len(), |j: int| rx_complete_at(j + 1, b[3])) =~= Seq::new(
        b.len(),
        |j: int| j == b.len() - 1,
    ));
    law_command_packet_round_trip(p, Seq::empty());
    assert(b + Seq::<u8>::empty() =~= b);
}


/// Command processor: dispatches a command to its handler.
pub struct CommandProcessor;

/// What processing a command answers: the status, the six data bytes and
/// the data length.
pub open spec fn process_spec(cmd: CommandPacket) -> (StatusCode, Seq<u8>, u8) {
    match cmd.cmd {
        CommandId::GetStatus => (StatusCode::Success, seq![0x00u8, 0x10u8, 0u8, 0u8] + zeros(2), 4),
        CommandId::Read => (
            StatusCode::Success,
            le32_bytes(
                (cmd.param1 as int * 16777216 + cmd.param2 as int * 256 + cmd.param2 as int) as u32,
            ) + zeros(2),
            4,
        ),
        CommandId::MeasureConductance => (StatusCode::Success, seq![0x34u8, 0x12u8] + zeros(4), 2),
        CommandId::GetTimeBank => (StatusCode::Success, zeros(6), 2),
        CommandId::Error => (StatusCode::Error, zeros(6), 0),
        _ => (StatusCode::Success, zeros(6), 0),
    }
}

impl CommandProcessor {
    /// Process a command and return the response.
    pub fn process(cmd: &CommandPacket) -> (r: ResponsePacket)
        ensures
            (r.status, r.data@, r.data_len) == process_spec(*cmd),
    {
        match cmd.cmd {
            CommandId::Nop => ResponsePacket::ok(),
            CommandId::GetStatus => Self::handle_get_status(),
            CommandId::Reset => Self::handle_reset(),
            CommandId::Read => Self::handle_read(cmd),
            CommandId::Write => Self::handle_write(cmd),
            CommandId::ApplyPhase => Self::handle_apply_phase(cmd),
            CommandId::MeasureConductance => Self::handle_measure_conductance(cmd),
            CommandId::Evolve => Self::handle_evolve(cmd),
            CommandId::SyncTime => Self::handle_sync_time(),
            CommandId::SetAlpha => Self::handle_set_alpha(cmd),
            CommandId::GetTimeBank => Self::handle_get_time_bank(),
            CommandId::JumpTimeBank => Self::handle_jump_time_bank(cmd),
            CommandId::ReadEigen => Self::handle_read_eigen(cmd),
            CommandId::WriteEigen => Self::handle_write_eigen(cmd),
            CommandId::ReadEdgeCache => Self::handle_read_edge_cache(cmd),
            CommandId::WriteEdgeCache => Self::handle_write_edge_cache(cmd),
            CommandId::BatchRead => Self::handle_batch_read(cmd),
            CommandId::BatchWrite => Self::handle_batch_write(cmd),
            CommandId::Error => ResponsePacket::error(StatusCode::Error),
        }
    }

    fn handle_get_status() -> (r: ResponsePacket)
        ensures
            r.status == StatusCode::Success,
            r.data_len == 4,
            r.data@ == seq![0x00u8, 0x10u8, 0u8, 0u8] + zeros(2),
    {
        let version: u16 = ((FIRMWARE_VERSION.0 as u16) << 8u16) | ((FIRMWARE_VERSION.1 as u16)
            << 4u16) | (FIRMWARE_VERSION.2 as u16);
        let ghost a = FIRMWARE_VERSION.0;
        let ghost b = FIRMWARE_VERSION.1;
        let ghost c = FIRMWARE_VERSION.2;
        assert(a == 0 && b == 1 && c == 0);
        assert(((a as u16) << 8u16) | ((b as u16) << 4u16) | c == 0x10) by (bit_vector)
            requires
                a == 0 && b == 1 && c == 0,
        ;
        assert((version >> 8u16) as u8 == 0 && #[verifier::truncate] (version as u8) == 0x10) by (bit_vector)
            requires
                version == 0x10,
        ;
        let data = [(version >> 8u16) as u8, #[verifier::truncate] (version as u8), 0x00, 0x00];
        assert(data@.subrange(0, 4) =~= seq![0x00u8, 0x10u8, 0u8, 0u8]);
        let r = ResponsePacket::ok().with_data(data.as_slice());
        assert(r.data@ =~= seq![0x00u8, 0x10u8, 0u8, 0u8] + zeros(2));
        r
    }

    fn handle_reset() -> (r: ResponsePacket)
        ensures
            r.status == StatusCode::Success && r.data_len == 0 && r.data@ == zeros(6),
    {
        ResponsePacket::ok()
    }

    fn handle_read(cmd: &CommandPacket) -> (r: ResponsePacket)
        ensures
            r.status == StatusCode::Success,
            r.data_len == 4,
            r.data@ == le32_bytes(
                (cmd.param1 as int * 16777216 + cmd.param2 as int * 256 + cmd.param2 as int) as u32,
            ) + zeros(2),
    {
        let bank = cmd.param1;
        let addr_high = cmd.param2;
        let address: u16 = ((addr_high as u16) << 8u16) | (cmd.param2 as u16);
        let data: u32 = ((bank as u32) << 24u32) | (address as u32);
        assert(((addr_high as u16) << 8u16) | (addr_high as u16) == addr_high * 256 + addr_high)
            by (bit_vector);
        assert(((bank as u32) << 24u32) | (address as u32) == bank * 16777216 + address) by (bit_vector)
            requires
                address < 65536,
        ;
        let r = ResponsePacket::ok().with_u32(data);
        assert(r.data@ =~= le32_bytes(data) + zeros(2));
        r
    }

    fn handle_write(cmd: &CommandPacket) -> (r: ResponsePacket)
        ensures
            r.status == StatusCode::Success && r.data_len == 0 && r.data@ == zeros(6),
    {
        ResponsePacket::ok()
    }

    fn handle_apply_phase(cmd: &CommandPacket) -> (r: ResponsePacket)
        ensures
            r.status == StatusCode::Success && r.data_len == 0 && r.data@ == zeros(6),
    {
        ResponsePacket::ok()
    }

    fn handle_measure_conductance(cmd: &CommandPacket) -> (r: ResponsePacket)
        ensures
            r.status == StatusCode::Success,
            r.data_len == 2,
            r.data@ == seq![0x34u8, 0x12u8] + zeros(4),
    {
        let measurement: u16 = 0x1234;
        let r = ResponsePacket::ok().with_u16(measurement);
        assert(r.data@ =~= seq![0x34u8, 0x12u8] + zeros(4));
        r
    }

    fn handle_evolve(cmd: &CommandPacket) -> (r: ResponsePacket)
        ensures
            r.status == StatusCode::Success && r.data_len == 0 && r.data@ == zeros(6),
    {
        ResponsePacket::ok()
    }

    fn handle_sync_time() -> (r: ResponsePacket)
        ensures
            r.status == StatusCode::Success && r.data_len == 0 && r.data@ == zeros(6),
    {
        ResponsePacket::ok()
    }

    fn handle_set_alpha(cmd: &CommandPacket) -> (r: ResponsePacket)
        ensures
            r.status == StatusCode::Success && r.data_len == 0 && r.data@ == zeros(6),
    {
        ResponsePacket::ok()
    }

    fn handle_get_time_bank() -> (r: ResponsePacket)
        ensures
            r.status == StatusCode::Success && r.data_len == 2 && r.data@ == zeros(6),
    {
        let bank: u16 = 0;
        let r = ResponsePacket::ok().with_u16(bank);
        assert(r.data@ =~= zeros(6));
        r
    }

    fn handle_jump_time_bank(cmd: &CommandPacket) -> (r: ResponsePacket)
        ensures
            r.status == StatusCode::Success && r.data_len == 0 && r.data@ == zeros(6),
    {
        ResponsePacket::ok()
    }

    fn handle_read_eigen(cmd: &CommandPacket) -> (r: ResponsePacket)
        ensures
            r.status == StatusCode::Success && r.data_len == 0 && r.data@ == zeros(6),
    {
        ResponsePacket::ok()
    }

    fn handle_write_eigen(cmd: &CommandPacket) -> (r: ResponsePacket)
        ensures
            r.status == StatusCode::Success && r.data_len == 0 && r.data@ == zeros(6),
    {
        ResponsePacket::ok()
    }

    fn handle_read_edge_cache(cmd: &CommandPacket) -> (r: ResponsePacket)
        ensures
            r.status == StatusCode::Success && r.data_len == 0 && r.data@ == zeros(6),
    {
        ResponsePacket::ok()
    }

    fn handle_write_edge_cache(cmd: &CommandPacket) -> (r: ResponsePacket)
        ensures
            r.status == StatusCode::Success && r.data_len == 0 && r.data@ == zeros(6),
    {
        ResponsePacket::ok()
    }

    fn handle_batch_read(cmd: &CommandPacket) -> (r: ResponsePacket)
        ensures
            r.status == StatusCode::Success && r.data_len == 0 && r.data@ == zeros(6),
    {
        ResponsePacket::ok()
    }

    fn handle_batch_write(cmd: &CommandPacket) -> (r: ResponsePacket)
        ensures
            r.status == StatusCode::Success && r.data_len == 0 && r.data@ == zeros(6),
    {
        ResponsePacket::ok()
    }
}

} // verus!
