use arcturus::api::{ApiHandler, CommandId, CommandPacket, CommandProcessor, ResponsePacket, StatusCode};
use arcturus::cli;
use arcturus::compiler::{CompilerConfig, ModelCompiler};
use arcturus::gpio::{GpioError, NodeAddressGpio};
use arcturus::hal::{HalError, SystemHal};
use arcturus::spi::{
    psram_read, psram_read_frame, psram_sector_erase_frame, psram_write, psram_write_check, psram_write_frame,
    HostCommand, HostResponse, Psram, SpiError,
};
use arcturus::sync::{BlockUniverse, BlockUniverseSync, FUTURE, PAST, PRESENT};
use arcturus::system::{SystemState, SystemStatus};

type Gpio = NodeAddressGpio<(), (), (), (), (), (), (), (), (), (), (), (), (), (), (), ()>;

#[test]
fn test_buffer_overflow_protection() {
    let valid_ids = [0u16, 100, 5050, 9999];
    for id in &valid_ids {
        let result = Gpio::address_bits(*id);
        assert!(result.is_ok(), "Valid node ID {} should succeed", id);
        let (row, col) = Gpio::node_to_coords(*id);
        assert!(row < 100 && col < 100);
    }

    let invalid_ids = [10000u16, 15000, 65535];
    for id in &invalid_ids {
        let result = Gpio::address_bits(*id);
        assert!(result.is_err(), "Invalid node ID {} should fail", id);
    }

    let bad_id = 15000u16;
    let (row_unchecked, _col_unchecked) = Gpio::node_to_coords(bad_id);
    assert!(row_unchecked >= 100, "Unchecked access produces invalid row");
}

#[test]
fn node_coordinates_and_address_bits() {
    assert_eq!(Gpio::node_to_coords(5050), (50, 50));
    assert_eq!(Gpio::coords_to_node(50, 50), 5050);
    assert_eq!(Gpio::coords_to_node(99, 99), 9999);
    assert_eq!(Gpio::to_7bit(0b101_0011), [true, true, false, false, true, false, true]);
    let (row_bits, col_bits) = Gpio::address_bits(9901).unwrap();
    assert_eq!(row_bits, Gpio::to_7bit(99));
    assert_eq!(col_bits, Gpio::to_7bit(1));
    assert_eq!(Gpio::address_bits(10000), Err(GpioError::InvalidAddress));
    let mut g = Gpio::new(((), (), (), (), (), (), ()), ((), (), (), (), (), (), ()), (), ());
    g.set_current_node(42);
    assert_eq!(g.current_node, 42);
}

#[test]
fn system_hal_selects_only_grid_nodes() {
    let mut hal = SystemHal::new(1u8, 2u8, 3u8, 4u8);
    assert_eq!(hal.current_node, 0);
    assert_eq!(hal.select_node(10000), Err(HalError::InvalidNodeId));
    assert_eq!(hal.current_node, 0);
    assert_eq!(hal.select_node(9999), Ok(()));
    assert_eq!(hal.current_node, 9999);
}

#[test]
fn command_packet_round_trip() {
    let p = CommandPacket::new(CommandId::Write, 3, 4).with_data(&[9, 8, 7]);
    let mut buf = [0u8; 64];
    let n = p.serialize(&mut buf);
    assert_eq!(n, 7);
    assert_eq!(&buf[..7], &[CommandId::Write.code(), 3, 4, 3, 9, 8, 7]);
    let q = CommandPacket::deserialize(&buf[..n]).unwrap();
    assert_eq!(q.cmd, CommandId::Write);
    assert_eq!((q.param1, q.param2, q.data_len), (3, 4, 3));
    assert_eq!(&q.data[..3], &[9, 8, 7]);
    assert!(CommandPacket::deserialize(&buf[..3]).is_none());
    let mut small = [0u8; 5];
    assert_eq!(p.serialize(&mut small), 0);
}

#[test]
fn response_packet_bytes() {
    let r = ResponsePacket::ok().with_u32(0x1234_5678);
    let b = r.serialize();
    assert_eq!(b, [StatusCode::Success.code(), 4, 0x78, 0x56, 0x34, 0x12, 0, 0]);
    let e = ResponsePacket::error(StatusCode::Busy).serialize();
    assert_eq!(e[0], StatusCode::Busy.code());
    assert_eq!(e[1], 0);
}

#[test]
fn command_processor_answers() {
    let status = CommandProcessor::process(&CommandPacket::new(CommandId::GetStatus, 0, 0));
    assert_eq!(status.status, StatusCode::Success);
    assert_eq!(status.data_len, 4);
    assert_eq!(&status.data[..4], &[0x00, 0x10, 0, 0]);
    let measure = CommandProcessor::process(&CommandPacket::new(CommandId::MeasureConductance, 0, 5));
    assert_eq!(measure.data_len, 2);
    assert_eq!(&measure.data[..2], &[0x34, 0x12]);
    let err = CommandProcessor::process(&CommandPacket::new(CommandId::Error, 0, 0));
    assert_eq!(err.status, StatusCode::Error);
}

#[test]
fn api_handler_receives_and_transmits() {
    let mut h = ApiHandler::new();
    assert!(h.is_idle());
    let p = CommandPacket::new(CommandId::Read, 1, 2).with_data(&[5]);
    let mut buf = [0u8; 8];
    let n = p.serialize(&mut buf);
    for k in 0..n {
        let done = h.rx_byte(buf[k]);
        assert_eq!(done, k == n - 1);
    }
    let got = h.get_command().unwrap();
    assert_eq!(got.cmd, CommandId::Read);
    assert_eq!((got.param1, got.param2, got.data_len, got.data[0]), (1, 2, 1, 5));
    let resp = CommandProcessor::process(&got);
    h.start_tx(&resp);
    let expected = resp.serialize();
    for k in 0..8 {
        assert_eq!(h.tx_byte(), Some(expected[k]));
    }
    assert_eq!(h.tx_byte(), None);
    assert!(h.is_idle());
    h.reset();
    assert!(h.is_idle());
}

#[test]
fn psram_write_then_read() {
    let mut psram = Psram::new();
    psram_write(&mut psram, 100, &[1, 2, 3]).unwrap();
    assert_eq!(psram_read(&mut psram, 99, 5).unwrap(), vec![0, 1, 2, 3, 0]);
    assert_eq!(psram_write(&mut psram, 64 * 1024 * 1024 - 1, &[1, 2]), Err(SpiError::InvalidAddress));
}

#[test]
fn psram_frames() {
    assert_eq!(psram_read_frame(0x012345, 4, 64 * 1024 * 1024).unwrap()[1..], [0x01, 0x23, 0x45]);
    assert_eq!(psram_read_frame(0xFFFF_FFFF, 4, 64 * 1024 * 1024), Err(SpiError::InvalidAddress));
    assert_eq!(psram_write_check(0, 257, 256, 1 << 26), Err(SpiError::BufferTooLarge));
    assert_eq!(psram_write_check(0, 256, 256, 1 << 26), Ok(()));
    let frame = psram_write_frame(0x000102, &[7, 8]).unwrap();
    assert_eq!(frame[1..], [0x00, 0x01, 0x02, 7, 8]);
    assert_eq!(psram_sector_erase_frame(4097, 4096), Err(SpiError::InvalidAddress));
    assert!(psram_sector_erase_frame(8192, 4096).is_ok());
}

#[test]
fn host_command_decode_and_response_encode() {
    assert_eq!(
        HostCommand::decode(0x04, 0x12, 0x34, &[]),
        Some(HostCommand::MeasureConductance { node_id: 0x1234 })
    );
    assert_eq!(
        HostCommand::decode(0x02, 1, 0x02, &[0x03, 0x78, 0x56, 0x34, 0x12]),
        Some(HostCommand::Write { bank: 1, address: 0x0203, data: 0x1234_5678 })
    );
    assert_eq!(HostCommand::decode(0x09, 0, 0, &[]), None);
    assert_eq!(
        HostResponse::ReadData { data: 0x0A0B_0C0D }.encode(),
        [0x81, 0x0D, 0x0C, 0x0B, 0x0A, 0, 0, 0]
    );
}

#[test]
fn cli_packets_and_responses() {
    let read = cli::read_command(0x0102, 0x0304);
    assert_eq!((read.param1, read.param2, read.data_len), (0x01, 0x02, 2));
    assert_eq!(&read.data[..2], &[0x04, 0x03]);
    let write = cli::write_command(5, 0x0010, 0xAABB_CCDD);
    assert_eq!(&write.data[..6], &[0x10, 0x00, 0xDD, 0xCC, 0xBB, 0xAA]);
    let mut out = [0u8; 260];
    assert_eq!(write.serialize(&mut out), 10);
    assert_eq!(&out[..4], &[0x02, 0, 5, 6]);
    assert_eq!(cli::evolve_command(0x1234, 3).data[0], 3);
    assert_eq!(cli::jump_time_bank_command(999).param2, (999 & 0xFF) as u8);
    assert_eq!(cli::reset_command().command.code(), 0x09);

    let resp = cli::parse_response(&[0x00, 4, 0x01, 0x23, 2, 0x5A, 9, 9], 8).unwrap();
    assert_eq!(resp.status, cli::StatusCode::Success);
    assert_eq!(resp.data, [0x01, 0x23, 2, 0x5A, 0, 0]);
    let (version, state, flags) = cli::status_fields(&resp).unwrap();
    assert_eq!((version, state, flags), (0x0123, 2, 0x5A));
    assert_eq!(cli::version_parts(0x1234), (1, 2, 0x34));
    assert_eq!(cli::state_name(state), "Computing");
    assert_eq!(cli::state_name(200), "Unknown");
    assert_eq!(cli::read_value(&resp), Some(0x5A02_2301));
    assert!(cli::parse_response(&[0; 8], 1).is_err());
    let unknown = cli::parse_response(&[0x42, 9, 1, 2, 3, 4, 5, 6], 8).unwrap();
    assert_eq!(unknown.status, cli::StatusCode::Error);
    assert_eq!(unknown.data_len, 6);
    assert_eq!(cli::read_u16_value(&unknown), None);
}

#[test]
fn cli_number_parsing() {
    assert_eq!(cli::parse_hex_or_dec("0x1F"), Ok(31));
    assert_eq!(cli::parse_hex_or_dec("0XfF"), Ok(255));
    assert_eq!(cli::parse_hex_or_dec("42"), Ok(42));
    assert_eq!(cli::parse_hex_or_dec("+7"), Ok(7));
    assert!(cli::parse_hex_or_dec("0x").is_err());
    assert!(cli::parse_hex_or_dec("").is_err());
    assert!(cli::parse_hex_or_dec("12a").is_err());
    assert!(cli::parse_hex_or_dec("4294967296").is_err());
    assert_eq!(cli::parse_hex_or_dec("4294967295"), Ok(u32::MAX));
}

#[test]
fn compiler_emits_zeroed_image() {
    let config = CompilerConfig::default();
    assert_eq!(config.quantization_bits, 16);
    assert_eq!(config.max_matrix_size, 10000);
    let compiler = ModelCompiler::new(config);
    assert_eq!(compiler.compile("model.pt").unwrap(), vec![0u8; 100]);
}

#[test]
fn system_status_transitions() {
    let mut s = SystemStatus::new();
    assert_eq!(s.state, SystemState::Initializing);
    s.mark_ready();
    assert_eq!(s.state, SystemState::Idle);
    s.set_error(0xFFFF);
    assert_eq!(s.state, SystemState::Error);
    assert_eq!(s.error_code, 0xFFFF);
    s.reset();
    assert_eq!(s.state, SystemState::Initializing);
    assert_eq!(s.error_code, 0);
}

#[test]
fn block_universe_synchronization() {
    let mut u = BlockUniverse::new();
    assert!(!u.is_entangled());
    u.initialize_ghz();
    assert!(u.is_entangled());
    assert_eq!(u.ghz_fidelity(), 65536);
    u.set_correlation(PRESENT, PAST, 60000);
    assert_eq!(u.correlation(PAST, PRESENT), 60000);
    assert_eq!(u.correlation(3, 0), 0);
    u.synchronize();
    assert_eq!(u.correlation(PRESENT, PAST), (60000 + 65536) / 2);
    assert_eq!(u.correlation(PRESENT, FUTURE), u.correlation(PRESENT, PAST));
    assert_eq!(u.correlation(PAST, FUTURE), u.correlation(PRESENT, PAST));
    assert_eq!(u.sync_timestamp, 1);
    u.set_correlation(PRESENT, PAST, 50000);
    u.evolve_correlations(0);
    assert_eq!(u.correlation(PRESENT, FUTURE), 50000);
    assert_eq!(u.ghz_fidelity(), 50000);
    u.reset();
    assert!(!u.synchronized);

    let mut s = BlockUniverseSync::new();
    assert!(!s.synchronize());
    assert_eq!(s.sync_count, 0);
    s.initialize_ghz();
    assert!(s.synchronize());
    assert_eq!(s.status(), (true, 65536, 1));
}

fn fixed_mul_saturating(a: i32, b: i32) -> i32 {
    arcturus::fixed::fixed_mul(a, b)
}

fn fixed_mul_wrapping(a: i32, b: i32) -> i32 {
    ((a as i64 * b as i64) >> 16) as i32
}

#[test]
fn test_integer_overflow_protection() {
    let fixed_one: i32 = 1 << 16;
    let to_fixed = |f: f32| (f * fixed_one as f32) as i32;
    let to_float = |f: i32| f as f32 / fixed_one as f32;

    let a = to_fixed(0.5);
    let b = to_fixed(0.5);
    let result_saturating = fixed_mul_saturating(a, b);
    let result_wrapping = fixed_mul_wrapping(a, b);
    assert!((to_float(result_saturating) - 0.25).abs() < 0.01);
    assert_eq!(result_saturating, result_wrapping, "Normal values should match");

    let large_a = i32::MAX / 2;
    let large_b = i32::MAX / 2;
    let result_saturating = fixed_mul_saturating(large_a, large_b);
    let result_wrapping = fixed_mul_wrapping(large_a, large_b);
    assert_eq!(result_saturating, i32::MAX, "Saturating should clamp to MAX");
    assert_ne!(result_wrapping, result_saturating, "Wrapping produces different result");

    let boundary_tests = [
        (fixed_one, fixed_one, 1.0f32),
        (fixed_one * 2, fixed_one / 2, 1.0),
        (i32::MAX / 4, fixed_one, (i32::MAX / 4) as f32 / fixed_one as f32),
    ];
    for (a, b, expected) in &boundary_tests {
        let result = fixed_mul_saturating(*a, *b);
        let result_f = result as f32 / fixed_one as f32;
        let error = (result_f - *expected).abs();
        assert!(error < 0.1, "Boundary test failed: error too large");
    }
}

#[test]
fn deserialize_rejects_malformed_packets() {
    let p = CommandPacket::deserialize(&[0x02, 0x10, 0x20, 0x04, 0xAA, 0xBB, 0xCC, 0xDD]).unwrap();
    assert!(matches!(p.cmd, CommandId::Write));
    assert_eq!((p.param1, p.param2, p.data_len), (0x10, 0x20, 4));
    assert_eq!(&p.data[..4], &[0xAA, 0xBB, 0xCC, 0xDD]);
    assert!(CommandPacket::deserialize(&[0x01, 0x00]).is_none());
    assert!(CommandPacket::deserialize(&[0x01, 0, 0, 0xFF]).is_none());
    assert!(CommandPacket::deserialize(&[0xFF, 0, 0, 0]).is_none());
    assert!(CommandPacket::deserialize(&[0x7F, 0, 0, 0]).is_none());
    let mut long = vec![0x01u8, 0, 0, 0xFD];
    long.extend_from_slice(&[0u8; 253]);
    assert!(CommandPacket::deserialize(&long).is_none());
    let mut full = vec![0x01u8, 0, 0, 252];
    full.extend_from_slice(&[7u8; 252]);
    assert_eq!(CommandPacket::deserialize(&full).unwrap().data_len, 252);
}

#[test]
fn synchronize_re_establishes_lost_entanglement() {
    let mut s = BlockUniverseSync::new();
    assert!(!s.synchronize());
    assert_eq!(s.sync_count, 0);
    assert!(s.is_synchronized());
    assert_eq!(s.universe.correlation(PRESENT, PAST), s.universe.correlation(PRESENT, FUTURE));
    assert!(s.synchronize());
    assert_eq!(s.sync_count, 1);
}

#[test]
fn test_spi_command_injection() {
    let valid: [(Vec<u8>, u8, u8, u8, u8); 2] = [
        (vec![0x01, 0x00, 0x00, 0x00], 0x01, 0, 0, 0),
        (vec![0x02, 0x10, 0x20, 0x04, 0xAA, 0xBB, 0xCC, 0xDD], 0x02, 0x10, 0x20, 4),
    ];
    for (buffer, cmd, param1, param2, data_len) in &valid {
        let p = CommandPacket::deserialize(buffer).expect("valid packet");
        assert_eq!(p.cmd.code(), *cmd);
        assert_eq!((p.param1, p.param2, p.data_len), (*param1, *param2, *data_len));
    }
    let invalid = [vec![0x01u8, 0x00], vec![0xFF, 0x00, 0x00, 0x00], vec![0x01, 0x00, 0x00, 0xFF]];
    for buffer in &invalid {
        assert!(CommandPacket::deserialize(buffer).is_none());
    }
    for buffer in [vec![0x00u8, 0x00, 0x00, 0x00], vec![0x01, 0xFF, 0xFF, 0x00], vec![0x7F, 0x00, 0x00, 0x00]] {
        let _ = CommandPacket::deserialize(&buffer);
    }
    for i in 0..100u32 {
        let random_buffer: Vec<u8> = (0..8).map(|_| (i * 7 + 13) as u8).collect();
        let _ = CommandPacket::deserialize(&random_buffer);
    }
}
