use arcturus::api::CommandId;
use arcturus::edge_cache::EdgeCache;
use arcturus::eigen::{EigenDataValue, EigenManager};
use arcturus::fixed::{fixed_div, fixed_mul, fixed_sqrt, Complex, MemoryBank, FIXED_ONE};
use arcturus::sparse::{SparseElement, SparseMatrix};
use arcturus::sync::{BlockUniverse, PAST, PRESENT};
use arcturus::time_slicer::{SparseWMatrix, TimeSlicer, WElement};

#[test]
fn memory_bank_ids_round_trip() {
    for id in [0u16, 1, 500, 999, 1000, 1001, 1002] {
        assert_eq!(MemoryBank::from_id(id).to_id(), id);
    }
    assert_eq!(MemoryBank::from_id(1003), MemoryBank::Undefined);
    assert_eq!(MemoryBank::TimeBank(5000).to_id(), 999);
    assert_eq!(MemoryBank::Undefined.to_id(), 255);
}

#[test]
fn command_ids_round_trip() {
    for b in 0u8..=255 {
        if let Some(id) = CommandId::from_u8(b) {
            assert_eq!(id.code(), b);
        }
    }
    assert_eq!(CommandId::from_u8(CommandId::Reset.code()), Some(CommandId::Reset));
    assert_eq!(CommandId::from_u8(0x13), None);
}

#[test]
fn fixed_point_formulas() {
    assert_eq!(fixed_mul(FIXED_ONE / 2, FIXED_ONE / 2), FIXED_ONE / 4);
    assert_eq!(fixed_mul(-3 * FIXED_ONE, FIXED_ONE / 2), -3 * FIXED_ONE / 2);
    assert_eq!(fixed_div(FIXED_ONE, 2 * FIXED_ONE), FIXED_ONE / 2);
    assert_eq!(fixed_div(-FIXED_ONE, 3 * FIXED_ONE), -21845);
    assert_eq!(fixed_div(FIXED_ONE, 0), 0);
    assert_eq!(fixed_div(i32::MAX, FIXED_ONE / 2), ((i32::MAX as i64 * 2) as i32));
    assert_eq!(fixed_sqrt(0), 0);
    assert_eq!(fixed_sqrt(-5), 0);
    assert!(fixed_sqrt(100 * FIXED_ONE) <= 2 * FIXED_ONE);
    let z = Complex::new(FIXED_ONE, 2 * FIXED_ONE).mul(&Complex::new(3 * FIXED_ONE, -FIXED_ONE));
    assert_eq!(z, Complex::new(5 * FIXED_ONE, 5 * FIXED_ONE));
    assert_eq!(Complex::new(i32::MAX, 1).add(&Complex::new(1, 1)), Complex::new(i32::MAX, 2));
}

#[test]
fn transpose_twice_gives_the_matrix_back() {
    let mut m = SparseMatrix::<8>::new(3);
    m.set(0, 2, 7, -1).unwrap();
    m.set(1, 0, 3, 4).unwrap();
    let t = m.transpose();
    assert_eq!(t.get(2, 0).re, 7);
    let tt = t.transpose();
    assert_eq!(tt.elements, m.elements);
    assert_eq!(tt.dimension, m.dimension);
}

#[test]
fn w_matrix_serialization_round_trip() {
    let mut w = SparseWMatrix::<16>::new(50);
    w.set(3, 4, WElement::new(-7, 9)).unwrap();
    w.set(49, 0, WElement::new(i32::MIN, i32::MAX)).unwrap();
    let mut bytes = w.serialize().unwrap();
    bytes.extend_from_slice(&[0xAA, 0xBB]);
    let back = SparseWMatrix::<16>::deserialize(&bytes).unwrap();
    assert_eq!(back.dimension, 50);
    assert_eq!(back.elements, w.elements);
    assert!(SparseWMatrix::<16>::deserialize(&bytes[..5]).is_err());
    assert!(SparseWMatrix::<1>::deserialize(&bytes).is_err());
}

#[test]
fn step_forward_then_backward_restores_state() {
    let mut slicer = TimeSlicer::<16>::new(0, 4096);
    slicer.current_w_mut().set(2, 3, WElement::new(11, 12)).unwrap();
    slicer.step_forward().unwrap();
    assert_eq!(slicer.current_time(), 1);
    assert_eq!(slicer.current_w().len(), 0);
    slicer.step_backward().unwrap();
    assert_eq!(slicer.current_time(), 0);
    assert_eq!(slicer.current_w().get(2, 3), WElement::new(11, 12));
}

#[test]
fn cache_writes_to_other_slots_and_repeated_reads() {
    let mut cache = EdgeCache::<8>::new();
    cache.write(1, 2).unwrap();
    cache.write(2, 3).unwrap();
    assert_eq!(cache.read(1), Some(2));
    assert_eq!(cache.read(1), Some(2));
    assert_eq!(cache.read(2), Some(3));
    assert_eq!(cache.stats().hits, 3);
}

#[test]
fn eigen_write_keeps_other_modes() {
    let mut m = EigenManager::new();
    m.write_mode(2, EigenDataValue::One, 10).unwrap();
    m.write_mode(0, EigenDataValue::Invalid, 10).unwrap();
    assert_eq!(m.read_mode(2), EigenDataValue::One);
    assert_eq!(m.read_mode(0), EigenDataValue::Invalid);
    assert_eq!(m.read_mode(1), EigenDataValue::Zero);
    for v in [EigenDataValue::Zero, EigenDataValue::One, EigenDataValue::Invalid] {
        assert_eq!(EigenDataValue::from(v.code()), v);
    }
}

#[test]
fn fidelity_is_capped_at_one() {
    let mut u = BlockUniverse::new();
    u.set_correlation(PRESENT, PAST, i32::MAX);
    u.set_correlation(PRESENT, 2, i32::MAX);
    u.set_correlation(PAST, 2, i32::MAX);
    assert_eq!(u.ghz_fidelity(), FIXED_ONE);
    u.set_correlation(PAST, 2, -300);
    u.set_correlation(PRESENT, 2, 0);
    u.set_correlation(PRESENT, PAST, 0);
    assert_eq!(u.ghz_fidelity(), -100);
}

#[test]
fn fixed_mul_saturates() {
    assert_eq!(fixed_mul(FIXED_ONE, FIXED_ONE), FIXED_ONE);
    assert_eq!(fixed_mul(2 * FIXED_ONE, FIXED_ONE / 2), FIXED_ONE);
    assert_eq!(fixed_mul(32768, 32768), 16384);
    assert_eq!(fixed_mul(i32::MAX / 2, i32::MAX / 2), i32::MAX);
    assert_eq!(fixed_mul(i32::MIN / 2, i32::MAX / 2), i32::MIN);
}

#[test]
fn fixed_sqrt_is_the_square_root() {
    assert_eq!(fixed_sqrt(FIXED_ONE), FIXED_ONE);
    assert_eq!(fixed_sqrt(FIXED_ONE / 4), FIXED_ONE / 2);
    assert_eq!(fixed_sqrt(4 * FIXED_ONE), 2 * FIXED_ONE);
    assert_eq!(fixed_sqrt(2 * FIXED_ONE), 92681);
    assert_eq!(fixed_sqrt(0), 0);
    assert_eq!(fixed_sqrt(-FIXED_ONE), 0);
}

#[test]
fn element_norm_saturates_and_stays_non_negative() {
    assert_eq!(SparseElement::new(0, 0, 256 * FIXED_ONE, 0).norm_sqr(), i32::MAX);
    assert_eq!(SparseElement::new(0, 0, 3 * FIXED_ONE, 4 * FIXED_ONE).norm_sqr(), 25 * FIXED_ONE);
    assert!(SparseElement::new(0, 0, i32::MIN, i32::MIN).norm_sqr() >= 0);
}

#[test]
fn sort_orders_a_transposed_matrix() {
    let mut m = SparseMatrix::<8>::new(4);
    m.set(0, 2, 1, 0).unwrap();
    m.set(1, 0, 2, 0).unwrap();
    m.sort();
    let mut t = m.transpose();
    t.sort();
    let keys: Vec<(u16, u16)> = t.elements.iter().map(|e| (e.row, e.col)).collect();
    assert_eq!(keys, vec![(0, 1), (2, 0)]);
}
