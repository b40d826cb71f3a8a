use arcturus::edge_cache::{
    CacheStats, EdgeCache, EdgeCacheBulk, EdgeCacheEntry, LEVEL_0_MAX, LEVEL_1_MAX, LEVEL_1_MIN, LEVEL_2_MAX,
    LEVEL_2_MIN, LEVEL_3_MAX, LEVEL_3_MIN,
};
use arcturus::eigen::{
    EigenDataValue, EigenManager, EigenModeStorage, EIGEN_PERTURBATION_DELTA, MIN_EIGEN_INDEX, STORAGE_MODES,
};
use arcturus::fixed::{Complex, Fixed, FIXED_ONE};
use arcturus::sparse::SparseMatrix;
use arcturus::time_slicer::{SparseWMatrix, TimeSlicer, WElement, NUM_TIME_BANKS};

// Base eigenvalue of the 100x100 grid Laplacian, as the firmware computes it.
fn base_eigenvalue(index: usize) -> Fixed {
    if index == 0 {
        return 0;
    }
    let i = index / 100;
    let j = index % 100;
    let pi = 3.14159265359f32;
    let cos_i = libm::cosf(pi * i as f32 / 100.0);
    let cos_j = libm::cosf(pi * j as f32 / 100.0);
    let eigenval = 4.0 - 2.0 * cos_i - 2.0 * cos_j;
    (eigenval * FIXED_ONE as f32) as Fixed
}

fn base_table() -> Vec<Fixed> {
    (0..STORAGE_MODES).map(|k| base_eigenvalue(MIN_EIGEN_INDEX + k)).collect()
}

#[test]
fn mod_test_sparse_matrix_basic() {
    let mut mat = SparseMatrix::<100>::new(10);

    mat.set(0, 0, 1000, 0).unwrap();
    mat.set(5, 5, 2000, 0).unwrap();
    mat.set(9, 9, 3000, 0).unwrap();

    assert_eq!(mat.len(), 3);

    let elem = mat.get(5, 5);
    assert_eq!(elem.re, 2000);

    let zero = mat.get(1, 1);
    assert_eq!(zero.re, 0);
}

#[test]
fn mod_test_frobenius_norm() {
    let mut mat = SparseMatrix::<100>::new(10);
    for i in 0..5 {
        mat.set(i, i, 1000, 0).unwrap();
    }
    let norm_sq = mat.frobenius_norm_sqr();
    let expected: i64 = mat.elements.iter().map(|elem| elem.norm_sqr() as i64).sum();
    assert_eq!(norm_sq, expected);
}

#[test]
fn test_edge_cache_entry() {
    let mut entry = EdgeCacheEntry::new(42);

    assert_eq!(entry.node_id, 42);
    assert!(!entry.valid);

    entry.update_from_conductance(5000, 0);

    assert!(entry.valid);
    assert_eq!(entry.data, 1);
    assert_eq!(entry.last_conductance, 5000);

    let target = entry.target_conductance();
    assert!(target >= LEVEL_1_MIN && target <= LEVEL_1_MAX);
}

#[test]
fn test_conductance_levels() {
    assert_eq!(EdgeCacheEntry::conductance_to_data(1000), 0);
    assert_eq!(EdgeCacheEntry::conductance_to_data(5000), 1);
    assert_eq!(EdgeCacheEntry::conductance_to_data(9000), 2);
    assert_eq!(EdgeCacheEntry::conductance_to_data(13000), 3);

    assert!(EdgeCacheEntry::data_to_conductance(0) <= LEVEL_0_MAX);
    assert!(EdgeCacheEntry::data_to_conductance(1) >= LEVEL_1_MIN);
    assert!(EdgeCacheEntry::data_to_conductance(1) <= LEVEL_1_MAX);
}

#[test]
fn test_edge_cache() {
    let mut cache = EdgeCache::<64>::new();

    cache.write(0, 1).unwrap();
    cache.write(10, 2).unwrap();
    cache.write(20, 3).unwrap();

    assert_eq!(cache.read(0), Some(1));
    assert_eq!(cache.read(10), Some(2));
    assert_eq!(cache.read(20), Some(3));

    assert_eq!(cache.read(5), None);

    let stats = cache.stats();
    assert!(stats.hits >= 3);
    assert!(stats.misses >= 1);
}

#[test]
fn test_sparse_matrix_sort() {
    let mut mat = SparseMatrix::<100>::new(10);

    mat.set(5, 5, 100, 0).unwrap();
    mat.set(0, 0, 200, 0).unwrap();
    mat.set(9, 9, 300, 0).unwrap();
    mat.set(2, 3, 400, 0).unwrap();

    assert!(!mat.sorted);

    mat.sort();

    assert!(mat.sorted);

    let elements: Vec<_> = mat.elements.iter().collect();
    assert_eq!(elements[0].row, 0);
    assert_eq!(elements[1].row, 2);
    assert_eq!(elements[2].row, 5);
    assert_eq!(elements[3].row, 9);
}

#[test]
fn test_eigen_mode_storage() {
    let mode = EigenModeStorage::new(1, base_eigenvalue(1), EigenDataValue::One);

    assert_eq!(mode.index, 1);
    assert_eq!(mode.data, EigenDataValue::One);

    let perturbed = mode.perturbed_value();
    assert!(perturbed > mode.base_value);
    assert_eq!(perturbed - mode.base_value, EIGEN_PERTURBATION_DELTA);
}

#[test]
fn test_eigen_manager() {
    let mut manager = EigenManager::new();

    manager.initialize_zeros(&base_table()).unwrap();
    assert!(manager.num_modes() > 0);

    manager.write_mode(0, EigenDataValue::One, base_eigenvalue(MIN_EIGEN_INDEX)).unwrap();
    let data = manager.read_mode(0);
    assert_eq!(data, EigenDataValue::One);

    manager.clear();
    let data_after_clear = manager.read_mode(0);
    assert_eq!(data_after_clear, EigenDataValue::Zero);
}

#[test]
fn time_slicer_test_sparse_matrix_basic() {
    let mut mat = SparseWMatrix::<100>::new(10);

    mat.set(0, 0, WElement::new(FIXED_ONE, 0)).unwrap();
    mat.set(5, 5, WElement::new(0, FIXED_ONE)).unwrap();

    assert_eq!(mat.len(), 2);

    let elem = mat.get(0, 0);
    assert_eq!(elem.re, FIXED_ONE);
    assert_eq!(elem.im, 0);

    let zero = mat.get(1, 1);
    assert_eq!(zero.re, 0);
    assert_eq!(zero.im, 0);
}

#[test]
fn time_slicer_test_frobenius_norm() {
    let mut mat = SparseWMatrix::<100>::new(10);

    let val = ((FIXED_ONE as i64 * 46341) / 32768) as Fixed;
    mat.set(0, 0, WElement::new(val, val)).unwrap();

    let norm_sq = mat.frobenius_norm_sqr();
    let expected = ((val as i64 * val as i64) >> 16) * 2;

    assert!((norm_sq - expected).abs() < 1000);
}

#[test]
fn test_time_slicer_cycle() {
    let mut slicer = TimeSlicer::<100>::new(0x80000000, 65536);

    assert_eq!(slicer.current_time(), 0);

    slicer.step_forward().ok();
    assert_eq!(slicer.current_time(), 1);

    slicer.step_backward().ok();
    assert_eq!(slicer.current_time(), 0);

    for _ in 0..NUM_TIME_BANKS {
        slicer.step_forward().ok();
    }
    assert_eq!(slicer.current_time(), 0);
}

#[test]
fn test_w_element_arithmetic() {
    let a = WElement::new(FIXED_ONE, 0);
    let b = WElement::new(0, FIXED_ONE);

    let sum = a.add(&b);
    assert_eq!(sum.re, FIXED_ONE);
    assert_eq!(sum.im, FIXED_ONE);

    let half = FIXED_ONE / 2;
    let scaled = a.scale(half);
    assert_eq!(scaled.re, half);
    assert_eq!(scaled.im, 0);
}

#[test]
fn test_edge_cache_quantization() {
    let expected_ranges =
        [(0u16, LEVEL_0_MAX), (LEVEL_1_MIN, LEVEL_1_MAX), (LEVEL_2_MIN, LEVEL_2_MAX), (LEVEL_3_MIN, LEVEL_3_MAX)];

    for (i, &data) in [0u8, 1, 2, 3].iter().enumerate() {
        let conductance = EdgeCacheEntry::data_to_conductance(data);
        let (min, max) = expected_ranges[i];
        assert!(
            conductance >= min && conductance <= max,
            "Conductance {} for data {} is outside expected range {}-{}",
            conductance,
            data,
            min,
            max
        );
    }

    let test_conductances = [(2048u16, 0u8), (6144u16, 1u8), (10240u16, 2u8), (14336u16, 3u8)];
    for (conductance, expected_data) in &test_conductances {
        let data = EdgeCacheEntry::conductance_to_data(*conductance);
        assert_eq!(data, *expected_data);
    }

    let mut round_trip_errors = 0;
    for written in 0..=3u8 {
        let conductance = EdgeCacheEntry::data_to_conductance(written);
        let recovered_data = EdgeCacheEntry::conductance_to_data(conductance);
        if written != recovered_data {
            round_trip_errors += 1;
        }
    }
    assert_eq!(round_trip_errors, 0);

    let test_cases = [(0u16, 0u8), (100, 1), (5000, 2), (9999, 3)];
    for (node_id, data) in &test_cases {
        let mut entry = EdgeCacheEntry::new(*node_id);
        entry.update_from_conductance(EdgeCacheEntry::data_to_conductance(*data & 0x03), 0);
        let read_data = EdgeCacheEntry::conductance_to_data(entry.last_conductance);
        assert_eq!(read_data, *data);
        let conductance = entry.last_conductance;
        let expected_range = match *data {
            0 => (0u16, LEVEL_0_MAX),
            1 => (LEVEL_1_MIN, LEVEL_1_MAX),
            2 => (LEVEL_2_MIN, LEVEL_2_MAX),
            _ => (LEVEL_3_MIN, LEVEL_3_MAX),
        };
        assert!(conductance >= expected_range.0 && conductance <= expected_range.1);
    }

    let measurement_test_cases = [(1000u16, 0u8), (5000, 1), (9000, 2), (14000, 3)];
    for (conductance, expected_data) in &measurement_test_cases {
        let mut entry = EdgeCacheEntry::new(0);
        entry.update_from_conductance(*conductance, 0);
        let read_data = EdgeCacheEntry::conductance_to_data(entry.last_conductance);
        assert_eq!(read_data, *expected_data);
    }
}

#[test]
fn conductance_midpoints_are_exact() {
    assert_eq!(EdgeCacheEntry::data_to_conductance(0), 2047);
    assert_eq!(EdgeCacheEntry::data_to_conductance(1), 6143);
    assert_eq!(EdgeCacheEntry::data_to_conductance(2), 10239);
    assert_eq!(EdgeCacheEntry::data_to_conductance(3), 14335);
    assert_eq!(EdgeCacheEntry::data_to_conductance(6), 10239);
}

#[test]
fn cache_write_evicts_and_counts_writeback() {
    let mut cache = EdgeCache::<16>::new();
    cache.write(3, 7).unwrap();
    assert_eq!(cache.read(3), Some(3));
    // Node 19 shares slot 3 with node 3, whose entry is dirty.
    cache.write(19, 2).unwrap();
    assert_eq!(cache.stats().writebacks, 1);
    assert_eq!(cache.read(3), None);
    assert_eq!(cache.read(19), Some(2));
    assert_eq!(cache.dirty_entries(), 1);
    assert_eq!(cache.valid_entries(), 1);
    assert_eq!(cache.flush(), 1);
    assert_eq!(cache.dirty_entries(), 0);
    assert_eq!(cache.stats().writebacks, 2);
    assert!(cache.invalidate(19));
    assert_eq!(cache.read(19), None);
    assert!(!cache.invalidate(35));
    assert_eq!(cache.stats().invalidations, 1);
    cache.reset_stats();
    assert_eq!(*cache.stats(), CacheStats::default());
}

#[test]
fn cache_tick_wraps_and_stamps_writes() {
    let mut cache = EdgeCache::<4>::new();
    cache.tick();
    cache.tick();
    assert_eq!(cache.timestamp(), 2);
    cache.write(1, 1).unwrap();
    let (slot, entry) = cache.lookup(1).unwrap();
    assert_eq!(slot, 1);
    assert_eq!(entry.last_access, 2);
}

#[test]
fn bulk_cache_queues_and_flushes() {
    let mut bulk = EdgeCacheBulk::<64>::new();
    bulk.queue_write(1, 3).unwrap();
    bulk.queue_write(2, 2).unwrap();
    bulk.queue_prefetch(1).unwrap();
    bulk.queue_prefetch(5).unwrap();
    assert_eq!(bulk.flush_writes(), 2);
    assert_eq!(bulk.execute_prefetches(), 1);
    assert_eq!(bulk.cache().stats().hits, 1);
    assert_eq!(bulk.cache().stats().misses, 1);
    bulk.cache_mut().write(7, 1).unwrap();
    assert_eq!(bulk.cache_mut().read(7), Some(1));
    for k in 0..64u16 {
        bulk.queue_write(k, 1).unwrap();
    }
    assert!(bulk.queue_write(99, 1).is_err());
    for k in 0..16u16 {
        bulk.queue_prefetch(k).unwrap();
    }
    assert!(bulk.queue_prefetch(99).is_err());
}

#[test]
fn eigen_write_pads_missing_modes() {
    let mut manager = EigenManager::new();
    manager.write_mode(3, EigenDataValue::One, 777).unwrap();
    assert_eq!(manager.num_modes(), 4);
    for k in 0..3 {
        let m = manager.get_mode(k).unwrap();
        assert_eq!(m.index, (MIN_EIGEN_INDEX + 3) as u16);
        assert_eq!(m.base_value, 777);
        assert_eq!(m.data, EigenDataValue::Zero);
    }
    assert_eq!(manager.read_mode(3), EigenDataValue::One);
    assert_eq!(manager.read_mode(4), EigenDataValue::Invalid);
    assert!(manager.write_mode(STORAGE_MODES, EigenDataValue::One, 0).is_err());
    let energy = manager.spectral_energy().unwrap();
    assert_eq!(energy[3], (777i64 + EIGEN_PERTURBATION_DELTA as i64) * (777 + EIGEN_PERTURBATION_DELTA as i64));
    assert_eq!(energy[0], 777 * 777);
    let coeffs = manager.project_to_spectral(&SparseWMatrix::<100>::new(100)).unwrap();
    assert_eq!(coeffs.len(), 4);
    assert_eq!(coeffs[0], Complex::default());
    let w = manager.reconstruct_from_spectral(&coeffs).unwrap();
    assert_eq!(w.dimension, 100);
    assert_eq!(w.len(), 0);
    assert_eq!(manager.iter_modes().len(), 4);
}

#[test]
fn eigen_data_value_from_byte() {
    assert_eq!(EigenDataValue::from(0u8), EigenDataValue::Zero);
    assert_eq!(EigenDataValue::from(1u8), EigenDataValue::One);
    assert_eq!(EigenDataValue::from(2u8), EigenDataValue::Invalid);
    assert_eq!(EigenDataValue::Invalid.code(), 0xFF);
    assert_eq!(EigenDataValue::default(), EigenDataValue::Zero);
}

#[test]
fn eigen_verify_tolerance() {
    let mode = EigenModeStorage::new(2, 1000, EigenDataValue::One);
    assert!(mode.verify(1000 + EIGEN_PERTURBATION_DELTA + 5, 5));
    assert!(!mode.verify(1000 + EIGEN_PERTURBATION_DELTA - 6, 5));
    let saturated = EigenModeStorage::new(2, i32::MAX - 1, EigenDataValue::One);
    assert_eq!(saturated.perturbed_value(), i32::MAX);
}

#[test]
fn time_slicer_save_then_load_restores_state() {
    let mut slicer = TimeSlicer::<100>::new(0, 4096);
    let mut w = SparseWMatrix::<100>::new(10_000);
    w.set(1, 2, WElement::new(5, -6)).unwrap();
    *slicer.current_w_mut() = w;
    slicer.save_to_bank(7).unwrap();
    slicer.current_w_mut().clear();
    slicer.load_from_bank(7).unwrap();
    assert_eq!(slicer.current_w().get(1, 2), WElement::new(5, -6));
    assert!(slicer.save_to_bank(NUM_TIME_BANKS as u16).is_err());
}

#[test]
fn large_cache_appends_past_its_slots() {
    let mut cache = EdgeCache::<20000>::new();
    assert!(cache.write(15000, 1).is_ok());
    assert!(cache.write(9999, 2).is_ok());
    assert_eq!(cache.read(9999), Some(2));
}
