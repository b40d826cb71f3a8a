use arcturus::evolution::{
    matrix_exp_pade1, unitary_evolution_operator, EvolutionEngine, ALPHA_DEAD_ZONE,
    ALPHA_DEFAULT,
};
use arcturus::dense::{
    augment_with_identity, dense_add, dense_generator, dense_identity, dense_mul, dense_products_fit, dense_sub,
    eliminate_column, elimination_in_range, extract_inverse, pivot_scores_in_range, select_pivot, swap_rows,
};
use arcturus::fixed::{fixed_mul, Complex, Fixed, FIXED_ONE};
use arcturus::laplacian::{AdjacencyList, Edge, EdgeType, GridTopology, LaplacianBuilder};
use arcturus::sparse::SparseMatrix;

fn float_to_fixed(f: f32) -> Fixed {
    (f * FIXED_ONE as f32) as Fixed
}

fn fixed_to_float(f: Fixed) -> f32 {
    f as f32 / FIXED_ONE as f32
}

// Dense evaluation of the Cayley form (I - A/2)^-1 (I + A/2) of A = iαL,
// as the firmware computes it for small matrices.
fn dense_operator(laplacian: &SparseMatrix<10>, alpha: Fixed) -> Vec<Complex> {
    let n = laplacian.dimension as usize;
    let mut a = vec![Complex::default(); n * n];
    for elem in &laplacian.elements {
        a[elem.row as usize * n + elem.col as usize] = Complex::new(0, fixed_mul(elem.re, alpha));
    }
    let half: Vec<Complex> = a
        .iter()
        .map(|v| {
            Complex::new(
                float_to_fixed(fixed_to_float(v.re) * 0.5),
                float_to_fixed(fixed_to_float(v.im) * 0.5),
            )
        })
        .collect();
    let mut plus = vec![Complex::default(); n * n];
    let mut minus = vec![Complex::default(); n * n];
    for i in 0..n * n {
        let id = if i % (n + 1) == 0 { FIXED_ONE } else { 0 };
        plus[i] = Complex::new(id.saturating_add(half[i].re), half[i].im);
        minus[i] = Complex::new(id.saturating_sub(half[i].re), 0i32.saturating_sub(half[i].im));
    }
    let inverse = dense_inverse(&minus, n);
    let mut out = vec![Complex::default(); n * n];
    for i in 0..n {
        for k in 0..n {
            for j in 0..n {
                let p = inverse[i * n + k].mul(&plus[k * n + j]);
                out[i * n + j] = out[i * n + j].add(&p);
            }
        }
    }
    out
}

fn complex_div(a: Complex, b: Complex) -> Complex {
    let (ar, ai) = (a.re as f64 / 65536.0, a.im as f64 / 65536.0);
    let (br, bi) = (b.re as f64 / 65536.0, b.im as f64 / 65536.0);
    let d = br * br + bi * bi;
    if d == 0.0 {
        return Complex::default();
    }
    Complex::new(
        float_to_fixed(((ar * br + ai * bi) / d) as f32),
        float_to_fixed(((ai * br - ar * bi) / d) as f32),
    )
}

fn dense_inverse(a: &[Complex], n: usize) -> Vec<Complex> {
    let w = 2 * n;
    let mut aug = vec![Complex::default(); n * w];
    for r in 0..n {
        for c in 0..n {
            aug[r * w + c] = a[r * n + c];
        }
        aug[r * w + n + r] = Complex::new(FIXED_ONE, 0);
    }
    for p in 0..n {
        let pv = aug[p * w + p];
        for c in 0..w {
            aug[p * w + c] = complex_div(aug[p * w + c], pv);
        }
        for r in 0..n {
            if r == p {
                continue;
            }
            let f = aug[r * w + p];
            for c in 0..w {
                let rhs = f.mul(&aug[p * w + c]);
                let lhs = aug[r * w + c];
                aug[r * w + c] = Complex::new(lhs.re.saturating_sub(rhs.re), lhs.im.saturating_sub(rhs.im));
            }
        }
    }
    let mut inv = vec![Complex::default(); n * n];
    for r in 0..n {
        for c in 0..n {
            inv[r * n + c] = aug[r * w + n + c];
        }
    }
    inv
}

#[test]
fn test_evolution_engine_creation() {
    let engine = EvolutionEngine::new();

    assert_eq!(engine.alpha(), ALPHA_DEFAULT);
    assert_eq!(engine.step_count, 0);
    assert_eq!(engine.initial_norm_sq, 0);
}

#[test]
fn test_alpha_setting() {
    let mut engine = EvolutionEngine::new();

    engine.set_alpha(float_to_fixed(1.5));
    let alpha_float = fixed_to_float(engine.alpha());
    assert!(alpha_float > 0.5 && alpha_float < 2.5);

    engine.set_alpha(float_to_fixed(0.8));
    let adjusted_alpha = fixed_to_float(engine.alpha());
    assert!(adjusted_alpha > 1.0 || adjusted_alpha < 0.6);
}

#[test]
fn test_unitary_evolution_operator() {
    let mut laplacian = SparseMatrix::<10>::new(2);
    laplacian.set(0, 0, 1000, 0).unwrap();
    laplacian.set(0, 1, -1000, 0).unwrap();
    laplacian.set(1, 0, -1000, 0).unwrap();
    laplacian.set(1, 1, 1000, 0).unwrap();

    let alpha = float_to_fixed(0.1);
    let mut u = SparseMatrix::<10>::new(2);
    let dense = dense_operator(&laplacian, alpha);
    unitary_evolution_operator(&laplacian, alpha, Some(&dense), &mut u).unwrap();

    assert_eq!(u.dimension, laplacian.dimension);

    let u_00 = u.get(0, 0);
    let u_01 = u.get(0, 1);

    let real_diag = fixed_to_float(u_00.re);
    assert!(real_diag > 0.9 && real_diag < 1.1);

    let imag_off = fixed_to_float(u_01.im);
    let expected_imag_off = fixed_to_float(fixed_mul(laplacian.get(0, 1).re, alpha));
    assert!(
        (imag_off - expected_imag_off).abs() < 0.001,
        "imag_off {} did not match expected {}",
        imag_off,
        expected_imag_off
    );
}

#[test]
fn test_matrix_exp_pade1() {
    let mut a = SparseMatrix::<10>::new(2);
    a.set(0, 1, 500, 0).unwrap();
    a.set(1, 0, 500, 0).unwrap();

    let mut result = SparseMatrix::<10>::new(2);
    matrix_exp_pade1(&a, &mut result).unwrap();

    let r_00 = result.get(0, 0);
    let r_01 = result.get(0, 1);

    assert_eq!(r_00.re, FIXED_ONE + 0);
    assert_eq!(r_01.re, 500);
}

#[test]
fn test_frobenius_norm_conservation() {
    let mut engine = EvolutionEngine::new();

    let mut w = SparseMatrix::<100>::new(4);
    w.set(0, 0, 1000, 0).unwrap();
    w.set(1, 1, 1000, 0).unwrap();
    w.set(2, 2, 1000, 0).unwrap();
    w.set(3, 3, 1000, 0).unwrap();

    engine.initialize(&w);

    // Norm conservation within 1%, as the engine's check computes it.
    let current = w.frobenius_norm_sqr();
    let conserved = if engine.initial_norm_sq == 0 {
        current == 0
    } else {
        let diff = (current - engine.initial_norm_sq).abs() as f64;
        diff / (engine.initial_norm_sq as f64) < (1.0f32 / 100.0) as f64
    };
    assert!(conserved);

    let norm_sq = w.frobenius_norm_sqr();
    let expected_norm_sq: i64 = w.elements.iter().map(|elem| elem.norm_sqr() as i64).sum();
    assert_eq!(norm_sq, expected_norm_sq);
}

#[test]
fn test_lanczos_iteration() {
    let mut a = SparseMatrix::<20>::new(4);
    a.set(0, 0, 4000, 0).unwrap();
    a.set(0, 1, 2000, 0).unwrap();
    a.set(1, 0, 2000, 0).unwrap();
    a.set(1, 1, 4000, 0).unwrap();
    a.set(1, 2, 2000, 0).unwrap();
    a.set(2, 1, 2000, 0).unwrap();
    a.set(2, 2, 4000, 0).unwrap();
    a.set(2, 3, 2000, 0).unwrap();
    a.set(3, 2, 2000, 0).unwrap();
    a.set(3, 3, 4000, 0).unwrap();

    for elem in &a.elements {
        let trans = a.get(elem.col, elem.row);
        assert_eq!(elem.re, trans.re, "Matrix should be symmetric at ({}, {})", elem.row, elem.col);
    }
}

#[test]
fn test_grid_topology() {
    let grid = GridTopology::standard_100x100();

    assert_eq!(grid.num_nodes(), grid.width * grid.height);
    assert_eq!(grid.dimensions(), (100, 100));

    let id = grid.coord_to_id(50, 50);
    assert_eq!(id, 5050);

    let (row, col) = grid.id_to_coord(5050);
    assert_eq!(row, 50);
    assert_eq!(col, 50);
}

#[test]
fn test_adjacency_list() {
    let mut adj = AdjacencyList::new();

    adj.add_edge(0, 1, 1000).unwrap();
    adj.add_edge(1, 2, 1000).unwrap();
    adj.add_edge(2, 0, 1000).unwrap();

    assert_eq!(adj.degree(0), 2000);
    assert_eq!(adj.degree(1), 2000);
    assert_eq!(adj.degree(2), 2000);

    let neighbors_0: Vec<_> = adj.iter_neighbors(0).iter().map(|(n, _)| *n).collect();
    assert!(neighbors_0.contains(&1));
    assert!(neighbors_0.contains(&2));
}

#[test]
fn test_grid_adjacency_generation() {
    let grid = GridTopology::standard_100x100();
    let adj = grid.generate_adjacency_list();

    assert_eq!(adj.num_nodes(), grid.num_nodes());

    let center_node = 5050;
    let center_degree = adj.degree(center_node);
    assert!(center_degree > 0);

    let corner_degree = adj.degree(0);
    assert!(corner_degree >= 2000);

    let num_edges = adj.num_edges();
    assert!(num_edges >= 10000);
}

#[test]
fn test_laplacian_construction() {
    let grid = GridTopology { width: 2, height: 2, diagonal: false, num_long_range: 0 };

    let adj = grid.generate_adjacency_list();
    let laplacian = LaplacianBuilder::build_combinatorial::<100>(&adj);

    assert_eq!(laplacian.dimension, 4);

    let l_00 = laplacian.get(0, 0);
    let expected_degree = 2 * FIXED_ONE;
    assert_eq!(l_00.re, expected_degree);

    let l_01 = laplacian.get(0, 1);
    assert_eq!(l_01.re, -FIXED_ONE);

    let mut total_degree: Fixed = 0;
    for i in 0..4 {
        total_degree = total_degree.saturating_add(laplacian.get(i, i).re);
    }
    assert_eq!(total_degree, 4 * expected_degree);
}

#[test]
fn test_laplacian_properties() {
    let grid = GridTopology::standard_100x100();
    let adj = grid.generate_adjacency_list();
    let laplacian = LaplacianBuilder::build_combinatorial::<10000>(&adj);

    for row in [0u16, 100, 5000, 9999] {
        let mut row_sum: Fixed = 0;
        row_sum = row_sum.saturating_add(laplacian.get(row, row).re);
        if (row as usize) % 100 < 99 {
            row_sum = row_sum.saturating_add(laplacian.get(row, row + 1).re);
        }
        if (row as usize) % 100 > 0 {
            row_sum = row_sum.saturating_add(laplacian.get(row, row - 1).re);
        }
        if row >= 100 {
            row_sum = row_sum.saturating_add(laplacian.get(row, row - 100).re);
        }
        if row < 9900 {
            row_sum = row_sum.saturating_add(laplacian.get(row, row + 100).re);
        }
        assert!(row_sum.abs() < 1000, "Row {} sum should be ~0, got {}", row, row_sum);
    }
}

#[test]
fn dead_zone_alpha_is_shifted_out_of_band() {
    let mut engine = EvolutionEngine::new();
    engine.set_alpha(ALPHA_DEAD_ZONE);
    assert_eq!(engine.alpha(), ALPHA_DEAD_ZONE + 0x6666);
    engine.set_alpha(ALPHA_DEAD_ZONE + 0x2000);
    assert_eq!(engine.alpha(), ALPHA_DEAD_ZONE + 0x2000);
    engine.set_alpha(ALPHA_DEAD_ZONE - 0x1FFF);
    assert_eq!(engine.alpha(), ALPHA_DEAD_ZONE - 0x1FFF + 0x6666);
}

#[test]
fn evolve_step_with_identity_keeps_state() {
    let mut engine = EvolutionEngine::new();
    let mut w = SparseMatrix::<16>::new(2);
    w.set(0, 0, FIXED_ONE, 0).unwrap();
    w.set(1, 1, FIXED_ONE / 2, 0).unwrap();
    let mut u = SparseMatrix::<16>::new(2);
    u.set(0, 0, FIXED_ONE, 0).unwrap();
    u.set(1, 1, FIXED_ONE, 0).unwrap();
    let mut out = SparseMatrix::<16>::new(2);
    engine.evolve_step(&w, &u, &mut out).unwrap();
    assert_eq!(engine.step_count, 1);
    assert_eq!(out.get(0, 0).re, FIXED_ONE);
    assert_eq!(out.get(1, 1).re, FIXED_ONE / 2);
    assert_eq!(out.frobenius_norm_sqr(), w.frobenius_norm_sqr());
}

#[test]
fn evolve_step_rejects_norm_drift() {
    let mut engine = EvolutionEngine::new();
    let mut w = SparseMatrix::<16>::new(1);
    w.set(0, 0, FIXED_ONE, 0).unwrap();
    let mut u = SparseMatrix::<16>::new(1);
    u.set(0, 0, 2 * FIXED_ONE, 0).unwrap();
    let mut out = SparseMatrix::<16>::new(1);
    assert!(engine.evolve_step(&w, &u, &mut out).is_err());
    assert_eq!(engine.step_count, 0);
    assert_eq!(out.len(), 0);
}

#[test]
fn large_operator_takes_dense_result() {
    let n = 21usize;
    let mut l = SparseMatrix::<64>::new(n as u16);
    l.set(0, 1, -FIXED_ONE, 0).unwrap();
    let mut dense = vec![Complex::new(0, 0); n * n];
    for i in 0..n {
        dense[i * n + i] = Complex::new(FIXED_ONE, 0);
    }
    dense[1] = Complex::new(0, 7);
    let mut u = SparseMatrix::<64>::new(n as u16);
    unitary_evolution_operator(&l, FIXED_ONE / 2, Some(&dense), &mut u).unwrap();
    assert_eq!(u.len(), n + 1);
    assert_eq!(u.get(0, 0).re, FIXED_ONE);
    assert_eq!(u.get(0, 1).im, 7);
    let mut v = SparseMatrix::<64>::new(n as u16);
    assert!(unitary_evolution_operator(&l, FIXED_ONE / 2, None, &mut v).is_err());
}

#[test]
fn small_operator_without_dense_result_fails() {
    let mut l = SparseMatrix::<8>::new(2);
    l.set(0, 0, 1, 0).unwrap();
    let mut u = SparseMatrix::<8>::new(2);
    assert!(unitary_evolution_operator(&l, FIXED_ONE, None, &mut u).is_err());
    assert_eq!(u.len(), 0);
}

#[test]
fn pade1_fails_when_result_is_too_small() {
    let a = SparseMatrix::<4>::new(3);
    let mut result = SparseMatrix::<4>::new(2);
    assert!(matrix_exp_pade1(&a, &mut result).is_err());
}

#[test]
fn edge_constructors_and_transpose() {
    let e = Edge::nearest_neighbor(3, 7);
    assert_eq!(e.weight, FIXED_ONE);
    assert_eq!(e.edge_type, EdgeType::NearestNeighbor);
    let t = e.transpose();
    assert_eq!((t.from, t.to), (7, 3));
    assert_eq!(t.transpose(), e);
    assert!(!e.is_self_loop());
    assert!(Edge::long_range(4, 4, 32768).is_self_loop());
}

#[test]
fn add_edge_rejects_out_of_range_and_full_lists() {
    let mut adj = AdjacencyList::new();
    assert!(adj.add_edge(10000, 1, 5).is_err());
    assert_eq!(adj.num_nodes(), 0);
    for k in 1..=8u16 {
        adj.add_edge(0, k, 1).unwrap();
    }
    assert!(adj.add_edge(0, 9, 1).is_err());
    assert_eq!(adj.num_neighbors(0), 8);
    assert_eq!(adj.num_edges(), 8);
    assert_eq!(adj.num_nodes(), 10);
    adj.clear();
    assert_eq!(adj.num_edges(), 0);
    assert_eq!(adj.degree(0), 0);
}

#[test]
fn grid_coordinates_round_trip() {
    let grid = GridTopology { width: 7, height: 5, diagonal: true, num_long_range: 0 };
    for row in 0..5 {
        for col in 0..7 {
            let id = grid.coord_to_id(row, col);
            assert_eq!(grid.id_to_coord(id), (row, col));
        }
    }
    let adj = grid.generate_adjacency_list();
    // Corner (0,0): right, bottom and diagonal neighbours.
    assert_eq!(adj.num_neighbors(0), 3);
    assert_eq!(adj.degree(0), 2 * FIXED_ONE + 46341);
}

#[test]
fn dense_identity_sum_difference_and_product() {
    let id = dense_identity(3);
    assert_eq!(id.len(), 9);
    for k in 0..9 {
        let expected = if k % 4 == 0 { FIXED_ONE } else { 0 };
        assert_eq!(id[k], Complex::new(expected, 0));
    }
    let b: Vec<Complex> = (0..9).map(|k| Complex::new(k * 1000, -(k as i32))).collect();
    assert!(dense_products_fit(&id, &b, 3));
    assert_eq!(dense_mul(&id, &b, 3), b);
    let s = dense_add(&id, &b[..4]);
    assert_eq!(s.len(), 4);
    assert_eq!(s[0], Complex::new(FIXED_ONE, 0));
    assert_eq!(s[1], Complex::new(1000, -1));
    let d = dense_sub(&[Complex::new(i32::MIN, 5)], &[Complex::new(1, -3)]);
    assert_eq!(d[0], Complex::new(i32::MIN, 8));
    // (x + xi)(x - xi) = 2x² overflows for x = 46340 · 256.
    let x = 46340 * 256;
    let lhs = vec![Complex::new(x, x); 4];
    let rhs = vec![Complex::new(x, -x); 4];
    assert!(!dense_products_fit(&lhs, &rhs, 2));
}

#[test]
fn dense_inversion_steps() {
    // [[0, 2], [4, 0]] (entries in fixed point): the first pivot needs a swap.
    let a = vec![
        Complex::new(0, 0),
        Complex::new(2 * FIXED_ONE, 0),
        Complex::new(4 * FIXED_ONE, 0),
        Complex::new(0, 0),
    ];
    let mut aug = augment_with_identity(&a, 2);
    assert_eq!(aug.len(), 8);
    assert_eq!(aug[2], Complex::new(FIXED_ONE, 0));
    assert_eq!(aug[7], Complex::new(FIXED_ONE, 0));
    for pivot in 0..2 {
        assert!(pivot_scores_in_range(&aug, 2, pivot));
        let (row, score) = select_pivot(&aug, 2, pivot);
        assert!(score > 0);
        if row != pivot {
            swap_rows(&mut aug, 2, pivot, row);
        }
        let p = aug[pivot * 4 + pivot].re;
        for col in 0..4 {
            let v = aug[pivot * 4 + col];
            aug[pivot * 4 + col] = Complex::new(((v.re as i64 * 65536) / p as i64) as i32, 0);
        }
        assert!(elimination_in_range(&aug, 2, pivot));
        eliminate_column(&mut aug, 2, pivot);
    }
    let inv = extract_inverse(&aug, 2);
    assert_eq!(inv, vec![
        Complex::new(0, 0),
        Complex::new(FIXED_ONE / 4, 0),
        Complex::new(FIXED_ONE / 2, 0),
        Complex::new(0, 0),
    ]);
}

#[test]
fn dense_generator_places_scaled_entries() {
    let mut l = SparseMatrix::<8>::new(2);
    l.set(1, 0, 2 * FIXED_ONE, 0).unwrap();
    let g = dense_generator(&l, FIXED_ONE / 2);
    assert_eq!(g.len(), 4);
    assert_eq!(g[2], Complex::new(0, FIXED_ONE));
    assert_eq!(g[0], Complex::default());
}

#[test]
fn sparse_products_fit_check() {
    let x = 46340 * 256;
    let mut a = SparseMatrix::<4>::new(2);
    a.set(0, 1, x, x).unwrap();
    let mut b = SparseMatrix::<4>::new(2);
    b.set(1, 0, x, -x).unwrap();
    assert!(!a.products_fit_with(&b));
    let mut c = SparseMatrix::<4>::new(2);
    c.set(0, 0, x, -x).unwrap();
    // a's only column is 1 and c's only row is 0: no product is formed.
    assert!(a.products_fit_with(&c));
    let mut w = SparseMatrix::<4>::new(2);
    w.set(0, 0, FIXED_ONE, 0).unwrap();
    let mut u = SparseMatrix::<4>::new(2);
    u.set(0, 0, FIXED_ONE, 0).unwrap();
    assert!(EvolutionEngine::evolve_step_fits(&w, &u));
    assert!(!EvolutionEngine::evolve_step_fits(&w, &SparseMatrix::<4>::new(3)));
}

#[test]
fn laplacian_rows_sum_to_zero_and_are_symmetric() {
    let grid = GridTopology { width: 3, height: 3, diagonal: true, num_long_range: 0 };
    let adj = grid.generate_adjacency_list();
    let l = LaplacianBuilder::build_combinatorial::<200>(&adj);
    for r in 0..9u16 {
        let mut sum = l.get(r, r).re as i64;
        for (nb, _) in adj.iter_neighbors(r) {
            sum += l.get(r, *nb).re as i64;
        }
        assert_eq!(sum, 0, "row {}", r);
        assert_eq!(l.get(r, r).re, adj.degree(r));
        for c in 0..9u16 {
            assert_eq!(l.get(r, c).re, l.get(c, r).re);
        }
    }
}

#[test]
fn grid_degrees_and_edge_count() {
    let t = GridTopology { width: 4, height: 3, diagonal: false, num_long_range: 0 };
    let adj = t.generate_adjacency_list();
    assert_eq!(adj.num_edges(), 3 * 3 + 2 * 4);
    assert_eq!(adj.num_neighbors(0), 2);
    assert_eq!(adj.num_neighbors(1), 3);
    assert_eq!(adj.num_neighbors(5), 4);
    assert_eq!(adj.num_neighbors(11), 2);
    assert_eq!(adj.degree(5), 4 * FIXED_ONE);

    let d = GridTopology { width: 3, height: 3, diagonal: true, num_long_range: 0 };
    let adj = d.generate_adjacency_list();
    assert_eq!(adj.num_edges(), 3 * 2 + 2 * 3 + 2 * 2);
    assert_eq!(adj.num_neighbors(4), 6);
    assert_eq!(adj.num_neighbors(0), 3);
}
