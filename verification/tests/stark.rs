use mini_stark::domain::{domain_points, subgroup_generator};
use mini_stark::field::{Fe, GENERATOR, P};
use mini_stark::fri::fold_coeffs;
use mini_stark::memory_table::MemoryTable;
use mini_stark::merkle::{sha256, verify_path, MerkleTree};
use mini_stark::poly::{interpolate, Poly};
use mini_stark::prover::{Air, ProofOptions, Prover, Trace};
use mini_stark::transcript::{leading_zero_bits, Transcript};
use mini_stark::utils::{u64_from_bytes, u64_to_bytes, Matrix};
use mini_stark::multivariate::Multivariate;

fn fe(v: u64) -> Fe {
    Fe::new(v)
}

fn row(vals: &[u64]) -> Vec<Fe> {
    vals.iter().map(|v| fe(*v)).collect()
}

#[test]
fn field_add_wraps() {
    assert_eq!(fe(P - 1).add(fe(1)).v, 0);
    assert_eq!(fe(7).add(fe(8)).v, 15);
}

#[test]
fn field_sub_wraps() {
    assert_eq!(fe(0).sub(fe(1)).v, P - 1);
    assert_eq!(fe(10).sub(fe(3)).v, 7);
}

#[test]
fn field_mul_exact() {
    assert_eq!(fe(3).mul(fe(5)).v, 15);
    // (P - 1)^2 == 1 mod P.
    assert_eq!(fe(P - 1).mul(fe(P - 1)).v, 1);
}

#[test]
fn field_pow_exact() {
    assert_eq!(fe(2).pow(10).v, 1024);
    assert_eq!(fe(2).pow(0).v, 1);
    // Fermat: the generator raised to the group order is one.
    assert_eq!(fe(GENERATOR).pow(P - 1).v, 1);
}

#[test]
fn field_checked_inv() {
    let a = fe(123456789);
    let inv = a.checked_inv().unwrap();
    assert_eq!(a.mul(inv).v, 1);
    assert!(fe(0).checked_inv().is_none());
}

#[test]
fn subgroup_generator_has_right_order() {
    let g = subgroup_generator(4);
    assert_eq!(g.pow(4).v, 1);
    assert_ne!(g.pow(2).v, 1);
}

#[test]
fn interpolate_evaluate_round_trip() {
    let g = subgroup_generator(4);
    let points = domain_points(g, fe(1), 4);
    let values = vec![fe(0), fe(1), fe(2), fe(3)];
    let p = interpolate(&points, &values).unwrap();
    let back = p.evaluate_on(&points);
    for i in 0..4 {
        assert_eq!(back[i].v, values[i].v);
    }
}

#[test]
fn interpolation_degree_stays_below_domain_size() {
    let g = subgroup_generator(8);
    let points = domain_points(g, fe(1), 8);
    let values: Vec<Fe> = (0..8).map(|i| fe(i * i + 1)).collect();
    let p = interpolate(&points, &values).unwrap();
    assert!(p.coeffs.len() <= 8);
}

#[test]
fn fold_halves_the_degree() {
    // x^7 + ... + 1 folded once: four coefficients remain.
    let coeffs: Vec<Fe> = (1..=8).map(fe).collect();
    let beta = fe(3);
    let folded = fold_coeffs(&coeffs, beta);
    assert_eq!(folded.len(), 4);
    // fold[i] = c[2i] + beta * c[2i + 1]
    assert_eq!(folded[0].v, 1 + 3 * 2);
    assert_eq!(folded[3].v, 7 + 3 * 8);
    // Folding an odd length pads the last pair with zero.
    let folded3 = fold_coeffs(&vec![fe(5), fe(6), fe(7)], beta);
    assert_eq!(folded3.len(), 2);
    assert_eq!(folded3[1].v, 7);
}

#[test]
fn fold_agrees_with_even_odd_split() {
    // folded(x^2) == even(x^2) + beta * odd(x^2), the relation the verifier
    // recombines from the two openings at x and -x.
    let coeffs: Vec<Fe> = vec![fe(3), fe(1), fe(4), fe(1), fe(5), fe(9), fe(2), fe(6)];
    let beta = fe(11);
    let x = fe(123);
    let y = x.mul(x);
    let folded = Poly { coeffs: fold_coeffs(&coeffs, beta) };
    let even = Poly { coeffs: coeffs.iter().step_by(2).cloned().collect() };
    let odd = Poly { coeffs: coeffs.iter().skip(1).step_by(2).cloned().collect() };
    let lhs = folded.eval(y);
    let rhs = even.eval(y).add(beta.mul(odd.eval(y)));
    assert_eq!(lhs.v, rhs.v);
    // And the split itself: f(x) == even(x^2) + x * odd(x^2).
    let f = Poly { coeffs: coeffs.clone() };
    assert_eq!(f.eval(x).v, even.eval(y).add(x.mul(odd.eval(y))).v);
}

#[test]
fn transcript_is_deterministic() {
    let mut t1 = Transcript::new(vec![1, 2, 3]);
    let mut t2 = Transcript::new(vec![1, 2, 3]);
    t1.absorb(&vec![9, 9]);
    t2.absorb(&vec![9, 9]);
    assert_eq!(t1.draw_felt().v, t2.draw_felt().v);
    assert_eq!(t1.draw_felt().v, t2.draw_felt().v);
    assert_eq!(t1.draw_index(17), t2.draw_index(17));
}

#[test]
fn transcript_depends_on_absorbed_bytes() {
    let mut t1 = Transcript::new(vec![1, 2, 3]);
    let mut t2 = Transcript::new(vec![1, 2, 3]);
    t1.absorb(&vec![9, 9]);
    t2.absorb(&vec![9, 8]);
    assert_ne!(t1.draw_felt().v, t2.draw_felt().v);
}

#[test]
fn sha_wrapper_digests() {
    let d = sha256(&vec![1, 2, 3]);
    assert_eq!(d.len(), 32);
    assert_ne!(d, vec![1, 2, 3]);
    assert_ne!(sha256(&vec![1, 2, 3]), sha256(&vec![1, 2, 4]));
}

#[test]
fn merkle_open_and_verify() {
    let leaves: Vec<Vec<u8>> = (0..4u8).map(|i| sha256(&vec![i])).collect();
    let tree = MerkleTree::new(leaves.clone());
    let root = tree.root();
    assert_eq!(root.len(), 32);
    for i in 0..4 {
        let path = tree.open_path(i);
        assert!(verify_path(&root, &leaves[i], i, &path));
    }
    // A tampered leaf fails the check.
    let path = tree.open_path(0);
    assert!(!verify_path(&root, &leaves[1], 0, &path));
}

#[test]
fn leading_zero_bits_counts() {
    let mut all_high = vec![0x80u8];
    all_high.extend(vec![0u8; 7]);
    assert_eq!(leading_zero_bits(&all_high), 0);
    let mut one_byte = vec![0u8, 0x80];
    one_byte.extend(vec![0u8; 6]);
    assert_eq!(leading_zero_bits(&one_byte), 8);
    assert_eq!(leading_zero_bits(&vec![0u8; 8]), 64);
}

#[test]
fn word_bytes_round_trip() {
    let v = 0x0123456789abcdefu64;
    let bytes = u64_to_bytes(v);
    assert_eq!(bytes.len(), 8);
    assert_eq!(u64_from_bytes(&bytes), v);
}

#[test]
fn grinding_clears_difficulty() {
    let mut t = Transcript::new(vec![42]);
    let nonce = t.grind(4).unwrap();
    // Recompute the digest the grind checked.
    let mut joined = vec![42u8];
    joined.extend(u64_to_bytes(nonce));
    assert!(leading_zero_bits(&sha256(&joined)) >= 4);
}

#[test]
fn pad_reaches_smallest_power_of_two() {
    let rows = vec![row(&[0, 0, 7, 0]), row(&[1, 0, 7, 0]), row(&[2, 0, 7, 0])];
    let mut table = MemoryTable::new(rows);
    table.pad();
    assert_eq!(table.matrix.len(), 4);
    // The padding row replicates the last with the cycle advanced by one,
    // flagged dummy.
    assert_eq!(table.matrix[3][0].v, 3);
    assert_eq!(table.matrix[3][1].v, 0);
    assert_eq!(table.matrix[3][2].v, 7);
    assert_eq!(table.matrix[3][3].v, 1);

    let rows5 = vec![
        row(&[0, 0, 1, 0]),
        row(&[1, 0, 1, 0]),
        row(&[2, 0, 1, 0]),
        row(&[3, 0, 1, 0]),
        row(&[4, 0, 1, 0]),
    ];
    let mut table5 = MemoryTable::new(rows5);
    table5.pad();
    assert_eq!(table5.matrix.len(), 8);
}

#[test]
fn derive_matrix_sorts_and_fills_gaps() {
    // Processor columns: [cycle, ip, curr_instr, next_instr, mp, mem_val, aux]
    let processor = vec![
        row(&[0, 0, 9, 9, 1, 3, 0]),
        row(&[1, 1, 9, 9, 0, 7, 0]),
        row(&[3, 3, 9, 9, 1, 3, 0]),
        row(&[4, 4, 0, 0, 0, 0, 0]),  // halted: filtered out
    ];
    let m = MemoryTable::derive_matrix(&processor);
    // Sorted by memory pointer; the cycle jump from 0 to 3 under mp == 1 is
    // bridged by dummy rows at cycles 1 and 2.
    assert_eq!(m.len(), 5);
    assert_eq!((m[0][0].v, m[0][1].v, m[0][2].v, m[0][3].v), (1, 0, 7, 0));
    assert_eq!((m[1][0].v, m[1][1].v, m[1][2].v, m[1][3].v), (0, 1, 3, 0));
    assert_eq!((m[2][0].v, m[2][1].v, m[2][2].v, m[2][3].v), (1, 1, 3, 1));
    assert_eq!((m[3][0].v, m[3][1].v, m[3][2].v, m[3][3].v), (2, 1, 3, 1));
    assert_eq!((m[4][0].v, m[4][1].v, m[4][2].v, m[4][3].v), (3, 1, 3, 0));
}

#[test]
fn transition_constraints_vanish_on_valid_pairs() {
    let cs = MemoryTable::base_transition_constraints();
    assert_eq!(cs.len(), 6);
    // Same memory pointer, cycle steps by one: every constraint vanishes.
    let pair = row(&[5, 2, 9, 0, 6, 2, 9, 0]);
    for c in &cs {
        assert_eq!(c.evaluate(&pair).v, 0);
    }
    // A memory pointer jump of two violates the first constraint.
    let bad = row(&[5, 2, 9, 0, 6, 4, 0, 0]);
    assert_ne!(cs[0].evaluate(&bad).v, 0);
}

#[test]
fn boundary_constraints_vanish_at_origin() {
    let cs = MemoryTable::base_boundary_constraints();
    assert_eq!(cs.len(), 3);
    let first = row(&[0, 0, 0, 0, 1]);
    for c in &cs {
        assert_eq!(c.evaluate(&first).v, 0);
    }
    let nonzero = row(&[1, 0, 0, 0, 1]);
    assert_ne!(cs[0].evaluate(&nonzero).v, 0);
}

#[test]
fn extension_constraints_shape() {
    let challenges: Vec<Fe> = (1..=11).map(fe).collect();
    let cs = MemoryTable::extension_transition_constraints(&challenges);
    assert_eq!(cs.len(), 7);
    // A dummy step carrying the permutation column over satisfies the
    // running-product constraint.
    let pair = row(&[5, 2, 9, 1, 77, 6, 2, 9, 1, 77]);
    assert_eq!(cs[6].evaluate(&pair).v, 0);

    let terminals: Vec<Fe> = (21..=25).map(fe).collect();
    let ts = MemoryTable::extension_terminal_constraints(&challenges, &terminals);
    assert_eq!(ts.len(), 1);
    // On a dummy last row the terminal constraint compares the permutation
    // column against the terminal directly.
    let last = row(&[5, 2, 9, 1, 22]);
    assert_eq!(ts[0].evaluate(&last).v, 0);
}

#[test]
fn extension_column_running_product() {
    let challenges: Vec<Fe> = (1..=11).map(fe).collect();
    // d = 4, e = 5, f = 6, beta = 8 (challenge positions 3, 4, 5, 7).
    let rows = vec![row(&[0, 0, 7, 0]), row(&[1, 0, 7, 1]), row(&[2, 0, 7, 0])];
    let table = MemoryTable::new(rows);
    let ext = table.build_extension_columns(&challenges).unwrap();
    assert_eq!(ext.cols.len(), 1);
    let col = &ext.cols[0];
    assert_eq!(col.len(), 3);
    assert_eq!(col[0].v, 1);
    // Row 0 is real: acc *= beta - d*0 - e*0 - f*7 = 8 - 42 mod P.
    let factor0 = fe(8).sub(fe(42));
    assert_eq!(col[1].v, factor0.v);
    // Row 1 is dummy: the accumulator carries over.
    assert_eq!(col[2].v, factor0.v);
}

fn counting_air() -> Air {
    // One base column holding [0, 1, 2, 3]; one boundary constraint
    // `curr == 0` at the first row, one transition constraint
    // `next - curr - 1 == 0` on every adjacent pair.
    let boundary = vec![Multivariate::variable(0, 1)];
    let transition = vec![Multivariate::variable(1, 2)
        .sub_mv(Multivariate::variable(0, 2))
        .sub_mv(Multivariate::constant_over(fe(1), 2))];
    Air {
        trace_len: 4,
        num_base_columns: 1,
        num_extension_columns: 0,
        public_inputs: vec![fe(3)],
        options: ProofOptions { blowup_factor: 4, num_queries: 2, grinding_bits: 2 },
        num_challenges: 0,
        extension_inits: vec![],
        extension_steps: vec![],
        boundary_constraints: boundary,
        boundary_adjustments: vec![0],
        transition_constraints: transition,
        transition_adjustments: vec![0],
        extension_boundary_constraints: vec![],
        extension_boundary_adjustments: vec![],
        extension_transition_constraints: vec![],
        extension_transition_adjustments: vec![],
        terminal_constraints: vec![],
        terminal_adjustments: vec![],
        composition_degree_bound: 4,
    }
}

fn counting_trace_n(n: u64) -> Trace {
    Trace { base: Matrix { cols: vec![row(&(0..n).collect::<Vec<_>>())] } }
}

// A running-product AIR over the counting trace: one extension column with
// `acc[0] = 1` and `acc[i+1] = acc[i] * (beta - base[i])`, the matching
// extension boundary and transition constraints, and a terminal constraint
// pinning the last accumulator value symbolically (none here; the transition
// class closes the recurrence).
fn product_air(n: usize) -> Air {
    let boundary = vec![Multivariate::variable(0, 1)];
    let transition = vec![Multivariate::variable(1, 2)
        .sub_mv(Multivariate::variable(0, 2))
        .sub_mv(Multivariate::constant_over(fe(1), 2))];
    // init over [b0, beta]: the constant 1.
    let init = Multivariate::constant_over(fe(1), 2);
    // step over [b, acc, beta]: acc * (beta - b).
    let step = Multivariate::variable(1, 3)
        .mul_mv(&Multivariate::variable(2, 3).sub_mv(Multivariate::variable(0, 3)));
    // extension boundary over [b0, e0, beta]: e0 - 1.
    let ext_boundary =
        vec![Multivariate::variable(1, 3).sub_mv(Multivariate::constant_over(fe(1), 3))];
    // extension transition over [b, e, b', e', beta]: e' - e * (beta - b).
    let ext_transition = vec![Multivariate::variable(3, 5).sub_mv(
        Multivariate::variable(1, 5)
            .mul_mv(&Multivariate::variable(4, 5).sub_mv(Multivariate::variable(0, 5))),
    )];
    Air {
        trace_len: n,
        num_base_columns: 1,
        num_extension_columns: 1,
        public_inputs: vec![fe(n as u64 - 1)],
        options: ProofOptions { blowup_factor: 4, num_queries: 2, grinding_bits: 1 },
        num_challenges: 1,
        extension_inits: vec![init],
        extension_steps: vec![step],
        boundary_constraints: boundary,
        boundary_adjustments: vec![0],
        transition_constraints: transition,
        transition_adjustments: vec![0],
        extension_boundary_constraints: ext_boundary,
        extension_boundary_adjustments: vec![0],
        extension_transition_constraints: ext_transition,
        extension_transition_adjustments: vec![0],
        terminal_constraints: vec![],
        terminal_adjustments: vec![],
        composition_degree_bound: 4 * n,
    }
}

#[test]
fn extension_trace_commits_in_order() {
    // An AIR with one extension column: the proof carries the extension
    // root, the out-of-domain evaluations cover both columns, and every
    // opening reveals the extension row.
    let air = product_air(4);
    assert!(air.validate());
    let trace = counting_trace();
    let prover = Prover::new(ProofOptions { blowup_factor: 4, num_queries: 2, grinding_bits: 1 });
    let proof = prover.generate_proof(&air, &trace).unwrap();
    assert!(proof.extension_trace_root.is_some());
    assert_eq!(proof.ood_trace_evals.len(), 2);
    assert_eq!(proof.ood_trace_evals_next.len(), 2);
    for o in &proof.openings {
        assert_eq!(o.extension_row.len(), 1);
        assert!(!o.extension_path.is_empty());
    }
}

#[test]
fn pipeline_extension_column_is_the_running_product() {
    // The pipeline's extension builder follows the declared recurrence.
    let air = product_air(4);
    let trace = counting_trace();
    let challenges = vec![fe(10)];
    let ext = mini_stark::prover::build_extension_trace(&air, &trace, &challenges).unwrap();
    assert_eq!(ext.cols.len(), 1);
    let col = &ext.cols[0];
    // acc = 1, then *= (10 - 0), (10 - 1), (10 - 2).
    assert_eq!(col[0].v, 1);
    assert_eq!(col[1].v, 10);
    assert_eq!(col[2].v, 90);
    assert_eq!(col[3].v, 720);
}

#[test]
fn tampered_extension_recurrence_is_rejected() {
    // An extension boundary constraint that the built column violates:
    // e0 - 2 with the init declared as 1.
    let mut air = product_air(4);
    air.extension_boundary_constraints =
        vec![Multivariate::variable(1, 3).sub_mv(Multivariate::constant_over(fe(2), 3))];
    assert!(air.validate());
    let prover = Prover::new(ProofOptions { blowup_factor: 4, num_queries: 2, grinding_bits: 1 });
    assert!(prover.generate_proof(&air, &counting_trace()).is_err());
}

#[test]
fn fri_query_opens_the_negated_point() {
    // A trace long enough for one FRI fold: the opened sibling is the
    // evaluation at idx + n/2 (the point -x), and its path verifies against
    // the layer root at that index.
    let air = {
        let mut a = counting_air();
        a.trace_len = 8;
        a.public_inputs = vec![fe(7)];
        a.composition_degree_bound = 32;
        a
    };
    assert!(air.validate());
    let trace = counting_trace_n(8);
    let prover = Prover::new(ProofOptions { blowup_factor: 4, num_queries: 2, grinding_bits: 2 });
    let proof = prover.generate_proof(&air, &trace).unwrap();
    // DEEP degree < 8 folds once before reaching the final threshold.
    assert_eq!(proof.fri.layer_roots.len(), 1);
    let layer_n = 32u64;
    for q in &proof.fri.queries {
        assert_eq!(q.openings.len(), 1);
        let o = &q.openings[0];
        let idx = (q.position % layer_n) as usize;
        let sib = (idx + (layer_n as usize) / 2) % (layer_n as usize);
        // Both opened evaluations verify against the layer root, the value
        // at the queried index and the sibling at the negated point.
        let leaf = sha256(&mini_stark::utils::fes_to_bytes(&vec![o.value]));
        assert!(verify_path(&proof.fri.layer_roots[0], &leaf, idx, &o.path));
        let sib_leaf = sha256(&mini_stark::utils::fes_to_bytes(&vec![o.sibling]));
        assert!(verify_path(&proof.fri.layer_roots[0], &sib_leaf, sib, &o.sibling_path));
    }
}

fn counting_trace() -> Trace {
    Trace { base: Matrix { cols: vec![row(&[0, 1, 2, 3])] } }
}

#[test]
fn end_to_end_counting_trace() {
    let air = counting_air();
    assert!(air.validate());
    let trace = counting_trace();
    let prover = Prover::new(ProofOptions { blowup_factor: 4, num_queries: 2, grinding_bits: 2 });
    let proof = prover.generate_proof(&air, &trace).unwrap();
    assert_eq!(proof.openings.len(), 2);
    assert_eq!(proof.fri.queries.len(), 2);
    assert_eq!(proof.ood_trace_evals.len(), 1);
    assert_eq!(proof.ood_trace_evals_next.len(), 1);
    assert!(proof.fri.final_poly.coeffs.len() <= 4);
    assert_eq!(proof.base_trace_root.len(), 32);
    assert_eq!(proof.composition_trace_root.len(), 32);
}

#[test]
fn tampered_trace_is_rejected() {
    let air = counting_air();
    let prover = Prover::new(ProofOptions { blowup_factor: 4, num_queries: 2, grinding_bits: 2 });
    // Tamper with one trace value: the constraint check must fail before
    // anything is committed.
    let tampered = Trace { base: Matrix { cols: vec![row(&[0, 1, 5, 3])] } };
    assert!(prover.generate_proof(&air, &tampered).is_err());
    // Violating the boundary constraint is also rejected.
    let shifted = Trace { base: Matrix { cols: vec![row(&[1, 2, 3, 4])] } };
    assert!(prover.generate_proof(&air, &shifted).is_err());
}

#[test]
fn malformed_air_is_rejected() {
    let mut air = counting_air();
    air.options.blowup_factor = 3;  // not a power of two
    assert!(!air.validate());
    let prover = Prover::new(ProofOptions { blowup_factor: 3, num_queries: 2, grinding_bits: 2 });
    assert!(prover.generate_proof(&air, &counting_trace()).is_err());
}

#[test]
fn proof_is_reproducible() {
    // The whole pipeline is deterministic: two runs agree bit for bit.
    let air = counting_air();
    let prover = Prover::new(ProofOptions { blowup_factor: 4, num_queries: 2, grinding_bits: 2 });
    let p1 = prover.generate_proof(&air, &counting_trace()).unwrap();
    let p2 = prover.generate_proof(&counting_air(), &counting_trace()).unwrap();
    assert_eq!(p1.base_trace_root, p2.base_trace_root);
    assert_eq!(p1.composition_trace_root, p2.composition_trace_root);
    assert_eq!(p1.pow_nonce, p2.pow_nonce);
    assert_eq!(
        p1.openings.iter().map(|o| o.position).collect::<Vec<_>>(),
        p2.openings.iter().map(|o| o.position).collect::<Vec<_>>()
    );
}
