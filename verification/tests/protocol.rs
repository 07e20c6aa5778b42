use stark17::constraints::{boundary_constraint, composition_polynomial, transition_constraint};
use stark17::domain::{domain_lde, domain_trace, Domain};
use stark17::field::BaseField;
use stark17::poly::Polynomial;
use stark17::trace::generate_trace;
use stark17::verification::VerifierError;
use stark17::{generate_proof, verify};

#[test]
fn proof_verification() {
    let proof = generate_proof();
    let verify_result = verify(&proof);

    assert!(verify_result.is_ok(), "Error: {verify_result:?}");
}

#[test]
fn trace_values() {
    let trace = generate_trace();
    let expected: Vec<BaseField> = vec![3.into(), 9.into(), 13.into(), 16.into()];
    assert_eq!(trace, expected);
}

#[test]
fn domain_values() {
    let dt = domain_trace();
    let expected_trace: Vec<BaseField> = vec![1.into(), 13.into(), 16.into(), 4.into()];
    assert_eq!(dt.elements, expected_trace);

    let dl = domain_lde();
    let expected_lde: Vec<BaseField> =
        vec![3.into(), 10.into(), 5.into(), 11.into(), 14.into(), 7.into(), 12.into(), 6.into()];
    assert_eq!(dl.elements, expected_lde);
}

#[test]
fn domain_generators() {
    assert_eq!(Domain::<4, 13>::generator(), BaseField::from(13));
    assert_eq!(Domain::<8, 9>::generator(), BaseField::from(9));
}

/// The hand-derived boundary quotient satisfies
/// `Q_bdry(x) * (x - 1) == t(x) - 3` at a point outside the trace domain.
#[test]
fn boundary_quotient_identity() {
    let dt = domain_trace();
    let trace = generate_trace();
    let t = Polynomial::lagrange_interp(&dt.elements, &trace).unwrap();

    let q = boundary_constraint();
    // 2 is not in [1, 13, 16, 4]
    let x = BaseField::from(2);
    assert_eq!(
        q.eval(x).mul(x.sub(BaseField::from(1))),
        t.eval(x).sub(BaseField::from(3))
    );
}

/// The hand-derived transition quotient satisfies
/// `Q_trans(x) * (x-1)(x-13)(x-16) == t(gx) - t(x)^2` at a point outside
/// the trace domain.
#[test]
fn transition_quotient_identity() {
    let dt = domain_trace();
    let trace = generate_trace();
    let t = Polynomial::lagrange_interp(&dt.elements, &trace).unwrap();

    let q = transition_constraint();
    let g = BaseField::from(13);
    // 2 is not in [1, 13, 16, 4]
    let x = BaseField::from(2);
    let denominator = x
        .sub(BaseField::from(1))
        .mul(x.sub(BaseField::from(13)))
        .mul(x.sub(BaseField::from(16)));
    assert_eq!(
        q.eval(x).mul(denominator),
        t.eval(g.mul(x)).sub(t.eval(x).mul(t.eval(x)))
    );
}

#[test]
fn composition_is_linear_combination() {
    let alpha_0 = BaseField::from(5);
    let alpha_1 = BaseField::from(12);
    let cp = composition_polynomial(alpha_0, alpha_1);

    for i in 0..17u8 {
        let x = BaseField::from(i);
        let expected = boundary_constraint()
            .eval(x)
            .mul(alpha_0)
            .add(transition_constraint().eval(x).mul(alpha_1));
        assert_eq!(cp.eval(x), expected);
    }
}

#[test]
fn tampered_trace_root_rejected() {
    let mut proof = generate_proof();
    proof.trace_lde_commitment[0] ^= 1;
    assert_eq!(verify(&proof), Err(VerifierError::TraceXMerkle));
}

#[test]
fn tampered_cp_root_rejected() {
    let mut proof = generate_proof();
    proof.composition_poly_lde_commitment[0] ^= 1;
    assert!(verify(&proof).is_err());
}

#[test]
fn tampered_fri_root_rejected() {
    let mut proof = generate_proof();
    proof.fri_layer_deg_1_commitment[0] ^= 1;
    assert!(verify(&proof).is_err());
}

#[test]
fn tampered_trace_value_rejected() {
    let mut proof = generate_proof();
    proof.query_phase.trace_x.0 = proof.query_phase.trace_x.0.add(BaseField::one());
    assert_eq!(verify(&proof), Err(VerifierError::TraceXMerkle));
}

#[test]
fn tampered_trace_gx_value_rejected() {
    let mut proof = generate_proof();
    proof.query_phase.trace_gx.0 = proof.query_phase.trace_gx.0.add(BaseField::one());
    assert_eq!(verify(&proof), Err(VerifierError::TraceGxMerkle));
}

#[test]
fn tampered_cp_value_rejected() {
    let mut proof = generate_proof();
    proof.query_phase.cp_minus_x.0 = proof.query_phase.cp_minus_x.0.add(BaseField::one());
    assert_eq!(verify(&proof), Err(VerifierError::CpMerkle));
}

#[test]
fn tampered_fri_layer_value_rejected() {
    let mut proof = generate_proof();
    proof.query_phase.fri_layer_deg_1_minus_x.0 =
        proof.query_phase.fri_layer_deg_1_minus_x.0.add(BaseField::one());
    assert_eq!(verify(&proof), Err(VerifierError::FriLayerMerkle));
}

#[test]
fn tampered_path_hash_rejected() {
    let mut proof = generate_proof();
    proof.query_phase.trace_x.1.path[0].0[0] ^= 1;
    assert_eq!(verify(&proof), Err(VerifierError::TraceXMerkle));
}

#[test]
fn tampered_final_scalar_rejected() {
    let mut proof = generate_proof();
    proof.query_phase.fri_layer_deg_0_x =
        proof.query_phase.fri_layer_deg_0_x.add(BaseField::one());
    assert_eq!(verify(&proof), Err(VerifierError::FriConsistency));
}

#[test]
fn proof_is_deterministic() {
    let first = generate_proof();
    let second = generate_proof();

    assert_eq!(first.trace_lde_commitment, second.trace_lde_commitment);
    assert_eq!(
        first.composition_poly_lde_commitment,
        second.composition_poly_lde_commitment
    );
    assert_eq!(
        first.fri_layer_deg_1_commitment,
        second.fri_layer_deg_1_commitment
    );
    assert_eq!(
        first.query_phase.fri_layer_deg_0_x,
        second.query_phase.fri_layer_deg_0_x
    );
}
