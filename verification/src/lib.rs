//! A pedagogical STARK over GF(17): the prover shows knowledge of a trace
//! `[t_0, t_1, t_2, t_3]` with `t_0 = 3` and `t_{i+1} = t_i^2`, and the
//! verifier checks the proof non-interactively.
use vstd::prelude::*;

pub mod algebra;
pub mod channel;
pub mod constraints;
pub mod domain;
pub mod field;
pub mod merkle;
pub mod poly;
pub mod prover;
pub mod trace;
pub mod util;
pub mod verification;

use crate::algebra::in_field;
use crate::field::BaseField;
use crate::merkle::{path_view, MerklePath, MerkleRoot, SiblingPosition};

pub use prover::generate_proof;
pub use verification::verify;

verus! {

/// The mathematical content of a proof: the three commitments, the opened
/// values, and their paths, all as plain sequences and field values.
#[verifier::ext_equal]
pub ghost struct StarkProofView {
    pub trace_lde_commitment: Seq<u8>,
    pub composition_poly_lde_commitment: Seq<u8>,
    pub fri_layer_deg_1_commitment: Seq<u8>,
    pub trace_x: int,
    pub trace_x_path: Seq<(Seq<u8>, SiblingPosition)>,
    pub trace_gx: int,
    pub trace_gx_path: Seq<(Seq<u8>, SiblingPosition)>,
    pub cp_minus_x: int,
    pub cp_minus_x_path: Seq<(Seq<u8>, SiblingPosition)>,
    pub fri_layer_deg_1_minus_x: int,
    pub fri_layer_deg_1_minus_x_path: Seq<(Seq<u8>, SiblingPosition)>,
    pub fri_layer_deg_0_x: int,
}

/// Every opened value of the proof is a canonical field element.
pub open spec fn proof_view_wf(p: StarkProofView) -> bool {
    &&& in_field(p.trace_x)
    &&& in_field(p.trace_gx)
    &&& in_field(p.cp_minus_x)
    &&& in_field(p.fri_layer_deg_1_minus_x)
    &&& in_field(p.fri_layer_deg_0_x)
}

/// Our STARK proof only supports one query. However, in production
/// systems, we want to do more than one query to increase the security of
/// the system.
#[derive(Debug)]
pub struct ProofQueryPhase {
    pub trace_x: (BaseField, MerklePath),

    /// trace(gx); where g is the generator for the original domain (size 4)
    pub trace_gx: (BaseField, MerklePath),

    /// `composition_polynomial(-x)` (degree 3)
    pub cp_minus_x: (BaseField, MerklePath),

    /// fri_layer_deg_1_eval(-x^2)
    pub fri_layer_deg_1_minus_x: (BaseField, MerklePath),

    /// fri_layer_deg_0_eval(x^4)
    pub fri_layer_deg_0_x: BaseField,
}

#[derive(Debug)]
pub struct StarkProof {
    /// Commitment phase: the Merkle root of the low-degree extended trace.
    pub trace_lde_commitment: MerkleRoot,

    /// The composition polynomial has degree 3 (it was *interpolated* on 4
    /// points, and *evaluated* on 8).
    pub composition_poly_lde_commitment: MerkleRoot,

    /// The first FRI layer has half the degree of the composition
    /// polynomial (i.e. degree 1).
    pub fri_layer_deg_1_commitment: MerkleRoot,

    pub query_phase: ProofQueryPhase,
}

impl View for StarkProof {
    type V = StarkProofView;

    open spec fn view(&self) -> StarkProofView {
        StarkProofView {
            trace_lde_commitment: self.trace_lde_commitment@,
            composition_poly_lde_commitment: self.composition_poly_lde_commitment@,
            fri_layer_deg_1_commitment: self.fri_layer_deg_1_commitment@,
            trace_x: self.query_phase.trace_x.0@,
            trace_x_path: path_view(self.query_phase.trace_x.1.path@),
            trace_gx: self.query_phase.trace_gx.0@,
            trace_gx_path: path_view(self.query_phase.trace_gx.1.path@),
            cp_minus_x: self.query_phase.cp_minus_x.0@,
            cp_minus_x_path: path_view(self.query_phase.cp_minus_x.1.path@),
            fri_layer_deg_1_minus_x: self.query_phase.fri_layer_deg_1_minus_x.0@,
            fri_layer_deg_1_minus_x_path: path_view(
                self.query_phase.fri_layer_deg_1_minus_x.1.path@,
            ),
            fri_layer_deg_0_x: self.query_phase.fri_layer_deg_0_x@,
        }
    }
}

impl StarkProof {
    /// The opened values are canonical field elements; paths and roots may
    /// hold any bytes.
    pub open spec fn wf(&self) -> bool {
        proof_view_wf(self@)
    }
}

} // verus!
