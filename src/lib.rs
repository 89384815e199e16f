//! Inference for profile hidden Markov models in log space: the forward and
//! backward tables and Viterbi decoding, over any score type whose product,
//! log-sum and order are handed in as functions.

mod log_space;
mod model;
mod forward;
mod backward;
mod viterbi;
mod laws;

pub use log_space::{apply2, lemma_apply2, total_fn2};
pub use model::{HmmError, ProfileHMM};
pub use laws::{
    closed_under, lemma_backward_deterministic, lemma_backward_last_row_is_one,
    lemma_backward_last_row_spec_is_one, lemma_forward_deterministic, lemma_single_observation,
    lemma_viterbi_deterministic, lemma_viterbi_path_is_most_probable,
    lemma_viterbi_score_is_path_score, log_order, monotone,
};
