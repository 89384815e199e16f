use profile_hmm::{HmmError, ProfileHMM};

const NEG_INF: f64 = f64::NEG_INFINITY;

fn product(a: f64, b: f64) -> f64 {
    a + b
}

fn ln_add_exp(a: f64, b: f64) -> f64 {
    let (hi, lo) = if b > a { (b, a) } else { (a, b) };
    if lo == NEG_INF || hi == f64::INFINITY {
        hi
    } else {
        hi + (lo - hi).exp().ln_1p()
    }
}

fn greater(a: f64, b: f64) -> bool {
    a > b
}

fn ln_vec(v: &[f64]) -> Vec<f64> {
    v.iter().map(|p| p.ln()).collect()
}

fn two_state_model() -> ProfileHMM<f64> {
    let mut hmm = ProfileHMM::new();
    hmm.observation_count = 2;
    hmm.initial_states_prob = ln_vec(&[0.6, 0.4]);
    hmm.state_transitions = vec![ln_vec(&[0.6, 0.3, 0.1]), ln_vec(&[0.4, 0.5, 0.1])];
    hmm.emission_matrix = vec![ln_vec(&[0.7, 0.3]), ln_vec(&[0.2, 0.8])];
    hmm
}

fn assert_close(a: f64, b: f64) {
    assert!((a - b).abs() < 1e-9, "{} != {}", a, b);
}

#[test]
fn new_model_is_empty() {
    let hmm: ProfileHMM<f64> = ProfileHMM::new();
    assert_eq!(hmm.observation_count, 0);
    assert!(hmm.initial_states_prob.is_empty());
    assert!(hmm.state_transitions.is_empty());
    assert!(hmm.emission_matrix.is_empty());
    assert_eq!(hmm.validate(&vec![0]), Err(HmmError::ObservationOutOfRange));
    assert_eq!(hmm.validate(&vec![]), Err(HmmError::EmptyObservationSequence));
}

#[test]
fn validation_order() {
    // a model without states but with matching tables: the sequence is
    // judged first
    let mut stateless: ProfileHMM<f64> = ProfileHMM::new();
    stateless.observation_count = 1;
    assert_eq!(stateless.validate(&vec![]), Err(HmmError::EmptyObservationSequence));
    assert_eq!(stateless.validate(&vec![1]), Err(HmmError::ObservationOutOfRange));
    assert_eq!(stateless.validate(&vec![0]), Err(HmmError::MalformedModel));
    // tables whose dimensions disagree come before the sequence
    let mut mismatch = two_state_model();
    mismatch.emission_matrix[1] = ln_vec(&[1.0]);
    assert_eq!(mismatch.validate(&vec![]), Err(HmmError::MalformedModel));
    assert_eq!(mismatch.validate(&vec![7]), Err(HmmError::MalformedModel));
}

#[test]
fn validate_reports_each_error() {
    let hmm = two_state_model();
    assert_eq!(hmm.validate(&vec![0, 1, 1]), Ok(()));
    assert_eq!(hmm.validate(&vec![]), Err(HmmError::EmptyObservationSequence));
    assert_eq!(hmm.validate(&vec![0, 2]), Err(HmmError::ObservationOutOfRange));
    let mut short_row = two_state_model();
    short_row.state_transitions[1] = ln_vec(&[0.5, 0.5]);
    assert_eq!(short_row.validate(&vec![0]), Err(HmmError::MalformedModel));
    let mut bad_emission = two_state_model();
    bad_emission.emission_matrix[0] = ln_vec(&[1.0]);
    assert_eq!(bad_emission.validate(&vec![0]), Err(HmmError::MalformedModel));
    let mut missing_row = two_state_model();
    missing_row.emission_matrix.pop();
    assert_eq!(missing_row.validate(&vec![0]), Err(HmmError::MalformedModel));
}

#[test]
fn forward_known_answer() {
    let hmm = two_state_model();
    let (table, prob) = hmm
        .forward_algorithm(vec![0, 1, 0], NEG_INF, product, ln_add_exp)
        .unwrap();
    assert_eq!(table.len(), 3);
    let expected = [[0.42, 0.08], [0.0852, 0.1328], [0.072968, 0.018392]];
    for t in 0..3 {
        assert_eq!(table[t].len(), 2);
        for s in 0..2 {
            assert_close(table[t][s], f64::ln(expected[t][s]));
        }
    }
    assert_close(prob, f64::ln(0.009136));
}

#[test]
fn backward_known_answer() {
    let hmm = two_state_model();
    let table = hmm
        .backward(vec![0, 1, 0], NEG_INF, 0.0, product, ln_add_exp)
        .unwrap();
    assert_eq!(table.len(), 3);
    let expected = [[0.1776, 0.2096], [0.48, 0.38], [1.0, 1.0]];
    for t in 0..3 {
        for s in 0..2 {
            assert_close(table[t][s], f64::ln(expected[t][s]));
        }
    }
}

#[test]
fn entries_are_log_probabilities() {
    let hmm = two_state_model();
    let obs = vec![1, 1, 0, 1, 0, 0, 1];
    let (fwd, prob) = hmm.forward_algorithm(obs.clone(), NEG_INF, product, ln_add_exp).unwrap();
    let bwd = hmm.backward(obs, NEG_INF, 0.0, product, ln_add_exp).unwrap();
    for row in fwd.iter().chain(bwd.iter()) {
        for v in row {
            assert!(*v <= 0.0);
        }
    }
    assert!(prob <= 0.0);
}

#[test]
fn backward_last_row_is_ln_one() {
    let hmm = two_state_model();
    let table = hmm
        .backward(vec![1, 0, 1, 1], NEG_INF, 0.0, product, ln_add_exp)
        .unwrap();
    assert_eq!(table[3], vec![0.0, 0.0]);
    let single = hmm.backward(vec![1], NEG_INF, 0.0, product, ln_add_exp).unwrap();
    assert_eq!(single, vec![vec![0.0, 0.0]]);
}

#[test]
fn end_column_reaches_forward_only() {
    let hmm = two_state_model();
    let mut other_end = two_state_model();
    other_end.state_transitions[0][2] = f64::ln(0.5);
    other_end.state_transitions[1][2] = f64::ln(0.5);
    let obs = vec![0, 1, 0];
    let (t1, p1) = hmm.forward_algorithm(obs.clone(), NEG_INF, product, ln_add_exp).unwrap();
    let (t2, p2) = other_end.forward_algorithm(obs.clone(), NEG_INF, product, ln_add_exp).unwrap();
    assert_eq!(t1, t2);
    assert_close(p2, f64::ln(0.045680));
    assert!(p1 < p2);
    let b1 = hmm.backward(obs.clone(), NEG_INF, 0.0, product, ln_add_exp).unwrap();
    let b2 = other_end.backward(obs.clone(), NEG_INF, 0.0, product, ln_add_exp).unwrap();
    assert_eq!(b1, b2);
    let v1 = hmm.viterbi(obs.clone(), NEG_INF, product, greater).unwrap();
    let v2 = other_end.viterbi(obs, NEG_INF, product, greater).unwrap();
    assert_eq!(v1, v2);
}

#[test]
fn viterbi_known_answer() {
    let hmm = two_state_model();
    let (path, prob) = hmm.viterbi(vec![0, 1, 0], NEG_INF, product, greater).unwrap();
    assert_eq!(path, vec![0, 0, 0]);
    assert_close(prob, f64::ln(0.031752));
    let (path, prob) = hmm.viterbi(vec![1, 1, 1], NEG_INF, product, greater).unwrap();
    assert_eq!(path, vec![1, 1, 1]);
    assert_close(prob, f64::ln(0.4 * 0.8 * 0.5 * 0.8 * 0.5 * 0.8));
}

fn path_score(hmm: &ProfileHMM<f64>, obs: &[usize], path: &[usize]) -> f64 {
    let mut score = hmm.initial_states_prob[path[0]] + hmm.emission_matrix[path[0]][obs[0]];
    for i in 1..obs.len() {
        score = score + hmm.state_transitions[path[i - 1]][path[i]];
        score = score + hmm.emission_matrix[path[i]][obs[i]];
    }
    score
}

#[test]
fn viterbi_path_matches_its_score() {
    let hmm = two_state_model();
    for obs in [vec![0], vec![1, 0], vec![0, 1, 1, 0, 1], vec![1, 1, 0, 0, 0, 1, 1, 1]] {
        let (path, prob) = hmm.viterbi(obs.clone(), NEG_INF, product, greater).unwrap();
        assert_eq!(path.len(), obs.len());
        assert!(path.iter().all(|s| *s < 2));
        assert_eq!(prob, path_score(&hmm, &obs, &path));
    }
}

#[test]
fn viterbi_single_observation_takes_best_start() {
    let hmm = two_state_model();
    let (path, prob) = hmm.viterbi(vec![0], NEG_INF, product, greater).unwrap();
    assert_eq!(path, vec![0]);
    assert_eq!(prob, f64::ln(0.6) + f64::ln(0.7));
    let (path, prob) = hmm.viterbi(vec![1], NEG_INF, product, greater).unwrap();
    assert_eq!(path, vec![1]);
    assert_eq!(prob, f64::ln(0.4) + f64::ln(0.8));
}

#[test]
fn viterbi_tie_rules() {
    let mut hmm = ProfileHMM::new();
    hmm.observation_count = 1;
    hmm.initial_states_prob = ln_vec(&[0.5, 0.5]);
    hmm.state_transitions = vec![ln_vec(&[0.5, 0.5, 0.0]), ln_vec(&[0.5, 0.5, 0.0])];
    hmm.emission_matrix = vec![ln_vec(&[1.0]), ln_vec(&[1.0])];
    // the final state goes to the last among equals
    let (path, _) = hmm.viterbi(vec![0], NEG_INF, product, greater).unwrap();
    assert_eq!(path, vec![1]);
    // a predecessor goes to the first among equals
    let (path, prob) = hmm.viterbi(vec![0, 0, 0], NEG_INF, product, greater).unwrap();
    assert_eq!(path, vec![0, 0, 1]);
    assert_close(prob, f64::ln(0.125));
}

#[test]
fn results_are_deterministic() {
    let hmm = two_state_model();
    let obs = vec![0, 1, 1, 0, 1, 0];
    let (f1, p1) = hmm.forward_algorithm(obs.clone(), NEG_INF, product, ln_add_exp).unwrap();
    let (f2, p2) = hmm.forward_algorithm(obs.clone(), NEG_INF, product, ln_add_exp).unwrap();
    let bits = |t: &Vec<Vec<f64>>| -> Vec<Vec<u64>> {
        t.iter().map(|r| r.iter().map(|v| v.to_bits()).collect()).collect()
    };
    assert_eq!(bits(&f1), bits(&f2));
    assert_eq!(p1.to_bits(), p2.to_bits());
    let b1 = hmm.backward(obs.clone(), NEG_INF, 0.0, product, ln_add_exp).unwrap();
    let b2 = hmm.backward(obs.clone(), NEG_INF, 0.0, product, ln_add_exp).unwrap();
    assert_eq!(bits(&b1), bits(&b2));
    let (v1, q1) = hmm.viterbi(obs.clone(), NEG_INF, product, greater).unwrap();
    let (v2, q2) = hmm.viterbi(obs, NEG_INF, product, greater).unwrap();
    assert_eq!(v1, v2);
    assert_eq!(q1.to_bits(), q2.to_bits());
}

#[test]
fn inference_rejects_bad_input() {
    let hmm = two_state_model();
    assert_eq!(
        hmm.forward_algorithm(vec![], NEG_INF, product, ln_add_exp).unwrap_err(),
        HmmError::EmptyObservationSequence
    );
    assert_eq!(
        hmm.backward(vec![0, 5], NEG_INF, 0.0, product, ln_add_exp).unwrap_err(),
        HmmError::ObservationOutOfRange
    );
    assert_eq!(
        hmm.viterbi(vec![], NEG_INF, product, greater).unwrap_err(),
        HmmError::EmptyObservationSequence
    );
    let empty: ProfileHMM<f64> = ProfileHMM::new();
    assert_eq!(
        empty.viterbi(vec![0], NEG_INF, product, greater).unwrap_err(),
        HmmError::ObservationOutOfRange
    );
    assert_eq!(
        empty.forward_algorithm(vec![0], NEG_INF, product, ln_add_exp).unwrap_err(),
        HmmError::ObservationOutOfRange
    );
    assert_eq!(
        empty.backward(vec![], NEG_INF, 0.0, product, ln_add_exp).unwrap_err(),
        HmmError::EmptyObservationSequence
    );
    let mut stateless: ProfileHMM<f64> = ProfileHMM::new();
    stateless.observation_count = 3;
    assert_eq!(
        stateless.viterbi(vec![2], NEG_INF, product, greater).unwrap_err(),
        HmmError::MalformedModel
    );
    assert_eq!(
        stateless.backward(vec![0, 1], NEG_INF, 0.0, product, ln_add_exp).unwrap_err(),
        HmmError::MalformedModel
    );
}

#[test]
fn viterbi_path_beats_every_path() {
    let hmm = two_state_model();
    let obs = vec![1, 0, 0, 1, 1, 0];
    let (path, prob) = hmm.viterbi(obs.clone(), NEG_INF, product, greater).unwrap();
    assert_eq!(path_score(&hmm, &obs, &path), prob);
    for code in 0..(1usize << obs.len()) {
        let other: Vec<usize> = (0..obs.len()).map(|i| (code >> i) & 1).collect();
        assert!(path_score(&hmm, &obs, &other) <= prob);
    }
}
