use vstd::prelude::*;
use crate::log_space::apply2;

verus! {

/// Why an observation sequence cannot be run through a model.
#[derive(Debug, Clone, Copy, PartialEq, Eq)]
pub enum HmmError {
    /// The sequence holds no observation.
    EmptyObservationSequence,
    /// A symbol is not below `observation_count`.
    ObservationOutOfRange,
    /// The tables disagree in their dimensions, or, for a sequence that
    /// would otherwise be accepted, the model has no state.
    MalformedModel,
}

/// A profile HMM whose parameters are log-probabilities of type `S`.
pub struct ProfileHMM<S> {
    /// Number of possible observations.
    pub observation_count: usize,
    /// Log-probability that each state is the initial one.
    pub initial_states_prob: Vec<S>,
    /// `state_transitions[i][j]`: log-probability of going from state `i` to
    /// state `j`; column `state_count` holds the probability of ending in `i`.
    pub state_transitions: Vec<Vec<S>>,
    /// `emission_matrix[s][o]`: log-probability of emitting `o` in state `s`.
    pub emission_matrix: Vec<Vec<S>>,
}

impl<S> ProfileHMM<S> {
    pub open spec fn state_count(&self) -> nat {
        self.initial_states_prob@.len()
    }

    pub open spec fn init(&self, s: int) -> S {
        self.initial_states_prob@[s]
    }

    pub open spec fn trans(&self, i: int, j: int) -> S {
        self.state_transitions@[i]@[j]
    }

    pub open spec fn emit(&self, s: int, o: int) -> S {
        self.emission_matrix@[s]@[o]
    }

    /// Scores at time 0, shared by the forward and Viterbi tables:
    /// `initial[s] * emission[s][o]` in log space.
    pub open spec fn first_column<P: Fn(S, S) -> S>(&self, product: P, o: usize) -> Seq<S> {
        Seq::new(
            self.state_count(),
            |s: int| apply2(product, self.init(s), self.emit(s, o as int)),
        )
    }

    /// A `state_count x (state_count + 1)` transition table and a
    /// `state_count x observation_count` emission table.
    pub open spec fn dimensions_match(&self) -> bool {
        &&& self.state_count() <= usize::MAX
        &&& self.state_transitions@.len() == self.state_count()
        &&& forall|i: int|
            0 <= i < self.state_count() ==> #[trigger] self.state_transitions@[i]@.len()
                == self.state_count() + 1
        &&& self.emission_matrix@.len() == self.state_count()
        &&& forall|i: int|
            0 <= i < self.state_count() ==> #[trigger] self.emission_matrix@[i]@.len()
                == self.observation_count
    }

    /// Tables of matching dimensions, with at least one state.
    pub open spec fn well_formed(&self) -> bool {
        &&& self.dimensions_match()
        &&& self.state_count() > 0
    }

    /// Every symbol lies in `[0, observation_count)`.
    pub open spec fn symbols_in_range(&self, obs: Seq<usize>) -> bool {
        forall|t: int| 0 <= t < obs.len() ==> #[trigger] obs[t] < self.observation_count
    }

    /// What the validation of `obs` against this model gives, in this order:
    /// tables whose dimensions disagree, an empty sequence, a symbol out of
    /// range, and last a model without states.
    pub open spec fn check(&self, obs: Seq<usize>) -> Result<(), HmmError> {
        if !self.dimensions_match() {
            Err(HmmError::MalformedModel)
        } else if obs.len() == 0 {
            Err(HmmError::EmptyObservationSequence)
        } else if !self.symbols_in_range(obs) {
            Err(HmmError::ObservationOutOfRange)
        } else if self.state_count() == 0 {
            Err(HmmError::MalformedModel)
        } else {
            Ok(())
        }
    }

    /// The empty model: no state, no observation.
    pub fn new() -> (r: Self)
        ensures
            r.observation_count == 0,
            r.initial_states_prob@.len() == 0,
            r.state_transitions@.len() == 0,
            r.emission_matrix@.len() == 0,
    {
        ProfileHMM {
            observation_count: 0,
            initial_states_prob: Vec::new(),
            state_transitions: Vec::new(),
            emission_matrix: Vec::new(),
        }
    }

    /// Checks the model's dimensions and the observation sequence.
    pub fn validate(&self, observations: &Vec<usize>) -> (r: Result<(), HmmError>)
        ensures
            r == self.check(observations@),
    {
        let n = self.initial_states_prob.len();
        if self.state_transitions.len() != n || self.emission_matrix.len() != n {
            return Err(HmmError::MalformedModel);
        }
        let mut i: usize = 0;
        while i < n
            invariant
                0 <= i <= n,
                n == self.state_count(),
                self.state_transitions@.len() == n,
                self.emission_matrix@.len() == n,
                forall|k: int| 0 <= k < i ==> #[trigger] self.state_transitions@[k]@.len() == n + 1,
                forall|k: int|
                    0 <= k < i ==> #[trigger] self.emission_matrix@[k]@.len()
                        == self.observation_count,
            decreases n - i,
        {
            let row_len = self.state_transitions[i].len();
            if row_len == 0 || row_len - 1 != n
                || self.emission_matrix[i].len() != self.observation_count {
                return Err(HmmError::MalformedModel);
            }
            i = i + 1;
        }
        if observations.len() == 0 {
            return Err(HmmError::EmptyObservationSequence);
        }
        let mut t: usize = 0;
        while t < observations.len()
            invariant
                0 <= t <= observations@.len(),
                self.dimensions_match(),
                forall|k: int| 0 <= k < t ==> #[trigger] observations@[k] < self.observation_count,
            decreases observations@.len() - t,
        {
            if observations[t] >= self.observation_count {
                return Err(HmmError::ObservationOutOfRange);
            }
            t = t + 1;
        }
        if n == 0 {
            return Err(HmmError::MalformedModel);
        }
        Ok(())
    }
}

} // verus!
