use vstd::prelude::*;
use crate::log_space::{apply2, call2, total_fn2};
use crate::model::{HmmError, ProfileHMM};

verus! {

impl<S: Copy> ProfileHMM<S> {
    /// Log-sum, from `zero`, of `prev[k'] * transition[k'][s]` over `k' < k`.
    pub open spec fn forward_merge<P: Fn(S, S) -> S, L: Fn(S, S) -> S>(
        &self,
        product: P,
        log_sum: L,
        zero: S,
        prev: Seq<S>,
        s: int,
        k: nat,
    ) -> S
        decreases k,
    {
        if k == 0 {
            zero
        } else {
            apply2(
                log_sum,
                self.forward_merge(product, log_sum, zero, prev, s, (k - 1) as nat),
                apply2(product, prev[k - 1], self.trans(k - 1, s)),
            )
        }
    }

    /// Row `t` of the forward table: for each state, the log-probability of
    /// all paths that end there having emitted `obs[0..=t]`.
    pub open spec fn forward_row<P: Fn(S, S) -> S, L: Fn(S, S) -> S>(
        &self,
        product: P,
        log_sum: L,
        zero: S,
        obs: Seq<usize>,
        t: nat,
    ) -> Seq<S>
        decreases t,
    {
        if t == 0 {
            self.first_column(product, obs[0])
        } else {
            let prev = self.forward_row(product, log_sum, zero, obs, (t - 1) as nat);
            Seq::new(
                self.state_count(),
                |s: int|
                    apply2(
                        product,
                        self.forward_merge(product, log_sum, zero, prev, s, self.state_count()),
                        self.emit(s, obs[t as int] as int),
                    ),
            )
        }
    }

    /// Log-sum, from `zero`, of `last[k'] * end[k']` over `k' < k`, where
    /// `end[k']` is the last column of `state_transitions`.
    pub open spec fn end_merge<P: Fn(S, S) -> S, L: Fn(S, S) -> S>(
        &self,
        product: P,
        log_sum: L,
        zero: S,
        last: Seq<S>,
        k: nat,
    ) -> S
        decreases k,
    {
        if k == 0 {
            zero
        } else {
            apply2(
                log_sum,
                self.end_merge(product, log_sum, zero, last, (k - 1) as nat),
                apply2(product, last[k - 1], self.trans(k - 1, self.state_count() as int)),
            )
        }
    }

    /// `table` is the forward table of `obs` and `prob` the sequence's
    /// log-probability, taken from the table's last row.
    pub open spec fn forward_result<P: Fn(S, S) -> S, L: Fn(S, S) -> S>(
        &self,
        product: P,
        log_sum: L,
        zero: S,
        obs: Seq<usize>,
        table: Seq<Vec<S>>,
        prob: S,
    ) -> bool {
        &&& table.len() == obs.len()
        &&& forall|t: int|
            0 <= t < obs.len() ==> (#[trigger] table[t])@ == self.forward_row(
                product,
                log_sum,
                zero,
                obs,
                t as nat,
            )
        &&& prob == self.end_merge(
            product,
            log_sum,
            zero,
            self.forward_row(product, log_sum, zero, obs, (obs.len() - 1) as nat),
            self.state_count(),
        )
    }

    /// Forward table of `observations`, and the log-probability of the whole
    /// sequence.
    ///
    /// `zero` is the log of probability zero, `product` multiplies and
    /// `log_sum` adds two probabilities in log space. The sequence's
    /// probability folds the end column of `state_transitions` into the last
    /// row of the table, `forward[len - 1]`.
    pub fn forward_algorithm<P: Fn(S, S) -> S, L: Fn(S, S) -> S>(
        &self,
        observations: Vec<usize>,
        zero: S,
        product: P,
        log_sum: L,
    ) -> (r: Result<(Vec<Vec<S>>, S), HmmError>)
        requires
            total_fn2(product),
            total_fn2(log_sum),
        ensures
            match r {
                Ok((table, prob)) => {
                    &&& self.check(observations@) is Ok
                    &&& self.forward_result(product, log_sum, zero, observations@, table@, prob)
                },
                Err(e) => self.check(observations@) == Err::<(), HmmError>(e),
            },
    {
        match self.validate(&observations) {
            Err(e) => Err(e),
            Ok(()) => Ok(self.forward_tables(&observations, zero, &product, &log_sum)),
        }
    }

    fn forward_tables<P: Fn(S, S) -> S, L: Fn(S, S) -> S>(
        &self,
        observations: &Vec<usize>,
        zero: S,
        product: &P,
        log_sum: &L,
    ) -> (r: (Vec<Vec<S>>, S))
        requires
            self.check(observations@) is Ok,
            total_fn2(*product),
            total_fn2(*log_sum),
        ensures
            self.forward_result(*product, *log_sum, zero, observations@, r.0@, r.1),
    {
        let ghost obs = observations@;
        let n = self.initial_states_prob.len();
        let tlen = observations.len();
        let mut table: Vec<Vec<S>> = Vec::new();
        let mut t: usize = 0;
        while t < tlen
            invariant
                self.check(obs) is Ok,
                obs == observations@,
                n == self.state_count(),
                tlen == obs.len(),
                total_fn2(*product),
                total_fn2(*log_sum),
                0 <= t <= tlen,
                table@.len() == t,
                forall|c: int|
                    0 <= c < t ==> (#[trigger] table@[c])@ == self.forward_row(
                        *product,
                        *log_sum,
                        zero,
                        obs,
                        c as nat,
                    ),
            decreases tlen - t,
        {
            let ghost row_spec = self.forward_row(*product, *log_sum, zero, obs, t as nat);
            let ot = observations[t];
            let mut row: Vec<S> = Vec::new();
            let mut s: usize = 0;
            while s < n
                invariant
                    self.check(obs) is Ok,
                    obs == observations@,
                    n == self.state_count(),
                    tlen == obs.len(),
                    0 <= t < tlen,
                    ot == obs[t as int],
                    total_fn2(*product),
                    total_fn2(*log_sum),
                    table@.len() == t,
                    t > 0 ==> table@[t - 1]@ == self.forward_row(
                        *product,
                        *log_sum,
                        zero,
                        obs,
                        (t - 1) as nat,
                    ),
                    row_spec == self.forward_row(*product, *log_sum, zero, obs, t as nat),
                    0 <= s <= n,
                    row@.len() == s,
                    forall|k: int| 0 <= k < s ==> #[trigger] row@[k] == row_spec[k],
                decreases n - s,
            {
                let v = if t == 0 {
                    self.initial_states_prob[s]
                } else {
                    let ghost prev = table@[t - 1]@;
                    let mut acc = zero;
                    let mut k: usize = 0;
                    while k < n
                        invariant
                            self.check(obs) is Ok,
                            n == self.state_count(),
                            0 <= s < n,
                            total_fn2(*product),
                            total_fn2(*log_sum),
                            table@.len() == t,
                            0 < t,
                            prev == table@[t - 1]@,
                            prev.len() == n,
                            0 <= k <= n,
                            acc == self.forward_merge(
                                *product,
                                *log_sum,
                                zero,
                                prev,
                                s as int,
                                k as nat,
                            ),
                        decreases n - k,
                    {
                        let c = call2(product, table[t - 1][k], self.state_transitions[k][s]);
                        acc = call2(log_sum, acc, c);
                        k = k + 1;
                    }
                    acc
                };
                row.push(call2(product, v, self.emission_matrix[s][ot]));
                s = s + 1;
            }
            assert(row@ =~= row_spec);
            table.push(row);
            t = t + 1;
        }
        let ghost last = table@[tlen - 1]@;
        let mut prob = zero;
        let mut k: usize = 0;
        while k < n
            invariant
                self.check(obs) is Ok,
                n == self.state_count(),
                total_fn2(*product),
                total_fn2(*log_sum),
                table@.len() == tlen,
                tlen >= 1,
                last == table@[tlen - 1]@,
                last.len() == n,
                0 <= k <= n,
                prob == self.end_merge(*product, *log_sum, zero, last, k as nat),
            decreases n - k,
        {
            let c = call2(product, table[tlen - 1][k], self.state_transitions[k][n]);
            prob = call2(log_sum, prob, c);
            k = k + 1;
        }
        (table, prob)
    }
}

} // verus!
