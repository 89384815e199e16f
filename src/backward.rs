use vstd::prelude::*;
use crate::log_space::{apply2, call2, total_fn2};
use crate::model::{HmmError, ProfileHMM};

verus! {

impl<S: Copy> ProfileHMM<S> {
    /// Log-sum, from `zero`, of `next[k'] * transition[s][k'] * emission[k'][o]`
    /// over `k' < k`.
    pub open spec fn backward_merge<P: Fn(S, S) -> S, L: Fn(S, S) -> S>(
        &self,
        product: P,
        log_sum: L,
        zero: S,
        next: Seq<S>,
        s: int,
        o: int,
        k: nat,
    ) -> S
        decreases k,
    {
        if k == 0 {
            zero
        } else {
            apply2(
                log_sum,
                self.backward_merge(product, log_sum, zero, next, s, o, (k - 1) as nat),
                apply2(
                    product,
                    apply2(product, next[k - 1], self.trans(s, k - 1)),
                    self.emit(k - 1, o),
                ),
            )
        }
    }

    /// Row `t` of the backward table: for each state, the log-probability of
    /// emitting `obs[t + 1..]` from there. The last row is all `one`.
    pub open spec fn backward_row<P: Fn(S, S) -> S, L: Fn(S, S) -> S>(
        &self,
        product: P,
        log_sum: L,
        zero: S,
        one: S,
        obs: Seq<usize>,
        t: int,
    ) -> Seq<S>
        decreases obs.len() - t,
    {
        if t + 1 >= obs.len() {
            Seq::new(self.state_count(), |s: int| one)
        } else {
            let next = self.backward_row(product, log_sum, zero, one, obs, t + 1);
            Seq::new(
                self.state_count(),
                |s: int|
                    self.backward_merge(
                        product,
                        log_sum,
                        zero,
                        next,
                        s,
                        obs[t + 1] as int,
                        self.state_count(),
                    ),
            )
        }
    }

    /// `table` is the backward table of `obs`.
    pub open spec fn backward_result<P: Fn(S, S) -> S, L: Fn(S, S) -> S>(
        &self,
        product: P,
        log_sum: L,
        zero: S,
        one: S,
        obs: Seq<usize>,
        table: Seq<Vec<S>>,
    ) -> bool {
        &&& table.len() == obs.len()
        &&& forall|t: int|
            0 <= t < obs.len() ==> (#[trigger] table[t])@ == self.backward_row(
                product,
                log_sum,
                zero,
                one,
                obs,
                t,
            )
    }

    /// Backward table of `observations`.
    ///
    /// `zero` and `one` are the logs of probabilities zero and one, `product`
    /// multiplies and `log_sum` adds two probabilities in log space. The end
    /// column of `state_transitions` is not consulted: the last row is `one`
    /// throughout.
    pub fn backward<P: Fn(S, S) -> S, L: Fn(S, S) -> S>(
        &self,
        observations: Vec<usize>,
        zero: S,
        one: S,
        product: P,
        log_sum: L,
    ) -> (r: Result<Vec<Vec<S>>, HmmError>)
        requires
            total_fn2(product),
            total_fn2(log_sum),
        ensures
            match r {
                Ok(table) => {
                    &&& self.check(observations@) is Ok
                    &&& self.backward_result(product, log_sum, zero, one, observations@, table@)
                },
                Err(e) => self.check(observations@) == Err::<(), HmmError>(e),
            },
    {
        match self.validate(&observations) {
            Err(e) => Err(e),
            Ok(()) => Ok(self.backward_tables(&observations, zero, one, &product, &log_sum)),
        }
    }

    fn backward_tables<P: Fn(S, S) -> S, L: Fn(S, S) -> S>(
        &self,
        observations: &Vec<usize>,
        zero: S,
        one: S,
        product: &P,
        log_sum: &L,
    ) -> (r: Vec<Vec<S>>)
        requires
            self.check(observations@) is Ok,
            total_fn2(*product),
            total_fn2(*log_sum),
        ensures
            self.backward_result(*product, *log_sum, zero, one, observations@, r@),
    {
        let ghost obs = observations@;
        let n = self.initial_states_prob.len();
        let tlen = observations.len();
        // rows[m] is row tlen - 1 - m of the table
        let mut rows: Vec<Vec<S>> = Vec::new();
        let mut m: usize = 0;
        while m < tlen
            invariant
                self.check(obs) is Ok,
                obs == observations@,
                n == self.state_count(),
                tlen == obs.len(),
                total_fn2(*product),
                total_fn2(*log_sum),
                0 <= m <= tlen,
                rows@.len() == m,
                forall|c: int|
                    0 <= c < m ==> (#[trigger] rows@[c])@ == self.backward_row(
                        *product,
                        *log_sum,
                        zero,
                        one,
                        obs,
                        tlen - 1 - c,
                    ),
            decreases tlen - m,
        {
            let t = tlen - 1 - m;
            let ghost row_spec = self.backward_row(*product, *log_sum, zero, one, obs, t as int);
            let mut row: Vec<S> = Vec::new();
            let mut s: usize = 0;
            while s < n
                invariant
                    self.check(obs) is Ok,
                    obs == observations@,
                    n == self.state_count(),
                    tlen == obs.len(),
                    t + m + 1 == tlen,
                    total_fn2(*product),
                    total_fn2(*log_sum),
                    rows@.len() == m,
                    m > 0 ==> rows@[m - 1]@ == self.backward_row(
                        *product,
                        *log_sum,
                        zero,
                        one,
                        obs,
                        t + 1,
                    ),
                    row_spec == self.backward_row(*product, *log_sum, zero, one, obs, t as int),
                    0 <= s <= n,
                    row@.len() == s,
                    forall|k: int| 0 <= k < s ==> #[trigger] row@[k] == row_spec[k],
                decreases n - s,
            {
                if m == 0 {
                    row.push(one);
                } else {
                    let ghost next = rows@[m - 1]@;
                    let o = observations[t + 1];
                    let mut acc = zero;
                    let mut k: usize = 0;
                    while k < n
                        invariant
                            self.check(obs) is Ok,
                            n == self.state_count(),
                            0 <= s < n,
                            o < self.observation_count,
                            total_fn2(*product),
                            total_fn2(*log_sum),
                            rows@.len() == m,
                            0 < m,
                            next == rows@[m - 1]@,
                            next.len() == n,
                            0 <= k <= n,
                            acc == self.backward_merge(
                                *product,
                                *log_sum,
                                zero,
                                next,
                                s as int,
                                o as int,
                                k as nat,
                            ),
                        decreases n - k,
                    {
                        let c = call2(product, rows[m - 1][k], self.state_transitions[s][k]);
                        let c = call2(product, c, self.emission_matrix[k][o]);
                        acc = call2(log_sum, acc, c);
                        k = k + 1;
                    }
                    row.push(acc);
                }
                s = s + 1;
            }
            assert(row@ =~= row_spec);
            rows.push(row);
            m = m + 1;
        }
        let mut table: Vec<Vec<S>> = Vec::new();
        while rows.len() > 0
            invariant
                tlen == obs.len(),
                table@.len() + rows@.len() == tlen,
                forall|c: int|
                    0 <= c < rows@.len() ==> (#[trigger] rows@[c])@ == self.backward_row(
                        *product,
                        *log_sum,
                        zero,
                        one,
                        obs,
                        tlen - 1 - c,
                    ),
                forall|c: int|
                    0 <= c < table@.len() ==> (#[trigger] table@[c])@ == self.backward_row(
                        *product,
                        *log_sum,
                        zero,
                        one,
                        obs,
                        c,
                    ),
            decreases rows@.len(),
        {
            match rows.pop() {
                Some(row) => table.push(row),
                None => {},
            }
        }
        table
    }
}

} // verus!
