use vstd::prelude::*;
use crate::log_space::{apply2, call2, total_fn2};
use crate::model::{HmmError, ProfileHMM};

verus! {

impl<S: Copy> ProfileHMM<S> {
    /// Best of the first `k` predecessors of state `j` in column `prev`, with
    /// its state: the scan keeps the earliest candidate among equals, since
    /// a candidate replaces the best only when strictly greater. With `k == 0`
    /// it is `(zero, 0)`.
    pub open spec fn best_predecessor<P: Fn(S, S) -> S, G: Fn(S, S) -> bool>(
        &self,
        product: P,
        greater: G,
        zero: S,
        prev: Seq<S>,
        j: int,
        k: nat,
    ) -> (S, usize)
        decreases k,
    {
        if k == 0 {
            (zero, 0usize)
        } else {
            let (v, a) = self.best_predecessor(product, greater, zero, prev, j, (k - 1) as nat);
            let c = apply2(product, prev[k - 1], self.trans(k - 1, j));
            if apply2(greater, c, v) {
                (c, (k - 1) as usize)
            } else {
                (v, a)
            }
        }
    }

    /// Viterbi column `i`: for each state, the score of the best path that
    /// ends there having emitted `obs[0..=i]`.
    pub open spec fn viterbi_column<P: Fn(S, S) -> S, G: Fn(S, S) -> bool>(
        &self,
        product: P,
        greater: G,
        zero: S,
        obs: Seq<usize>,
        i: nat,
    ) -> Seq<S>
        decreases i,
    {
        if i == 0 {
            self.first_column(product, obs[0])
        } else {
            let prev = self.viterbi_column(product, greater, zero, obs, (i - 1) as nat);
            Seq::new(
                self.state_count(),
                |j: int|
                    apply2(
                        product,
                        self.best_predecessor(
                            product,
                            greater,
                            zero,
                            prev,
                            j,
                            self.state_count(),
                        ).0,
                        self.emit(j, obs[i as int] as int),
                    ),
            )
        }
    }

    /// The state before state `j` on the best path to column `i >= 1`.
    pub open spec fn back_pointer<P: Fn(S, S) -> S, G: Fn(S, S) -> bool>(
        &self,
        product: P,
        greater: G,
        zero: S,
        obs: Seq<usize>,
        i: nat,
        j: int,
    ) -> usize {
        let prev = self.viterbi_column(product, greater, zero, obs, (i - 1) as nat);
        self.best_predecessor(product, greater, zero, prev, j, self.state_count()).1
    }

    /// Best of the first `k` entries of the last column, with its state: an
    /// entry replaces the best when it is greater or equal, so the latest
    /// wins among equals. With `k == 0` it is `(zero, 0)`.
    pub open spec fn best_final<G: Fn(S, S) -> bool>(
        &self,
        greater: G,
        zero: S,
        last: Seq<S>,
        k: nat,
    ) -> (S, usize)
        decreases k,
    {
        if k == 0 {
            (zero, 0usize)
        } else {
            let (v, a) = self.best_final(greater, zero, last, (k - 1) as nat);
            if !apply2(greater, v, last[k - 1]) {
                (last[k - 1], (k - 1) as usize)
            } else {
                (v, a)
            }
        }
    }

    /// The decoded path and its score, as `viterbi` finds them.
    pub open spec fn viterbi_result<P: Fn(S, S) -> S, G: Fn(S, S) -> bool>(
        &self,
        product: P,
        greater: G,
        zero: S,
        obs: Seq<usize>,
        path: Seq<usize>,
        prob: S,
    ) -> bool {
        let last = self.viterbi_column(product, greater, zero, obs, (obs.len() - 1) as nat);
        let fin = self.best_final(greater, zero, last, self.state_count());
        &&& path.len() == obs.len()
        &&& prob == fin.0
        &&& path[obs.len() - 1] == fin.1
        &&& forall|i: int|
            0 <= i < obs.len() - 1 ==> #[trigger] path[i] == self.back_pointer(
                product,
                greater,
                zero,
                obs,
                (i + 1) as nat,
                path[i + 1] as int,
            )
    }

    pub(crate) proof fn lemma_best_predecessor_in_range<P: Fn(S, S) -> S, G: Fn(S, S) -> bool>(
        &self,
        product: P,
        greater: G,
        zero: S,
        prev: Seq<S>,
        j: int,
        k: nat,
    )
        requires
            0 < k <= usize::MAX,
        ensures
            self.best_predecessor(product, greater, zero, prev, j, k).1 < k,
        decreases k,
    {
        if k > 1 {
            self.lemma_best_predecessor_in_range(product, greater, zero, prev, j, (k - 1) as nat);
        } else {
            assert(self.best_predecessor(product, greater, zero, prev, j, 0).1 == 0);
        }
    }

    pub(crate) proof fn lemma_best_final_in_range<G: Fn(S, S) -> bool>(
        &self,
        greater: G,
        zero: S,
        last: Seq<S>,
        k: nat,
    )
        requires
            0 < k <= usize::MAX,
        ensures
            self.best_final(greater, zero, last, k).1 < k,
        decreases k,
    {
        if k > 1 {
            self.lemma_best_final_in_range(greater, zero, last, (k - 1) as nat);
        } else {
            assert(self.best_final(greater, zero, last, 0).1 == 0);
        }
    }

    /// Most likely state path for `observations`, and its score.
    ///
    /// `zero` is the log of probability zero, `product(a, b)` multiplies two
    /// probabilities in log space and `greater(a, b)` says whether `a` is the
    /// larger. Within a column a predecessor replaces the best one only when
    /// strictly greater; the final state is the last one that is not smaller
    /// than the best seen so far. The end column of `state_transitions` is not
    /// consulted.
    pub fn viterbi<P: Fn(S, S) -> S, G: Fn(S, S) -> bool>(
        &self,
        observations: Vec<usize>,
        zero: S,
        product: P,
        greater: G,
    ) -> (r: Result<(Vec<usize>, S), HmmError>)
        requires
            total_fn2(product),
            total_fn2(greater),
        ensures
            match r {
                Ok((path, prob)) => {
                    &&& self.check(observations@) is Ok
                    &&& self.viterbi_result(product, greater, zero, observations@, path@, prob)
                },
                Err(e) => self.check(observations@) == Err::<(), HmmError>(e),
            },
    {
        match self.validate(&observations) {
            Err(e) => Err(e),
            Ok(()) => Ok(self.decode(&observations, zero, &product, &greater)),
        }
    }

    fn decode<P: Fn(S, S) -> S, G: Fn(S, S) -> bool>(
        &self,
        observations: &Vec<usize>,
        zero: S,
        product: &P,
        greater: &G,
    ) -> (r: (Vec<usize>, S))
        requires
            self.check(observations@) is Ok,
            total_fn2(*product),
            total_fn2(*greater),
        ensures
            self.viterbi_result(*product, *greater, zero, observations@, r.0@, r.1),
    {
        let ghost obs = observations@;
        let n = self.initial_states_prob.len();
        let tlen = observations.len();
        let mut scores: Vec<Vec<S>> = Vec::new();
        let mut pointers: Vec<Vec<usize>> = Vec::new();
        let mut first: Vec<S> = Vec::new();
        let o0 = observations[0];
        let mut s: usize = 0;
        while s < n
            invariant
                self.check(obs) is Ok,
                obs == observations@,
                n == self.state_count(),
                o0 == obs[0],
                total_fn2(*product),
                0 <= s <= n,
                first@.len() == s,
                forall|k: int|
                    0 <= k < s ==> #[trigger] first@[k] == self.first_column(*product, o0)[k],
            decreases n - s,
        {
            let v = call2(product, self.initial_states_prob[s], self.emission_matrix[s][o0]);
            first.push(v);
            s = s + 1;
        }
        assert(first@ =~= self.viterbi_column(*product, *greater, zero, obs, 0));
        scores.push(first);
        pointers.push(Vec::new());
        let mut i: usize = 1;
        while i < tlen
            invariant
                self.check(obs) is Ok,
                obs == observations@,
                n == self.state_count(),
                tlen == obs.len(),
                total_fn2(*product),
                total_fn2(*greater),
                1 <= i <= tlen,
                scores@.len() == i,
                pointers@.len() == i,
                forall|c: int|
                    0 <= c < i ==> #[trigger] scores@[c]@ == self.viterbi_column(
                        *product,
                        *greater,
                        zero,
                        obs,
                        c as nat,
                    ),
                forall|c: int|
                    1 <= c < i ==> (#[trigger] pointers@[c])@.len() == n,
                forall|c: int, j: int|
                    1 <= c < i && 0 <= j < n ==> #[trigger] pointers@[c]@[j] == self.back_pointer(
                        *product,
                        *greater,
                        zero,
                        obs,
                        c as nat,
                        j,
                    ),
            decreases tlen - i,
        {
            let ghost prev = scores@[i - 1]@;
            let ghost col_spec = self.viterbi_column(*product, *greater, zero, obs, i as nat);
            let oi = observations[i];
            let mut col: Vec<S> = Vec::new();
            let mut ptr: Vec<usize> = Vec::new();
            let mut j: usize = 0;
            while j < n
                invariant
                    self.check(obs) is Ok,
                    obs == observations@,
                    n == self.state_count(),
                    oi == obs[i as int],
                    1 <= i < tlen,
                    tlen == obs.len(),
                    total_fn2(*product),
                    total_fn2(*greater),
                    scores@.len() == i,
                    prev == scores@[i - 1]@,
                    prev == self.viterbi_column(*product, *greater, zero, obs, (i - 1) as nat),
                    col_spec == self.viterbi_column(*product, *greater, zero, obs, i as nat),
                    0 <= j <= n,
                    col@.len() == j,
                    ptr@.len() == j,
                    forall|k: int| 0 <= k < j ==> #[trigger] col@[k] == col_spec[k],
                    forall|k: int|
                        0 <= k < j ==> #[trigger] ptr@[k] == self.back_pointer(
                            *product,
                            *greater,
                            zero,
                            obs,
                            i as nat,
                            k,
                        ),
                decreases n - j,
            {
                let mut best = zero;
                let mut arg: usize = 0;
                let mut k: usize = 0;
                while k < n
                    invariant
                        self.check(obs) is Ok,
                        n == self.state_count(),
                        0 <= j < n,
                        total_fn2(*product),
                        total_fn2(*greater),
                        scores@.len() == i,
                        1 <= i,
                        prev == scores@[i - 1]@,
                        prev.len() == n,
                        0 <= k <= n,
                        (best, arg) == self.best_predecessor(
                            *product,
                            *greater,
                            zero,
                            prev,
                            j as int,
                            k as nat,
                        ),
                    decreases n - k,
                {
                    let c = call2(product, scores[i - 1][k], self.state_transitions[k][j]);
                    if call2(greater, c, best) {
                        best = c;
                        arg = k;
                    }
                    k = k + 1;
                }
                let v = call2(product, best, self.emission_matrix[j][oi]);
                col.push(v);
                ptr.push(arg);
                j = j + 1;
            }
            assert(col@ =~= col_spec);
            scores.push(col);
            pointers.push(ptr);
            i = i + 1;
        }
        let ghost last = scores@[tlen - 1]@;
        let mut prob = zero;
        let mut fin: usize = 0;
        let mut s: usize = 0;
        while s < n
            invariant
                n == self.state_count(),
                total_fn2(*greater),
                scores@.len() == tlen,
                tlen >= 1,
                last == scores@[tlen - 1]@,
                last.len() == n,
                0 <= s <= n,
                (prob, fin) == self.best_final(*greater, zero, last, s as nat),
            decreases n - s,
        {
            let x = scores[tlen - 1][s];
            if !call2(greater, prob, x) {
                prob = x;
                fin = s;
            }
            s = s + 1;
        }
        proof {
            self.lemma_best_final_in_range(*greater, zero, last, n as nat);
        }
        let mut path: Vec<usize> = Vec::new();
        let mut t: usize = 0;
        while t < tlen
            invariant
                0 <= t <= tlen,
                path@.len() == t,
            decreases tlen - t,
        {
            path.push(0);
            t = t + 1;
        }
        path[tlen - 1] = fin;
        let mut t: usize = tlen - 1;
        while t > 0
            invariant
                self.check(obs) is Ok,
                obs == observations@,
                n == self.state_count(),
                tlen == obs.len(),
                0 <= t < tlen,
                path@.len() == tlen,
                pointers@.len() == tlen,
                path@[tlen - 1] == fin,
                forall|c: int| t <= c < tlen ==> #[trigger] path@[c] < n,
                forall|c: int|
                    1 <= c < tlen ==> (#[trigger] pointers@[c])@.len() == n,
                forall|c: int, j: int|
                    1 <= c < tlen && 0 <= j < n ==> #[trigger] pointers@[c]@[j] == self.back_pointer(
                        *product,
                        *greater,
                        zero,
                        obs,
                        c as nat,
                        j,
                    ),
                forall|c: int|
                    t <= c < tlen - 1 ==> #[trigger] path@[c] == self.back_pointer(
                        *product,
                        *greater,
                        zero,
                        obs,
                        (c + 1) as nat,
                        path@[c + 1] as int,
                    ),
            decreases t,
        {
            let p = pointers[t][path[t]];
            proof {
                let prev = self.viterbi_column(*product, *greater, zero, obs, (t - 1) as nat);
                self.lemma_best_predecessor_in_range(
                    *product,
                    *greater,
                    zero,
                    prev,
                    path@[t as int] as int,
                    n as nat,
                );
            }
            path[t - 1] = p;
            t = t - 1;
        }
        (path, prob)
    }
}

} // verus!
