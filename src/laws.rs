use vstd::prelude::*;
use crate::log_space::apply2;
use crate::model::ProfileHMM;

verus! {

/// On the values that satisfy `valid`, `greater` is a strict total order (up
/// to equivalence) in which `zero` lies below every other value: so do
/// log-probabilities, from negative infinity as `zero` up to `0`.
pub open spec fn log_order<S, G: Fn(S, S) -> bool>(
    greater: G,
    zero: S,
    valid: spec_fn(S) -> bool,
) -> bool {
    &&& valid(zero)
    &&& forall|a: S| valid(a) ==> !#[trigger] apply2(greater, a, a)
    &&& forall|a: S, b: S|
        valid(a) && valid(b) && #[trigger] apply2(greater, a, b) ==> !apply2(greater, b, a)
    &&& forall|a: S, b: S, c: S|
        valid(a) && valid(b) && valid(c) && !#[trigger] apply2(greater, a, b)
            && !#[trigger] apply2(greater, b, c) ==> !apply2(greater, a, c)
    &&& forall|a: S| valid(a) ==> a == zero || #[trigger] apply2(greater, a, zero)
}

/// The product of two values that satisfy `valid` satisfies it too.
pub open spec fn closed_under<S, P: Fn(S, S) -> S>(product: P, valid: spec_fn(S) -> bool) -> bool {
    forall|a: S, b: S| valid(a) && valid(b) ==> valid(#[trigger] apply2(product, a, b))
}

impl<S: Copy> ProfileHMM<S> {
    /// Every initial, transition and emission entry satisfies `valid`.
    pub open spec fn entries_satisfy(&self, valid: spec_fn(S) -> bool) -> bool {
        &&& forall|s: int| 0 <= s < self.state_count() ==> valid(#[trigger] self.init(s))
        &&& forall|i: int, j: int|
            0 <= i < self.state_count() && 0 <= j <= self.state_count() ==> valid(
                #[trigger] self.trans(i, j),
            )
        &&& forall|s: int, o: int|
            0 <= s < self.state_count() && 0 <= o < self.observation_count ==> valid(
                #[trigger] self.emit(s, o),
            )
    }

    /// Log-probability of emitting `obs[0..=i]` along the states `path[0..=i]`:
    /// `initial[path[0]] * emission[path[0]][obs[0]]`, then for each later step
    /// `* transition[path[i - 1]][path[i]] * emission[path[i]][obs[i]]`.
    pub open spec fn path_score<P: Fn(S, S) -> S>(
        &self,
        product: P,
        obs: Seq<usize>,
        path: Seq<usize>,
        i: nat,
    ) -> S
        decreases i,
    {
        if i == 0 {
            apply2(product, self.init(path[0] as int), self.emit(path[0] as int, obs[0] as int))
        } else {
            apply2(
                product,
                apply2(
                    product,
                    self.path_score(product, obs, path, (i - 1) as nat),
                    self.trans(path[i - 1] as int, path[i as int] as int),
                ),
                self.emit(path[i as int] as int, obs[i as int] as int),
            )
        }
    }
}

/// The last row of the backward recurrence is `one` in every state, for any
/// model and any non-empty sequence: no transition, emission or end
/// probability enters it.
pub proof fn lemma_backward_last_row_spec_is_one<S: Copy, P: Fn(S, S) -> S, L: Fn(S, S) -> S>(
    hmm: ProfileHMM<S>,
    product: P,
    log_sum: L,
    zero: S,
    one: S,
    obs: Seq<usize>,
)
    requires
        obs.len() > 0,
    ensures
        hmm.backward_row(product, log_sum, zero, one, obs, obs.len() - 1).len()
            == hmm.state_count(),
        forall|s: int|
            0 <= s < hmm.state_count() ==> #[trigger] hmm.backward_row(
                product,
                log_sum,
                zero,
                one,
                obs,
                obs.len() - 1,
            )[s] == one,
{
}

/// The last row of a backward table is `one` in every state.
pub proof fn lemma_backward_last_row_is_one<S: Copy, P: Fn(S, S) -> S, L: Fn(S, S) -> S>(
    hmm: ProfileHMM<S>,
    product: P,
    log_sum: L,
    zero: S,
    one: S,
    obs: Seq<usize>,
    table: Seq<Vec<S>>,
)
    requires
        obs.len() > 0,
        hmm.backward_result(product, log_sum, zero, one, obs, table),
    ensures
        forall|s: int| 0 <= s < hmm.state_count() ==> #[trigger] table[obs.len() - 1]@[s] == one,
{
    lemma_backward_last_row_spec_is_one(hmm, product, log_sum, zero, one, obs);
    assert(table[obs.len() - 1]@ == hmm.backward_row(
        product,
        log_sum,
        zero,
        one,
        obs,
        obs.len() - 1,
    ));
}

proof fn lemma_best_final_is_greatest<S: Copy, G: Fn(S, S) -> bool>(
    hmm: ProfileHMM<S>,
    greater: G,
    zero: S,
    last: Seq<S>,
    valid: spec_fn(S) -> bool,
    k: nat,
)
    requires
        log_order(greater, zero, valid),
        forall|s: int| 0 <= s < last.len() ==> valid(#[trigger] last[s]),
        1 <= k <= last.len(),
        k <= usize::MAX,
    ensures
        hmm.best_final(greater, zero, last, k).1 < k,
        hmm.best_final(greater, zero, last, k).0 == last[hmm.best_final(
            greater,
            zero,
            last,
            k,
        ).1 as int],
        forall|s: int|
            0 <= s < k ==> !#[trigger] apply2(
                greater,
                last[s],
                hmm.best_final(greater, zero, last, k).0,
            ),
        forall|s: int|
            hmm.best_final(greater, zero, last, k).1 < s < k ==> #[trigger] apply2(
                greater,
                hmm.best_final(greater, zero, last, k).0,
                last[s],
            ),
    decreases k,
{
    let x = last[k - 1];
    assert(!apply2(greater, x, x));
    if k == 1 {
        let b = hmm.best_final(greater, zero, last, 0);
        assert(b == (zero, 0usize));
        if apply2(greater, zero, x) {
            assert(x == zero || apply2(greater, x, zero));
            assert(false);
        }
    } else {
        lemma_best_final_is_greatest(hmm, greater, zero, last, valid, (k - 1) as nat);
        let (v, a) = hmm.best_final(greater, zero, last, (k - 1) as nat);
        if !apply2(greater, v, x) {
            assert forall|s: int| 0 <= s < k - 1 implies !#[trigger] apply2(
                greater,
                last[s],
                x,
            ) by {
                assert(!apply2(greater, last[s], v));
            }
        } else {
            assert(!apply2(greater, x, v));
        }
    }
}

proof fn lemma_best_predecessor_score<S: Copy, P: Fn(S, S) -> S, G: Fn(S, S) -> bool>(
    hmm: ProfileHMM<S>,
    product: P,
    greater: G,
    zero: S,
    prev: Seq<S>,
    j: int,
    valid: spec_fn(S) -> bool,
    k: nat,
)
    requires
        log_order(greater, zero, valid),
        forall|s: int|
            0 <= s < k ==> valid(#[trigger] apply2(product, prev[s], hmm.trans(s, j))),
        1 <= k <= usize::MAX,
    ensures
        ({
            let (v, a) = hmm.best_predecessor(product, greater, zero, prev, j, k);
            v == apply2(product, prev[a as int], hmm.trans(a as int, j))
        }),
    decreases k,
{
    let c = apply2(product, prev[k - 1], hmm.trans(k - 1, j));
    if k == 1 {
        assert(hmm.best_predecessor(product, greater, zero, prev, j, 0) == (zero, 0usize));
        assert(c == zero || apply2(greater, c, zero));
    } else {
        lemma_best_predecessor_score(hmm, product, greater, zero, prev, j, valid, (k - 1) as nat);
    }
}

proof fn lemma_column_valid<S: Copy, P: Fn(S, S) -> S, G: Fn(S, S) -> bool>(
    hmm: ProfileHMM<S>,
    product: P,
    greater: G,
    zero: S,
    obs: Seq<usize>,
    valid: spec_fn(S) -> bool,
    m: nat,
)
    requires
        hmm.check(obs) is Ok,
        log_order(greater, zero, valid),
        closed_under(product, valid),
        hmm.entries_satisfy(valid),
        m < obs.len(),
    ensures
        hmm.viterbi_column(product, greater, zero, obs, m).len() == hmm.state_count(),
        forall|j: int|
            0 <= j < hmm.state_count() ==> valid(
                #[trigger] hmm.viterbi_column(product, greater, zero, obs, m)[j],
            ),
    decreases m,
{
    let n = hmm.state_count();
    let col = hmm.viterbi_column(product, greater, zero, obs, m);
    assert(obs[m as int] < hmm.observation_count);
    if m == 0 {
        assert forall|j: int| 0 <= j < n implies valid(#[trigger] col[j]) by {
            assert(valid(hmm.init(j)));
            assert(valid(hmm.emit(j, obs[0] as int)));
        }
    } else {
        lemma_column_valid(hmm, product, greater, zero, obs, valid, (m - 1) as nat);
        let prev = hmm.viterbi_column(product, greater, zero, obs, (m - 1) as nat);
        assert forall|j: int| 0 <= j < n implies valid(#[trigger] col[j]) by {
            lemma_candidates_valid(hmm, product, prev, j, valid);
            lemma_best_predecessor_score(hmm, product, greater, zero, prev, j, valid, n);
            hmm.lemma_best_predecessor_in_range(product, greater, zero, prev, j, n);
            let a = hmm.best_predecessor(product, greater, zero, prev, j, n).1;
            assert(valid(apply2(product, prev[a as int], hmm.trans(a as int, j))));
            assert(valid(hmm.emit(j, obs[m as int] as int)));
        }
    }
}

proof fn lemma_candidates_valid<S: Copy, P: Fn(S, S) -> S>(
    hmm: ProfileHMM<S>,
    product: P,
    prev: Seq<S>,
    j: int,
    valid: spec_fn(S) -> bool,
)
    requires
        closed_under(product, valid),
        hmm.entries_satisfy(valid),
        0 <= j < hmm.state_count(),
        forall|s: int| 0 <= s < hmm.state_count() ==> valid(#[trigger] prev[s]),
    ensures
        forall|s: int|
            0 <= s < hmm.state_count() ==> valid(
                #[trigger] apply2(product, prev[s], hmm.trans(s, j)),
            ),
{
    assert forall|s: int| 0 <= s < hmm.state_count() implies valid(
        #[trigger] apply2(product, prev[s], hmm.trans(s, j)),
    ) by {
        assert(valid(prev[s]));
        assert(valid(hmm.trans(s, j)));
    }
}

proof fn lemma_column_is_path_score<S: Copy, P: Fn(S, S) -> S, G: Fn(S, S) -> bool>(
    hmm: ProfileHMM<S>,
    product: P,
    greater: G,
    zero: S,
    obs: Seq<usize>,
    path: Seq<usize>,
    valid: spec_fn(S) -> bool,
    m: nat,
)
    requires
        hmm.check(obs) is Ok,
        log_order(greater, zero, valid),
        closed_under(product, valid),
        hmm.entries_satisfy(valid),
        m < obs.len(),
        path.len() == obs.len(),
        forall|i: int| 0 <= i <= m ==> #[trigger] path[i] < hmm.state_count(),
        forall|i: int|
            0 <= i < m ==> #[trigger] path[i] == hmm.back_pointer(
                product,
                greater,
                zero,
                obs,
                (i + 1) as nat,
                path[i + 1] as int,
            ),
    ensures
        hmm.path_score(product, obs, path, m) == hmm.viterbi_column(
            product,
            greater,
            zero,
            obs,
            m,
        )[path[m as int] as int],
    decreases m,
{
    if m > 0 {
        lemma_column_is_path_score(hmm, product, greater, zero, obs, path, valid, (m - 1) as nat);
        let prev = hmm.viterbi_column(product, greater, zero, obs, (m - 1) as nat);
        lemma_column_valid(hmm, product, greater, zero, obs, valid, (m - 1) as nat);
        lemma_candidates_valid(hmm, product, prev, path[m as int] as int, valid);
        assert(path[m - 1] == hmm.back_pointer(product, greater, zero, obs, m, path[m as int] as int));
        lemma_best_predecessor_score(
            hmm,
            product,
            greater,
            zero,
            prev,
            path[m as int] as int,
            valid,
            hmm.state_count(),
        );
    }
}

/// Every state on a decoded path is a state of the model.
proof fn lemma_path_in_range<S: Copy, P: Fn(S, S) -> S, G: Fn(S, S) -> bool>(
    hmm: ProfileHMM<S>,
    product: P,
    greater: G,
    zero: S,
    obs: Seq<usize>,
    path: Seq<usize>,
    prob: S,
)
    requires
        hmm.check(obs) is Ok,
        hmm.viterbi_result(product, greater, zero, obs, path, prob),
    ensures
        forall|i: int| 0 <= i < obs.len() ==> #[trigger] path[i] < hmm.state_count(),
{
    let n = hmm.state_count();
    let last = hmm.viterbi_column(product, greater, zero, obs, (obs.len() - 1) as nat);
    hmm.lemma_best_final_in_range(greater, zero, last, n);
    assert forall|i: int| 0 <= i < obs.len() implies #[trigger] path[i] < n by {
        if i < obs.len() - 1 {
            let prev = hmm.viterbi_column(product, greater, zero, obs, i as nat);
            hmm.lemma_best_predecessor_in_range(
                product,
                greater,
                zero,
                prev,
                path[i + 1] as int,
                n,
            );
        }
    }
}

/// The score that Viterbi reports is the log-probability of the path it
/// reports: the initial probability of its first state, times each transition
/// along it, times each emission.
pub proof fn lemma_viterbi_score_is_path_score<S: Copy, P: Fn(S, S) -> S, G: Fn(S, S) -> bool>(
    hmm: ProfileHMM<S>,
    product: P,
    greater: G,
    zero: S,
    obs: Seq<usize>,
    path: Seq<usize>,
    prob: S,
    valid: spec_fn(S) -> bool,
)
    requires
        hmm.check(obs) is Ok,
        log_order(greater, zero, valid),
        closed_under(product, valid),
        hmm.entries_satisfy(valid),
        hmm.viterbi_result(product, greater, zero, obs, path, prob),
    ensures
        prob == hmm.path_score(product, obs, path, (obs.len() - 1) as nat),
{
    let n = hmm.state_count();
    let m = (obs.len() - 1) as nat;
    let last = hmm.viterbi_column(product, greater, zero, obs, m);
    lemma_path_in_range(hmm, product, greater, zero, obs, path, prob);
    lemma_column_valid(hmm, product, greater, zero, obs, valid, m);
    lemma_best_final_is_greatest(hmm, greater, zero, last, valid, n);
    lemma_column_is_path_score(hmm, product, greater, zero, obs, path, valid, m);
}

/// On a single observation Viterbi returns one state, one that maximises
/// `initial[s] * emission[s][obs[0]]`, and that maximum as its score; every
/// later state scores strictly less, so among equals the last one is taken.
pub proof fn lemma_single_observation<S: Copy, P: Fn(S, S) -> S, G: Fn(S, S) -> bool>(
    hmm: ProfileHMM<S>,
    product: P,
    greater: G,
    zero: S,
    obs: Seq<usize>,
    path: Seq<usize>,
    prob: S,
    valid: spec_fn(S) -> bool,
)
    requires
        hmm.check(obs) is Ok,
        obs.len() == 1,
        log_order(greater, zero, valid),
        closed_under(product, valid),
        hmm.entries_satisfy(valid),
        hmm.viterbi_result(product, greater, zero, obs, path, prob),
    ensures
        path.len() == 1,
        path[0] < hmm.state_count(),
        prob == hmm.first_column(product, obs[0])[path[0] as int],
        forall|s: int|
            0 <= s < hmm.state_count() ==> !#[trigger] apply2(
                greater,
                hmm.first_column(product, obs[0])[s],
                prob,
            ),
        forall|s: int|
            path[0] < s < hmm.state_count() ==> #[trigger] apply2(
                greater,
                prob,
                hmm.first_column(product, obs[0])[s],
            ),
{
    let first = hmm.first_column(product, obs[0]);
    assert(hmm.viterbi_column(product, greater, zero, obs, 0) == first);
    lemma_column_valid(hmm, product, greater, zero, obs, valid, 0);
    lemma_best_final_is_greatest(hmm, greater, zero, first, valid, hmm.state_count());
}

/// Multiplying by the same value keeps the order: a value that is not
/// greater than another stays so after both are multiplied by a third.
pub open spec fn monotone<S, P: Fn(S, S) -> S, G: Fn(S, S) -> bool>(
    product: P,
    greater: G,
    valid: spec_fn(S) -> bool,
) -> bool {
    forall|a: S, b: S, c: S|
        valid(a) && valid(b) && valid(c) && !apply2(greater, a, b) ==> !apply2(
            greater,
            #[trigger] apply2(product, a, c),
            #[trigger] apply2(product, b, c),
        )
}

proof fn lemma_best_predecessor_greatest<S: Copy, P: Fn(S, S) -> S, G: Fn(S, S) -> bool>(
    hmm: ProfileHMM<S>,
    product: P,
    greater: G,
    zero: S,
    prev: Seq<S>,
    j: int,
    valid: spec_fn(S) -> bool,
    k: nat,
)
    requires
        log_order(greater, zero, valid),
        forall|s: int|
            0 <= s < k ==> valid(#[trigger] apply2(product, prev[s], hmm.trans(s, j))),
        1 <= k <= usize::MAX,
    ensures
        valid(hmm.best_predecessor(product, greater, zero, prev, j, k).0),
        forall|s: int|
            0 <= s < k ==> !apply2(
                greater,
                #[trigger] apply2(product, prev[s], hmm.trans(s, j)),
                hmm.best_predecessor(product, greater, zero, prev, j, k).0,
            ),
    decreases k,
{
    let c = apply2(product, prev[k - 1], hmm.trans(k - 1, j));
    assert(valid(c));
    assert(!apply2(greater, c, c));
    if k == 1 {
        assert(hmm.best_predecessor(product, greater, zero, prev, j, 0) == (zero, 0usize));
        assert(c == zero || apply2(greater, c, zero));
    } else {
        lemma_best_predecessor_greatest(hmm, product, greater, zero, prev, j, valid, (k - 1) as nat);
        let v = hmm.best_predecessor(product, greater, zero, prev, j, (k - 1) as nat).0;
        if apply2(greater, c, v) {
            assert(!apply2(greater, v, c));
            assert forall|s: int| 0 <= s < k - 1 implies !apply2(
                greater,
                #[trigger] apply2(product, prev[s], hmm.trans(s, j)),
                c,
            ) by {
                let d = apply2(product, prev[s], hmm.trans(s, j));
                assert(valid(d));
                assert(!apply2(greater, d, v));
                if apply2(greater, d, c) {
                    // d > c and not d > v give v > c, against c > v
                    assert(!apply2(greater, d, v) && !apply2(greater, v, c) ==> !apply2(
                        greater,
                        d,
                        c,
                    ));
                }
            }
        } else {
            assert(valid(v));
        }
    }
}

proof fn lemma_column_bounds_paths<S: Copy, P: Fn(S, S) -> S, G: Fn(S, S) -> bool>(
    hmm: ProfileHMM<S>,
    product: P,
    greater: G,
    zero: S,
    obs: Seq<usize>,
    q: Seq<usize>,
    valid: spec_fn(S) -> bool,
    m: nat,
)
    requires
        hmm.check(obs) is Ok,
        log_order(greater, zero, valid),
        closed_under(product, valid),
        monotone(product, greater, valid),
        hmm.entries_satisfy(valid),
        m < obs.len(),
        forall|i: int| 0 <= i <= m ==> #[trigger] q[i] < hmm.state_count(),
    ensures
        valid(hmm.path_score(product, obs, q, m)),
        !apply2(
            greater,
            hmm.path_score(product, obs, q, m),
            hmm.viterbi_column(product, greater, zero, obs, m)[q[m as int] as int],
        ),
    decreases m,
{
    let n = hmm.state_count();
    let j = q[m as int] as int;
    assert(q[m as int] < n);
    assert(obs[m as int] < hmm.observation_count);
    let e = hmm.emit(j, obs[m as int] as int);
    assert(valid(e));
    lemma_column_valid(hmm, product, greater, zero, obs, valid, m);
    let col = hmm.viterbi_column(product, greater, zero, obs, m);
    if m == 0 {
        assert(valid(hmm.init(j)));
        assert(col[j] == hmm.path_score(product, obs, q, 0));
        assert(valid(col[j]));
        assert(!apply2(greater, col[j], col[j]));
    } else {
        lemma_column_bounds_paths(hmm, product, greater, zero, obs, q, valid, (m - 1) as nat);
        lemma_column_valid(hmm, product, greater, zero, obs, valid, (m - 1) as nat);
        let prev = hmm.viterbi_column(product, greater, zero, obs, (m - 1) as nat);
        let i = q[m - 1] as int;
        assert(q[m - 1] < n);
        lemma_candidates_valid(hmm, product, prev, j, valid);
        lemma_best_predecessor_greatest(hmm, product, greater, zero, prev, j, valid, n);
        let ps = hmm.path_score(product, obs, q, (m - 1) as nat);
        let tr = hmm.trans(i, j);
        assert(valid(tr));
        assert(valid(prev[i]));
        let x = apply2(product, ps, tr);
        let cand = apply2(product, prev[i], tr);
        let best = hmm.best_predecessor(product, greater, zero, prev, j, n).0;
        assert(!apply2(greater, x, cand));
        assert(!apply2(greater, cand, best));
        assert(valid(x));
        assert(!apply2(greater, x, best));
        assert(col[j] == apply2(product, best, e));
        assert(!apply2(greater, apply2(product, x, e), apply2(product, best, e)));
    }
}

/// No path scores higher than the one Viterbi decodes: the decoded path is
/// a most probable one.
pub proof fn lemma_viterbi_path_is_most_probable<S: Copy, P: Fn(S, S) -> S, G: Fn(S, S) -> bool>(
    hmm: ProfileHMM<S>,
    product: P,
    greater: G,
    zero: S,
    obs: Seq<usize>,
    path: Seq<usize>,
    prob: S,
    valid: spec_fn(S) -> bool,
    q: Seq<usize>,
)
    requires
        hmm.check(obs) is Ok,
        log_order(greater, zero, valid),
        closed_under(product, valid),
        monotone(product, greater, valid),
        hmm.entries_satisfy(valid),
        hmm.viterbi_result(product, greater, zero, obs, path, prob),
        q.len() == obs.len(),
        forall|i: int| 0 <= i < q.len() ==> #[trigger] q[i] < hmm.state_count(),
    ensures
        !apply2(greater, hmm.path_score(product, obs, q, (obs.len() - 1) as nat), prob),
{
    let n = hmm.state_count();
    let m = (obs.len() - 1) as nat;
    let last = hmm.viterbi_column(product, greater, zero, obs, m);
    lemma_column_valid(hmm, product, greater, zero, obs, valid, m);
    lemma_best_final_is_greatest(hmm, greater, zero, last, valid, n);
    lemma_column_bounds_paths(hmm, product, greater, zero, obs, q, valid, m);
    let ps = hmm.path_score(product, obs, q, m);
    let x = last[q[m as int] as int];
    assert(q[m as int] < n);
    assert(valid(x));
    assert(!apply2(greater, x, prob));
    assert(!apply2(greater, ps, x));
}

proof fn lemma_paths_agree_from<S: Copy, P: Fn(S, S) -> S, G: Fn(S, S) -> bool>(
    hmm: ProfileHMM<S>,
    product: P,
    greater: G,
    zero: S,
    obs: Seq<usize>,
    p1: Seq<usize>,
    x1: S,
    p2: Seq<usize>,
    x2: S,
    i: int,
)
    requires
        obs.len() > 0,
        0 <= i < obs.len(),
        hmm.viterbi_result(product, greater, zero, obs, p1, x1),
        hmm.viterbi_result(product, greater, zero, obs, p2, x2),
    ensures
        forall|c: int| i <= c < obs.len() ==> #[trigger] p1[c] == p2[c],
    decreases obs.len() - i,
{
    if i < obs.len() - 1 {
        lemma_paths_agree_from(hmm, product, greater, zero, obs, p1, x1, p2, x2, i + 1);
        assert(p1[i + 1] == p2[i + 1]);
    }
}

/// Viterbi decoding is deterministic: on the same model and observations,
/// any two results agree in path and score.
pub proof fn lemma_viterbi_deterministic<S: Copy, P: Fn(S, S) -> S, G: Fn(S, S) -> bool>(
    hmm: ProfileHMM<S>,
    product: P,
    greater: G,
    zero: S,
    obs: Seq<usize>,
    p1: Seq<usize>,
    x1: S,
    p2: Seq<usize>,
    x2: S,
)
    requires
        obs.len() > 0,
        hmm.viterbi_result(product, greater, zero, obs, p1, x1),
        hmm.viterbi_result(product, greater, zero, obs, p2, x2),
    ensures
        p1 == p2,
        x1 == x2,
{
    lemma_paths_agree_from(hmm, product, greater, zero, obs, p1, x1, p2, x2, 0);
    assert(p1 =~= p2);
}

/// The forward table is deterministic: on the same model and observations,
/// any two results hold the same entries and the same sequence probability.
pub proof fn lemma_forward_deterministic<S: Copy, P: Fn(S, S) -> S, L: Fn(S, S) -> S>(
    hmm: ProfileHMM<S>,
    product: P,
    log_sum: L,
    zero: S,
    obs: Seq<usize>,
    f1: Seq<Vec<S>>,
    x1: S,
    f2: Seq<Vec<S>>,
    x2: S,
)
    requires
        hmm.forward_result(product, log_sum, zero, obs, f1, x1),
        hmm.forward_result(product, log_sum, zero, obs, f2, x2),
    ensures
        f1.len() == f2.len(),
        forall|t: int| 0 <= t < f1.len() ==> #[trigger] f1[t]@ == f2[t]@,
        x1 == x2,
{
    assert forall|t: int| 0 <= t < f1.len() implies #[trigger] f1[t]@ == f2[t]@ by {
        assert(f1[t]@ == hmm.forward_row(product, log_sum, zero, obs, t as nat));
        assert(f2[t]@ == hmm.forward_row(product, log_sum, zero, obs, t as nat));
    }
}

/// The backward table is deterministic: on the same model and observations,
/// any two results hold the same entries.
pub proof fn lemma_backward_deterministic<S: Copy, P: Fn(S, S) -> S, L: Fn(S, S) -> S>(
    hmm: ProfileHMM<S>,
    product: P,
    log_sum: L,
    zero: S,
    one: S,
    obs: Seq<usize>,
    b1: Seq<Vec<S>>,
    b2: Seq<Vec<S>>,
)
    requires
        hmm.backward_result(product, log_sum, zero, one, obs, b1),
        hmm.backward_result(product, log_sum, zero, one, obs, b2),
    ensures
        b1.len() == b2.len(),
        forall|t: int| 0 <= t < b1.len() ==> #[trigger] b1[t]@ == b2[t]@,
{
    assert forall|t: int| 0 <= t < b1.len() implies #[trigger] b1[t]@ == b2[t]@ by {
        assert(b1[t]@ == hmm.backward_row(product, log_sum, zero, one, obs, t));
        assert(b2[t]@ == hmm.backward_row(product, log_sum, zero, one, obs, t));
    }
}

} // verus!
