//! Counting the places that have a property, and the occurrences of a
//! thing in a row of things.

use vstd::prelude::*;

verus! {

/// How many `k` with `0 <= k < n` satisfy `p`.
pub open spec fn count_below(n: int, p: spec_fn(int) -> bool) -> nat
    decreases n,
{
    if n <= 0 {
        0
    } else {
        count_below(n - 1, p) + if p(n - 1) {
            1nat
        } else {
            0nat
        }
    }
}

/// A later bound counts at least as many.
pub proof fn lemma_count_below_monotone(i: int, j: int, p: spec_fn(int) -> bool)
    requires
        i <= j,
    ensures
        count_below(i, p) <= count_below(j, p),
    decreases j - i,
{
    if i < j {
        lemma_count_below_monotone(i, j - 1, p);
    }
}

/// Two predicates that agree below `n` count the same below `n`.
pub proof fn lemma_count_below_agree(n: int, p: spec_fn(int) -> bool, q: spec_fn(int) -> bool)
    requires
        forall|k: int| 0 <= k < n ==> #[trigger] p(k) == q(k),
    ensures
        count_below(n, p) == count_below(n, q),
    decreases n,
{
    if n > 0 {
        lemma_count_below_agree(n - 1, p, q);
    }
}

/// A predicate that fails from `m` on counts the same below `m` and
/// below any later bound.
pub proof fn lemma_count_below_tail(m: int, n: int, p: spec_fn(int) -> bool)
    requires
        0 <= m <= n,
        forall|k: int| m <= k < n ==> !#[trigger] p(k),
    ensures
        count_below(n, p) == count_below(m, p),
    decreases n - m,
{
    if m < n {
        lemma_count_below_tail(m, n - 1, p);
    }
}

/// A predicate that holds at every place below `n` counts `n`, and one
/// that counts `n` holds at every place below `n`.
pub proof fn lemma_count_below_all(n: int, p: spec_fn(int) -> bool)
    requires
        0 <= n,
    ensures
        count_below(n, p) <= n,
        count_below(n, p) == n <==> forall|k: int| 0 <= k < n ==> #[trigger] p(k),
    decreases n,
{
    if n > 0 {
        lemma_count_below_all(n - 1, p);
        if count_below(n, p) == n {
            assert forall|k: int| 0 <= k < n implies #[trigger] p(k) by {
                if k < n - 1 {
                    assert(p(k));
                }
            }
        }
    }
}

/// Making a predicate true at one more place below `n` raises its count
/// by one.
pub proof fn lemma_count_below_raise(
    n: int,
    p: spec_fn(int) -> bool,
    q: spec_fn(int) -> bool,
    at: int,
)
    requires
        0 <= at < n,
        !p(at),
        q(at),
        forall|k: int| 0 <= k < n && k != at ==> #[trigger] p(k) == q(k),
    ensures
        count_below(n, q) == count_below(n, p) + 1,
    decreases n,
{
    if at == n - 1 {
        lemma_count_below_agree(n - 1, p, q);
    } else {
        lemma_count_below_raise(n - 1, p, q, at);
    }
}

/// Where `p` holds exactly when one of `q` and `r` does, and these two
/// never hold together, the count of `p` is the sum of theirs.
pub proof fn lemma_count_split(
    n: int,
    p: spec_fn(int) -> bool,
    q: spec_fn(int) -> bool,
    r: spec_fn(int) -> bool,
)
    requires
        forall|k: int| 0 <= k < n ==> (#[trigger] p(k) <==> q(k) || r(k)),
        forall|k: int| 0 <= k < n ==> !(#[trigger] q(k) && r(k)),
    ensures
        count_below(n, p) == count_below(n, q) + count_below(n, r),
    decreases n,
{
    if n > 0 {
        lemma_count_split(n - 1, p, q, r);
    }
}

/// Number of places of `word` that hold `a`.
pub open spec fn occurrences<A>(word: Seq<A>, a: A) -> nat {
    count_below(word.len() as int, |k: int| 0 <= k < word.len() && word[k] == a)
}

/// Adding `last` at the end of `word` adds one occurrence of `last` and
/// none of anything else.
pub proof fn lemma_occurrences_push<A>(word: Seq<A>, last: A, a: A)
    ensures
        occurrences(word.push(last), a) == occurrences(word, a) + if a == last {
            1nat
        } else {
            0nat
        },
{
    let longer = word.push(last);
    lemma_count_below_agree(
        word.len() as int,
        |k: int| 0 <= k < longer.len() && longer[k] == a,
        |k: int| 0 <= k < word.len() && word[k] == a,
    );
}

/// A word holds at least as much of anything as each of its beginnings.
pub proof fn lemma_occurrences_take<A>(word: Seq<A>, n: int, a: A)
    requires
        0 <= n <= word.len(),
    ensures
        occurrences(word.take(n), a) <= occurrences(word, a),
{
    let start = word.take(n);
    lemma_count_below_agree(
        n,
        |k: int| 0 <= k < start.len() && start[k] == a,
        |k: int| 0 <= k < word.len() && word[k] == a,
    );
    lemma_count_below_monotone(n, word.len() as int, |k: int| 0 <= k < word.len() && word[k] == a);
}

/// Something that occurs in a word stands at one of its places.
pub proof fn lemma_occurrences_positive<A>(word: Seq<A>, a: A)
    requires
        occurrences(word, a) > 0,
    ensures
        word.contains(a),
{
    if !word.contains(a) {
        lemma_count_below_tail(0, word.len() as int, |k: int| 0 <= k < word.len() && word[k] == a);
    }
}

} // verus!
