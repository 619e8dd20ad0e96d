//! The mathematics of best-effort accumulation: which items remain, and
//! where, when some of the appends are refused.
//!
//! A run of appends is described by a sequence of flags, one per append in
//! order; a set flag means that the append was refused. Appends beyond the
//! end of the sequence count as granted.

use vstd::prelude::*;

verus! {

/// Whether append number `i` (from zero) was refused.
pub open spec fn is_refused(refused: Seq<bool>, i: int) -> bool {
    0 <= i < refused.len() && refused[i]
}

/// How many of the first `n` appends were refused.
pub open spec fn refusals(refused: Seq<bool>, n: nat) -> nat
    decreases n,
{
    if n == 0 {
        0
    } else if is_refused(refused, n - 1) {
        refusals(refused, (n - 1) as nat) + 1
    } else {
        refusals(refused, (n - 1) as nat)
    }
}

/// What a vector holds after each of `items` was offered in order and the
/// refused ones were left out.
pub open spec fn kept<T>(items: Seq<T>, refused: Seq<bool>) -> Seq<T>
    decreases items.len(),
{
    if items.len() == 0 {
        Seq::empty()
    } else if is_refused(refused, items.len() - 1) {
        kept(items.drop_last(), refused)
    } else {
        kept(items.drop_last(), refused).push(items.last())
    }
}

/// The place in the result at which item number `i` stands if it was
/// granted: the number of granted appends before it.
pub open spec fn slot(refused: Seq<bool>, i: nat) -> int {
    i - refusals(refused, i)
}

/// Never more refusals than appends.
pub proof fn lemma_refusals_bounded(refused: Seq<bool>, n: nat)
    ensures
        refusals(refused, n) <= n,
    decreases n,
{
    if n > 0 {
        lemma_refusals_bounded(refused, (n - 1) as nat);
    }
}

/// One more append is one more item, unless it is refused.
pub proof fn lemma_kept_step<T>(items: Seq<T>, refused: Seq<bool>, item: T)
    ensures
        kept(items.push(item), refused) == if is_refused(refused, items.len() as int) {
            kept(items, refused)
        } else {
            kept(items, refused).push(item)
        },
{
    assert(items.push(item).drop_last() =~= items);
}

/// The result is shorter than the input by exactly the number of refusals.
pub proof fn lemma_kept_len<T>(items: Seq<T>, refused: Seq<bool>)
    ensures
        kept(items, refused).len() == items.len() - refusals(refused, items.len()),
    decreases items.len(),
{
    if items.len() > 0 {
        lemma_kept_len(items.drop_last(), refused);
    }
}

/// With no refusal among the appends, nothing is lost: the result is the
/// input, in order.
pub proof fn lemma_kept_all<T>(items: Seq<T>, refused: Seq<bool>)
    requires
        forall|i: int| 0 <= i < items.len() ==> !is_refused(refused, i),
    ensures
        kept(items, refused) == items,
        refusals(refused, items.len()) == 0,
    decreases items.len(),
{
    if items.len() > 0 {
        lemma_kept_all(items.drop_last(), refused);
        assert(items.drop_last().push(items.last()) =~= items);
    }
}

/// Places grow with the appends: a later granted item stands after an
/// earlier one.
pub proof fn lemma_slot_increases(refused: Seq<bool>, i: nat, j: nat)
    requires
        i < j,
        !is_refused(refused, i as int),
    ensures
        0 <= slot(refused, i) < slot(refused, j),
    decreases j,
{
    lemma_refusals_bounded(refused, i);
    if j == i + 1 {
    } else {
        lemma_slot_increases(refused, i, (j - 1) as nat);
    }
}

/// Every granted item is in the result, at its place; together with
/// `lemma_slot_increases` this says that the survivors keep their order.
pub proof fn lemma_kept_order<T>(items: Seq<T>, refused: Seq<bool>, i: nat)
    requires
        i < items.len(),
        !is_refused(refused, i as int),
    ensures
        0 <= slot(refused, i) < kept(items, refused).len(),
        kept(items, refused)[slot(refused, i)] == items[i as int],
    decreases items.len(),
{
    lemma_kept_len(items, refused);
    lemma_kept_len(items.drop_last(), refused);
    lemma_refusals_bounded(refused, i);
    if i + 1 == items.len() {
    } else {
        lemma_kept_order(items.drop_last(), refused, i);
    }
}

/// Only the answers to the appends that were made count.
pub proof fn lemma_kept_same_answers<T>(items: Seq<T>, first: Seq<bool>, second: Seq<bool>)
    requires
        forall|i: int| 0 <= i < items.len() ==> is_refused(first, i) == is_refused(second, i),
    ensures
        kept(items, first) == kept(items, second),
    decreases items.len(),
{
    if items.len() > 0 {
        lemma_kept_same_answers(items.drop_last(), first, second);
    }
}

/// How the quotient by `k` moves from `n - 1` to `n`: up by one at each
/// multiple of `k`, and not at all between them.
proof fn lemma_div_step(n: nat, k: nat)
    requires
        k > 0,
        n > 0,
    ensures
        n % k == 0 ==> n / k == (n - 1) / (k as int) + 1,
        n % k != 0 ==> n / k == (n - 1) / (k as int),
{
    vstd::arithmetic::div_mod::lemma_fundamental_div_mod(n as int, k as int);
    vstd::arithmetic::div_mod::lemma_fundamental_div_mod(n - 1, k as int);
    let q = n / k;
    let q1 = (n - 1) / (k as int);
    let r = n % k;
    let r1 = (n - 1) % (k as int);
    assert(0 <= r < k && 0 <= r1 < k);
    assert(n == k * q + r);
    assert(n - 1 == k * q1 + r1);
    assert(k * q + r - 1 == k * q1 + r1);
    if r == 0 {
        assert(q == q1 + 1) by (nonlinear_arith)
            requires k * q - 1 == k * q1 + r1, 0 <= r1 < k, k > 0;
    } else {
        assert(q == q1) by (nonlinear_arith)
            requires k * q + r - 1 == k * q1 + r1, 0 <= r1 < k, 0 < r < k, k > 0;
    }
}

/// Where exactly every `k`-th append is refused (the `k`-th, the `2k`-th
/// and so on), `n` appends meet `n / k` refusals.
pub proof fn lemma_refusals_every_kth(refused: Seq<bool>, k: nat, n: nat)
    requires
        k > 0,
        forall|i: int| 0 <= i < n ==> (is_refused(refused, i) <==> (i + 1) % (k as int) == 0),
    ensures
        refusals(refused, n) == n / k,
    decreases n,
{
    if n > 0 {
        lemma_refusals_every_kth(refused, k, (n - 1) as nat);
        lemma_div_step(n, k);
    }
}

} // verus!
