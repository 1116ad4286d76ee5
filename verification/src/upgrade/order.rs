//! Lexicographic order of texts and a stable ordering of indices by text
//! keys, as `str::cmp` and `slice::sort_by` give them.
use vstd::prelude::*;

verus! {

/// `a` sorts strictly before `b`, character by character (the order of
/// `str`'s `Ord`, since UTF-8 keeps code point order).
pub open spec fn lex_lt(a: Seq<char>, b: Seq<char>) -> bool
    decreases a.len(),
{
    if a.len() == 0 {
        b.len() > 0
    } else if b.len() == 0 {
        false
    } else if a[0] != b[0] {
        a[0] < b[0]
    } else {
        lex_lt(a.drop_first(), b.drop_first())
    }
}

pub proof fn lemma_lex_total(a: Seq<char>, b: Seq<char>)
    ensures
        lex_lt(a, b) || lex_lt(b, a) || a == b,
        !(lex_lt(a, b) && lex_lt(b, a)),
        !lex_lt(a, a),
    decreases a.len(),
{
    if a.len() > 0 && b.len() > 0 {
        if a[0] == b[0] {
            lemma_lex_total(a.drop_first(), b.drop_first());
            if a.drop_first() == b.drop_first() {
                assert(a =~= seq![a[0]] + a.drop_first());
                assert(b =~= seq![b[0]] + b.drop_first());
            }
        }
    } else if a.len() == 0 && b.len() == 0 {
        assert(a =~= b);
    }
    lemma_lex_irreflexive(a);
}

pub proof fn lemma_lex_irreflexive(a: Seq<char>)
    ensures
        !lex_lt(a, a),
    decreases a.len(),
{
    if a.len() > 0 {
        lemma_lex_irreflexive(a.drop_first());
    }
}

/// Pairs of texts, ordered by the first and then by the second.
pub open spec fn pair_lt(a: (Seq<char>, Seq<char>), b: (Seq<char>, Seq<char>)) -> bool {
    lex_lt(a.0, b.0) || (a.0 == b.0 && lex_lt(a.1, b.1))
}

pub proof fn lemma_pair_total(a: (Seq<char>, Seq<char>), b: (Seq<char>, Seq<char>))
    ensures
        pair_lt(a, b) || pair_lt(b, a) || a == b,
        !(pair_lt(a, b) && pair_lt(b, a)),
{
    lemma_lex_total(a.0, b.0);
    lemma_lex_total(a.1, b.1);
}

pub fn lex_less(a: &Vec<char>, b: &Vec<char>) -> (r: bool)
    ensures
        r == lex_lt(a@, b@),
{
    let mut i: usize = 0;
    assert(a@.skip(0) =~= a@);
    assert(b@.skip(0) =~= b@);
    while i < a.len() && i < b.len()
        invariant
            i <= a.len(),
            i <= b.len(),
            lex_lt(a@, b@) == lex_lt(a@.skip(i as int), b@.skip(i as int)),
        decreases a.len() - i,
    {
        if a[i] != b[i] {
            let r = a[i] < b[i];
            assert(a@.skip(i as int)[0] == a@[i as int]);
            assert(b@.skip(i as int)[0] == b@[i as int]);
            return r;
        }
        assert(a@.skip(i as int).drop_first() =~= a@.skip(i + 1));
        assert(b@.skip(i as int).drop_first() =~= b@.skip(i + 1));
        i += 1;
    }
    i < b.len()
}

pub fn pair_less(a: &(Vec<char>, Vec<char>), b: &(Vec<char>, Vec<char>)) -> (r: bool)
    ensures
        r == pair_lt((a.0@, a.1@), (b.0@, b.1@)),
{
    if lex_less(&a.0, &b.0) {
        return true;
    }
    if lex_less(&b.0, &a.0) {
        proof {
            lemma_lex_total(a.0@, b.0@);
        }
        return false;
    }
    proof {
        lemma_lex_total(a.0@, b.0@);
    }
    lex_less(&a.1, &b.1)
}

pub open spec fn keys_of(keys: Seq<(Vec<char>, Vec<char>)>, i: int) -> (Seq<char>, Seq<char>) {
    (keys[i].0@, keys[i].1@)
}

/// Position `i` before `j` in a stable sort by `keys`.
pub open spec fn stable_before(keys: Seq<(Vec<char>, Vec<char>)>, i: int, j: int) -> bool {
    pair_lt(keys_of(keys, i), keys_of(keys, j)) || (keys_of(keys, i) == keys_of(keys, j) && i < j)
}

/// The indices of `keys` in the order a stable sort by key puts them: a
/// permutation of `0..keys.len()` in which each index comes before the next.
pub fn stable_order(keys: &Vec<(Vec<char>, Vec<char>)>) -> (order: Vec<usize>)
    ensures
        order@.len() == keys@.len(),
        forall|i: int| 0 <= i < order@.len() ==> (#[trigger] order@[i]) < keys@.len(),
        forall|i: int, j: int| 0 <= i < j < order@.len() ==> order@[i] != order@[j],
        forall|i: int|
            0 <= i < order@.len() - 1 ==> #[trigger] stable_before(keys@, order@[i] as int, order@[i + 1] as int),
{
    let mut order: Vec<usize> = Vec::new();
    let mut n: usize = 0;
    while n < keys.len()
        invariant
            n <= keys.len(),
            order@.len() == n,
            forall|i: int| 0 <= i < order@.len() ==> (#[trigger] order@[i]) < n,
            forall|i: int, j: int| 0 <= i < j < order@.len() ==> order@[i] != order@[j],
            forall|i: int|
                0 <= i < order@.len() - 1 ==> #[trigger] stable_before(keys@, order@[i] as int, order@[i + 1] as int),
        decreases keys.len() - n,
    {
        let mut p: usize = 0;
        while p < order.len()
            invariant
                p <= order.len(),
                order@.len() == n,
                n < keys.len(),
                forall|i: int| 0 <= i < order@.len() ==> (#[trigger] order@[i]) < n,
                forall|k: int|
                    0 <= k < p ==> !pair_lt(keys_of(keys@, n as int), keys_of(keys@, #[trigger] order@[k] as int)),
            ensures
                p <= order.len(),
                forall|k: int|
                    0 <= k < p ==> !pair_lt(keys_of(keys@, n as int), keys_of(keys@, #[trigger] order@[k] as int)),
                p < order.len() ==> pair_lt(keys_of(keys@, n as int), keys_of(keys@, order@[p as int] as int)),
            decreases order.len() - p,
        {
            if pair_less(&keys[n], &keys[order[p]]) {
                break;
            }
            p += 1;
        }
        let ghost before = order@;
        order.insert(p, n);
        proof {
            assert forall|i: int| 0 <= i < order@.len() - 1 implies #[trigger] stable_before(keys@, order@[i] as int, order@[i + 1] as int) by {
                if i + 1 < p {
                    assert(order@[i] == before[i] && order@[i + 1] == before[i + 1]);
                    assert(stable_before(keys@, before[i] as int, before[i + 1] as int));
                } else if i + 1 == p {
                    assert(order@[i] == before[i]);
                    assert(order@[i + 1] == n);
                    lemma_pair_total(keys_of(keys@, n as int), keys_of(keys@, before[i] as int));
                } else if i == p {
                    assert(order@[i] == n);
                    assert(order@[i + 1] == before[i]);
                } else {
                    let k = i - 1;
                    assert(order@[i] == before[k] && order@[i + 1] == before[k + 1]);
                    assert(stable_before(keys@, before[k] as int, before[k + 1] as int));
                }
            }
            assert forall|i: int, j: int| 0 <= i < j < order@.len() implies order@[i] != order@[j] by {
                if i < p && j < p {
                    assert(order@[i] == before[i] && order@[j] == before[j]);
                } else if i < p && j == p {
                    assert(order@[i] == before[i]);
                } else if i < p {
                    assert(order@[i] == before[i] && order@[j] == before[j - 1]);
                } else if i == p {
                    assert(order@[j] == before[j - 1]);
                } else {
                    assert(order@[i] == before[i - 1] && order@[j] == before[j - 1]);
                }
            }
            assert forall|i: int| 0 <= i < order@.len() implies (#[trigger] order@[i]) < n + 1 by {
                if i < p {
                    assert(order@[i] == before[i]);
                } else if i > p {
                    assert(order@[i] == before[i - 1]);
                }
            }
        }
        n += 1;
    }
    order
}

} // verus!
