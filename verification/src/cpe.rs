//! CPE product identities and order-preserving de-duplication.

use vstd::prelude::*;

verus! {

/// A vendor/product pair as named by a CPE criterion.
#[derive(Clone, Debug, Default, PartialEq, Eq)]
pub struct Product {
    pub vendor: String,
    pub product: String,
}

/// The identity of a product: its vendor and product names.
pub open spec fn product_key(p: Product) -> (Seq<char>, Seq<char>) {
    (p.vendor@, p.product@)
}

/// The identities of a sequence of products, in order.
pub open spec fn keys_of(s: Seq<Product>) -> Seq<(Seq<char>, Seq<char>)> {
    s.map_values(|p: Product| product_key(p))
}

/// Folds the keys of `s` into `acc`, left to right, keeping only the first
/// occurrence of each key. This is the de-duplication the product collectors
/// perform: stable, order-preserving, deterministic.
pub open spec fn dedup_into(
    acc: Seq<(Seq<char>, Seq<char>)>,
    s: Seq<(Seq<char>, Seq<char>)>,
) -> Seq<(Seq<char>, Seq<char>)>
    decreases s.len(),
{
    if s.len() == 0 {
        acc
    } else {
        dedup_into(
            if acc.contains(s[0]) {
                acc
            } else {
                acc.push(s[0])
            },
            s.drop_first(),
        )
    }
}

/// The keys of `s` with every repeated key dropped, first occurrences kept in
/// their original order.
pub open spec fn dedup_keys(s: Seq<(Seq<char>, Seq<char>)>) -> Seq<(Seq<char>, Seq<char>)> {
    dedup_into(Seq::empty(), s)
}

/// Folding a concatenation is folding the two halves in turn.
pub proof fn lemma_dedup_into_append(
    acc: Seq<(Seq<char>, Seq<char>)>,
    s: Seq<(Seq<char>, Seq<char>)>,
    t: Seq<(Seq<char>, Seq<char>)>,
)
    ensures
        dedup_into(acc, s + t) == dedup_into(dedup_into(acc, s), t),
    decreases s.len(),
{
    if s.len() == 0 {
        assert(s + t =~= t);
    } else {
        assert((s + t)[0] == s[0]);
        assert((s + t).drop_first() =~= s.drop_first() + t);
        let acc2 = if acc.contains(s[0]) {
            acc
        } else {
            acc.push(s[0])
        };
        lemma_dedup_into_append(acc2, s.drop_first(), t);
    }
}

/// One step of the fold: a single key is kept only when it is new.
pub proof fn lemma_dedup_into_one(acc: Seq<(Seq<char>, Seq<char>)>, k: (Seq<char>, Seq<char>))
    ensures
        dedup_into(acc, seq![k]) == (if acc.contains(k) {
            acc
        } else {
            acc.push(k)
        }),
{
    let acc2 = if acc.contains(k) {
        acc
    } else {
        acc.push(k)
    };
    assert(seq![k][0] == k);
    assert(seq![k].drop_first() =~= Seq::<(Seq<char>, Seq<char>)>::empty());
    assert(dedup_into(acc2, Seq::<(Seq<char>, Seq<char>)>::empty()) == acc2);
}

/// The fold never introduces a duplicate.
pub proof fn lemma_dedup_into_no_duplicates(
    acc: Seq<(Seq<char>, Seq<char>)>,
    s: Seq<(Seq<char>, Seq<char>)>,
)
    requires
        acc.no_duplicates(),
    ensures
        dedup_into(acc, s).no_duplicates(),
    decreases s.len(),
{
    if s.len() > 0 {
        let acc2 = if acc.contains(s[0]) {
            acc
        } else {
            acc.push(s[0])
        };
        if !acc.contains(s[0]) {
            assert(acc2.no_duplicates()) by {
                assert(forall|i: int| 0 <= i < acc.len() ==> acc2[i] == acc[i]);
            }
        }
        lemma_dedup_into_no_duplicates(acc2, s.drop_first());
    }
}

/// The fold keeps exactly the keys of the accumulator and of the input.
pub proof fn lemma_dedup_into_contains(
    acc: Seq<(Seq<char>, Seq<char>)>,
    s: Seq<(Seq<char>, Seq<char>)>,
    k: (Seq<char>, Seq<char>),
)
    ensures
        dedup_into(acc, s).contains(k) <==> (acc.contains(k) || s.contains(k)),
    decreases s.len(),
{
    if s.len() == 0 {
    } else {
        let acc2 = if acc.contains(s[0]) {
            acc
        } else {
            acc.push(s[0])
        };
        lemma_dedup_into_contains(acc2, s.drop_first(), k);
        assert(acc2.contains(k) <==> (acc.contains(k) || k == s[0])) by {
            if !acc.contains(s[0]) {
                assert(acc.push(s[0])[acc.len() as int] == s[0]);
                assert(forall|i: int| 0 <= i < acc.len() ==> acc.push(s[0])[i] == acc[i]);
                if acc.contains(k) {
                    let i = choose|i: int| 0 <= i < acc.len() && acc[i] == k;
                    assert(acc.push(s[0])[i] == k);
                }
            }
        }
        assert(s.contains(k) <==> (k == s[0] || s.drop_first().contains(k))) by {
            if s.contains(k) {
                let i = choose|i: int| 0 <= i < s.len() && s[i] == k;
                if i > 0 {
                    assert(s.drop_first()[i - 1] == k);
                }
            }
            if s.drop_first().contains(k) {
                let i = choose|i: int|
                    0 <= i < s.drop_first().len() && s.drop_first()[i] == k;
                assert(s[i + 1] == k);
            }
        }
    }
}

/// The fold only ever extends the accumulator: what is already collected
/// stays, in place.
pub proof fn lemma_dedup_into_extends(
    acc: Seq<(Seq<char>, Seq<char>)>,
    s: Seq<(Seq<char>, Seq<char>)>,
)
    ensures
        dedup_into(acc, s).len() >= acc.len(),
        forall|i: int| 0 <= i < acc.len() ==> dedup_into(acc, s)[i] == acc[i],
    decreases s.len(),
{
    if s.len() > 0 {
        let acc2 = if acc.contains(s[0]) {
            acc
        } else {
            acc.push(s[0])
        };
        lemma_dedup_into_extends(acc2, s.drop_first());
        assert(forall|i: int| 0 <= i < acc.len() ==> acc2[i] == acc[i]);
    }
}

/// De-duplication is proper: the result holds each key at most once.
pub proof fn lemma_dedup_keys_no_duplicates(s: Seq<(Seq<char>, Seq<char>)>)
    ensures
        dedup_keys(s).no_duplicates(),
{
    lemma_dedup_into_no_duplicates(Seq::empty(), s);
}

/// De-duplication is complete: the result holds exactly the keys of the
/// input.
pub proof fn lemma_dedup_keys_contains(s: Seq<(Seq<char>, Seq<char>)>, k: (Seq<char>, Seq<char>))
    ensures
        dedup_keys(s).contains(k) <==> s.contains(k),
{
    lemma_dedup_into_contains(Seq::empty(), s, k);
}

/// De-duplication is stable: extending the input only ever appends to the
/// result, so each key stays at the position of its first discovery.
pub proof fn lemma_dedup_keys_stable(s: Seq<(Seq<char>, Seq<char>)>, t: Seq<(Seq<char>, Seq<char>)>)
    ensures
        dedup_keys(s + t).len() >= dedup_keys(s).len(),
        forall|i: int| 0 <= i < dedup_keys(s).len() ==> dedup_keys(s + t)[i] == dedup_keys(s)[i],
{
    lemma_dedup_into_append(Seq::empty(), s, t);
    lemma_dedup_into_extends(dedup_keys(s), t);
}

} // verus!
