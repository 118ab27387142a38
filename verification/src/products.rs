//! Grouping a product list by vendor, preserving first-discovery order.

use vstd::prelude::*;

use crate::cpe::Product;
use crate::version::str_eq;

verus! {

/// One vendor together with the product names listed under it, in input
/// order.
#[derive(Clone, Debug, Default)]
pub struct VendorGroup {
    pub vendor: String,
    pub products: Vec<String>,
}

/// The mathematical content of a group list: vendor names paired with their
/// product-name sequences.
pub open spec fn group_view(gs: Seq<VendorGroup>) -> Seq<(Seq<char>, Seq<Seq<char>>)> {
    gs.map_values(|g: VendorGroup| (g.vendor@, g.products.deep_view()))
}

/// Index of the first group with this vendor, `-1` when there is none.
pub open spec fn find_vendor(gs: Seq<(Seq<char>, Seq<Seq<char>>)>, v: Seq<char>) -> int
    decreases gs.len(),
{
    if gs.len() == 0 {
        -1
    } else if gs[0].0 == v {
        0
    } else {
        let r = find_vendor(gs.drop_first(), v);
        if r == -1 {
            -1
        } else {
            r + 1
        }
    }
}

/// Adding one product: appended to its vendor's group when one exists,
/// otherwise opening a new group at the end.
pub open spec fn group_step(
    gs: Seq<(Seq<char>, Seq<Seq<char>>)>,
    v: Seq<char>,
    p: Seq<char>,
) -> Seq<(Seq<char>, Seq<Seq<char>>)> {
    let i = find_vendor(gs, v);
    if i == -1 {
        gs.push((v, seq![p]))
    } else {
        gs.update(i, (gs[i].0, gs[i].1.push(p)))
    }
}

/// Grouping a product sequence, left to right, starting from `gs`.
pub open spec fn group_fold(
    gs: Seq<(Seq<char>, Seq<Seq<char>>)>,
    ps: Seq<Product>,
) -> Seq<(Seq<char>, Seq<Seq<char>>)>
    decreases ps.len(),
{
    if ps.len() == 0 {
        gs
    } else {
        group_fold(group_step(gs, ps[0].vendor@, ps[0].product@), ps.drop_first())
    }
}

/// The vendor grouping of a product sequence: vendors in first-discovery
/// order, each with its products in input order.
pub open spec fn grouped_by_vendor(ps: Seq<Product>) -> Seq<(Seq<char>, Seq<Seq<char>>)> {
    group_fold(Seq::empty(), ps)
}

/// `find_vendor` returns the first index bearing the vendor, or `-1` when no
/// group does.
proof fn lemma_find_vendor_props(gs: Seq<(Seq<char>, Seq<Seq<char>>)>, v: Seq<char>)
    ensures
        find_vendor(gs, v) == -1 ==> forall|j: int| 0 <= j < gs.len() ==> (#[trigger] gs[j]).0 != v,
        find_vendor(gs, v) != -1 ==> {
            let i = find_vendor(gs, v);
            &&& 0 <= i < gs.len()
            &&& gs[i].0 == v
            &&& forall|j: int| 0 <= j < i ==> (#[trigger] gs[j]).0 != v
        },
    decreases gs.len(),
{
    if gs.len() > 0 && gs[0].0 != v {
        lemma_find_vendor_props(gs.drop_first(), v);
        assert(forall|j: int|
            1 <= j < gs.len() ==> (#[trigger] gs[j]) == gs.drop_first()[j - 1]);
    }
}

/// Grouping one more product is one `group_step` on the grouping so far.
proof fn lemma_group_fold_push(gs: Seq<(Seq<char>, Seq<Seq<char>>)>, s: Seq<Product>, x: Product)
    ensures
        group_fold(gs, s.push(x)) == group_step(group_fold(gs, s), x.vendor@, x.product@),
    decreases s.len(),
{
    if s.len() == 0 {
        assert(s.push(x)[0] == x);
        assert(s.push(x).drop_first() =~= Seq::<Product>::empty());
        assert(group_fold(group_step(gs, x.vendor@, x.product@), Seq::<Product>::empty())
            == group_step(gs, x.vendor@, x.product@));
    } else {
        assert(s.push(x)[0] == s[0]);
        assert(s.push(x).drop_first() =~= s.drop_first().push(x));
        lemma_group_fold_push(group_step(gs, s[0].vendor@, s[0].product@), s.drop_first(), x);
    }
}

/// Groups the products by vendor: vendors in first-discovery order, each
/// holding its product names in input order (duplicates kept).
pub fn group_by_vendor(products: &Vec<Product>) -> (r: Vec<VendorGroup>)
    ensures
        group_view(r@) == grouped_by_vendor(products@),
{
    let mut groups: Vec<VendorGroup> = Vec::new();
    assert(group_view(groups@) =~= Seq::<(Seq<char>, Seq<Seq<char>>)>::empty());
    assert(products@.take(0) =~= Seq::<Product>::empty());
    let mut i: usize = 0;
    while i < products.len()
        invariant
            i <= products@.len(),
            group_view(groups@) == group_fold(Seq::empty(), products@.take(i as int)),
        decreases products@.len() - i,
    {
        let ghost gsv = group_view(groups@);
        let ghost v = products@[i as int].vendor@;
        let ghost pp = products@[i as int].product@;
        let mut j: usize = 0;
        let mut found: bool = false;
        while !found && j < groups.len()
            invariant
                j <= groups@.len(),
                i < products@.len(),
                gsv == group_view(groups@),
                v == products@[i as int].vendor@,
                forall|m: int| 0 <= m < j ==> (#[trigger] gsv[m]).0 != v,
                found ==> j < groups@.len() && gsv[j as int].0 == v,
            decreases groups@.len() - j + (if found { 0int } else { 1int }),
        {
            assert(gsv[j as int] == (groups@[j as int].vendor@, groups@[j as int].products.deep_view()));
            if str_eq(groups[j].vendor.as_str(), products[i].vendor.as_str()) {
                found = true;
            } else {
                j += 1;
            }
        }
        proof {
            lemma_find_vendor_props(gsv, v);
            if found {
                let i0 = find_vendor(gsv, v);
                assert(i0 != -1);
                assert(!(i0 < j)) by {
                    if 0 <= i0 < j {
                        assert(gsv[i0].0 != v);
                    }
                }
                assert(!(i0 > j)) by {
                    if i0 > j {
                        assert(gsv[j as int].0 != v);
                    }
                }
                assert(find_vendor(gsv, v) == j);
            } else {
                assert(j == groups@.len());
                assert(find_vendor(gsv, v) == -1) by {
                    if find_vendor(gsv, v) != -1 {
                        let i0 = find_vendor(gsv, v);
                        assert(gsv[i0].0 == v);
                    }
                }
            }
        }
        if found {
            let ghost old_groups = groups@;
            let mut g = groups.remove(j);
            let entry = products[i].product.clone();
            g.products.push(entry);
            groups.insert(j, g);
            proof {
                assert(groups@ =~= old_groups.update(j as int, groups@[j as int]));
                assert(groups@[j as int].vendor@ == gsv[j as int].0);
                assert(groups@[j as int].products.deep_view() =~= gsv[j as int].1.push(pp));
                assert(group_view(groups@) =~= gsv.update(
                    j as int,
                    (gsv[j as int].0, gsv[j as int].1.push(pp)),
                ));
                assert(group_view(groups@) == group_step(gsv, v, pp));
            }
        } else {
            let mut pv: Vec<String> = Vec::new();
            pv.push(products[i].product.clone());
            let vend = products[i].vendor.clone();
            groups.push(VendorGroup { vendor: vend, products: pv });
            proof {
                assert(groups@[groups@.len() - 1].products.deep_view() =~= seq![pp]);
                assert(group_view(groups@) =~= gsv.push((v, seq![pp])));
                assert(group_view(groups@) == group_step(gsv, v, pp));
            }
        }
        proof {
            lemma_group_fold_push(Seq::empty(), products@.take(i as int), products@[i as int]);
            assert(products@.take(i + 1) =~= products@.take(i as int).push(products@[i as int]));
        }
        i += 1;
    }
    assert(products@.take(products@.len() as int) =~= products@);
    groups
}

} // verus!
