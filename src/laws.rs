use vstd::prelude::*;

use crate::identity::{edited_set, identity_of, qualified_all};
use crate::plan::{
    add_plan, edit_plan, link_plan, referenced, run_steps, unlink_plan, PoolView,
    StepView,
};

verus! {

/// `m` makes the pool entry `entry`.
pub open spec fn makes(m: StepView, entry: Seq<char>) -> bool {
    match m {
        StepView::Install { source, entry: e } => e == entry,
        StepView::Derive { from, entry: e, components, add } => e == entry,
        _ => false,
    }
}

/// Every link points at an entry that is present.
pub open spec fn integrity(s: PoolView) -> bool {
    forall|n: Seq<char>| #[trigger] s.links.contains_key(n) ==> s.entries.contains(s.links[n])
}

/// What a whole link plan does: the link is bound, its marker is gone, the
/// entry is made where asked, and the previous target is removed where no
/// link references it any more.
proof fn lemma_link_plan(
    s: PoolView,
    name: Seq<char>,
    entry: Seq<char>,
    make: Option<StepView>,
    prior: Option<Seq<char>>,
)
    requires
        make is Some ==> makes(make->0, entry),
    ensures
        ({
            let r = run_steps(s, link_plan(name, entry, make, prior));
            let links = s.links.insert(name, entry);
            let made = if make is Some {
                s.entries.insert(entry)
            } else {
                s.entries
            };
            &&& r.links == links
            &&& r.markers == s.markers.remove(name)
            &&& r.entries == match prior {
                Some(p) => made.difference(set![p].difference(referenced(links))),
                None => made,
            }
        }),
{
    reveal_with_fuel(run_steps, 5);
    let plan = link_plan(name, entry, make, prior);
    let made = match make {
        Some(m) => seq![m],
        None => Seq::empty(),
    };
    let staged = made.push(StepView::Stage { link: name, entry });
    let committed = staged.push(StepView::Commit { link: name });
    if make is Some {
        assert(made.drop_last() =~= Seq::<StepView>::empty());
    }
    assert(staged.drop_last() =~= made);
    assert(committed.drop_last() =~= staged);
    if prior is Some {
        assert(plan.drop_last() =~= committed);
        lemma_singleton_to_set(prior->0);
    }
    let r = run_steps(s, plan);
    assert(r.markers =~= s.markers.remove(name));
}

/// A one-element list holds one element.
proof fn lemma_singleton_to_set(x: Seq<char>)
    ensures
        seq![x].to_set() == set![x],
{
    let s = seq![x];
    assert(s[0] == x);
    assert(s.to_set().contains(x));
    assert(s.to_set() =~= set![x]);
}

/// An entry that a link points at is referenced.
proof fn lemma_referenced(links: Map<Seq<char>, Seq<char>>, n: Seq<char>)
    requires
        links.contains_key(n),
    ensures
        referenced(links).contains(links[n]),
{
}

/// Sharing: two links bound, one after the other, to releases of the same
/// identity point at one and the same pool entry, which is present.
pub proof fn law_same_identity_shares_entry(
    s: PoolView,
    n1: Seq<char>,
    n2: Seq<char>,
    src1: Seq<char>,
    src2: Seq<char>,
    entry: Seq<char>,
)
    requires
        n1 != n2,
    ensures
        ({
            let s1 = run_steps(s, add_plan(s, n1, src1, entry));
            let s2 = run_steps(s1, add_plan(s1, n2, src2, entry));
            &&& s2.links.contains_key(n1) && s2.links[n1] == entry
            &&& s2.links.contains_key(n2) && s2.links[n2] == entry
            &&& s2.entries.contains(entry)
        }),
{
    let m1 = if s.entries.contains(entry) {
        None
    } else {
        Some(StepView::Install { source: src1, entry })
    };
    lemma_link_plan(s, n1, entry, m1, s.links.index_opt(n1));
    let s1 = run_steps(s, add_plan(s, n1, src1, entry));
    lemma_referenced(s.links.insert(n1, entry), n1);
    assert(s1.entries.contains(entry));
    let m2 = if s1.entries.contains(entry) {
        None
    } else {
        Some(StepView::Install { source: src2, entry })
    };
    lemma_link_plan(s1, n2, entry, m2, s1.links.index_opt(n2));
    lemma_referenced(s1.links.insert(n2, entry), n2);
}

/// Reference-counted collection: removing one of two links to an entry
/// leaves the entry; removing the last link to it removes it.
pub proof fn law_entry_lives_while_referenced(
    s: PoolView,
    n1: Seq<char>,
    n2: Seq<char>,
    entry: Seq<char>,
)
    requires
        n1 != n2,
        s.links.contains_key(n1) && s.links[n1] == entry,
        s.links.contains_key(n2) && s.links[n2] == entry,
        s.entries.contains(entry),
    ensures
        run_steps(s, unlink_plan(n1, entry)).entries.contains(entry),
        (forall|m: Seq<char>| #[trigger]
            s.links.contains_key(m) && s.links[m] == entry ==> m == n1 || m == n2) ==> !run_steps(
            run_steps(s, unlink_plan(n1, entry)),
            unlink_plan(n2, entry),
        ).entries.contains(entry),
{
    reveal_with_fuel(run_steps, 3);
    let p1 = unlink_plan(n1, entry);
    assert(p1.drop_last().drop_last() =~= Seq::<StepView>::empty());
    lemma_singleton_to_set(entry);
    let s1 = run_steps(s, p1);
    assert(s1.links == s.links.remove(n1));
    lemma_referenced(s.links.remove(n1), n2);
    assert(s1.entries.contains(entry));
    let p2 = unlink_plan(n2, entry);
    assert(p2.drop_last().drop_last() =~= Seq::<StepView>::empty());
    let s2 = run_steps(s1, p2);
    let links2 = s1.links.remove(n2);
    assert(s2.links == links2);
    if forall|m: Seq<char>| #[trigger]
        s.links.contains_key(m) && s.links[m] == entry ==> m == n1 || m == n2 {
        assert(!referenced(links2).contains(entry)) by {
            if referenced(links2).contains(entry) {
                let m = choose|m: Seq<char>| #[trigger] links2.dom().contains(m) && links2[m] == entry;
                assert(s.links.contains_key(m) && s.links[m] == entry);
            }
        }
    }
}

/// Update then collect: repointing the only link to `a` at `b` leaves `b`
/// present and `a` removed.
pub proof fn law_repoint_collects_old_entry(s: PoolView, n: Seq<char>, src: Seq<char>, b: Seq<char>)
    requires
        s.links.contains_key(n),
        s.links[n] != b,
        forall|m: Seq<char>| #[trigger] s.links.contains_key(m) && m != n ==> s.links[m] != s.links[n],
    ensures
        ({
            let r = run_steps(s, add_plan(s, n, src, b));
            &&& r.links.contains_key(n) && r.links[n] == b
            &&& r.entries.contains(b)
            &&& !r.entries.contains(s.links[n])
        }),
{
    let a = s.links[n];
    let make = if s.entries.contains(b) {
        None
    } else {
        Some(StepView::Install { source: src, entry: b })
    };
    lemma_link_plan(s, n, b, make, Some(a));
    let links = s.links.insert(n, b);
    lemma_referenced(links, n);
    assert(!referenced(links).contains(a)) by {
        if referenced(links).contains(a) {
            let m = choose|m: Seq<char>| #[trigger] links.dom().contains(m) && links[m] == a;
            assert(s.links.contains_key(m) && m != n);
        }
    }
}

/// Round trip of components: adding components that a set lacks and then
/// removing them gives back the set, and so the identity.
pub proof fn law_component_round_trip(
    v: Seq<char>,
    set: Set<Seq<char>>,
    comps: Seq<Seq<char>>,
    target: Seq<char>,
)
    requires
        forall|i: int| 0 <= i < comps.len() ==> !set.contains(#[trigger] qualified_all(comps, target)[i]),
    ensures
        edited_set(edited_set(set, comps, true, target), comps, false, target) == set,
        identity_of(v, edited_set(edited_set(set, comps, true, target), comps, false, target))
            == identity_of(v, set),
{
    let q = qualified_all(comps, target).to_set();
    assert(set.union(q).difference(q) =~= set) by {
        assert forall|x: Seq<char>| set.contains(x) implies !q.contains(x) by {
            if q.contains(x) {
                let i = choose|i: int| 0 <= i < qualified_all(comps, target).len() && qualified_all(comps, target)[i] == x;
            }
        }
    }
}

/// Round trip in the pool: a link moved from `a` to a derived entry `b` and
/// back ends at `a`, present, and `b`, which no other link used, is gone.
pub proof fn law_edit_round_trip_collects_intermediate(
    s: PoolView,
    n: Seq<char>,
    b: Seq<char>,
    comps: Seq<Seq<char>>,
)
    requires
        s.links.contains_key(n),
        s.links[n] != b,
        forall|m: Seq<char>| #[trigger] s.links.contains_key(m) && m != n ==> s.links[m] != b,
    ensures
        ({
            let a = s.links[n];
            let s1 = run_steps(s, edit_plan(s, n, b, comps, true));
            let s2 = run_steps(s1, edit_plan(s1, n, a, comps, false));
            &&& s2.links.contains_key(n) && s2.links[n] == a
            &&& s2.entries.contains(a)
            &&& !s2.entries.contains(b)
        }),
{
    let a = s.links[n];
    let m1 = if s.entries.contains(b) {
        None
    } else {
        Some(StepView::Derive { from: a, entry: b, components: comps, add: true })
    };
    lemma_link_plan(s, n, b, m1, Some(a));
    let s1 = run_steps(s, edit_plan(s, n, b, comps, true));
    assert(s1.links == s.links.insert(n, b));
    let m2 = if s1.entries.contains(a) {
        None
    } else {
        Some(StepView::Derive { from: s1.links[n], entry: a, components: comps, add: false })
    };
    lemma_link_plan(s1, n, a, m2, Some(b));
    let links2 = s1.links.insert(n, a);
    lemma_referenced(links2, n);
    assert(!referenced(links2).contains(b)) by {
        if referenced(links2).contains(b) {
            let m = choose|m: Seq<char>| #[trigger] links2.dom().contains(m) && links2[m] == b;
            assert(s.links.contains_key(m) && m != n);
        }
    }
}

/// Round trip of components in the pool: for a link at the entry of
/// version `v` with components `set`, adding components that the set lacks
/// and then removing them brings the link back to that entry, and the
/// intermediate entry, which no other link used, is gone. This needs the
/// two identities to differ, which holds unless xxHash collides.
pub proof fn law_component_round_trip_in_pool(
    s: PoolView,
    n: Seq<char>,
    v: Seq<char>,
    set: Set<Seq<char>>,
    comps: Seq<Seq<char>>,
    target: Seq<char>,
)
    requires
        s.links.contains_key(n),
        s.links[n] == identity_of(v, set),
        forall|i: int| 0 <= i < comps.len() ==> !set.contains(#[trigger] qualified_all(comps, target)[i]),
        identity_of(v, edited_set(set, comps, true, target)) != identity_of(v, set),
        forall|m: Seq<char>| #[trigger] s.links.contains_key(m) && m != n ==> s.links[m]
            != identity_of(v, edited_set(set, comps, true, target)),
    ensures
        ({
            let a = identity_of(v, set);
            let mid = edited_set(set, comps, true, target);
            let b = identity_of(v, mid);
            let back = identity_of(v, edited_set(mid, comps, false, target));
            let s1 = run_steps(s, edit_plan(s, n, b, comps, true));
            let s2 = run_steps(s1, edit_plan(s1, n, back, comps, false));
            &&& back == a
            &&& s2.links.contains_key(n) && s2.links[n] == a
            &&& s2.entries.contains(a)
            &&& !s2.entries.contains(b)
        }),
{
    law_component_round_trip(v, set, comps, target);
    law_edit_round_trip_collects_intermediate(
        s,
        n,
        identity_of(v, edited_set(set, comps, true, target)),
        comps,
    );
}

/// Crash safety: a link plan cut short before its commit step leaves every
/// link as it was and takes no entry away, so the previous binding, or its
/// absence, is still what a reader sees.
pub proof fn law_interrupted_update_keeps_binding(
    s: PoolView,
    name: Seq<char>,
    entry: Seq<char>,
    make: Option<StepView>,
    prior: Option<Seq<char>>,
    k: int,
)
    requires
        make is Some ==> makes(make->0, entry),
        0 <= k <= (if make is Some {
            2int
        } else {
            1int
        }),
    ensures
        run_steps(s, link_plan(name, entry, make, prior).take(k)).links == s.links,
        s.entries.subset_of(run_steps(s, link_plan(name, entry, make, prior).take(k)).entries),
{
    reveal_with_fuel(run_steps, 3);
    let plan = link_plan(name, entry, make, prior);
    let cut = plan.take(k);
    if k == 1 {
        assert(cut.drop_last() =~= Seq::<StepView>::empty());
    } else if k == 2 {
        assert(cut.drop_last().drop_last() =~= Seq::<StepView>::empty());
        assert(cut.drop_last() =~= plan.take(1));
    }
}

/// Referential integrity: where every link points at a present entry, it
/// still does after binding a link, provided the entry is made or present.
pub proof fn law_link_plan_keeps_integrity(
    s: PoolView,
    name: Seq<char>,
    entry: Seq<char>,
    make: Option<StepView>,
    prior: Option<Seq<char>>,
)
    requires
        integrity(s),
        make is Some ==> makes(make->0, entry),
        make is None ==> s.entries.contains(entry),
    ensures
        integrity(run_steps(s, link_plan(name, entry, make, prior))),
{
    lemma_link_plan(s, name, entry, make, prior);
    let links = s.links.insert(name, entry);
    let r = run_steps(s, link_plan(name, entry, make, prior));
    assert forall|n: Seq<char>| #[trigger] r.links.contains_key(n) implies r.entries.contains(
        r.links[n],
    ) by {
        lemma_referenced(links, n);
    }
}

/// Referential integrity: removing a link keeps every other link pointing
/// at a present entry.
pub proof fn law_unlink_keeps_integrity(s: PoolView, name: Seq<char>, prior: Seq<char>)
    requires
        integrity(s),
    ensures
        integrity(run_steps(s, unlink_plan(name, prior))),
{
    reveal_with_fuel(run_steps, 3);
    let p = unlink_plan(name, prior);
    assert(p.drop_last().drop_last() =~= Seq::<StepView>::empty());
    lemma_singleton_to_set(prior);
    let links = s.links.remove(name);
    let r = run_steps(s, p);
    assert forall|n: Seq<char>| #[trigger] r.links.contains_key(n) implies r.entries.contains(
        r.links[n],
    ) by {
        lemma_referenced(links, n);
    }
}

} // verus!
