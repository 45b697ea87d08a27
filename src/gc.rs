use vstd::prelude::*;

use crate::order::views;

verus! {

/// The entries that the scanned links point at; a link whose target could
/// not be read is `None` and references nothing.
pub open spec fn targets_set(targets: Seq<Option<String>>) -> Set<Seq<char>> {
    Set::new(|e: Seq<char>| exists|i: int| 0 <= i < targets.len() && #[trigger] targets[i] is Some
        && targets[i]->0@ == e)
}

/// What a collection removes: the candidates that no link references, or
/// with no candidates given, every entry of the pool that no link
/// references.
pub open spec fn removal_set(
    candidates: Option<Seq<Seq<char>>>,
    pool: Set<Seq<char>>,
    referenced: Set<Seq<char>>,
) -> Set<Seq<char>> {
    match candidates {
        Some(c) => c.to_set().difference(referenced),
        None => pool.difference(referenced),
    }
}

/// Whether `v` holds `s`.
pub fn contains(v: &Vec<String>, s: &String) -> (r: bool)
    ensures
        r == views(v@).contains(s@),
{
    let mut i: usize = 0;
    while i < v.len()
        invariant
            i <= v.len(),
            forall|j: int| 0 <= j < i ==> v@[j]@ != s@,
        decreases v.len() - i,
    {
        if v[i] == *s {
            assert(views(v@)[i as int] == s@);
            return true;
        }
        i += 1;
    }
    assert(!views(v@).contains(s@)) by {
        if views(v@).contains(s@) {
            let j = choose|j: int| 0 <= j < views(v@).len() && views(v@)[j] == s@;
            assert(v@[j]@ == s@);
        }
    }
    false
}

/// Appends `s` to `v` unless `v` holds it already.
fn push_unique(v: &mut Vec<String>, s: String)
    requires
        views(old(v)@).no_duplicates(),
    ensures
        views(final(v)@).no_duplicates(),
        views(final(v)@).to_set() == views(old(v)@).to_set().insert(s@),
{
    if contains(v, &s) {
        assert(views(v@).to_set().insert(s@) =~= views(v@).to_set());
    } else {
        let ghost prev = views(v@);
        v.push(s);
        assert(views(v@) =~= prev.push(s@));
        proof {
            prev.lemma_push_to_set_commute(s@);
        }
    }
}

/// The entries referenced by links whose targets are `targets`, each once.
pub fn referenced_entries(targets: &Vec<Option<String>>) -> (r: Vec<String>)
    ensures
        views(r@).no_duplicates(),
        views(r@).to_set() == targets_set(targets@),
{
    let mut r: Vec<String> = Vec::new();
    let mut i: usize = 0;
    while i < targets.len()
        invariant
            i <= targets.len(),
            views(r@).no_duplicates(),
            views(r@).to_set() == targets_set(targets@.take(i as int)),
        decreases targets.len() - i,
    {
        let ghost before = targets_set(targets@.take(i as int));
        match &targets[i] {
            Some(t) => {
                push_unique(&mut r, t.clone());
                assert(targets_set(targets@.take(i + 1)) =~= before.insert(t@)) by {
                    assert(targets@.take(i + 1)[i as int] == targets@[i as int]);
                    assert forall|e: Seq<char>| #[trigger]
                        targets_set(targets@.take(i + 1)).contains(e) implies before.insert(
                        e,
                    ).contains(e) && (e == t@ || before.contains(e)) by {
                        let k = choose|k: int|
                            0 <= k < targets@.take(i + 1).len() && #[trigger] targets@.take(
                                i + 1,
                            )[k] is Some && targets@.take(i + 1)[k]->0@ == e;
                        if k < i {
                            assert(targets@.take(i as int)[k] == targets@.take(i + 1)[k]);
                        }
                    }
                    assert forall|e: Seq<char>| #[trigger]
                        before.contains(e) implies targets_set(targets@.take(i + 1)).contains(e) by {
                        let k = choose|k: int|
                            0 <= k < targets@.take(i as int).len() && #[trigger] targets@.take(
                                i as int,
                            )[k] is Some && targets@.take(i as int)[k]->0@ == e;
                        assert(targets@.take(i + 1)[k] == targets@.take(i as int)[k]);
                    }
                }
            },
            None => {
                assert(targets_set(targets@.take(i + 1)) =~= before) by {
                    assert forall|e: Seq<char>| #[trigger]
                        targets_set(targets@.take(i + 1)).contains(e) implies before.contains(e) by {
                        let k = choose|k: int|
                            0 <= k < targets@.take(i + 1).len() && #[trigger] targets@.take(
                                i + 1,
                            )[k] is Some && targets@.take(i + 1)[k]->0@ == e;
                        assert(targets@.take(i as int)[k] == targets@.take(i + 1)[k]);
                    }
                    assert forall|e: Seq<char>| #[trigger]
                        before.contains(e) implies targets_set(targets@.take(i + 1)).contains(e) by {
                        let k = choose|k: int|
                            0 <= k < targets@.take(i as int).len() && #[trigger] targets@.take(
                                i as int,
                            )[k] is Some && targets@.take(i as int)[k]->0@ == e;
                        assert(targets@.take(i + 1)[k] == targets@.take(i as int)[k]);
                    }
                }
            },
        }
        i += 1;
    }
    assert(targets@.take(i as int) =~= targets@);
    r
}

/// Whether a collection has anything to look at: not when it is given an
/// empty list of candidates.
pub fn gc_needed(candidates: &Option<Vec<String>>) -> (r: bool)
    ensures
        r == !(candidates is Some && candidates->0@.len() == 0),
{
    match candidates {
        Some(c) => c.len() > 0,
        None => true,
    }
}

/// The strings of `c` that `referenced` lacks, each once.
fn unreferenced(c: &Vec<String>, referenced: &Vec<String>) -> (r: Vec<String>)
    ensures
        views(r@).no_duplicates(),
        views(r@).to_set() == views(c@).to_set().difference(views(referenced@).to_set()),
{
    let mut r: Vec<String> = Vec::new();
    let ghost refs = views(referenced@).to_set();
    let mut i: usize = 0;
    while i < c.len()
        invariant
            i <= c.len(),
            refs == views(referenced@).to_set(),
            views(r@).no_duplicates(),
            views(r@).to_set() == views(c@).take(i as int).to_set().difference(refs),
        decreases c.len() - i,
    {
        let ghost prev = views(c@).take(i as int);
        assert(views(c@).take(i + 1) =~= prev.push(c@[i as int]@));
        proof {
            prev.lemma_push_to_set_commute(c@[i as int]@);
        }
        if !contains(referenced, &c[i]) {
            push_unique(&mut r, c[i].clone());
            assert(views(r@).to_set() =~= views(c@).take(i + 1).to_set().difference(refs));
        } else {
            assert(views(r@).to_set() =~= views(c@).take(i + 1).to_set().difference(refs));
        }
        i += 1;
    }
    assert(views(c@).take(i as int) =~= views(c@));
    r
}

/// The entries that a collection removes, each once: of `candidates`, those
/// that no link references; with no candidates, every entry of `pool`, the
/// entries present, that no link references.
pub fn gc_removals(
    candidates: &Option<Vec<String>>,
    pool: &Vec<String>,
    referenced: &Vec<String>,
) -> (r: Vec<String>)
    ensures
        views(r@).no_duplicates(),
        views(r@).to_set() == removal_set(
            match candidates {
                Some(c) => Some(views(c@)),
                None => None,
            },
            views(pool@).to_set(),
            views(referenced@).to_set(),
        ),
{
    match candidates {
        Some(c) => unreferenced(c, referenced),
        None => unreferenced(pool, referenced),
    }
}

} // verus!
