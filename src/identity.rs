use vstd::prelude::*;

use crate::encode::{encoded, lemma_encoded_injective, lemma_encoded_len, HashEncoder};
use crate::order::{
    lemma_sorted_unique, lemma_str_lt_irreflexive, lemma_str_lt_total, lemma_str_lt_transitive, sorted, str_less,
    str_lt, views,
};
use crate::text::{ends_with, lines, qualified, qualify_with_target, split_lines};

verus! {

/// Inserts `s` into the strictly increasing `v`, unless it is there already.
fn insert_sorted(v: &mut Vec<String>, s: String)
    requires
        sorted(views(old(v)@)),
    ensures
        sorted(views(final(v)@)),
        views(final(v)@).to_set() == views(old(v)@).to_set().insert(s@),
{
    let ghost old_v = views(v@);
    let mut i: usize = 0;
    while i < v.len() && str_less(v[i].as_str(), s.as_str())
        invariant
            i <= v.len(),
            views(v@) == old_v,
            sorted(old_v),
            forall|j: int| 0 <= j < i ==> str_lt(#[trigger] old_v[j], s@),
        decreases v.len() - i,
    {
        i += 1;
    }
    if i < v.len() && v[i] == s {
        assert(old_v[i as int] == s@);
        assert(old_v.to_set().contains(s@));
        assert(old_v.to_set().insert(s@) =~= old_v.to_set());
        return;
    }
    proof {
        if i < v.len() {
            lemma_str_lt_total(old_v[i as int], s@);
            assert(str_lt(s@, old_v[i as int]));
            assert forall|j: int| i <= j < old_v.len() implies str_lt(s@, #[trigger] old_v[j]) by {
                if j > i {
                    lemma_str_lt_transitive(s@, old_v[i as int], old_v[j]);
                }
            }
        }
    }
    v.insert(i, s);
    proof {
        let nv = views(v@);
        assert(nv =~= old_v.insert(i as int, s@));
        assert forall|a: int, b: int| 0 <= a < b < nv.len() implies str_lt(nv[a], nv[b]) by {
            if b < i {
            } else if b == i {
            } else if a < i {
                lemma_str_lt_transitive(nv[a], s@, nv[b]);
            } else if a == i {
            } else {
            }
        }
        assert(nv.to_set() =~= old_v.to_set().insert(s@)) by {
            assert forall|x: Seq<char>| nv.to_set().contains(x) implies old_v.to_set().insert(
                s@,
            ).contains(x) by {
                let k = choose|k: int| 0 <= k < nv.len() && nv[k] == x;
                if k < i {
                    assert(old_v[k] == x);
                } else if k > i {
                    assert(old_v[k - 1] == x);
                }
            }
            assert forall|x: Seq<char>| old_v.to_set().insert(s@).contains(x) implies nv.to_set().contains(
                x,
            ) by {
                if x == s@ {
                    assert(nv[i as int] == x);
                } else {
                    let k = choose|k: int| 0 <= k < old_v.len() && old_v[k] == x;
                    if k < i {
                        assert(nv[k] == x);
                    } else {
                        assert(nv[k + 1] == x);
                    }
                }
            }
        }
    }
}

/// Removes `s` from the strictly increasing `v`, if it is there.
fn remove_sorted(v: &mut Vec<String>, s: &str)
    requires
        sorted(views(old(v)@)),
    ensures
        sorted(views(final(v)@)),
        views(final(v)@).to_set() == views(old(v)@).to_set().remove(s@),
{
    let ghost old_v = views(v@);
    let t = String::from_str(s);
    let mut i: usize = 0;
    while i < v.len()
        invariant
            i <= v.len(),
            views(v@) == old_v,
            old_v == views(old(v)@),
            sorted(old_v),
            t@ == s@,
            forall|j: int| 0 <= j < i ==> #[trigger] old_v[j] != s@,
        decreases v.len() - i,
    {
        if v[i] == t {
            v.remove(i);
            proof {
                let nv = views(v@);
                assert(nv =~= old_v.remove(i as int));
                assert forall|a: int, b: int| 0 <= a < b < nv.len() implies str_lt(
                    nv[a],
                    nv[b],
                ) by {
                    if a < i && b >= i {
                        assert(nv[b] == old_v[b + 1]);
                    }
                }
                assert(nv.to_set() =~= old_v.to_set().remove(s@)) by {
                    assert forall|x: Seq<char>| nv.to_set().contains(x) implies old_v.to_set().remove(
                        s@,
                    ).contains(x) by {
                        let k = choose|k: int| 0 <= k < nv.len() && nv[k] == x;
                        assert(old_v[i as int] == s@);
                        if k < i {
                            assert(old_v[k] == x);
                            assert(str_lt(old_v[k], old_v[i as int]));
                            lemma_str_lt_irreflexive(x);
                        } else {
                            assert(old_v[k + 1] == x);
                            assert(str_lt(old_v[i as int], old_v[k + 1]));
                            lemma_str_lt_irreflexive(x);
                        }
                        assert(old_v.to_set().contains(x));
                    }
                    assert forall|x: Seq<char>| old_v.to_set().remove(s@).contains(x) implies nv.to_set().contains(
                        x,
                    ) by {
                        let k = choose|k: int| 0 <= k < old_v.len() && old_v[k] == x;
                        if k < i {
                            assert(nv[k] == x);
                        } else {
                            assert(k != i);
                            assert(nv[k - 1] == x);
                        }
                    }
                }
            }
            return;
        }
        i += 1;
    }
    assert(!old_v.to_set().contains(s@));
    assert(old_v.to_set().remove(s@) =~= old_v.to_set());
}

/// A character of the leading version number: a digit or a dot.
pub open spec fn is_version_char(c: char) -> bool {
    c == '.' || ('0' <= c && c <= '9')
}

/// The end of the run of version characters of `v` that goes on from `k`.
pub open spec fn version_end(v: Seq<char>, k: nat) -> nat
    decreases v.len() - k,
{
    if k < v.len() && is_version_char(v[k as int]) {
        version_end(v, k + 1)
    } else {
        k
    }
}

/// The readable head of an identity: the leading digits and dots of the
/// version, or `unknown` where there are none.
pub open spec fn version_label(v: Seq<char>) -> Seq<char> {
    let n = version_end(v, 0);
    if n == 0 {
        "unknown"@
    } else {
        v.take(n as int)
    }
}

/// The 64-bit xxHash, under `seed`, of the UTF-8 bytes of `s`.
pub uninterp spec fn xxh64_of(seed: u64, s: Seq<char>) -> u64;

/// The 64-bit xxHash, under `seed`, of what std's `Hash` of a slice of
/// strings feeds a hasher for `items`; within one build, it depends on the
/// strings alone.
pub uninterp spec fn xxh64_hashed(seed: u64, items: Seq<Seq<char>>) -> u64;

/// Relies on twox_hash::XxHash64::oneshot: the hash of the bytes of `s`,
/// which depends on `seed` and those bytes alone.
#[verifier::external_body]
fn xxh64_str(seed: u64, s: &str) -> (r: u64)
    ensures
        r == xxh64_of(seed, s@),
{
    twox_hash::XxHash64::oneshot(seed, s.as_bytes())
}

/// Relies on twox_hash::XxHash64 as a `std::hash::Hasher`: the hash of what
/// `Hash` for a slice of strings writes, which depends on `seed` and the
/// strings alone.
#[verifier::external_body]
fn xxh64_strings(seed: u64, items: &Vec<String>) -> (r: u64)
    ensures
        r == xxh64_hashed(seed, views(items@)),
{
    let mut hasher = twox_hash::XxHash64::with_seed(seed);
    std::hash::Hash::hash(items.as_slice(), &mut hasher);
    std::hash::Hasher::finish(&hasher)
}

/// The seed of both hashes of an identity.
pub const SEED: u64 = 0xfeed_c001_1ced_7ea5;

/// The identity of the toolchain of version `v` whose components, sorted,
/// are `comps`: the version label, the encoded hash of the version and the
/// encoded hash of the components, joined by dashes.
pub open spec fn identity(v: Seq<char>, comps: Seq<Seq<char>>) -> Seq<char> {
    version_label(v) + seq!['-'] + encoded(xxh64_of(SEED, v)) + seq!['-'] + encoded(
        xxh64_hashed(SEED, comps),
    )
}

/// What identifies an installed toolchain: its Rust version and the set of
/// its components.
#[derive(Clone, Debug, PartialEq, Eq, Hash)]
pub struct IdentifiableToolchain {
    /// The value of `pkg.rust.version` in the channel manifest.
    pub rust_ver: String,
    /// The installed components, strictly increasing, so each once.
    pub components: Vec<String>,
}

impl IdentifiableToolchain {
    /// The components are kept sorted and free of duplicates.
    pub open spec fn wf(&self) -> bool {
        sorted(views(self.components@))
    }

    pub open spec fn version(&self) -> Seq<char> {
        self.rust_ver@
    }

    /// The components in their sorted order.
    pub open spec fn component_seq(&self) -> Seq<Seq<char>> {
        views(self.components@)
    }

    pub open spec fn component_set(&self) -> Set<Seq<char>> {
        self.component_seq().to_set()
    }

    /// The toolchain of version `rust_ver` with the components named in
    /// `components`, in any order and with repeats.
    pub fn new(rust_ver: String, components: &Vec<String>) -> (r: Self)
        ensures
            r.wf(),
            r.version() == rust_ver@,
            r.component_set() == views(components@).to_set(),
    {
        let mut comps: Vec<String> = Vec::new();
        let mut i: usize = 0;
        while i < components.len()
            invariant
                i <= components.len(),
                sorted(views(comps@)),
                views(comps@).to_set() == views(components@).take(i as int).to_set(),
            decreases components.len() - i,
        {
            insert_sorted(&mut comps, components[i].clone());
            assert(views(components@).take(i + 1) =~= views(components@).take(i as int).push(
                components@[i as int]@,
            ));
            proof {
                views(components@).take(i as int).lemma_push_to_set_commute(components@[i as int]@);
            }
            i += 1;
        }
        assert(views(components@).take(i as int) =~= views(components@));
        IdentifiableToolchain { rust_ver, components: comps }
    }

    /// The toolchain of version `rust_ver` whose components are listed one
    /// per line in `listing`, as in a toolchain's components file.
    pub fn from_listing(rust_ver: String, listing: &str) -> (r: Self)
        ensures
            r.wf(),
            r.version() == rust_ver@,
            r.component_set() == lines(listing@).to_set(),
    {
        IdentifiableToolchain::new(rust_ver, &split_lines(listing))
    }

    /// The Rust version.
    pub fn rust_ver(&self) -> (r: &str)
        ensures
            r@ == self.version(),
    {
        self.rust_ver.as_str()
    }

    /// The components, sorted.
    pub fn components(&self) -> (r: &Vec<String>)
        ensures
            views(r@) == self.component_seq(),
    {
        &self.components
    }

    /// Adds `component` to the set.
    pub fn insert_component(&mut self, component: String)
        requires
            old(self).wf(),
        ensures
            final(self).wf(),
            final(self).version() == old(self).version(),
            final(self).component_set() == old(self).component_set().insert(component@),
    {
        insert_sorted(&mut self.components, component);
    }

    /// Takes `component` out of the set.
    pub fn remove_component(&mut self, component: &str)
        requires
            old(self).wf(),
        ensures
            final(self).wf(),
            final(self).version() == old(self).version(),
            final(self).component_set() == old(self).component_set().remove(component@),
    {
        remove_sorted(&mut self.components, component);
    }

    /// The identity of this toolchain in the pool.
    pub open spec fn identity(&self) -> Seq<char> {
        identity(self.version(), self.component_seq())
    }

    /// The stable short name of this toolchain: equal versions and equal
    /// component sets give equal names.
    pub fn id(&self) -> (r: String)
        requires
            self.wf(),
        ensures
            r@ == self.identity(),
    {
        let ver = self.rust_ver.as_str();
        let n = ver.unicode_len();
        let mut k: usize = 0;
        while k < n && is_version_char_exec(ver.get_char(k))
            invariant
                n == ver@.len(),
                k <= n,
                version_end(ver@, 0) == version_end(ver@, k as nat),
            decreases n - k,
        {
            k += 1;
        }
        let mut id = if k == 0 {
            String::from_str("unknown")
        } else {
            String::from_str(ver.substring_char(0, k))
        };
        id.append("-");
        id.append(HashEncoder::encode(xxh64_str(SEED, ver)).as_str());
        id.append("-");
        id.append(HashEncoder::encode(xxh64_strings(SEED, &self.components)).as_str());
        proof {
            reveal_strlit("-");
            assert(id@ =~= identity(self.version(), self.component_seq()));
        }
        id
    }
}

/// Whether `c` is a digit or a dot.
fn is_version_char_exec(c: char) -> (r: bool)
    ensures
        r == is_version_char(c),
{
    c == '.' || ('0' <= c && c <= '9')
}

/// The components named in `comps`, each qualified with `target`.
pub open spec fn qualified_all(comps: Seq<Seq<char>>, target: Seq<char>) -> Seq<Seq<char>> {
    Seq::new(comps.len(), |i: int| qualified(comps[i], target))
}

/// The components that a release has where none are asked for: the
/// compiler, cargo and the standard library, and the MinGW runtime on
/// `-pc-windows-gnu` targets, each qualified with `target`.
pub open spec fn default_components(target: Seq<char>) -> Seq<Seq<char>> {
    let base = seq!["rustc"@, "cargo"@, "rust-std"@];
    let names = if ends_with(target, "-pc-windows-gnu"@) {
        base.push("rust-mingw"@)
    } else {
        base
    };
    qualified_all(names, target)
}

/// Qualifies each of `comps` with `target`.
fn qualify_all(comps: &Vec<&str>, target: &str) -> (r: Vec<String>)
    ensures
        views(r@) == qualified_all(Seq::new(comps@.len(), |i: int| comps@[i]@), target@),
{
    let mut r: Vec<String> = Vec::new();
    let mut i: usize = 0;
    while i < comps.len()
        invariant
            i <= comps.len(),
            views(r@) == qualified_all(Seq::new(i as nat, |j: int| comps@[j]@), target@),
        decreases comps.len() - i,
    {
        let ghost prev = views(r@);
        let q = qualify_with_target(comps[i], target);
        r.push(q);
        assert(views(r@) =~= prev.push(q@));
        assert(views(r@) =~= qualified_all(Seq::new((i + 1) as nat, |j: int| comps@[j]@), target@));
        i += 1;
    }
    r
}

/// Whether `s` ends with `-pc-windows-gnu`.
fn is_windows_gnu(s: &str) -> (r: bool)
    ensures
        r == ends_with(s@, "-pc-windows-gnu"@),
{
    crate::text::str_ends_with(s, "-pc-windows-gnu")
}

/// The components that a release is taken to have where none are asked for,
/// qualified with `target`.
pub fn default_component_names(target: &str) -> (r: Vec<String>)
    ensures
        views(r@) == default_components(target@),
{
    let mut names: Vec<&str> = vec!["rustc", "cargo", "rust-std"];
    if is_windows_gnu(target) {
        names.push("rust-mingw");
    }
    let r = qualify_all(&names, target);
    proof {
        let base = seq!["rustc"@, "cargo"@, "rust-std"@];
        let nv = Seq::new(names@.len(), |i: int| names@[i]@);
        if ends_with(target@, "-pc-windows-gnu"@) {
            assert(nv =~= base.push("rust-mingw"@));
        } else {
            assert(nv =~= base);
        }
    }
    r
}

/// `set` with each of `comps`, qualified with `target`, added (`add`) or
/// taken out.
pub open spec fn edited_set(
    set: Set<Seq<char>>,
    comps: Seq<Seq<char>>,
    add: bool,
    target: Seq<char>,
) -> Set<Seq<char>> {
    if add {
        set.union(qualified_all(comps, target).to_set())
    } else {
        set.difference(qualified_all(comps, target).to_set())
    }
}

/// The sorted list of the strings of a finite `set`.
pub open spec fn canonical(set: Set<Seq<char>>) -> Seq<Seq<char>> {
    choose|s: Seq<Seq<char>>| sorted(s) && s.to_set() == set
}

/// The identity of the toolchain of version `v` with the component set
/// `comps`.
pub open spec fn identity_of(v: Seq<char>, comps: Set<Seq<char>>) -> Seq<char> {
    identity(v, canonical(comps))
}

/// A toolchain's identity is that of its version and component set.
pub proof fn lemma_identity_of(t: IdentifiableToolchain)
    requires
        t.wf(),
    ensures
        t.identity() == identity_of(t.version(), t.component_set()),
{
    let c = canonical(t.component_set());
    assert(sorted(t.component_seq()) && t.component_seq().to_set() == t.component_set());
    lemma_sorted_unique(c, t.component_seq());
}

impl IdentifiableToolchain {
    /// The toolchain of a release of version `rust_ver` that holds the
    /// components asked for in `components`, or the default ones where
    /// none are asked for, each qualified with `target`.
    pub fn from_release(rust_ver: String, components: &Vec<String>, target: &str) -> (r: Self)
        ensures
            r.wf(),
            r.version() == rust_ver@,
            components.len() == 0 ==> r.component_set() == default_components(target@).to_set(),
            components.len() > 0 ==> r.component_set() == qualified_all(
                views(components@),
                target@,
            ).to_set(),
    {
        let mut names: Vec<String> = Vec::new();
        if components.len() == 0 {
            names = default_component_names(target);
        } else {
            let mut i: usize = 0;
            while i < components.len()
                invariant
                    i <= components.len(),
                    views(names@) == qualified_all(views(components@).take(i as int), target@),
                decreases components.len() - i,
            {
                let ghost prev = views(names@);
                let q = qualify_with_target(components[i].as_str(), target);
                names.push(q);
                assert(views(names@) =~= prev.push(q@));
                assert(views(names@) =~= qualified_all(
                    views(components@).take(i + 1),
                    target@,
                ));
                i += 1;
            }
            assert(views(components@).take(i as int) =~= views(components@));
        }
        IdentifiableToolchain::new(rust_ver, &names)
    }

    /// Adds (`add`) or takes out each of `comps`, qualified with `target`.
    pub fn apply_delta(&mut self, comps: &Vec<String>, add: bool, target: &str)
        requires
            old(self).wf(),
        ensures
            final(self).wf(),
            final(self).version() == old(self).version(),
            final(self).component_set() == edited_set(
                old(self).component_set(),
                views(comps@),
                add,
                target@,
            ),
    {
        let ghost start = self.component_set();
        let mut i: usize = 0;
        while i < comps.len()
            invariant
                i <= comps.len(),
                self.wf(),
                self.version() == old(self).version(),
                start == old(self).component_set(),
                self.component_set() == (if add {
                    start.union(qualified_all(views(comps@).take(i as int), target@).to_set())
                } else {
                    start.difference(qualified_all(views(comps@).take(i as int), target@).to_set())
                }),
            decreases comps.len() - i,
        {
            let c = qualify_with_target(comps[i].as_str(), target);
            let ghost before = qualified_all(views(comps@).take(i as int), target@);
            assert(qualified_all(views(comps@).take(i + 1), target@) =~= before.push(c@));
            proof {
                before.lemma_push_to_set_commute(c@);
            }
            if add {
                self.insert_component(c);
                assert(self.component_set() =~= start.union(before.push(c@).to_set()));
            } else {
                self.remove_component(c.as_str());
                assert(self.component_set() =~= start.difference(before.push(c@).to_set()));
            }
            i += 1;
        }
        assert(views(comps@).take(i as int) =~= views(comps@));
    }
}

/// Identity is determined by content: two toolchains of one version with
/// the same set of components have the same identity, whatever the order
/// and the repeats in which their components were given.
pub proof fn law_identity_determined_by_content(a: IdentifiableToolchain, b: IdentifiableToolchain)
    requires
        a.wf(),
        b.wf(),
        a.version() == b.version(),
        a.component_set() == b.component_set(),
    ensures
        a.identity() == b.identity(),
{
    lemma_sorted_unique(a.component_seq(), b.component_seq());
}

/// Two toolchains share an identity only where both of its hashes collide:
/// the xxHash of their versions and that of their sorted component lists.
/// Toolchains with different component sets hash different component lists.
pub proof fn law_identity_clash_is_hash_collision(a: IdentifiableToolchain, b: IdentifiableToolchain)
    requires
        a.wf(),
        b.wf(),
        a.identity() == b.identity(),
    ensures
        xxh64_of(SEED, a.version()) == xxh64_of(SEED, b.version()),
        xxh64_hashed(SEED, a.component_seq()) == xxh64_hashed(SEED, b.component_seq()),
        a.component_set() != b.component_set() ==> a.component_seq() != b.component_seq(),
{
    let ea1 = encoded(xxh64_of(SEED, a.version()));
    let ea2 = encoded(xxh64_hashed(SEED, a.component_seq()));
    let eb1 = encoded(xxh64_of(SEED, b.version()));
    let eb2 = encoded(xxh64_hashed(SEED, b.component_seq()));
    lemma_encoded_len(xxh64_of(SEED, a.version()));
    lemma_encoded_len(xxh64_hashed(SEED, a.component_seq()));
    lemma_encoded_len(xxh64_of(SEED, b.version()));
    lemma_encoded_len(xxh64_hashed(SEED, b.component_seq()));
    let ia = a.identity();
    let ib = b.identity();
    let la = version_label(a.version()).len() as int;
    let lb = version_label(b.version()).len() as int;
    assert(ia.len() == la + 28);
    assert(ib.len() == lb + 28);
    assert(ia.subrange(la + 15, la + 28) =~= ea2);
    assert(ib.subrange(lb + 15, lb + 28) =~= eb2);
    assert(ia.subrange(la + 1, la + 14) =~= ea1);
    assert(ib.subrange(lb + 1, lb + 14) =~= eb1);
    lemma_encoded_injective(xxh64_hashed(SEED, a.component_seq()), xxh64_hashed(SEED, b.component_seq()));
    lemma_encoded_injective(xxh64_of(SEED, a.version()), xxh64_of(SEED, b.version()));
}

} // verus!
