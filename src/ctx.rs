use vstd::prelude::*;

use crate::text::with_tmp;

verus! {

/// `dir` and `name` joined by a path separator.
pub open spec fn joined(dir: Seq<char>, name: Seq<char>) -> Seq<char> {
    dir + seq!['/'] + name
}

/// `dir/name`.
fn join(dir: &str, name: &str) -> (r: String)
    ensures
        r@ == joined(dir@, name@),
{
    let mut r = String::from_str(dir);
    r.append("/");
    r.append(name);
    proof {
        reveal_strlit("/");
    }
    r
}

/// The position of the last `'/'` among the first `k` characters of `p`.
pub open spec fn last_slash(p: Seq<char>, k: nat) -> Option<nat>
    decreases k,
{
    if k == 0 || k > p.len() {
        None
    } else if p[k - 1] == '/' {
        Some((k - 1) as nat)
    } else {
        last_slash(p, (k - 1) as nat)
    }
}

/// The directory of the path `p`: what comes before its last `'/'`, the
/// root where that is its first character, and nothing where it has none.
pub open spec fn dir_of(p: Seq<char>) -> Seq<char> {
    match last_slash(p, p.len()) {
        None => Seq::empty(),
        Some(i) => if i == 0 {
            seq!['/']
        } else {
            p.take(i as int)
        },
    }
}

/// The path that leads from the directory `base` to `path`, component by
/// component, or none where `base` holds a `..` that cannot be retraced.
pub uninterp spec fn relative_path(path: Seq<char>, base: Seq<char>) -> Option<Seq<char>>;

/// Relies on pathdiff::diff_paths: the relative path from `base` to
/// `path`, which depends on the two paths alone.
#[verifier::external_body]
fn diff_paths(path: &str, base: &str) -> (r: Option<String>)
    ensures
        match r {
            Some(s) => relative_path(path@, base@) == Some(s@),
            None => relative_path(path@, base@) is None,
        },
{
    pathdiff::diff_paths(path, base).map(|p| p.to_string_lossy().into_owned())
}

/// The directory of the path `p`; see [`dir_of`].
fn dir_of_path(p: &str) -> (r: String)
    ensures
        r@ == dir_of(p@),
{
    let n = p.unicode_len();
    let mut k: usize = n;
    while k > 0 && p.get_char(k - 1) != '/'
        invariant
            n == p@.len(),
            k <= n,
            last_slash(p@, n as nat) == last_slash(p@, k as nat),
        decreases k,
    {
        k -= 1;
    }
    if k == 0 {
        String::new()
    } else if k == 1 {
        proof {
            reveal_strlit("/");
        }
        String::from_str("/")
    } else {
        String::from_str(p.substring_char(0, k - 1))
    }
}

/// What a soft link at `link` holds to point at `original`: the path from
/// the link's directory to `original`, or none where there is no such path.
pub fn relative_target(original: &str, link: &str) -> (r: Option<String>)
    ensures
        match r {
            Some(s) => relative_path(original@, dir_of(link@)) == Some(s@),
            None => relative_path(original@, dir_of(link@)) is None,
        },
{
    let dir = dir_of_path(link);
    diff_paths(original, dir.as_str())
}

/// Where everything lives: the home directory, the installer binary, the
/// installer home that holds the pool, the home that holds the links, the
/// cargo home, and the target triple that qualifies toolchain names.
#[derive(Clone, Debug)]
pub struct Ctx {
    pub home: String,
    pub rustup: String,
    pub rustup_home: String,
    pub rynzland_home: String,
    pub cargo_home: String,
    pub target: String,
}

impl Ctx {
    /// The layout under `home`, for toolchains of `target`.
    pub fn new(home: &str, target: &str) -> (r: Self)
        ensures
            r.home@ == home@,
            r.rustup@ == joined(home@, "rustup"@),
            r.rustup_home@ == joined(home@, "rustup_home"@),
            r.rynzland_home@ == joined(home@, "rynzland_home"@),
            r.cargo_home@ == joined(home@, "cargo_home"@),
            r.target@ == target@,
    {
        Ctx {
            rustup: join(home, "rustup"),
            rustup_home: join(home, "rustup_home"),
            rynzland_home: join(home, "rynzland_home"),
            cargo_home: join(home, "cargo_home"),
            home: String::from_str(home),
            target: String::from_str(target),
        }
    }

    /// The directory of the pool: `<rustup_home>/toolchains`.
    pub open spec fn pool_root_spec(&self) -> Seq<char> {
        joined(self.rustup_home@, "toolchains"@)
    }

    /// The directory of the links: `<rynzland_home>/toolchains`.
    pub open spec fn links_root_spec(&self) -> Seq<char> {
        joined(self.rynzland_home@, "toolchains"@)
    }

    /// The directory of the pool.
    pub fn pool_root(&self) -> (r: String)
        ensures
            r@ == self.pool_root_spec(),
    {
        join(self.rustup_home.as_str(), "toolchains")
    }

    /// The directory of the links.
    pub fn links_root(&self) -> (r: String)
        ensures
            r@ == self.links_root_spec(),
    {
        join(self.rynzland_home.as_str(), "toolchains")
    }

    /// The path of the pool entry named `id`.
    pub fn entry_path(&self, id: &str) -> (r: String)
        ensures
            r@ == joined(self.pool_root_spec(), id@),
    {
        join(self.pool_root().as_str(), id)
    }

    /// The path of the link named `name`.
    pub fn link_path(&self, name: &str) -> (r: String)
        ensures
            r@ == joined(self.links_root_spec(), name@),
    {
        join(self.links_root().as_str(), name)
    }

    /// The path of the in-flight marker of the link named `name`.
    pub fn marker_path(&self, name: &str) -> (r: String)
        ensures
            r@ == joined(self.links_root_spec(), name@) + ".tmp"@,
    {
        with_tmp(self.link_path(name).as_str())
    }

    /// The lock file that guards collection in the pool.
    pub fn lock_path(&self) -> (r: String)
        ensures
            r@ == joined(self.pool_root_spec(), "pool_gc.lock"@),
    {
        join(self.pool_root().as_str(), "pool_gc.lock")
    }
}

} // verus!
