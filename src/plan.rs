use vstd::prelude::*;

use crate::ctx::Ctx;
use crate::gc::contains;
use crate::identity::{edited_set, identity_of, lemma_identity_of, IdentifiableToolchain};
use crate::order::views;
use crate::text::{qualified, qualify_with_target};

verus! {

/// One step of an operation on the pool, naming links and pool entries by
/// their names within the links and pool directories.
#[derive(Clone, Debug, PartialEq, Eq)]
pub enum Step {
    /// Create the in-flight marker of `link`, pointing at `entry`.
    Stage { link: String, entry: String },
    /// Install the release `source` and move it to the pool entry `entry`.
    Install { source: String, entry: String },
    /// Copy the entry `from`, add or remove `components` in the copy, and
    /// move it to the pool entry `entry`.
    Derive { from: String, entry: String, components: Vec<String>, add: bool },
    /// Rename the in-flight marker of `link` onto `link`: the commit point.
    Commit { link: String },
    /// Remove `link`.
    Unlink { link: String },
    /// Under the pool lock, remove each of `candidates` that no link
    /// references.
    Collect { candidates: Vec<String> },
}

/// A [`Step`] with its strings as character sequences.
pub enum StepView {
    Stage { link: Seq<char>, entry: Seq<char> },
    Install { source: Seq<char>, entry: Seq<char> },
    Derive { from: Seq<char>, entry: Seq<char>, components: Seq<Seq<char>>, add: bool },
    Commit { link: Seq<char> },
    Unlink { link: Seq<char> },
    Collect { candidates: Seq<Seq<char>> },
}

impl View for Step {
    type V = StepView;

    open spec fn view(&self) -> StepView {
        match self {
            Step::Stage { link, entry } => StepView::Stage { link: link@, entry: entry@ },
            Step::Install { source, entry } => StepView::Install {
                source: source@,
                entry: entry@,
            },
            Step::Derive { from, entry, components, add } => StepView::Derive {
                from: from@,
                entry: entry@,
                components: views(components@),
                add: *add,
            },
            Step::Commit { link } => StepView::Commit { link: link@ },
            Step::Unlink { link } => StepView::Unlink { link: link@ },
            Step::Collect { candidates } => StepView::Collect { candidates: views(candidates@) },
        }
    }
}

/// The views of a list of steps.
pub open spec fn steps_view(steps: Seq<Step>) -> Seq<StepView> {
    Seq::new(steps.len(), |i: int| steps[i]@)
}

/// What the pool looks like from outside: each link's name with the entry
/// it points at, each in-flight marker likewise, and the entries present.
pub struct PoolView {
    pub links: Map<Seq<char>, Seq<char>>,
    pub markers: Map<Seq<char>, Seq<char>>,
    pub entries: Set<Seq<char>>,
}

/// The entries that some link points at.
pub open spec fn referenced(links: Map<Seq<char>, Seq<char>>) -> Set<Seq<char>> {
    links.values()
}

/// What one step does to the pool.
pub open spec fn apply_step(s: PoolView, step: StepView) -> PoolView {
    match step {
        StepView::Stage { link, entry } => PoolView { markers: s.markers.insert(link, entry), ..s },
        StepView::Install { source, entry } => PoolView { entries: s.entries.insert(entry), ..s },
        StepView::Derive { from, entry, components, add } => PoolView {
            entries: s.entries.insert(entry),
            ..s
        },
        StepView::Commit { link } => if s.markers.contains_key(link) {
            PoolView {
                links: s.links.insert(link, s.markers[link]),
                markers: s.markers.remove(link),
                ..s
            }
        } else {
            s
        },
        StepView::Unlink { link } => PoolView { links: s.links.remove(link), ..s },
        StepView::Collect { candidates } => PoolView {
            entries: s.entries.difference(candidates.to_set().difference(referenced(s.links))),
            ..s
        },
    }
}

/// What a list of steps, run in order, does to the pool.
pub open spec fn run_steps(s: PoolView, steps: Seq<StepView>) -> PoolView
    decreases steps.len(),
{
    if steps.len() == 0 {
        s
    } else {
        apply_step(run_steps(s, steps.drop_last()), steps.last())
    }
}

/// Binding `name` to `entry`: make the entry where `make` says so, so that
/// it is whole before anything points at it; stage the marker; commit; then
/// offer the previous target, if any, for collection.
pub open spec fn link_plan(
    name: Seq<char>,
    entry: Seq<char>,
    make: Option<StepView>,
    prior: Option<Seq<char>>,
) -> Seq<StepView> {
    let made = match make {
        Some(m) => seq![m],
        None => Seq::empty(),
    };
    let staged = made.push(StepView::Stage { link: name, entry });
    let committed = staged.push(StepView::Commit { link: name });
    match prior {
        Some(p) => committed.push(StepView::Collect { candidates: seq![p] }),
        None => committed,
    }
}

/// Removing the link `name` that points at `prior`.
pub open spec fn unlink_plan(name: Seq<char>, prior: Seq<char>) -> Seq<StepView> {
    seq![StepView::Unlink { link: name }, StepView::Collect { candidates: seq![prior] }]
}

/// Binding `name` to the entry `entry` of a release `source`, in pool `s`.
pub open spec fn add_plan(s: PoolView, name: Seq<char>, source: Seq<char>, entry: Seq<char>) -> Seq<
    StepView,
> {
    link_plan(
        name,
        entry,
        if s.entries.contains(entry) {
            None
        } else {
            Some(StepView::Install { source, entry })
        },
        s.links.index_opt(name),
    )
}

/// Rebinding the link `name` of pool `s` to `entry`, derived from its
/// current entry by adding or removing `components`.
pub open spec fn edit_plan(
    s: PoolView,
    name: Seq<char>,
    entry: Seq<char>,
    components: Seq<Seq<char>>,
    add: bool,
) -> Seq<StepView> {
    link_plan(
        name,
        entry,
        if s.entries.contains(entry) {
            None
        } else {
            Some(StepView::Derive { from: s.links[name], entry, components, add })
        },
        Some(s.links[name]),
    )
}

/// Why an operation on the pool cannot go ahead.
#[derive(Clone, Debug, PartialEq, Eq)]
pub enum PoolError {
    /// No link of this name exists.
    LinkMissing { name: String },
}

/// The steps that bind `name` to `entry`; see [`link_plan`].
fn link_steps(name: &str, entry: &str, make: Option<Step>, prior: Option<String>) -> (r: Vec<Step>)
    ensures
        steps_view(r@) == link_plan(
            name@,
            entry@,
            match make {
                Some(m) => Some(m@),
                None => None,
            },
            match prior {
                Some(p) => Some(p@),
                None => None,
            },
        ),
{
    let ghost mv = match &make {
        Some(m) => Some(m@),
        None => None,
    };
    let ghost pv = match &prior {
        Some(p) => Some(p@),
        None => None,
    };
    let mut r: Vec<Step> = Vec::new();
    match make {
        Some(m) => r.push(m),
        None => {},
    }
    r.push(Step::Stage { link: String::from_str(name), entry: String::from_str(entry) });
    r.push(Step::Commit { link: String::from_str(name) });
    match prior {
        Some(p) => {
            let mut c: Vec<String> = Vec::new();
            c.push(p);
            r.push(Step::Collect { candidates: c });
        },
        None => {},
    }
    proof {
        let want = link_plan(name@, entry@, mv, pv);
        if pv is Some {
            let last = r@.len() - 1;
            assert(views(r@[last]->Collect_candidates@) =~= seq![pv->0]);
        }
        assert(steps_view(r@) =~= want);
    }
    r
}

/// Install a toolchain and bind a link to it.
#[derive(Clone, Debug, PartialEq, Eq)]
pub struct AddSubcmd {
    /// The release to install from; the toolchain itself where absent.
    pub source: Option<String>,
    /// The name of the link.
    pub toolchain: String,
}

impl AddSubcmd {
    /// The qualified name of the source release.
    pub open spec fn source_spec(&self, target: Seq<char>) -> Seq<char> {
        match self.source {
            Some(s) => qualified(s@, target),
            None => qualified(self.toolchain@, target),
        }
    }

    /// The name of the link, qualified with `target`.
    pub fn link_name(&self, target: &str) -> (r: String)
        ensures
            r@ == qualified(self.toolchain@, target@),
    {
        qualify_with_target(self.toolchain.as_str(), target)
    }

    /// The source release, qualified with `target`.
    pub fn source_name(&self, target: &str) -> (r: String)
        ensures
            r@ == self.source_spec(target@),
    {
        match &self.source {
            Some(s) => qualify_with_target(s.as_str(), target),
            None => qualify_with_target(self.toolchain.as_str(), target),
        }
    }

    /// The channel of the source release: its qualified name without the
    /// `-<target>` suffix.
    pub fn channel(&self, target: &str) -> (r: String)
        ensures
            r@ + seq!['-'] + target@ == self.source_spec(target@),
    {
        let src = self.source_name(target);
        let n = src.unicode_len();
        let m = target.unicode_len();
        proof {
            assert(n >= m + 1);
            assert(src@.subrange(n - m - 1, n as int) == seq!['-'] + target@);
        }
        let r = String::from_str(src.as_str().substring_char(0, n - m - 1));
        proof {
            let k = n - m - 1;
            assert(src@ =~= src@.subrange(0, k as int) + src@.subrange(k as int, n as int));
            assert(r@ + seq!['-'] + target@ =~= src@);
        }
        r
    }

    /// The steps that bind the link to the pool entry of `release`, the
    /// toolchain that the source resolves to: install it unless `pool`, the
    /// entries present, holds it; then offer `prior`, the entry that the
    /// link pointed at, for collection.
    pub fn run(
        &self,
        ctx: &Ctx,
        release: &IdentifiableToolchain,
        pool: &Vec<String>,
        prior: Option<String>,
    ) -> (r: Vec<Step>)
        requires
            release.wf(),
        ensures
            steps_view(r@) == link_plan(
                qualified(self.toolchain@, ctx.target@),
                release.identity(),
                if views(pool@).contains(release.identity()) {
                    None
                } else {
                    Some(
                        StepView::Install {
                            source: self.source_spec(ctx.target@),
                            entry: release.identity(),
                        },
                    )
                },
                match prior {
                    Some(p) => Some(p@),
                    None => None,
                },
            ),
    {
        let name = self.link_name(ctx.target.as_str());
        let id = release.id();
        let make = if contains(pool, &id) {
            None
        } else {
            Some(Step::Install { source: self.source_name(ctx.target.as_str()), entry: id.clone() })
        };
        link_steps(name.as_str(), id.as_str(), make, prior)
    }
}

/// Remove a link, and its entry where nothing else references it.
#[derive(Clone, Debug, PartialEq, Eq)]
pub struct RmSubCmd {
    /// The name of the link.
    pub toolchain: String,
}

impl RmSubCmd {
    /// The steps that remove the link, given `prior`, the entry that it
    /// points at, or `None` where there is no such link.
    pub fn run(&self, ctx: &Ctx, prior: Option<String>) -> (r: Result<Vec<Step>, PoolError>)
        ensures
            prior is None ==> (r matches Err(PoolError::LinkMissing { name }) && name@ == qualified(
                self.toolchain@,
                ctx.target@,
            )),
            prior is Some ==> r is Ok && steps_view(r->Ok_0@) == unlink_plan(
                qualified(self.toolchain@, ctx.target@),
                prior->0@,
            ),
    {
        let name = qualify_with_target(self.toolchain.as_str(), ctx.target.as_str());
        match prior {
            None => Err(PoolError::LinkMissing { name }),
            Some(p) => {
                let mut r: Vec<Step> = Vec::new();
                let ghost pv = p@;
                r.push(Step::Unlink { link: name });
                let mut c: Vec<String> = Vec::new();
                c.push(p);
                r.push(Step::Collect { candidates: c });
                assert(views(r@[1]->Collect_candidates@) =~= seq![pv]);
                assert(steps_view(r@) =~= unlink_plan(
                    qualified(self.toolchain@, ctx.target@),
                    pv,
                ));
                Ok(r)
            },
        }
    }
}

impl Ctx {
    /// The steps that rebind the link `toolchain` to the toolchain that its
    /// current entry `prior`, of identity `current`, becomes once each of
    /// `comps` is added (`add`) or taken out: derive that entry from the
    /// current one unless `pool`, the entries present, holds it; then offer
    /// `prior` for collection. With no components there is nothing to do.
    pub fn modify_components(
        &self,
        toolchain: &str,
        comps: &Vec<String>,
        add: bool,
        current: IdentifiableToolchain,
        prior: Option<String>,
        pool: &Vec<String>,
    ) -> (r: Result<Vec<Step>, PoolError>)
        requires
            current.wf(),
        ensures
            comps.len() == 0 ==> (r is Ok && r->Ok_0@.len() == 0),
            comps.len() > 0 && prior is None ==> (r matches Err(PoolError::LinkMissing { name })
                && name@ == qualified(toolchain@, self.target@)),
            comps.len() > 0 && prior is Some ==> ({
                let entry = identity_of(
                    current.version(),
                    edited_set(current.component_set(), views(comps@), add, self.target@),
                );
                &&& r is Ok
                &&& steps_view(r->Ok_0@) == link_plan(
                    qualified(toolchain@, self.target@),
                    entry,
                    if views(pool@).contains(entry) {
                        None
                    } else {
                        Some(
                            StepView::Derive {
                                from: prior->0@,
                                entry,
                                components: views(comps@),
                                add,
                            },
                        )
                    },
                    Some(prior->0@),
                )
            }),
    {
        if comps.len() == 0 {
            return Ok(Vec::new());
        }
        let name = qualify_with_target(toolchain, self.target.as_str());
        let old_id = match prior {
            None => {
                return Err(PoolError::LinkMissing { name });
            },
            Some(p) => p,
        };
        let mut next = current;
        next.apply_delta(comps, add, self.target.as_str());
        let new_id = next.id();
        proof {
            lemma_identity_of(next);
        }
        let make = if contains(pool, &new_id) {
            None
        } else {
            let mut cs: Vec<String> = Vec::new();
            let mut i: usize = 0;
            while i < comps.len()
                invariant
                    i <= comps.len(),
                    views(cs@) == views(comps@).take(i as int),
                decreases comps.len() - i,
            {
                let ghost prev = views(cs@);
                cs.push(comps[i].clone());
                assert(views(cs@) =~= prev.push(comps@[i as int]@));
                assert(views(cs@) =~= views(comps@).take(i + 1));
                i += 1;
            }
            assert(views(comps@).take(i as int) =~= views(comps@));
            Some(
                Step::Derive { from: old_id.clone(), entry: new_id.clone(), components: cs, add },
            )
        };
        Ok(link_steps(name.as_str(), new_id.as_str(), make, Some(old_id)))
    }
}

/// Add components to the toolchain of a link.
#[derive(Clone, Debug, PartialEq, Eq)]
pub struct CompAddSubcmd {
    /// The name of the link.
    pub toolchain: String,
    /// The components to add.
    pub components: Vec<String>,
}

/// Remove components from the toolchain of a link.
#[derive(Clone, Debug, PartialEq, Eq)]
pub struct CompRmSubcmd {
    /// The name of the link.
    pub toolchain: String,
    /// The components to remove.
    pub components: Vec<String>,
}

impl CompAddSubcmd {
    /// The steps that rebind the link to its toolchain with the components
    /// added; see [`Ctx::modify_components`].
    pub fn run(
        &self,
        ctx: &Ctx,
        current: IdentifiableToolchain,
        prior: Option<String>,
        pool: &Vec<String>,
    ) -> (r: Result<Vec<Step>, PoolError>)
        requires
            current.wf(),
        ensures
            self.components.len() == 0 ==> (r is Ok && r->Ok_0@.len() == 0),
            self.components.len() > 0 && prior is None ==> (r matches Err(
                PoolError::LinkMissing { name },
            ) && name@ == qualified(self.toolchain@, ctx.target@)),
            self.components.len() > 0 && prior is Some ==> ({
                let entry = identity_of(
                    current.version(),
                    edited_set(
                        current.component_set(),
                        views(self.components@),
                        true,
                        ctx.target@,
                    ),
                );
                &&& r is Ok
                &&& steps_view(r->Ok_0@) == link_plan(
                    qualified(self.toolchain@, ctx.target@),
                    entry,
                    if views(pool@).contains(entry) {
                        None
                    } else {
                        Some(
                            StepView::Derive {
                                from: prior->0@,
                                entry,
                                components: views(self.components@),
                                add: true,
                            },
                        )
                    },
                    Some(prior->0@),
                )
            }),
    {
        ctx.modify_components(self.toolchain.as_str(), &self.components, true, current, prior, pool)
    }
}

impl CompRmSubcmd {
    /// The steps that rebind the link to its toolchain with the components
    /// taken out; see [`Ctx::modify_components`].
    pub fn run(
        &self,
        ctx: &Ctx,
        current: IdentifiableToolchain,
        prior: Option<String>,
        pool: &Vec<String>,
    ) -> (r: Result<Vec<Step>, PoolError>)
        requires
            current.wf(),
        ensures
            self.components.len() == 0 ==> (r is Ok && r->Ok_0@.len() == 0),
            self.components.len() > 0 && prior is None ==> (r matches Err(
                PoolError::LinkMissing { name },
            ) && name@ == qualified(self.toolchain@, ctx.target@)),
            self.components.len() > 0 && prior is Some ==> ({
                let entry = identity_of(
                    current.version(),
                    edited_set(
                        current.component_set(),
                        views(self.components@),
                        false,
                        ctx.target@,
                    ),
                );
                &&& r is Ok
                &&& steps_view(r->Ok_0@) == link_plan(
                    qualified(self.toolchain@, ctx.target@),
                    entry,
                    if views(pool@).contains(entry) {
                        None
                    } else {
                        Some(
                            StepView::Derive {
                                from: prior->0@,
                                entry,
                                components: views(self.components@),
                                add: false,
                            },
                        )
                    },
                    Some(prior->0@),
                )
            }),
    {
        ctx.modify_components(self.toolchain.as_str(), &self.components, false, current, prior, pool)
    }
}

} // verus!
