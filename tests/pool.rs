use rynzland::{
    gc_needed, gc_removals, referenced_entries, AddSubcmd, CompAddSubcmd, CompRmSubcmd, Ctx,
    IdentifiableToolchain, PoolError, RmSubCmd, Step,
};

const TARGET: &str = "x86_64-unknown-linux-gnu";

fn s(x: &str) -> String {
    x.to_string()
}

fn release(ver: &str) -> IdentifiableToolchain {
    IdentifiableToolchain::from_release(s(ver), &vec![], TARGET)
}

fn stage(link: &str, entry: &str) -> Step {
    Step::Stage { link: s(link), entry: s(entry) }
}

fn commit(link: &str) -> Step {
    Step::Commit { link: s(link) }
}

fn collect(entry: &str) -> Step {
    Step::Collect { candidates: vec![s(entry)] }
}

#[test]
fn add_installs_missing_entry() {
    let ctx = Ctx::new("/h", TARGET);
    let add = AddSubcmd { source: None, toolchain: s("1.81.0") };
    let id = release("1.81.0").id();
    let steps = add.run(&ctx, &release("1.81.0"), &vec![], None);
    assert_eq!(
        steps,
        vec![
            Step::Install { source: s("1.81.0-x86_64-unknown-linux-gnu"), entry: id.clone() },
            stage("1.81.0-x86_64-unknown-linux-gnu", &id),
            commit("1.81.0-x86_64-unknown-linux-gnu"),
        ]
    );
}

#[test]
fn add_from_source_names_channel() {
    let add = AddSubcmd { source: Some(s("1.81.0")), toolchain: s("stable") };
    assert_eq!(add.link_name(TARGET), "stable-x86_64-unknown-linux-gnu");
    assert_eq!(add.source_name(TARGET), "1.81.0-x86_64-unknown-linux-gnu");
    assert_eq!(add.channel(TARGET), "1.81.0");
    let plain = AddSubcmd { source: None, toolchain: s("nightly-x86_64-unknown-linux-gnu") };
    assert_eq!(plain.channel(TARGET), "nightly");
}

#[test]
fn toolchain_management() {
    let ctx = Ctx::new("/h", TARGET);
    let id = release("1.81.0").id();
    assert_eq!(id, "1.81.0-f0f8p0un9fnf3-3fnknjs6j20h0");
    let ver_link = "1.81.0-x86_64-unknown-linux-gnu";
    let chan_link = "stable-x86_64-unknown-linux-gnu";

    // The versioned link installs the entry.
    let first = AddSubcmd { source: None, toolchain: s("1.81.0") };
    let steps = first.run(&ctx, &release("1.81.0"), &vec![], None);
    assert_eq!(steps.len(), 3);
    assert_eq!(steps[1], stage(ver_link, &id));

    // The channel link from the same source reuses it.
    let second = AddSubcmd { source: Some(s("1.81.0")), toolchain: s("stable") };
    let steps = second.run(&ctx, &release("1.81.0"), &vec![id.clone()], None);
    assert_eq!(steps, vec![stage(chan_link, &id), commit(chan_link)]);

    // Removing the channel link keeps the entry: the other link references it.
    let rm = RmSubCmd { toolchain: s("stable") };
    let steps = rm.run(&ctx, Some(id.clone())).unwrap();
    assert_eq!(steps, vec![Step::Unlink { link: s(chan_link) }, collect(&id)]);
    let referenced = referenced_entries(&vec![Some(id.clone())]);
    assert!(gc_removals(&Some(vec![id.clone()]), &vec![id.clone()], &referenced).is_empty());

    // Removing the last link removes the entry.
    let rm = RmSubCmd { toolchain: s("1.81.0") };
    let steps = rm.run(&ctx, Some(id.clone())).unwrap();
    assert_eq!(steps, vec![Step::Unlink { link: s(ver_link) }, collect(&id)]);
    let referenced = referenced_entries(&vec![]);
    assert_eq!(gc_removals(&Some(vec![id.clone()]), &vec![id.clone()], &referenced), vec![id.clone()]);
}

#[test]
fn update_toolchain_gc() {
    let ctx = Ctx::new("/h", TARGET);
    let v1 = release("1.91.0").id();
    let v2 = release("1.92.0").id();
    assert_ne!(v1, v2);
    let add = AddSubcmd { source: Some(s("1.92.0")), toolchain: s("stable") };
    let steps = add.run(&ctx, &release("1.92.0"), &vec![v1.clone()], Some(v1.clone()));
    assert_eq!(steps.len(), 4);
    assert_eq!(steps[3], collect(&v1));
    let referenced = referenced_entries(&vec![Some(v2.clone()), None]);
    assert_eq!(gc_removals(&Some(vec![v1.clone()]), &vec![v1.clone(), v2.clone()], &referenced), vec![v1]);
}

#[test]
fn remove_missing_link_fails() {
    let ctx = Ctx::new("/h", TARGET);
    let rm = RmSubCmd { toolchain: s("beta") };
    assert_eq!(
        rm.run(&ctx, None),
        Err(PoolError::LinkMissing { name: s("beta-x86_64-unknown-linux-gnu") })
    );
}

#[test]
fn comp_add_rm() {
    let ctx = Ctx::new("/h", TARGET);
    let link = "1.78-x86_64-unknown-linux-gnu";
    let original = release("1.78.0");
    let a = original.id();

    let rm = CompRmSubcmd { toolchain: s("1.78"), components: vec![s("cargo")] };
    let steps = rm.run(&ctx, original.clone(), Some(a.clone()), &vec![a.clone()]).unwrap();
    let b = match &steps[1] {
        Step::Stage { entry, .. } => entry.clone(),
        other => panic!("unexpected first step {other:?}"),
    };
    assert_ne!(a, b);
    assert_eq!(
        steps,
        vec![
            Step::Derive { from: a.clone(), entry: b.clone(), components: vec![s("cargo")], add: false },
            stage(link, &b),
            commit(link),
            collect(&a),
        ]
    );

    let mut without_cargo = original.clone();
    without_cargo.remove_component("cargo-x86_64-unknown-linux-gnu");
    assert_eq!(without_cargo.id(), b);

    // Adding cargo back returns to the first entry, derived anew after it was collected.
    let add = CompAddSubcmd { toolchain: s("1.78"), components: vec![s("cargo")] };
    let steps = add.run(&ctx, without_cargo.clone(), Some(b.clone()), &vec![b.clone()]).unwrap();
    assert_eq!(steps[1], stage(link, &a));
    assert_eq!(steps[3], collect(&b));

    // With the first entry still present it is reused.
    let steps = add.run(&ctx, without_cargo, Some(b.clone()), &vec![a.clone(), b.clone()]).unwrap();
    assert_eq!(steps, vec![stage(link, &a), commit(link), collect(&b)]);
}

#[test]
fn component_edit_without_components_does_nothing() {
    let ctx = Ctx::new("/h", TARGET);
    let add = CompAddSubcmd { toolchain: s("1.78"), components: vec![] };
    assert_eq!(add.run(&ctx, release("1.78.0"), None, &vec![]), Ok(vec![]));
    let rm = CompRmSubcmd { toolchain: s("1.78"), components: vec![s("cargo")] };
    assert!(matches!(
        rm.run(&ctx, release("1.78.0"), None, &vec![]),
        Err(PoolError::LinkMissing { .. })
    ));
}

#[test]
fn gc_skips_empty_candidates() {
    assert!(!gc_needed(&Some(vec![])));
    assert!(gc_needed(&Some(vec![s("x")])));
    assert!(gc_needed(&None));
}

#[test]
fn gc_removes_each_unreferenced_candidate_once() {
    let referenced = referenced_entries(&vec![Some(s("a")), None, Some(s("a")), Some(s("b"))]);
    assert_eq!(referenced, vec![s("a"), s("b")]);
    let pool = vec![s("a"), s("b"), s("c"), s("d")];
    let removals = gc_removals(&Some(vec![s("c"), s("a"), s("c"), s("d")]), &pool, &referenced);
    assert_eq!(removals, vec![s("c"), s("d")]);
}

#[test]
fn gc_without_candidates_sweeps_unreferenced_entries() {
    let referenced = referenced_entries(&vec![Some(s("a")), None, Some(s("b"))]);
    let pool = vec![s("a"), s("x"), s("b"), s("y")];
    assert_eq!(gc_removals(&None, &pool, &referenced), vec![s("x"), s("y")]);
    assert!(gc_removals(&None, &vec![s("a")], &referenced).is_empty());
}

#[test]
fn nothing_before_commit_touches_links_or_removes_entries() {
    let ctx = Ctx::new("/h", TARGET);
    let old = release("1.91.0").id();
    let add = AddSubcmd { source: Some(s("1.92.0")), toolchain: s("stable") };
    let steps = add.run(&ctx, &release("1.92.0"), &vec![old.clone()], Some(old.clone()));
    let commit_at = steps
        .iter()
        .position(|st| matches!(st, Step::Commit { .. }))
        .expect("a commit step");
    assert_eq!(commit_at, 2);
    for st in &steps[..commit_at] {
        assert!(matches!(st, Step::Stage { .. } | Step::Install { .. }), "{st:?}");
    }
    assert!(matches!(steps[commit_at + 1], Step::Collect { .. }));
}
