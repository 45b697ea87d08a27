use rynzland::{default_component_names, IdentifiableToolchain};

const TARGET: &str = "x86_64-unknown-linux-gnu";

fn names(items: &[&str]) -> Vec<String> {
    items.iter().map(|s| s.to_string()).collect()
}

#[test]
fn identity_of_default_release() {
    let t = IdentifiableToolchain::from_release("1.81.0".to_string(), &vec![], TARGET);
    assert_eq!(t.id(), "1.81.0-f0f8p0un9fnf3-3fnknjs6j20h0");
}

#[test]
fn identity_keeps_only_leading_version_digits() {
    let t = IdentifiableToolchain::from_release(
        "1.81.0 (eeb90cda1 2024-09-04)".to_string(),
        &vec![],
        TARGET,
    );
    assert_eq!(t.id(), "1.81.0-ckxd6nk9ssa9t-3fnknjs6j20h0");
}

#[test]
fn identity_without_version_digits_is_unknown() {
    let t = IdentifiableToolchain::new("nightly".to_string(), &vec![]);
    assert_eq!(t.id(), "unknown-d68vs5uz6xk49-416h1tvuut5f7");
}

#[test]
fn identity_ignores_order_and_repeats() {
    let a = IdentifiableToolchain::new("1.78.0".to_string(), &names(&["b", "a"]));
    let b = IdentifiableToolchain::new("1.78.0".to_string(), &names(&["a", "b", "a", "b"]));
    assert_eq!(a.id(), b.id());
    assert_eq!(a.id(), "1.78.0-37dyafq7j52mr-4xu112udn0dax");
    assert_eq!(a.components(), &names(&["a", "b"]));
}

#[test]
fn identity_tells_versions_and_components_apart() {
    let comps = names(&["a", "b"]);
    let base = IdentifiableToolchain::new("1.78.0".to_string(), &comps).id();
    let other_ver = IdentifiableToolchain::new("1.78.1".to_string(), &comps).id();
    let other_comps = IdentifiableToolchain::new("1.78.0".to_string(), &names(&["a"])).id();
    let split_differently = IdentifiableToolchain::new("1.78.0".to_string(), &names(&["ab"])).id();
    assert_ne!(base, other_ver);
    assert_ne!(base, other_comps);
    assert_ne!(base, split_differently);
    assert_ne!(other_comps, split_differently);
}

#[test]
fn default_components_are_qualified() {
    assert_eq!(
        default_component_names(TARGET),
        names(&[
            "rustc-x86_64-unknown-linux-gnu",
            "cargo-x86_64-unknown-linux-gnu",
            "rust-std-x86_64-unknown-linux-gnu",
        ])
    );
    assert_eq!(
        default_component_names("x86_64-pc-windows-gnu"),
        names(&[
            "rustc-x86_64-pc-windows-gnu",
            "cargo-x86_64-pc-windows-gnu",
            "rust-std-x86_64-pc-windows-gnu",
            "rust-mingw-x86_64-pc-windows-gnu",
        ])
    );
}

#[test]
fn explicit_components_replace_defaults() {
    let t = IdentifiableToolchain::from_release(
        "1.81.0".to_string(),
        &names(&["rustc", "clippy-x86_64-unknown-linux-gnu"]),
        TARGET,
    );
    assert_eq!(
        t.components(),
        &names(&[
            "clippy-x86_64-unknown-linux-gnu",
            "rustc-x86_64-unknown-linux-gnu",
        ])
    );
    assert_eq!(t.rust_ver(), "1.81.0");
}

#[test]
fn component_round_trip_restores_identity() {
    let mut t = IdentifiableToolchain::from_release("1.78.0".to_string(), &vec![], TARGET);
    let before = t.id();
    t.apply_delta(&names(&["rust-src"]), true, TARGET);
    let added = t.id();
    assert_ne!(before, added);
    assert!(t
        .components()
        .contains(&"rust-src-x86_64-unknown-linux-gnu".to_string()));
    t.apply_delta(&names(&["rust-src"]), false, TARGET);
    assert_eq!(t.id(), before);
}

#[test]
fn removing_an_absent_component_changes_nothing() {
    let mut t = IdentifiableToolchain::from_release("1.78.0".to_string(), &vec![], TARGET);
    let before = t.id();
    t.remove_component("clippy-x86_64-unknown-linux-gnu");
    assert_eq!(t.id(), before);
    t.insert_component("cargo-x86_64-unknown-linux-gnu".to_string());
    assert_eq!(t.id(), before);
}

#[test]
fn toolchain_id() {
    let listing = "rust-std-x86_64-unknown-linux-gnu\nrustc-x86_64-unknown-linux-gnu\ncargo-x86_64-unknown-linux-gnu\n";
    let id_from_disk = IdentifiableToolchain::from_listing("1.92.0".to_string(), listing).id();
    let id_from_remote =
        IdentifiableToolchain::from_release("1.92.0".to_string(), &vec![], TARGET).id();
    assert_eq!(id_from_disk, id_from_remote);
    let id_from_remote_nightly = IdentifiableToolchain::from_release(
        "1.94.0-nightly (2025-12-01)".to_string(),
        &vec![],
        TARGET,
    )
    .id();
    assert_ne!(id_from_disk, id_from_remote_nightly);
}
