use rynzland::{manifest_url, qualify_with_target, rustup_url, with_tmp, Ctx};

const TARGET: &str = "x86_64-unknown-linux-gnu";

#[test]
fn qualify_appends_target_once() {
    assert_eq!(qualify_with_target("stable", TARGET), "stable-x86_64-unknown-linux-gnu");
    assert_eq!(
        qualify_with_target("stable-x86_64-unknown-linux-gnu", TARGET),
        "stable-x86_64-unknown-linux-gnu"
    );
    assert_eq!(qualify_with_target("", TARGET), "-x86_64-unknown-linux-gnu");
    assert_eq!(
        qualify_with_target("x86_64-unknown-linux-gnu", TARGET),
        "x86_64-unknown-linux-gnu-x86_64-unknown-linux-gnu"
    );
}

#[test]
fn tmp_twin_appends_suffix() {
    assert_eq!(with_tmp("/a/b/stable"), "/a/b/stable.tmp");
    assert_eq!(with_tmp("x.tar"), "x.tar.tmp");
}

#[test]
fn urls_name_channel_and_target() {
    assert_eq!(
        manifest_url("1.81.0"),
        "https://static.rust-lang.org/dist/channel-rust-1.81.0.toml"
    );
    assert_eq!(
        rustup_url("1.28.2", TARGET, ""),
        "https://static.rust-lang.org/rustup/archive/1.28.2/x86_64-unknown-linux-gnu/rustup-init"
    );
    assert_eq!(
        rustup_url("1.28.2", "x86_64-pc-windows-msvc", ".exe"),
        "https://static.rust-lang.org/rustup/archive/1.28.2/x86_64-pc-windows-msvc/rustup-init.exe"
    );
}

#[test]
fn context_lays_out_home() {
    let ctx = Ctx::new("/h", TARGET);
    assert_eq!(ctx.rustup, "/h/rustup");
    assert_eq!(ctx.rustup_home, "/h/rustup_home");
    assert_eq!(ctx.rynzland_home, "/h/rynzland_home");
    assert_eq!(ctx.cargo_home, "/h/cargo_home");
    assert_eq!(ctx.pool_root(), "/h/rustup_home/toolchains");
    assert_eq!(ctx.links_root(), "/h/rynzland_home/toolchains");
    assert_eq!(ctx.entry_path("1.81.0-x-y"), "/h/rustup_home/toolchains/1.81.0-x-y");
    assert_eq!(ctx.link_path("stable"), "/h/rynzland_home/toolchains/stable");
    assert_eq!(ctx.marker_path("stable"), "/h/rynzland_home/toolchains/stable.tmp");
    assert_eq!(ctx.lock_path(), "/h/rustup_home/toolchains/pool_gc.lock");
}

#[test]
fn lines_follow_std() {
    let cases = ["", "a", "a\n", "a\nb", "a\r\nb\r\n", "\n", "a\n\nb", "baz\r", "x\ry\n"];
    for text in cases {
        let expected: Vec<String> = text.lines().map(|s| s.to_string()).collect();
        assert_eq!(rynzland::split_lines(text), expected, "lines of {text:?}");
    }
}

#[test]
fn shim_args_put_toolchain_first() {
    let run = rynzland::RunSubCmd {
        shim: "cargo".to_string(),
        toolchain: Some("stable".to_string()),
        args: vec!["build".to_string(), "--release".to_string()],
    };
    assert_eq!(run.shim_args(), vec!["+stable", "build", "--release"]);
    let bare = rynzland::RunSubCmd { toolchain: None, ..run };
    assert_eq!(bare.shim_args(), vec!["build", "--release"]);
}

#[test]
fn link_targets_are_relative_to_link_directory() {
    let ctx = Ctx::new("/h", TARGET);
    assert_eq!(
        rynzland::relative_target(&ctx.entry_path("1.81.0-a-b"), &ctx.marker_path("stable")),
        Some("../../rustup_home/toolchains/1.81.0-a-b".to_string())
    );
    assert_eq!(
        rynzland::relative_target("/p/x.tmp", "/p/stable-x86_64-unknown-linux-gnu"),
        Some("x.tmp".to_string())
    );
    assert_eq!(
        rynzland::relative_target("/h/rustup", "/h/cargo_home/bin/rustup"),
        Some("../../rustup".to_string())
    );
    assert_eq!(rynzland::relative_target("/top", "/link"), Some("top".to_string()));
    assert_eq!(rynzland::relative_target("rel/x", "/abs/link"), None);
}
