use workspace_sandbox::manifest::{
    DepEntry, FieldKey, FieldValue, RewriteCtx, dep_table_well_formed, rewrite_dep_table,
    widen_dep_table,
};
use workspace_sandbox::paths::{
    join_path, normalize_segments, parse_path, wildcard_version,
};
use workspace_sandbox::project::{
    ManifestDoc, TableMutation, TargetBlock, TargetValue, inject_stub_targets,
    manifest_deps_well_formed, mutate_manifest, prepare_manifest_latest, prepare_manifest_semver,
};

fn s(x: &str) -> String {
    x.to_string()
}

fn segs(xs: &[&str]) -> Vec<String> {
    xs.iter().map(|x| x.to_string()).collect()
}

fn ctx(orig_root: &[&str], manifest_dir: &[&str], sandbox_dirs: &[&[&str]]) -> RewriteCtx {
    RewriteCtx {
        orig_root: segs(orig_root),
        manifest_dir: segs(manifest_dir),
        sandbox_dirs: sandbox_dirs.iter().map(|d| segs(d)).collect(),
    }
}

type Entry = DepEntry<i64>;
type Doc = ManifestDoc<i64>;

#[test]
fn parse_relative_path() {
    let p = parse_path("../b");
    assert!(!p.absolute);
    assert_eq!(p.segments, segs(&["..", "b"]));
}

#[test]
fn parse_absolute_path_with_repeats() {
    let p = parse_path("/ws//a\\c/");
    assert!(p.absolute);
    assert_eq!(p.segments, segs(&["ws", "a", "c"]));
}

#[test]
fn parse_empty_path() {
    let p = parse_path("");
    assert!(!p.absolute);
    assert!(p.segments.is_empty());
}

#[test]
fn join_paths() {
    assert_eq!(join_path(true, &segs(&["ws", "a"])), "/ws/a");
    assert_eq!(join_path(false, &segs(&["a", "b"])), "a/b");
    assert_eq!(join_path(true, &segs(&[])), "/");
    assert_eq!(join_path(false, &segs(&[])), "");
}

#[test]
fn normalize_resolves_dots() {
    assert_eq!(normalize_segments(false, segs(&["a", "..", "b"])), segs(&["b"]));
    assert_eq!(normalize_segments(false, segs(&["a", ".", "b"])), segs(&["a", "b"]));
    assert_eq!(
        normalize_segments(false, segs(&["..", "..", "x"])),
        segs(&["..", "..", "x"])
    );
    assert_eq!(normalize_segments(true, segs(&["..", "x"])), segs(&["x"]));
    assert_eq!(
        normalize_segments(true, segs(&["ws", "a", "..", "..", "..", "out"])),
        segs(&["out"])
    );
}

#[test]
fn wildcard_is_star() {
    assert_eq!(wildcard_version(), "*");
}

#[test]
fn widen_bare_version_string() {
    let t: Vec<(String, Entry)> = vec![(s("serde"), DepEntry::Version(s("1.0")))];
    let r = widen_dep_table(t);
    assert_eq!(r, vec![(s("serde"), DepEntry::Version(s("*")))]);
}

#[test]
fn widen_table_with_version_keeps_other_fields() {
    let t: Vec<(String, Entry)> = vec![(
        s("b"),
        DepEntry::Table(vec![
            (FieldKey::PathKey, FieldValue::Str(s("../b"))),
            (FieldKey::VersionKey, FieldValue::Str(s("1.0"))),
            (FieldKey::OtherKey(s("features")), FieldValue::Opaque(7)),
        ]),
    )];
    let r = widen_dep_table(t);
    assert_eq!(
        r,
        vec![(
            s("b"),
            DepEntry::Table(vec![
                (FieldKey::PathKey, FieldValue::Str(s("../b"))),
                (FieldKey::VersionKey, FieldValue::Str(s("*"))),
                (FieldKey::OtherKey(s("features")), FieldValue::Opaque(7)),
            ]),
        )]
    );
}

#[test]
fn widen_table_without_version_unchanged() {
    let t: Vec<(String, Entry)> = vec![(
        s("b"),
        DepEntry::Table(vec![(FieldKey::PathKey, FieldValue::Str(s("../b")))]),
    )];
    let before = t.clone();
    let r = widen_dep_table(t);
    assert_eq!(r, before);
}

#[test]
fn malformed_entry_is_detected() {
    let good: Vec<(String, Entry)> = vec![(s("a"), DepEntry::Version(s("1")))];
    let bad: Vec<(String, Entry)> = vec![(s("a"), DepEntry::Malformed(3))];
    assert!(dep_table_well_formed(&good));
    assert!(!dep_table_well_formed(&bad));
    let doc = Doc {
        package: None,
        bin: None,
        lib: None,
        dependencies: Some(bad),
        dev_dependencies: None,
        build_dependencies: None,
        targets: None,
    };
    assert!(!manifest_deps_well_formed(&doc));
}

#[test]
fn rewrite_leaves_path_resolving_in_sandbox() {
    // The mirrored structure carries an intra-workspace path dependency:
    // the entry stays identical.
    let c = ctx(&["ws"], &["a"], &[&["a"], &["b"]]);
    let t: Vec<(String, Entry)> = vec![(
        s("b"),
        DepEntry::Table(vec![(FieldKey::PathKey, FieldValue::Str(s("../b")))]),
    )];
    let before = t.clone();
    let r = rewrite_dep_table(t, &c);
    assert_eq!(r, before);
}

#[test]
fn rewrite_absolutizes_escaping_path() {
    // A path dependency pointing outside the workspace is rewritten to the
    // canonical absolute location resolved against the original workspace.
    let c = ctx(&["ws"], &["a"], &[&["a"], &["b"]]);
    let t: Vec<(String, Entry)> = vec![(
        s("outside"),
        DepEntry::Table(vec![(FieldKey::PathKey, FieldValue::Str(s("../../outside")))]),
    )];
    let r = rewrite_dep_table(t, &c);
    assert_eq!(
        r,
        vec![(
            s("outside"),
            DepEntry::Table(vec![(FieldKey::PathKey, FieldValue::Str(s("/outside")))]),
        )]
    );
}

#[test]
fn rewrite_ignores_absolute_and_bare_entries() {
    let c = ctx(&["ws"], &["a"], &[&["a"]]);
    let t: Vec<(String, Entry)> = vec![
        (
            s("abs"),
            DepEntry::Table(vec![(FieldKey::PathKey, FieldValue::Str(s("/somewhere/else")))]),
        ),
        (s("serde"), DepEntry::Version(s("1.0"))),
        (
            s("noversion"),
            DepEntry::Table(vec![(FieldKey::OtherKey(s("git")), FieldValue::Opaque(1))]),
        ),
    ];
    let before = t.clone();
    let r = rewrite_dep_table(t, &c);
    assert_eq!(r, before);
}

#[test]
fn rewrite_twice_changes_nothing_more() {
    // Running the path rewrite on an already-rewritten table is a no-op:
    // entries resolving inside the sandbox are stable, and absolutized
    // entries are no longer relative.
    let c = ctx(&["ws"], &["a"], &[&["a"], &["b"]]);
    let t: Vec<(String, Entry)> = vec![
        (
            s("b"),
            DepEntry::Table(vec![(FieldKey::PathKey, FieldValue::Str(s("../b")))]),
        ),
        (
            s("outside"),
            DepEntry::Table(vec![(FieldKey::PathKey, FieldValue::Str(s("../../outside")))]),
        ),
    ];
    let once = rewrite_dep_table(t, &c);
    let twice = rewrite_dep_table(once.clone(), &c);
    assert_eq!(twice, once);
}

#[test]
fn widen_covers_every_dependency_table() {
    // The widening pass reaches the normal, dev and build tables and every
    // platform-target's tables.
    let mk = |name: &str| -> Vec<(String, Entry)> {
        vec![(s(name), DepEntry::Version(s("0.9")))]
    };
    let doc = Doc {
        package: Some(11),
        bin: None,
        lib: None,
        dependencies: Some(mk("a")),
        dev_dependencies: Some(mk("b")),
        build_dependencies: Some(mk("c")),
        targets: Some(vec![
            (
                s("cfg(unix)"),
                TargetValue::Block(TargetBlock {
                    dependencies: Some(mk("d")),
                    dev_dependencies: Some(mk("e")),
                    build_dependencies: None,
                    rest: Some(5),
                }),
            ),
            (s("cfg(windows)"), TargetValue::Opaque(9)),
        ]),
    };
    let r = mutate_manifest(doc, &TableMutation::WidenVersions);
    let star = |name: &str| -> Vec<(String, Entry)> {
        vec![(s(name), DepEntry::Version(s("*")))]
    };
    assert_eq!(r.package, Some(11));
    assert_eq!(r.dependencies, Some(star("a")));
    assert_eq!(r.dev_dependencies, Some(star("b")));
    assert_eq!(r.build_dependencies, Some(star("c")));
    assert_eq!(
        r.targets,
        Some(vec![
            (
                s("cfg(unix)"),
                TargetValue::Block(TargetBlock {
                    dependencies: Some(star("d")),
                    dev_dependencies: Some(star("e")),
                    build_dependencies: None,
                    rest: Some(5),
                }),
            ),
            (s("cfg(windows)"), TargetValue::Opaque(9)),
        ])
    );
}

#[test]
fn stub_targets_replace_bin_and_lib_path() {
    let doc = Doc {
        package: Some(1),
        bin: Some(vec![vec![(FieldKey::NameKey, FieldValue::Str(s("real")))]]),
        lib: Some(vec![(FieldKey::NameKey, FieldValue::Str(s("mylib")))]),
        dependencies: None,
        dev_dependencies: None,
        build_dependencies: None,
        targets: None,
    };
    let r = inject_stub_targets(doc);
    assert_eq!(
        r.bin,
        Some(vec![vec![
            (FieldKey::NameKey, FieldValue::Str(s("test"))),
            (FieldKey::PathKey, FieldValue::Str(s("test.rs"))),
        ]])
    );
    assert_eq!(
        r.lib,
        Some(vec![
            (FieldKey::NameKey, FieldValue::Str(s("mylib"))),
            (FieldKey::PathKey, FieldValue::Str(s("test_lib.rs"))),
        ])
    );
}

#[test]
fn stub_targets_overwrite_existing_lib_path() {
    let doc = Doc {
        package: None,
        bin: None,
        lib: Some(vec![(FieldKey::PathKey, FieldValue::Str(s("src/lib.rs")))]),
        dependencies: None,
        dev_dependencies: None,
        build_dependencies: None,
        targets: None,
    };
    let r = inject_stub_targets(doc);
    assert_eq!(
        r.lib,
        Some(vec![(FieldKey::PathKey, FieldValue::Str(s("test_lib.rs")))])
    );
}

#[test]
fn widen_pass_runs_on_rewritten_manifest() {
    // Workspace /ws with member a holding a path dependency on ../b and a
    // version requirement on serde. After the path pass and then the widen
    // pass: serde is "*" and the path is untouched, because it resolves
    // inside the sandbox where b was mirrored.
    let c = ctx(&["ws"], &["a"], &[&["a"], &["b"]]);
    let doc = Doc {
        package: Some(0),
        bin: None,
        lib: None,
        dependencies: Some(vec![
            (
                s("b"),
                DepEntry::Table(vec![(FieldKey::PathKey, FieldValue::Str(s("../b")))]),
            ),
            (s("serde"), DepEntry::Version(s("1.0"))),
        ]),
        dev_dependencies: None,
        build_dependencies: None,
        targets: None,
    };
    let first = prepare_manifest_semver(doc, c);
    assert_eq!(
        first.doc.dependencies,
        Some(vec![
            (
                s("b"),
                DepEntry::Table(vec![(FieldKey::PathKey, FieldValue::Str(s("../b")))]),
            ),
            (s("serde"), DepEntry::Version(s("1.0"))),
        ])
    );
    let second = prepare_manifest_latest(first);
    assert_eq!(
        second.dependencies,
        Some(vec![
            (
                s("b"),
                DepEntry::Table(vec![(FieldKey::PathKey, FieldValue::Str(s("../b")))]),
            ),
            (s("serde"), DepEntry::Version(s("*"))),
        ])
    );
}

#[test]
fn escaping_path_becomes_canonical_absolute() {
    // Member a depends on "../../outside", which lies outside /ws: after the
    // rewrite the path value is the canonicalized absolute location.
    let c = ctx(&["ws"], &["a"], &[&["a"]]);
    let doc = Doc {
        package: None,
        bin: None,
        lib: None,
        dependencies: Some(vec![(
            s("outside"),
            DepEntry::Table(vec![(FieldKey::PathKey, FieldValue::Str(s("../../outside")))]),
        )]),
        dev_dependencies: None,
        build_dependencies: None,
        targets: None,
    };
    let first = prepare_manifest_semver(doc, c);
    assert_eq!(
        first.doc.dependencies,
        Some(vec![(
            s("outside"),
            DepEntry::Table(vec![(FieldKey::PathKey, FieldValue::Str(s("/outside")))]),
        )])
    );
}
