use workspace_sandbox::graph::{
    GraphError, PackageGraph, PackageInfo, graph_edges_consistent, members_consistent,
    workspace_manifest_dirs,
};
use workspace_sandbox::sandbox::{
    PlanError, ResolverFlags, copy_plan, needs_virtual_root, plan_rel_dirs, plan_sandbox,
    resolver_plan,
};

fn s(x: &str) -> String {
    x.to_string()
}

fn segs(xs: &[&str]) -> Vec<String> {
    xs.iter().map(|x| x.to_string()).collect()
}

fn pkg(root: &[&str], deps: &[usize]) -> PackageInfo {
    PackageInfo { root: segs(root), deps: deps.to_vec() }
}

#[test]
fn walker_collects_diamond_once() {
    // a -> b -> d, a -> c -> d: d is collected once, deduplicated by
    // package identity.
    let g = PackageGraph {
        packages: vec![
            pkg(&["ws", "a"], &[1, 2]),
            pkg(&["ws", "b"], &[3]),
            pkg(&["ws", "c"], &[3]),
            pkg(&["ws", "d"], &[]),
        ],
    };
    let (r, _) = workspace_manifest_dirs(&g, &vec![0], &segs(&["ws"]));
    let mut dirs = r.unwrap();
    dirs.sort();
    assert_eq!(
        dirs,
        vec![
            segs(&["ws", "a"]),
            segs(&["ws", "b"]),
            segs(&["ws", "c"]),
            segs(&["ws", "d"]),
        ]
    );
}

#[test]
fn walker_traverses_but_skips_outside_packages() {
    // The package outside the workspace root is traversed (its dependency
    // inside the root is still collected) but its own directory is not.
    let g = PackageGraph {
        packages: vec![
            pkg(&["ws", "a"], &[1]),
            pkg(&["opt", "ext"], &[2]),
            pkg(&["ws", "b"], &[]),
        ],
    };
    let (r, _) = workspace_manifest_dirs(&g, &vec![0], &segs(&["ws"]));
    let mut dirs = r.unwrap();
    dirs.sort();
    assert_eq!(dirs, vec![segs(&["ws", "a"]), segs(&["ws", "b"])]);
}

#[test]
fn walker_rejects_missing_dependency() {
    let g = PackageGraph { packages: vec![pkg(&["ws", "a"], &[7])] };
    assert!(!graph_edges_consistent(&g));
    let (r, _) = workspace_manifest_dirs(&g, &vec![0], &segs(&["ws"]));
    assert_eq!(r, Err(GraphError::InconsistentGraph));
}

#[test]
fn walker_rejects_missing_member() {
    let g = PackageGraph { packages: vec![pkg(&["ws", "a"], &[])] };
    assert!(!members_consistent(&g, &vec![3]));
    let (r, _) = workspace_manifest_dirs(&g, &vec![3], &segs(&["ws"]));
    assert_eq!(r, Err(GraphError::InconsistentGraph));
}

#[test]
fn walker_ignores_unreachable_packages() {
    let g = PackageGraph {
        packages: vec![pkg(&["ws", "a"], &[]), pkg(&["ws", "lonely"], &[])],
    };
    let (r, _) = workspace_manifest_dirs(&g, &vec![0], &segs(&["ws"]));
    assert_eq!(r.unwrap(), vec![segs(&["ws", "a"])]);
}

#[test]
fn copy_plan_mirrors_workspace_structure() {
    // Each copied manifest's directory relative to the sandbox root equals
    // its original directory relative to the workspace root.
    let ws = segs(&["home", "me", "proj"]);
    let dirs = vec![
        segs(&["home", "me", "proj"]),
        segs(&["home", "me", "proj", "crates", "a"]),
    ];
    let plan = copy_plan(&ws, &dirs);
    assert_eq!(plan.len(), 2);
    assert_eq!(plan[0].src_dir, dirs[0]);
    assert_eq!(plan[0].rel_dir, segs(&[]));
    assert_eq!(plan[1].src_dir, dirs[1]);
    assert_eq!(plan[1].rel_dir, segs(&["crates", "a"]));
    let rel = plan_rel_dirs(&plan);
    assert_eq!(rel, vec![segs(&[]), segs(&["crates", "a"])]);
}

#[test]
fn virtual_root_needed_only_when_absent() {
    let ws = segs(&["ws"]);
    assert!(needs_virtual_root(&ws, &vec![segs(&["ws", "a"])]));
    assert!(!needs_virtual_root(&ws, &vec![segs(&["ws", "a"]), segs(&["ws"])]));
}

#[test]
fn sandbox_plan_for_two_member_workspace() {
    let g = PackageGraph {
        packages: vec![pkg(&["ws", "a"], &[1]), pkg(&["ws", "b"], &[])],
    };
    let plan = match plan_sandbox(
        &g,
        &vec![0, 1],
        &segs(&["ws"]),
        &segs(&["ws", "a", "Cargo.toml"]),
    ) {
        Ok(p) => p,
        Err(_) => panic!("expected a plan"),
    };
    let mut rels = plan.rel_dirs.clone();
    rels.sort();
    assert_eq!(rels, vec![segs(&["a"]), segs(&["b"])]);
    assert!(plan.copy_virtual_root);
    assert_eq!(plan.rel_manifest, segs(&["a", "Cargo.toml"]));
}

#[test]
fn sandbox_plan_rejects_foreign_manifest() {
    let g = PackageGraph { packages: vec![pkg(&["ws", "a"], &[])] };
    let r = plan_sandbox(&g, &vec![0], &segs(&["ws"]), &segs(&["elsewhere", "Cargo.toml"]));
    match r {
        Err(e) => assert_eq!(e, PlanError::ManifestOutsideWorkspace),
        Ok(_) => panic!("expected an error"),
    }
}

#[test]
fn sandbox_plan_rejects_inconsistent_graph() {
    let g = PackageGraph { packages: vec![pkg(&["ws", "a"], &[9])] };
    let r = plan_sandbox(&g, &vec![0], &segs(&["ws"]), &segs(&["ws", "Cargo.toml"]));
    match r {
        Err(e) => assert_eq!(e, PlanError::InconsistentGraph),
        Ok(_) => panic!("expected an error"),
    }
}

#[test]
fn resolver_plan_quiet_unless_verbose() {
    let flags = ResolverFlags { verbose: 0, color: s("auto"), frozen: true, locked: false };
    let r = resolver_plan(&segs(&["tmp", "sbx"]), &segs(&["a", "Cargo.toml"]), &flags);
    assert_eq!(r.root_manifest, segs(&["tmp", "sbx", "a", "Cargo.toml"]));
    assert_eq!(r.cwd, segs(&["tmp", "sbx", "a"]));
    assert_eq!(r.quiet, Some(true));
    assert_eq!(r.color, s("auto"));
    assert!(r.frozen);
    assert!(!r.locked);
    assert!(!r.aggressive);
    assert_eq!(r.precise, None);
    assert!(r.to_update.is_empty());

    let loud = ResolverFlags { verbose: 2, color: s("never"), frozen: false, locked: true };
    let r2 = resolver_plan(&segs(&["tmp", "sbx"]), &segs(&["Cargo.toml"]), &loud);
    assert_eq!(r2.quiet, None);
    assert_eq!(r2.cwd, segs(&["tmp", "sbx"]));
}

#[test]
fn under_root_is_segment_wise() {
    let ws = segs(&["ws"]);
    assert!(workspace_sandbox::sandbox::all_under_root(
        &ws,
        &vec![segs(&["ws"]), segs(&["ws", "a"])]
    ));
    assert!(!workspace_sandbox::sandbox::all_under_root(&ws, &vec![segs(&["opt", "x"])]));
    // A directory is under the root only segment-wise: a sibling whose name
    // merely starts with the root's name is outside.
    assert!(!workspace_sandbox::sandbox::all_under_root(&ws, &vec![segs(&["ws2", "x"])]));
}
