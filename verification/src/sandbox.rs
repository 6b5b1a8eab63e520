//! The sandbox copy plan: where each discovered manifest directory is
//! recreated under the sandbox root, mirroring its position relative to the
//! original workspace root, plus the decisions around the top-level virtual
//! manifest and the resolver environment.

use vstd::prelude::*;
use vstd::string::*;
use crate::paths::{
    segs_view, paths_view, is_seq_prefix, is_segs_prefix, strip_segs_prefix, clone_segments,
    clone_string,
};
use crate::manifest::contains_seg_path;
use crate::graph::{PackageGraph, graph_wf, members_wf, collected, workspace_manifest_dirs};

verus! {

/// One manifest directory to recreate: the original absolute directory and
/// its directory relative to the workspace root, which is also its directory
/// relative to the sandbox root.
#[derive(Debug, Clone, PartialEq, Eq)]
pub struct CopyStep {
    pub src_dir: Vec<String>,
    pub rel_dir: Vec<String>,
}

/// Whether every directory of the list lies under the given root.
pub fn all_under_root(root: &Vec<String>, dirs: &Vec<Vec<String>>) -> (r: bool)
    ensures
        r == forall|i: int|
            0 <= i < dirs@.len() ==> is_seq_prefix(
                segs_view(root@),
                #[trigger] paths_view(dirs@)[i],
            ),
{
    let mut i: usize = 0;
    while i < dirs.len()
        invariant
            0 <= i <= dirs@.len(),
            forall|j: int|
                0 <= j < i ==> is_seq_prefix(segs_view(root@), #[trigger] paths_view(dirs@)[j]),
        decreases dirs@.len() - i,
    {
        if !is_segs_prefix(root, &dirs[i]) {
            proof {
                assert(!is_seq_prefix(segs_view(root@), paths_view(dirs@)[i as int]));
            }
            return false;
        }
        proof {
            assert(is_seq_prefix(segs_view(root@), paths_view(dirs@)[i as int]));
        }
        i = i + 1;
    }
    true
}

/// Build the copy plan for the discovered manifest directories. Each step's
/// directory relative to the sandbox root equals the original directory
/// relative to the workspace root: the mirrored structure is what keeps
/// intra-workspace relative path dependencies valid.
pub fn copy_plan(ws_root: &Vec<String>, dirs: &Vec<Vec<String>>) -> (r: Vec<CopyStep>)
    requires
        forall|i: int|
            0 <= i < dirs@.len() ==> is_seq_prefix(
                segs_view(ws_root@),
                #[trigger] paths_view(dirs@)[i],
            ),
    ensures
        r@.len() == dirs@.len(),
        forall|i: int| 0 <= i < dirs@.len() ==> {
            &&& (#[trigger] r@[i]).src_dir@ == dirs@[i]@
            &&& segs_view(ws_root@) + segs_view(r@[i].rel_dir@) == segs_view(dirs@[i]@)
        },
{
    let mut out: Vec<CopyStep> = Vec::new();
    let mut i: usize = 0;
    while i < dirs.len()
        invariant
            0 <= i <= dirs@.len(),
            out@.len() == i,
            forall|j: int|
                0 <= j < dirs@.len() ==> is_seq_prefix(
                    segs_view(ws_root@),
                    #[trigger] paths_view(dirs@)[j],
                ),
            forall|j: int| 0 <= j < i ==> {
                &&& (#[trigger] out@[j]).src_dir@ == dirs@[j]@
                &&& segs_view(ws_root@) + segs_view(out@[j].rel_dir@) == segs_view(dirs@[j]@)
            },
        decreases dirs@.len() - i,
    {
        proof {
            assert(paths_view(dirs@)[i as int] == segs_view(dirs@[i as int]@));
        }
        let src_dir = clone_segments(&dirs[i]);
        let rel_dir = strip_segs_prefix(ws_root, &dirs[i]);
        out.push(CopyStep { src_dir, rel_dir });
        i = i + 1;
    }
    out
}

/// The sandbox-relative directories of a copy plan, in order: the set of
/// locations that hold a manifest inside the sandbox, as the path-rewrite
/// pass needs them.
pub fn plan_rel_dirs(plan: &Vec<CopyStep>) -> (r: Vec<Vec<String>>)
    ensures
        r@.len() == plan@.len(),
        forall|i: int| 0 <= i < plan@.len() ==> (#[trigger] r@[i])@ == plan@[i].rel_dir@,
{
    let mut out: Vec<Vec<String>> = Vec::new();
    let mut i: usize = 0;
    while i < plan.len()
        invariant
            0 <= i <= plan@.len(),
            out@.len() == i,
            forall|j: int| 0 <= j < i ==> (#[trigger] out@[j])@ == plan@[j].rel_dir@,
        decreases plan@.len() - i,
    {
        out.push(clone_segments(&plan[i].rel_dir));
        i = i + 1;
    }
    out
}

/// Whether the top-level virtual manifest at the workspace root must be
/// copied separately: only when the root directory itself holds no member
/// manifest already in the plan.
pub fn needs_virtual_root(ws_root: &Vec<String>, dirs: &Vec<Vec<String>>) -> (r: bool)
    ensures
        r == !paths_view(dirs@).contains(segs_view(ws_root@)),
{
    !contains_seg_path(dirs, ws_root)
}

/// The flags the caller forwards into the resolver environment.
pub struct ResolverFlags {
    pub verbose: u64,
    pub color: String,
    pub frozen: bool,
    pub locked: bool,
}

/// Everything the resolver invocation is set up with: the active manifest
/// inside the sandbox, the working directory holding it, the forwarded
/// flags, and the lockfile-update options.
pub struct ResolverPlan {
    pub root_manifest: Vec<String>,
    pub cwd: Vec<String>,
    pub quiet: Option<bool>,
    pub color: String,
    pub frozen: bool,
    pub locked: bool,
    pub aggressive: bool,
    pub precise: Option<String>,
    pub to_update: Vec<String>,
}

/// Build the resolver environment plan: the active manifest is the sandbox
/// root joined with the manifest path relative to the original workspace;
/// the working directory is the directory holding it; quiet output is chosen
/// exactly when no verbosity was asked for; the update is never aggressive
/// and restricted to no package.
pub fn resolver_plan(
    sandbox_root: &Vec<String>,
    rel_manifest: &Vec<String>,
    flags: &ResolverFlags,
) -> (r: ResolverPlan)
    requires
        rel_manifest@.len() > 0,
    ensures
        r.root_manifest@ == sandbox_root@ + rel_manifest@,
        r.cwd@ == (sandbox_root@ + rel_manifest@).drop_last(),
        r.quiet == (if flags.verbose > 0 {
            Option::<bool>::None
        } else {
            Some(true)
        }),
        r.color == flags.color,
        r.frozen == flags.frozen,
        r.locked == flags.locked,
        r.aggressive == false,
        r.precise is None,
        r.to_update@ == Seq::<String>::empty(),
{
    let root_manifest = crate::paths::append_segments(sandbox_root, rel_manifest);
    let mut cwd = clone_segments(&root_manifest);
    let _ = cwd.pop();
    let quiet: Option<bool> = if flags.verbose > 0 {
        None
    } else {
        Some(true)
    };
    ResolverPlan {
        root_manifest,
        cwd,
        quiet,
        color: clone_string(&flags.color),
        frozen: flags.frozen,
        locked: flags.locked,
        aggressive: false,
        precise: None,
        to_update: Vec::new(),
    }
}

/// Everything the sandbox construction needs, computed from the workspace
/// description alone: the copy steps, their sandbox-relative directories,
/// whether the top-level virtual manifest must be copied separately, and the
/// active manifest's path relative to the workspace root.
pub struct SandboxPlan {
    pub steps: Vec<CopyStep>,
    pub rel_dirs: Vec<Vec<String>>,
    pub copy_virtual_root: bool,
    pub rel_manifest: Vec<String>,
    pub discovered: Ghost<Seq<int>>,
}

/// Why no sandbox plan could be built.
#[derive(Debug, PartialEq, Eq, Structural)]
pub enum PlanError {
    InconsistentGraph,
    ManifestOutsideWorkspace,
}

/// The original directories the plan copies from, in order.
pub open spec fn plan_src_dirs(steps: Seq<CopyStep>) -> Seq<Vec<String>> {
    steps.map_values(|s: CopyStep| s.src_dir)
}

/// Build the whole sandbox plan for a workspace: walk the graph for the
/// manifest directories to mirror, lay out the copy steps, decide on the
/// virtual root, and place the active manifest relative to the root.
pub fn plan_sandbox(
    g: &PackageGraph,
    members: &Vec<usize>,
    ws_root: &Vec<String>,
    orig_manifest: &Vec<String>,
) -> (r: Result<SandboxPlan, PlanError>)
    ensures
        (r is Ok) == (graph_wf(g.packages@) && members_wf(g.packages@, members@)
            && is_seq_prefix(segs_view(ws_root@), segs_view(orig_manifest@))),
        match r {
            Ok(plan) => {
                &&& collected(
                    g.packages@,
                    members@,
                    segs_view(ws_root@),
                    plan.discovered@,
                    plan_src_dirs(plan.steps@),
                )
                &&& forall|i: int| 0 <= i < plan.steps@.len()
                    ==> segs_view(ws_root@) + segs_view((#[trigger] plan.steps@[i]).rel_dir@)
                        == segs_view(plan.steps@[i].src_dir@)
                &&& plan.rel_dirs@.len() == plan.steps@.len()
                &&& forall|i: int| 0 <= i < plan.steps@.len()
                    ==> (#[trigger] plan.rel_dirs@[i])@ == plan.steps@[i].rel_dir@
                &&& plan.copy_virtual_root == !paths_view(plan_src_dirs(plan.steps@)).contains(
                    segs_view(ws_root@),
                )
                &&& segs_view(ws_root@) + segs_view(plan.rel_manifest@)
                    == segs_view(orig_manifest@)
            },
            Err(e) => (e == PlanError::InconsistentGraph) == !(graph_wf(g.packages@)
                && members_wf(g.packages@, members@)),
        },
{
    let (dirs_res, ghost_ix) = workspace_manifest_dirs(g, members, ws_root);
    let dirs = match dirs_res {
        Ok(d) => d,
        Err(_) => {
            return Err(PlanError::InconsistentGraph);
        },
    };
    if !is_segs_prefix(ws_root, orig_manifest) {
        return Err(PlanError::ManifestOutsideWorkspace);
    }
    proof {
        assert forall|i: int|
            0 <= i < dirs@.len() implies is_seq_prefix(
            segs_view(ws_root@),
            #[trigger] paths_view(dirs@)[i],
        ) by {
            assert(ghost_ix@[i] == ghost_ix@[i]);
            assert(dirs@[i]@ == g.packages@[ghost_ix@[i]].root@);
        }
    }
    let steps = copy_plan(ws_root, &dirs);
    let rel_dirs = plan_rel_dirs(&steps);
    let copy_virtual_root = needs_virtual_root(ws_root, &dirs);
    let rel_manifest = strip_segs_prefix(ws_root, orig_manifest);
    proof {
        assert(plan_src_dirs(steps@).len() == dirs@.len());
        assert forall|k: int|
            0 <= k < dirs@.len() implies (#[trigger] plan_src_dirs(steps@)[k])@ == dirs@[k]@ by {
            assert(steps@[k].src_dir@ == dirs@[k]@);
        }
        assert(collected(
            g.packages@,
            members@,
            segs_view(ws_root@),
            ghost_ix@,
            plan_src_dirs(steps@),
        ));
        assert(paths_view(plan_src_dirs(steps@)) =~= paths_view(dirs@));
    }
    Ok(
        SandboxPlan {
            steps,
            rel_dirs,
            copy_virtual_root,
            rel_manifest,
            discovered: ghost_ix,
        },
    )
}

} // verus!
