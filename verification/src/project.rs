//! The manifest document model, the uniform mutation applier that covers
//! every place dependencies can appear, stub-target injection, and the two
//! ordered mutation passes a sandboxed manifest goes through.

use vstd::prelude::*;
use vstd::string::*;
use crate::manifest::{
    FieldKey, FieldValue, DepEntry, DepTable, RewriteCtx, find_key, lemma_find_key,
    dep_table_wf, dep_table_well_formed, widen_dep_table, rewrite_dep_table, widened_entry,
    rewritten_entry, dep_entry_wf, lemma_rewrite_preserves_wf, lemma_rewrite_entry_idempotent,
};

verus! {

/// The per-kind dependency tables of one platform-specific target block,
/// plus whatever else the block holds, carried opaquely.
#[derive(Debug, Clone, PartialEq, Eq)]
pub struct TargetBlock<V> {
    pub dependencies: Option<DepTable<V>>,
    pub dev_dependencies: Option<DepTable<V>>,
    pub build_dependencies: Option<DepTable<V>>,
    pub rest: Option<V>,
}

/// The value under one platform-target name: a recognized block, or any
/// other shape, carried opaquely and never touched.
#[derive(Debug, Clone, PartialEq, Eq)]
pub enum TargetValue<V> {
    Block(TargetBlock<V>),
    Opaque(V),
}

/// A dependency manifest: package metadata, target declarations, the three
/// dependency tables, and the per-platform-target tables. Values the
/// mutations never inspect are carried opaquely as `V`.
#[derive(Debug, Clone, PartialEq, Eq)]
pub struct ManifestDoc<V> {
    pub package: Option<V>,
    pub bin: Option<Vec<Vec<(FieldKey, FieldValue<V>)>>>,
    pub lib: Option<Vec<(FieldKey, FieldValue<V>)>>,
    pub dependencies: Option<DepTable<V>>,
    pub dev_dependencies: Option<DepTable<V>>,
    pub build_dependencies: Option<DepTable<V>>,
    pub targets: Option<Vec<(String, TargetValue<V>)>>,
}

/// The two dependency-table mutations a policy pass applies.
pub enum TableMutation {
    WidenVersions,
    RewritePaths(RewriteCtx),
}

/// The per-declaration relation a mutation establishes.
pub open spec fn entry_mutated<V>(m: TableMutation, o: DepEntry<V>, n: DepEntry<V>) -> bool {
    match m {
        TableMutation::WidenVersions => widened_entry(o, n),
        TableMutation::RewritePaths(ctx) => rewritten_entry(ctx, o, n),
    }
}

/// A whole table, mutated declaration by declaration, names kept in order.
pub open spec fn table_mutated<V>(
    m: TableMutation,
    o: Seq<(String, DepEntry<V>)>,
    n: Seq<(String, DepEntry<V>)>,
) -> bool {
    &&& n.len() == o.len()
    &&& forall|i: int| 0 <= i < o.len() ==> {
        &&& (#[trigger] n[i]).0 == o[i].0
        &&& entry_mutated(m, o[i].1, n[i].1)
    }
}

/// An optional table: absent stays absent, present is mutated.
pub open spec fn opt_table_mutated<V>(
    m: TableMutation,
    o: Option<DepTable<V>>,
    n: Option<DepTable<V>>,
) -> bool {
    match o {
        None => n is None,
        Some(t) => match n {
            Some(nt) => table_mutated(m, t@, nt@),
            None => false,
        },
    }
}

/// One platform-target value, mutated: a block has each of its tables
/// mutated and the rest kept; any other value is kept.
pub open spec fn target_value_mutated<V>(
    m: TableMutation,
    o: TargetValue<V>,
    n: TargetValue<V>,
) -> bool {
    match o {
        TargetValue::Opaque(_) => n == o,
        TargetValue::Block(b) => match n {
            TargetValue::Block(nb) => {
                &&& opt_table_mutated(m, b.dependencies, nb.dependencies)
                &&& opt_table_mutated(m, b.dev_dependencies, nb.dev_dependencies)
                &&& opt_table_mutated(m, b.build_dependencies, nb.build_dependencies)
                &&& nb.rest == b.rest
            },
            _ => false,
        },
    }
}

/// The optional platform-target map, mutated value by value.
pub open spec fn targets_mutated<V>(
    m: TableMutation,
    o: Option<Vec<(String, TargetValue<V>)>>,
    n: Option<Vec<(String, TargetValue<V>)>>,
) -> bool {
    match o {
        None => n is None,
        Some(l) => match n {
            Some(nl) => {
                &&& nl@.len() == l@.len()
                &&& forall|i: int| 0 <= i < l@.len() ==> {
                    &&& (#[trigger] nl@[i]).0 == l@[i].0
                    &&& target_value_mutated(m, l@[i].1, nl@[i].1)
                }
            },
            None => false,
        },
    }
}

/// The whole document, mutated uniformly: the normal, dev and build tables
/// and every platform-target's tables are mutated; every other field is
/// untouched.
pub open spec fn manifest_mutated<V>(
    m: TableMutation,
    o: ManifestDoc<V>,
    n: ManifestDoc<V>,
) -> bool {
    &&& n.package == o.package
    &&& n.bin == o.bin
    &&& n.lib == o.lib
    &&& opt_table_mutated(m, o.dependencies, n.dependencies)
    &&& opt_table_mutated(m, o.dev_dependencies, n.dev_dependencies)
    &&& opt_table_mutated(m, o.build_dependencies, n.build_dependencies)
    &&& targets_mutated(m, o.targets, n.targets)
}

/// Every dependency declaration of the document, in all four places, is a
/// string or a structured table.
pub open spec fn opt_table_wf<V>(o: Option<DepTable<V>>) -> bool {
    match o {
        None => true,
        Some(t) => dep_table_wf(t@),
    }
}

/// Well-formedness of every dependency table of a document.
pub open spec fn manifest_deps_wf<V>(d: ManifestDoc<V>) -> bool {
    &&& opt_table_wf(d.dependencies)
    &&& opt_table_wf(d.dev_dependencies)
    &&& opt_table_wf(d.build_dependencies)
    &&& match d.targets {
        None => true,
        Some(l) => forall|i: int| 0 <= i < l@.len() ==> match (#[trigger] l@[i]).1 {
            TargetValue::Block(b) => opt_table_wf(b.dependencies) && opt_table_wf(
                b.dev_dependencies,
            ) && opt_table_wf(b.build_dependencies),
            TargetValue::Opaque(_) => true,
        },
    }
}

/// Check one optional table for well-formedness.
fn opt_table_well_formed<V>(o: &Option<DepTable<V>>) -> (r: bool)
    ensures
        r == opt_table_wf(*o),
{
    match o {
        None => true,
        Some(t) => dep_table_well_formed(t),
    }
}

/// Check every dependency declaration of a document: a malformed one is a
/// fatal input-format violation the mutations refuse to run on.
pub fn manifest_deps_well_formed<V>(d: &ManifestDoc<V>) -> (r: bool)
    ensures
        r == manifest_deps_wf(*d),
{
    if !opt_table_well_formed(&d.dependencies) {
        return false;
    }
    if !opt_table_well_formed(&d.dev_dependencies) {
        return false;
    }
    if !opt_table_well_formed(&d.build_dependencies) {
        return false;
    }
    match &d.targets {
        None => true,
        Some(l) => {
            let mut i: usize = 0;
            while i < l.len()
                invariant
                    0 <= i <= l@.len(),
                    d.targets == Some(*l),
                    opt_table_wf(d.dependencies),
                    opt_table_wf(d.dev_dependencies),
                    opt_table_wf(d.build_dependencies),
                    forall|j: int| 0 <= j < i ==> match (#[trigger] l@[j]).1 {
                        TargetValue::Block(b) => opt_table_wf(b.dependencies) && opt_table_wf(
                            b.dev_dependencies,
                        ) && opt_table_wf(b.build_dependencies),
                        TargetValue::Opaque(_) => true,
                    },
                decreases l@.len() - i,
            {
                match &l[i].1 {
                    TargetValue::Block(b) => {
                        let ok = opt_table_well_formed(&b.dependencies)
                            && opt_table_well_formed(&b.dev_dependencies)
                            && opt_table_well_formed(&b.build_dependencies);
                        if !ok {
                            proof {
                                assert(!(match l@[i as int].1 {
                                    TargetValue::Block(bb) => opt_table_wf(bb.dependencies)
                                        && opt_table_wf(bb.dev_dependencies)
                                        && opt_table_wf(bb.build_dependencies),
                                    TargetValue::Opaque(_) => true,
                                }));
                                assert(!manifest_deps_wf(*d));
                            }
                            return false;
                        }
                    },
                    TargetValue::Opaque(_) => {},
                }
                i = i + 1;
            }
            true
        },
    }
}

/// Apply one mutation to one table.
fn mutate_table<V>(t: DepTable<V>, m: &TableMutation) -> (r: DepTable<V>)
    requires
        m is WidenVersions ==> dep_table_wf(t@),
    ensures
        table_mutated(*m, t@, r@),
{
    match m {
        TableMutation::WidenVersions => widen_dep_table(t),
        TableMutation::RewritePaths(ctx) => rewrite_dep_table(t, ctx),
    }
}

/// Apply one mutation to one optional table.
fn mutate_opt_table<V>(t: Option<DepTable<V>>, m: &TableMutation) -> (r: Option<DepTable<V>>)
    requires
        m is WidenVersions ==> opt_table_wf(t),
    ensures
        opt_table_mutated(*m, t, r),
{
    match t {
        None => None,
        Some(t) => Some(mutate_table(t, m)),
    }
}

/// Apply one mutation to every platform-target block.
fn mutate_targets<V>(l: Vec<(String, TargetValue<V>)>, m: &TableMutation) -> (r: Vec<(
    String,
    TargetValue<V>,
)>)
    requires
        m is WidenVersions ==> forall|i: int| 0 <= i < l@.len() ==> match (#[trigger] l@[i]).1 {
            TargetValue::Block(b) => opt_table_wf(b.dependencies) && opt_table_wf(
                b.dev_dependencies,
            ) && opt_table_wf(b.build_dependencies),
            TargetValue::Opaque(_) => true,
        },
    ensures
        r@.len() == l@.len(),
        forall|i: int| 0 <= i < l@.len() ==> {
            &&& (#[trigger] r@[i]).0 == l@[i].0
            &&& target_value_mutated(*m, l@[i].1, r@[i].1)
        },
{
    let ghost l0 = l@;
    let mut l = l;
    let mut out: Vec<(String, TargetValue<V>)> = Vec::new();
    while l.len() > 0
        invariant
            out@.len() + l@.len() == l0.len(),
            l@ == l0.subrange(out@.len() as int, l0.len() as int),
            m is WidenVersions ==> forall|i: int| 0 <= i < l0.len() ==> match (
            #[trigger] l0[i]).1 {
                TargetValue::Block(b) => opt_table_wf(b.dependencies) && opt_table_wf(
                    b.dev_dependencies,
                ) && opt_table_wf(b.build_dependencies),
                TargetValue::Opaque(_) => true,
            },
            forall|i: int| 0 <= i < out@.len() ==> {
                &&& (#[trigger] out@[i]).0 == l0[i].0
                &&& target_value_mutated(*m, l0[i].1, out@[i].1)
            },
        decreases l@.len(),
    {
        let ghost k = out@.len() as int;
        let (name, tv) = l.remove(0);
        proof {
            assert(l0.subrange(k, l0.len() as int)[0] == l0[k]);
            assert(l0.subrange(k, l0.len() as int).remove(0)
                =~= l0.subrange(k + 1, l0.len() as int));
        }
        let ntv = match tv {
            TargetValue::Opaque(v) => TargetValue::Opaque(v),
            TargetValue::Block(b) => {
                let TargetBlock { dependencies, dev_dependencies, build_dependencies, rest } = b;
                TargetValue::Block(
                    TargetBlock {
                        dependencies: mutate_opt_table(dependencies, m),
                        dev_dependencies: mutate_opt_table(dev_dependencies, m),
                        build_dependencies: mutate_opt_table(build_dependencies, m),
                        rest,
                    },
                )
            },
        };
        out.push((name, ntv));
    }
    out
}

/// The composition point of every mutation pass: apply one dependency-table
/// mutation uniformly to the normal, dev and build tables and to every
/// platform-target's tables, leaving all other fields untouched.
pub fn mutate_manifest<V>(d: ManifestDoc<V>, m: &TableMutation) -> (r: ManifestDoc<V>)
    requires
        m is WidenVersions ==> manifest_deps_wf(d),
    ensures
        manifest_mutated(*m, d, r),
{
    let ManifestDoc {
        package,
        bin,
        lib,
        dependencies,
        dev_dependencies,
        build_dependencies,
        targets,
    } = d;
    let dependencies = mutate_opt_table(dependencies, m);
    let dev_dependencies = mutate_opt_table(dev_dependencies, m);
    let build_dependencies = mutate_opt_table(build_dependencies, m);
    let targets = match targets {
        None => None,
        Some(l) => Some(mutate_targets(l, m)),
    };
    ManifestDoc { package, bin, lib, dependencies, dev_dependencies, build_dependencies, targets }
}

// ---------------------------------------------------------------------------
// Stub-target injection
// ---------------------------------------------------------------------------

/// The synthetic binary target the injector writes: a fixed name and a fixed
/// relative source path, so the resolver can load the package without its
/// real source tree.
pub open spec fn stub_bin_table<V>(fs: Seq<(FieldKey, FieldValue<V>)>) -> bool {
    &&& fs.len() == 2
    &&& fs[0].0 == FieldKey::NameKey
    &&& match fs[0].1 {
        FieldValue::Str(s) => s@ == "test"@,
        _ => false,
    }
    &&& fs[1].0 == FieldKey::PathKey
    &&& match fs[1].1 {
        FieldValue::Str(s) => s@ == "test.rs"@,
        _ => false,
    }
}

/// A library block with its source path forced to the stub: the first
/// existing `path` field is replaced, or one is appended; everything else
/// is kept in place.
pub open spec fn lib_path_stubbed<V>(
    fs: Seq<(FieldKey, FieldValue<V>)>,
    nfs: Seq<(FieldKey, FieldValue<V>)>,
) -> bool {
    let pi = find_key(fs, FieldKey::PathKey);
    if pi == -1 {
        &&& nfs.len() == fs.len() + 1
        &&& forall|i: int| 0 <= i < fs.len() ==> #[trigger] nfs[i] == fs[i]
        &&& nfs.last().0 == FieldKey::PathKey
        &&& match nfs.last().1 {
            FieldValue::Str(s) => s@ == "test_lib.rs"@,
            _ => false,
        }
    } else {
        &&& nfs.len() == fs.len()
        &&& forall|i: int| 0 <= i < fs.len() && i != pi ==> #[trigger] nfs[i] == fs[i]
        &&& nfs[pi].0 == FieldKey::PathKey
        &&& match nfs[pi].1 {
            FieldValue::Str(s) => s@ == "test_lib.rs"@,
            _ => false,
        }
    }
}

/// Overwrite the binary-target list with the single stub target and force
/// the library target's source path, if a library block is declared.
pub fn inject_stub_targets<V>(d: ManifestDoc<V>) -> (r: ManifestDoc<V>)
    ensures
        r.package == d.package,
        r.dependencies == d.dependencies,
        r.dev_dependencies == d.dev_dependencies,
        r.build_dependencies == d.build_dependencies,
        r.targets == d.targets,
        match r.bin {
            Some(l) => l@.len() == 1 && stub_bin_table(l@[0]@),
            None => false,
        },
        match d.lib {
            None => r.lib is None,
            Some(fs) => match r.lib {
                Some(nfs) => lib_path_stubbed(fs@, nfs@),
                None => false,
            },
        },
{
    let ghost d0 = d;
    let ManifestDoc {
        package,
        bin: _,
        lib,
        dependencies,
        dev_dependencies,
        build_dependencies,
        targets,
    } = d;
    let mut stub: Vec<(FieldKey, FieldValue<V>)> = Vec::new();
    stub.push((FieldKey::NameKey, FieldValue::Str(String::from_str("test"))));
    stub.push((FieldKey::PathKey, FieldValue::Str(String::from_str("test.rs"))));
    let mut bins: Vec<Vec<(FieldKey, FieldValue<V>)>> = Vec::new();
    bins.push(stub);
    let lib = match lib {
        None => None,
        Some(fs) => Some(stub_lib_path(fs)),
    };
    ManifestDoc {
        package,
        bin: Some(bins),
        lib,
        dependencies,
        dev_dependencies,
        build_dependencies,
        targets,
    }
}

/// Force the `path` field of a library block to the stub source path.
fn stub_lib_path<V>(fs: Vec<(FieldKey, FieldValue<V>)>) -> (r: Vec<(FieldKey, FieldValue<V>)>)
    ensures
        lib_path_stubbed(fs@, r@),
{
    proof {
        lemma_find_key(fs@, FieldKey::PathKey);
    }
    let pi_opt = crate::manifest::find_path_key(&fs);
    let mut fs = fs;
    let v = FieldValue::Str(String::from_str("test_lib.rs"));
    match pi_opt {
        None => {
            fs.push((FieldKey::PathKey, v));
        },
        Some(pi) => {
            fs.set(pi, (FieldKey::PathKey, v));
        },
    }
    fs
}

// ---------------------------------------------------------------------------
// The two ordered passes
// ---------------------------------------------------------------------------

/// A manifest that has been through the first pass: stub targets injected
/// and relative path dependencies absolutized where they escape the sandbox.
/// The widening pass takes only this, never a pristine document: version
/// widening is defined on the output of the path rewrite, and running the
/// passes in the other order is a design violation.
pub struct PathRewritten<V> {
    pub doc: ManifestDoc<V>,
}

/// The first pass over a freshly copied manifest: inject stub targets, then
/// rewrite escaping relative path dependencies. Run once per manifest before
/// any policy pass; its output is what the preserve policy resolves against.
pub fn prepare_manifest_semver<V>(d: ManifestDoc<V>, ctx: RewriteCtx) -> (r: PathRewritten<V>)
    ensures
        r.doc.package == d.package,
        match r.doc.bin {
            Some(l) => l@.len() == 1 && stub_bin_table(l@[0]@),
            None => false,
        },
        match d.lib {
            None => r.doc.lib is None,
            Some(fs) => match r.doc.lib {
                Some(nfs) => lib_path_stubbed(fs@, nfs@),
                None => false,
            },
        },
        opt_table_mutated(TableMutation::RewritePaths(ctx), d.dependencies, r.doc.dependencies),
        opt_table_mutated(
            TableMutation::RewritePaths(ctx),
            d.dev_dependencies,
            r.doc.dev_dependencies,
        ),
        opt_table_mutated(
            TableMutation::RewritePaths(ctx),
            d.build_dependencies,
            r.doc.build_dependencies,
        ),
        targets_mutated(TableMutation::RewritePaths(ctx), d.targets, r.doc.targets),
        manifest_deps_wf(d) ==> manifest_deps_wf(r.doc),
{
    let stubbed = inject_stub_targets(d);
    let ghost mid = stubbed;
    let rewritten = mutate_manifest(stubbed, &TableMutation::RewritePaths(ctx));
    proof {
        if manifest_deps_wf(mid) {
            lemma_mutation_preserves_wf(TableMutation::RewritePaths(ctx), mid, rewritten);
        }
    }
    PathRewritten { doc: rewritten }
}

/// The second pass for the widen-to-latest policy: replace every version
/// requirement of the already-path-rewritten manifest with the wildcard.
pub fn prepare_manifest_latest<V>(p: PathRewritten<V>) -> (r: ManifestDoc<V>)
    requires
        manifest_deps_wf(p.doc),
    ensures
        manifest_mutated(TableMutation::WidenVersions, p.doc, r),
{
    mutate_manifest(p.doc, &TableMutation::WidenVersions)
}

// ---------------------------------------------------------------------------
// Laws
// ---------------------------------------------------------------------------

/// A mutation pass keeps every dependency declaration well formed.
pub proof fn lemma_mutation_preserves_wf<V>(
    m: TableMutation,
    o: ManifestDoc<V>,
    n: ManifestDoc<V>,
)
    requires
        manifest_deps_wf(o),
        manifest_mutated(m, o, n),
    ensures
        manifest_deps_wf(n),
{
    lemma_opt_preserves_wf(m, o.dependencies, n.dependencies);
    lemma_opt_preserves_wf(m, o.dev_dependencies, n.dev_dependencies);
    lemma_opt_preserves_wf(m, o.build_dependencies, n.build_dependencies);
    match o.targets {
        None => {},
        Some(l) => match n.targets {
            Some(nl) => {
                assert forall|i: int| 0 <= i < nl@.len() implies match (#[trigger] nl@[i]).1 {
                    TargetValue::Block(b) => opt_table_wf(b.dependencies) && opt_table_wf(
                        b.dev_dependencies,
                    ) && opt_table_wf(b.build_dependencies),
                    TargetValue::Opaque(_) => true,
                } by {
                    assert(target_value_mutated(m, l@[i].1, nl@[i].1));
                    match l@[i].1 {
                        TargetValue::Block(b) => {
                            match nl@[i].1 {
                                TargetValue::Block(nb) => {
                                    lemma_opt_preserves_wf(m, b.dependencies, nb.dependencies);
                                    lemma_opt_preserves_wf(
                                        m,
                                        b.dev_dependencies,
                                        nb.dev_dependencies,
                                    );
                                    lemma_opt_preserves_wf(
                                        m,
                                        b.build_dependencies,
                                        nb.build_dependencies,
                                    );
                                },
                                _ => {},
                            }
                        },
                        TargetValue::Opaque(_) => {},
                    }
                }
            },
            None => {},
        },
    }
}

/// One optional table keeps its well-formedness through a mutation.
proof fn lemma_opt_preserves_wf<V>(
    m: TableMutation,
    o: Option<DepTable<V>>,
    n: Option<DepTable<V>>,
)
    requires
        opt_table_wf(o),
        opt_table_mutated(m, o, n),
    ensures
        opt_table_wf(n),
{
    match o {
        None => {},
        Some(t) => match n {
            Some(nt) => {
                assert forall|i: int| 0 <= i < nt@.len() implies dep_entry_wf(
                    (#[trigger] nt@[i]).1,
                ) by {
                    assert(entry_mutated(m, t@[i].1, nt@[i].1));
                    match m {
                        TableMutation::WidenVersions => {
                            crate::manifest::lemma_widen_preserves_wf(t@[i].1, nt@[i].1);
                        },
                        TableMutation::RewritePaths(ctx) => {
                            lemma_rewrite_preserves_wf(ctx, t@[i].1, nt@[i].1);
                        },
                    }
                }
            },
            None => {},
        },
    }
}

/// Pass ordering: after the path-rewrite pass and then the widening pass, a
/// declaration's path is stable (a further rewrite under the same context
/// changes nothing) and its version requirement is the wildcard. This holds
/// because widening replaces only `version` values and a bare string
/// shorthand, never a `path` field.
pub proof fn lemma_pass_ordering_entry<V>(
    ctx: RewriteCtx,
    e0: DepEntry<V>,
    e1: DepEntry<V>,
    e2: DepEntry<V>,
)
    requires
        dep_entry_wf(e0),
        rewritten_entry(ctx, e0, e1),
        widened_entry(e1, e2),
    ensures
        rewritten_entry(ctx, e2, e2),
        widened_entry(e1, e2),
{
    lemma_rewrite_entry_idempotent(ctx, e0, e1);
    match e1 {
        DepEntry::Table(fs) => {
            lemma_find_key(fs@, FieldKey::PathKey);
            let pi = find_key(fs@, FieldKey::PathKey);
            match e2 {
                DepEntry::Table(nfs) => {
                    lemma_find_key(nfs@, FieldKey::PathKey);
                    if find_key(fs@, FieldKey::VersionKey) == -1 {
                        assert(nfs@ == fs@);
                    } else {
                        let npi = find_key(nfs@, FieldKey::PathKey);
                        assert(forall|j: int| 0 <= j < nfs@.len()
                            ==> (#[trigger] nfs@[j]).0 == fs@[j].0);
                        if pi == -1 {
                            assert(npi == -1) by {
                                if npi != -1 {
                                    assert(fs@[npi].0 == FieldKey::PathKey);
                                }
                            }
                        } else {
                            assert(nfs@[pi].0 == FieldKey::PathKey);
                            assert(npi != -1);
                            assert(fs@[npi].0 == FieldKey::PathKey);
                            assert(npi == pi);
                            assert(fs@[pi].0 != FieldKey::VersionKey);
                            assert(nfs@[pi].1 == fs@[pi].1);
                        }
                    }
                },
                _ => {},
            }
        },
        _ => {},
    }
}

/// Pass ordering over a whole table: the widened form of a rewritten table
/// is stable under a further rewrite, and every version requirement in it is
/// the wildcard.
pub proof fn lemma_pass_ordering_table<V>(
    ctx: RewriteCtx,
    t0: Seq<(String, DepEntry<V>)>,
    t1: Seq<(String, DepEntry<V>)>,
    t2: Seq<(String, DepEntry<V>)>,
)
    requires
        dep_table_wf(t0),
        table_mutated(TableMutation::RewritePaths(ctx), t0, t1),
        table_mutated(TableMutation::WidenVersions, t1, t2),
    ensures
        table_mutated(TableMutation::RewritePaths(ctx), t2, t2),
        table_mutated(TableMutation::WidenVersions, t1, t2),
{
    assert forall|i: int| 0 <= i < t2.len() implies {
        &&& (#[trigger] t2[i]).0 == t2[i].0
        &&& rewritten_entry(ctx, t2[i].1, t2[i].1)
    } by {
        lemma_pass_ordering_entry(ctx, t0[i].1, t1[i].1, t2[i].1);
    }
}

} // verus!
