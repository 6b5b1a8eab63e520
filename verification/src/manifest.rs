//! The dependency-table model and the two table mutations: widening version
//! requirements to the wildcard, and rewriting relative path dependencies
//! that no longer resolve inside the sandbox to absolute paths into the
//! original workspace.
//!
//! A table value the mutations never inspect is carried as an opaque payload
//! of type `V`, so the logic is verified for every such payload.

use vstd::prelude::*;
use vstd::string::*;
use crate::paths::{
    spec_is_absolute, spec_segments, segs_view, paths_view, spec_join, spec_normalize,
    parse_path, join_path, normalize_segments, append_segments, seg_lists_equal,
    wildcard_version, ParsedPath, lemma_join_absolute,
};

verus! {

/// A key of a structured dependency table entry. The keys the mutations
/// recognize are singled out; every other key is carried by name.
#[derive(Debug, Clone, PartialEq, Eq)]
pub enum FieldKey {
    PathKey,
    VersionKey,
    NameKey,
    OtherKey(String),
}

/// A value of a structured table entry: a string, or anything else, carried
/// opaquely.
#[derive(Debug, Clone, PartialEq, Eq)]
pub enum FieldValue<V> {
    Str(String),
    Opaque(V),
}

/// One dependency declaration: a bare version-string shorthand, a structured
/// table, or a malformed value of any other shape.
#[derive(Debug, Clone, PartialEq, Eq)]
pub enum DepEntry<V> {
    Version(String),
    Table(Vec<(FieldKey, FieldValue<V>)>),
    Malformed(V),
}

/// A dependency table: dependency names in declaration order, each with its
/// declaration.
pub type DepTable<V> = Vec<(String, DepEntry<V>)>;

/// Index of the first field with the given key, or -1 if there is none.
pub open spec fn find_key<V>(fs: Seq<(FieldKey, FieldValue<V>)>, k: FieldKey) -> int
    decreases fs.len(),
{
    if fs.len() == 0 {
        -1
    } else if fs[0].0 == k {
        0
    } else {
        let r = find_key(fs.drop_first(), k);
        if r == -1 {
            -1
        } else {
            r + 1
        }
    }
}

/// `find_key` returns -1 exactly when the key is absent, and otherwise the
/// first index holding it.
pub proof fn lemma_find_key<V>(fs: Seq<(FieldKey, FieldValue<V>)>, k: FieldKey)
    ensures
        find_key(fs, k) == -1 ==> forall|j: int| 0 <= j < fs.len() ==> (#[trigger] fs[j]).0 != k,
        find_key(fs, k) != -1 ==> {
            &&& 0 <= find_key(fs, k) < fs.len()
            &&& fs[find_key(fs, k)].0 == k
            &&& forall|j: int| 0 <= j < find_key(fs, k) ==> (#[trigger] fs[j]).0 != k
        },
    decreases fs.len(),
{
    if fs.len() == 0 {
    } else if fs[0].0 == k {
    } else {
        lemma_find_key(fs.drop_first(), k);
        assert(forall|j: int| 1 <= j < fs.len() ==> fs.drop_first()[j - 1] == #[trigger] fs[j]);
    }
}

/// Whether a key is the `path` key.
pub fn is_path_key(k: &FieldKey) -> (r: bool)
    ensures
        r == (*k == FieldKey::PathKey),
{
    match k {
        FieldKey::PathKey => true,
        _ => false,
    }
}

/// Whether a key is the `version` key.
pub fn is_version_key(k: &FieldKey) -> (r: bool)
    ensures
        r == (*k == FieldKey::VersionKey),
{
    match k {
        FieldKey::VersionKey => true,
        _ => false,
    }
}

/// First index of a `path` key in a field list, if any.
pub fn find_path_key<V>(fs: &Vec<(FieldKey, FieldValue<V>)>) -> (r: Option<usize>)
    ensures
        match r {
            None => find_key(fs@, FieldKey::PathKey) == -1,
            Some(i) => find_key(fs@, FieldKey::PathKey) == i,
        },
{
    proof {
        lemma_find_key(fs@, FieldKey::PathKey);
    }
    let mut i: usize = 0;
    while i < fs.len()
        invariant
            0 <= i <= fs@.len(),
            forall|j: int| 0 <= j < i ==> (#[trigger] fs@[j]).0 != FieldKey::PathKey,
            find_key(fs@, FieldKey::PathKey) == -1 ==> forall|j: int|
                0 <= j < fs@.len() ==> (#[trigger] fs@[j]).0 != FieldKey::PathKey,
            find_key(fs@, FieldKey::PathKey) != -1 ==> {
                &&& 0 <= find_key(fs@, FieldKey::PathKey) < fs@.len()
                &&& fs@[find_key(fs@, FieldKey::PathKey)].0 == FieldKey::PathKey
                &&& forall|j: int| 0 <= j < find_key(fs@, FieldKey::PathKey)
                    ==> (#[trigger] fs@[j]).0 != FieldKey::PathKey
            },
        decreases fs@.len() - i,
    {
        if is_path_key(&fs[i].0) {
            return Some(i);
        }
        i = i + 1;
    }
    None
}

/// Whether some field carries the `version` key.
pub fn has_version_key<V>(fs: &Vec<(FieldKey, FieldValue<V>)>) -> (r: bool)
    ensures
        r == (find_key(fs@, FieldKey::VersionKey) != -1),
{
    proof {
        lemma_find_key(fs@, FieldKey::VersionKey);
    }
    let mut i: usize = 0;
    while i < fs.len()
        invariant
            0 <= i <= fs@.len(),
            forall|j: int| 0 <= j < i ==> (#[trigger] fs@[j]).0 != FieldKey::VersionKey,
            find_key(fs@, FieldKey::VersionKey) == -1 ==> forall|j: int|
                0 <= j < fs@.len() ==> (#[trigger] fs@[j]).0 != FieldKey::VersionKey,
            find_key(fs@, FieldKey::VersionKey) != -1 ==> {
                &&& 0 <= find_key(fs@, FieldKey::VersionKey) < fs@.len()
                &&& fs@[find_key(fs@, FieldKey::VersionKey)].0 == FieldKey::VersionKey
            },
        decreases fs@.len() - i,
    {
        if is_version_key(&fs[i].0) {
            return true;
        }
        i = i + 1;
    }
    false
}

/// A dependency declaration is well formed when it is a string or a table.
pub open spec fn dep_entry_wf<V>(e: DepEntry<V>) -> bool {
    match e {
        DepEntry::Malformed(_) => false,
        _ => true,
    }
}

/// Every declaration of the table is well formed.
pub open spec fn dep_table_wf<V>(t: Seq<(String, DepEntry<V>)>) -> bool {
    forall|i: int| 0 <= i < t.len() ==> dep_entry_wf((#[trigger] t[i]).1)
}

/// Check well-formedness of one table.
pub fn dep_table_well_formed<V>(t: &DepTable<V>) -> (r: bool)
    ensures
        r == dep_table_wf(t@),
{
    let mut i: usize = 0;
    while i < t.len()
        invariant
            0 <= i <= t@.len(),
            forall|j: int| 0 <= j < i ==> dep_entry_wf((#[trigger] t@[j]).1),
        decreases t@.len() - i,
    {
        if let DepEntry::Malformed(_) = &t[i].1 {
            return false;
        }
        i = i + 1;
    }
    true
}

// ---------------------------------------------------------------------------
// Widening version requirements to the wildcard
// ---------------------------------------------------------------------------

/// Relation between a field list and its widened form: if a `version` key is
/// present, every field under that key now holds the wildcard string and all
/// other fields are unchanged; a list without a `version` key is unchanged.
pub open spec fn widened_fields<V>(
    fs: Seq<(FieldKey, FieldValue<V>)>,
    nfs: Seq<(FieldKey, FieldValue<V>)>,
) -> bool {
    if find_key(fs, FieldKey::VersionKey) == -1 {
        nfs == fs
    } else {
        &&& nfs.len() == fs.len()
        &&& forall|i: int| 0 <= i < fs.len() ==> {
            &&& (#[trigger] nfs[i]).0 == fs[i].0
            &&& if fs[i].0 == FieldKey::VersionKey {
                match nfs[i].1 {
                    FieldValue::Str(s) => s@ == "*"@,
                    _ => false,
                }
            } else {
                nfs[i].1 == fs[i].1
            }
        }
    }
}

/// Relation between a dependency declaration and its widened form: a bare
/// string becomes the wildcard string; a structured table has its `version`
/// field widened.
pub open spec fn widened_entry<V>(o: DepEntry<V>, n: DepEntry<V>) -> bool {
    match o {
        DepEntry::Version(_) => match n {
            DepEntry::Version(s) => s@ == "*"@,
            _ => false,
        },
        DepEntry::Table(fs) => match n {
            DepEntry::Table(nfs) => widened_fields(fs@, nfs@),
            _ => false,
        },
        DepEntry::Malformed(_) => n == o,
    }
}

/// Widen the `version` field of a structured declaration.
fn widen_fields<V>(fs: Vec<(FieldKey, FieldValue<V>)>) -> (r: Vec<(FieldKey, FieldValue<V>)>)
    ensures
        widened_fields(fs@, r@),
{
    let ghost fs0 = fs@;
    if !has_version_key(&fs) {
        return fs;
    }
    let mut fs = fs;
    let mut i: usize = 0;
    while i < fs.len()
        invariant
            0 <= i <= fs@.len(),
            fs@.len() == fs0.len(),
            find_key(fs0, FieldKey::VersionKey) != -1,
            forall|j: int| 0 <= j < fs@.len() ==> (#[trigger] fs@[j]).0 == fs0[j].0,
            forall|j: int| i <= j < fs@.len() ==> (#[trigger] fs@[j]).1 == fs0[j].1,
            forall|j: int| 0 <= j < i ==> if (#[trigger] fs0[j]).0 == FieldKey::VersionKey {
                match fs@[j].1 {
                    FieldValue::Str(s) => s@ == "*"@,
                    _ => false,
                }
            } else {
                fs@[j].1 == fs0[j].1
            },
        decreases fs@.len() - i,
    {
        if is_version_key(&fs[i].0) {
            let w = wildcard_version();
            fs.set(i, (FieldKey::VersionKey, FieldValue::Str(w)));
        }
        i = i + 1;
    }
    fs
}

/// Widen one dependency declaration.
pub fn widen_entry<V>(e: DepEntry<V>) -> (r: DepEntry<V>)
    requires
        dep_entry_wf(e),
    ensures
        widened_entry(e, r),
{
    match e {
        DepEntry::Version(_) => DepEntry::Version(wildcard_version()),
        DepEntry::Table(fs) => DepEntry::Table(widen_fields(fs)),
        DepEntry::Malformed(v) => DepEntry::Malformed(v),
    }
}

/// Widen every declaration of a dependency table.
pub fn widen_dep_table<V>(t: DepTable<V>) -> (r: DepTable<V>)
    requires
        dep_table_wf(t@),
    ensures
        r@.len() == t@.len(),
        forall|i: int| 0 <= i < t@.len() ==> {
            &&& (#[trigger] r@[i]).0 == t@[i].0
            &&& widened_entry(t@[i].1, r@[i].1)
        },
{
    let ghost t0 = t@;
    let mut t = t;
    let mut out: DepTable<V> = Vec::new();
    while t.len() > 0
        invariant
            out@.len() + t@.len() == t0.len(),
            t@ == t0.subrange(out@.len() as int, t0.len() as int),
            dep_table_wf(t0),
            forall|i: int| 0 <= i < out@.len() ==> {
                &&& (#[trigger] out@[i]).0 == t0[i].0
                &&& widened_entry(t0[i].1, out@[i].1)
            },
        decreases t@.len(),
    {
        let ghost k = out@.len() as int;
        let (name, e) = t.remove(0);
        proof {
            assert(t0.subrange(k, t0.len() as int)[0] == t0[k]);
            assert(t0.subrange(k, t0.len() as int).remove(0)
                =~= t0.subrange(k + 1, t0.len() as int));
        }
        let ne = widen_entry(e);
        out.push((name, ne));
    }
    out
}

// ---------------------------------------------------------------------------
// Rewriting relative path dependencies
// ---------------------------------------------------------------------------

/// The context a path-rewrite pass runs one manifest under: the absolute
/// original workspace root, the directory of this manifest relative to the
/// sandbox root, and the directories (relative to the sandbox root) that hold
/// a copied manifest.
pub struct RewriteCtx {
    pub orig_root: Vec<String>,
    pub manifest_dir: Vec<String>,
    pub sandbox_dirs: Vec<Vec<String>>,
}

/// Where a relative dependency path lands inside the sandbox: the manifest's
/// sandbox-relative directory joined with the declared path, normalized.
pub open spec fn sandbox_target(ctx: RewriteCtx, p: Seq<char>) -> Seq<Seq<char>> {
    spec_normalize(false, segs_view(ctx.manifest_dir@) + spec_segments(p))
}

/// A relative dependency path still resolves to a copied manifest inside the
/// sandbox.
pub open spec fn resolves_in_sandbox(ctx: RewriteCtx, p: Seq<char>) -> bool {
    paths_view(ctx.sandbox_dirs@).contains(sandbox_target(ctx, p))
}

/// The absolute replacement for a relative path that escapes the sandbox:
/// the same relative location resolved against the original workspace and
/// lexically canonicalized.
pub open spec fn absolute_replacement(ctx: RewriteCtx, p: Seq<char>) -> Seq<char> {
    spec_join(
        true,
        spec_normalize(
            true,
            segs_view(ctx.orig_root@) + segs_view(ctx.manifest_dir@) + spec_segments(p),
        ),
    )
}

/// Relation between a field list and the same list with every `path` field
/// replaced by the given string; all other fields are unchanged.
pub open spec fn fields_path_replaced<V>(
    fs: Seq<(FieldKey, FieldValue<V>)>,
    nfs: Seq<(FieldKey, FieldValue<V>)>,
    newp: Seq<char>,
) -> bool {
    &&& nfs.len() == fs.len()
    &&& forall|i: int| 0 <= i < fs.len() ==> {
        &&& (#[trigger] nfs[i]).0 == fs[i].0
        &&& if fs[i].0 == FieldKey::PathKey {
            match nfs[i].1 {
                FieldValue::Str(s) => s@ == newp,
                _ => false,
            }
        } else {
            nfs[i].1 == fs[i].1
        }
    }
}

/// Relation between a dependency declaration and its path-rewritten form.
/// Only a structured table whose `path` field holds a relative string that no
/// longer resolves inside the sandbox is changed: its `path` becomes the
/// absolute location in the original workspace. Everything else is unchanged.
pub open spec fn rewritten_entry<V>(ctx: RewriteCtx, o: DepEntry<V>, n: DepEntry<V>) -> bool {
    match o {
        DepEntry::Table(fs) => {
            let pi = find_key(fs@, FieldKey::PathKey);
            if pi == -1 {
                n == o
            } else {
                match fs@[pi].1 {
                    FieldValue::Str(p) => if !spec_is_absolute(p@) {
                        if resolves_in_sandbox(ctx, p@) {
                            n == o
                        } else {
                            match n {
                                DepEntry::Table(nfs) => fields_path_replaced(
                                    fs@,
                                    nfs@,
                                    absolute_replacement(ctx, p@),
                                ),
                                _ => false,
                            }
                        }
                    } else {
                        n == o
                    },
                    _ => n == o,
                }
            }
        },
        _ => n == o,
    }
}

/// Whether a segment path occurs in a list of segment paths.
pub fn contains_seg_path(dirs: &Vec<Vec<String>>, p: &Vec<String>) -> (r: bool)
    ensures
        r == paths_view(dirs@).contains(segs_view(p@)),
{
    let mut i: usize = 0;
    while i < dirs.len()
        invariant
            0 <= i <= dirs@.len(),
            forall|j: int| 0 <= j < i ==> #[trigger] paths_view(dirs@)[j] != segs_view(p@),
        decreases dirs@.len() - i,
    {
        if seg_lists_equal(&dirs[i], p) {
            proof {
                assert(paths_view(dirs@)[i as int] == segs_view(p@));
            }
            return true;
        }
        i = i + 1;
    }
    proof {
        assert forall|j: int| 0 <= j < paths_view(dirs@).len()
            implies #[trigger] paths_view(dirs@)[j] != segs_view(p@) by {}
    }
    false
}

/// Replace every `path` field of a field list with the given string.
fn replace_path_fields<V>(fs: Vec<(FieldKey, FieldValue<V>)>, newp: &String) -> (r: Vec<(
    FieldKey,
    FieldValue<V>,
)>)
    ensures
        fields_path_replaced(fs@, r@, newp@),
{
    let ghost fs0 = fs@;
    let mut fs = fs;
    let mut i: usize = 0;
    while i < fs.len()
        invariant
            0 <= i <= fs@.len(),
            fs@.len() == fs0.len(),
            forall|j: int| 0 <= j < fs@.len() ==> (#[trigger] fs@[j]).0 == fs0[j].0,
            forall|j: int| i <= j < fs@.len() ==> (#[trigger] fs@[j]).1 == fs0[j].1,
            forall|j: int| 0 <= j < i ==> if (#[trigger] fs0[j]).0 == FieldKey::PathKey {
                match fs@[j].1 {
                    FieldValue::Str(s) => s@ == newp@,
                    _ => false,
                }
            } else {
                fs@[j].1 == fs0[j].1
            },
        decreases fs@.len() - i,
    {
        if is_path_key(&fs[i].0) {
            let np = crate::paths::clone_string(newp);
            fs.set(i, (FieldKey::PathKey, FieldValue::Str(np)));
        }
        i = i + 1;
    }
    fs
}

/// Rewrite the path of one dependency declaration, if it needs it.
pub fn rewrite_entry<V>(e: DepEntry<V>, ctx: &RewriteCtx) -> (r: DepEntry<V>)
    ensures
        rewritten_entry(*ctx, e, r),
{
    match e {
        DepEntry::Table(fs) => {
            let pi_opt = find_path_key(&fs);
            match pi_opt {
                None => DepEntry::Table(fs),
                Some(pi) => {
                    proof {
                        lemma_find_key(fs@, FieldKey::PathKey);
                    }
                    let parsed: Option<ParsedPath> = match &fs[pi].1 {
                        FieldValue::Str(p) => Some(parse_path(p.as_str())),
                        _ => None,
                    };
                    match parsed {
                        None => DepEntry::Table(fs),
                        Some(pp) => {
                            if pp.absolute {
                                DepEntry::Table(fs)
                            } else {
                                let joined = append_segments(&ctx.manifest_dir, &pp.segments);
                                let target = normalize_segments(false, joined);
                                if contains_seg_path(&ctx.sandbox_dirs, &target) {
                                    DepEntry::Table(fs)
                                } else {
                                    let under_root = append_segments(
                                        &ctx.orig_root,
                                        &ctx.manifest_dir,
                                    );
                                    let all = append_segments(&under_root, &pp.segments);
                                    let norm = normalize_segments(true, all);
                                    let newp = join_path(true, &norm);
                                    proof {
                                        assert(segs_view(ctx.orig_root@)
                                            + segs_view(ctx.manifest_dir@)
                                            + segs_view(pp.segments@)
                                            =~= segs_view(under_root@)
                                            + segs_view(pp.segments@));
                                    }
                                    DepEntry::Table(replace_path_fields(fs, &newp))
                                }
                            }
                        },
                    }
                },
            }
        },
        other => other,
    }
}

/// Rewrite the paths of every declaration of a dependency table.
pub fn rewrite_dep_table<V>(t: DepTable<V>, ctx: &RewriteCtx) -> (r: DepTable<V>)
    ensures
        r@.len() == t@.len(),
        forall|i: int| 0 <= i < t@.len() ==> {
            &&& (#[trigger] r@[i]).0 == t@[i].0
            &&& rewritten_entry(*ctx, t@[i].1, r@[i].1)
        },
{
    let ghost t0 = t@;
    let mut t = t;
    let mut out: DepTable<V> = Vec::new();
    while t.len() > 0
        invariant
            out@.len() + t@.len() == t0.len(),
            t@ == t0.subrange(out@.len() as int, t0.len() as int),
            forall|i: int| 0 <= i < out@.len() ==> {
                &&& (#[trigger] out@[i]).0 == t0[i].0
                &&& rewritten_entry(*ctx, t0[i].1, out@[i].1)
            },
        decreases t@.len(),
    {
        let ghost k = out@.len() as int;
        let (name, e) = t.remove(0);
        proof {
            assert(t0.subrange(k, t0.len() as int)[0] == t0[k]);
            assert(t0.subrange(k, t0.len() as int).remove(0)
                =~= t0.subrange(k + 1, t0.len() as int));
        }
        let ne = rewrite_entry(e, ctx);
        out.push((name, ne));
    }
    out
}

// ---------------------------------------------------------------------------
// Laws
// ---------------------------------------------------------------------------

/// Rewriting is idempotent on one declaration: a declaration that already is
/// the output of the rewrite is left unchanged by a second rewrite under the
/// same context.
pub proof fn lemma_rewrite_entry_idempotent<V>(ctx: RewriteCtx, o: DepEntry<V>, n: DepEntry<V>)
    requires
        rewritten_entry(ctx, o, n),
    ensures
        rewritten_entry(ctx, n, n),
{
    match o {
        DepEntry::Table(fs) => {
            let pi = find_key(fs@, FieldKey::PathKey);
            lemma_find_key(fs@, FieldKey::PathKey);
            if pi == -1 {
            } else {
                match fs@[pi].1 {
                    FieldValue::Str(p) => {
                        if !spec_is_absolute(p@) && !resolves_in_sandbox(ctx, p@) {
                            match n {
                                DepEntry::Table(nfs) => {
                                    lemma_find_key(nfs@, FieldKey::PathKey);
                                    let npi = find_key(nfs@, FieldKey::PathKey);
                                    assert(nfs@[pi].0 == FieldKey::PathKey);
                                    assert(npi != -1);
                                    assert(nfs@[npi].0 == fs@[npi].0);
                                    assert(npi == pi);
                                    match nfs@[pi].1 {
                                        FieldValue::Str(s) => {
                                            assert(s@ == absolute_replacement(ctx, p@));
                                            lemma_join_absolute(
                                                spec_normalize(
                                                    true,
                                                    segs_view(ctx.orig_root@) + segs_view(
                                                        ctx.manifest_dir@,
                                                    ) + spec_segments(p@),
                                                ),
                                            );
                                            assert(spec_is_absolute(s@));
                                        },
                                        _ => {
                                            assert(false);
                                        },
                                    }
                                },
                                _ => {
                                    assert(false);
                                },
                            }
                        }
                    },
                    _ => {},
                }
            }
        },
        _ => {},
    }
}

/// Rewriting a whole table twice gives what rewriting it once gives.
pub proof fn lemma_rewrite_table_idempotent<V>(
    ctx: RewriteCtx,
    t: Seq<(String, DepEntry<V>)>,
    r: Seq<(String, DepEntry<V>)>,
)
    requires
        r.len() == t.len(),
        forall|i: int| 0 <= i < t.len() ==> {
            &&& (#[trigger] r[i]).0 == t[i].0
            &&& rewritten_entry(ctx, t[i].1, r[i].1)
        },
    ensures
        forall|i: int| 0 <= i < r.len() ==> {
            &&& (#[trigger] r[i]).0 == r[i].0
            &&& rewritten_entry(ctx, r[i].1, r[i].1)
        },
{
    assert forall|i: int| 0 <= i < r.len() implies rewritten_entry(
        ctx,
        (#[trigger] r[i]).1,
        r[i].1,
    ) by {
        lemma_rewrite_entry_idempotent(ctx, t[i].1, r[i].1);
    }
}

/// A structured declaration whose `path` still resolves to a copied manifest
/// inside the sandbox is left identical by the rewrite: the mirrored
/// directory structure carries it.
pub proof fn lemma_path_in_sandbox_unchanged<V>(
    ctx: RewriteCtx,
    o: DepEntry<V>,
    n: DepEntry<V>,
    fs: Vec<(FieldKey, FieldValue<V>)>,
    pi: int,
    p: String,
)
    requires
        rewritten_entry(ctx, o, n),
        o == DepEntry::Table(fs),
        pi == find_key(fs@, FieldKey::PathKey),
        pi != -1,
        fs@[pi].1 == FieldValue::<V>::Str(p),
        !spec_is_absolute(p@),
        resolves_in_sandbox(ctx, p@),
    ensures
        n == o,
{
}

/// Widening keeps a declaration well formed.
pub proof fn lemma_widen_preserves_wf<V>(o: DepEntry<V>, n: DepEntry<V>)
    requires
        dep_entry_wf(o),
        widened_entry(o, n),
    ensures
        dep_entry_wf(n),
{
}

/// Rewriting keeps a declaration well formed.
pub proof fn lemma_rewrite_preserves_wf<V>(ctx: RewriteCtx, o: DepEntry<V>, n: DepEntry<V>)
    requires
        dep_entry_wf(o),
        rewritten_entry(ctx, o, n),
    ensures
        dep_entry_wf(n),
{
    match o {
        DepEntry::Table(fs) => {
            lemma_find_key(fs@, FieldKey::PathKey);
        },
        _ => {},
    }
}

} // verus!
