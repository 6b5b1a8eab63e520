//! Lexical path manipulation: splitting a path string into segments,
//! joining segments back into a string, normalizing `.` / `..` components,
//! and prefix operations on segment lists.
//!
//! A path is modeled as a flag saying whether it is absolute plus a list of
//! nonempty segments. Both `/` and `\` are accepted as separators on input;
//! output always uses `/`.

use vstd::prelude::*;
use vstd::string::*;

verus! {

/// True for the characters that separate path segments.
pub open spec fn is_sep(c: char) -> bool {
    c == '/' || c == '\\'
}

/// A path string denotes an absolute location when it starts with a separator.
pub open spec fn spec_is_absolute(s: Seq<char>) -> bool {
    s.len() > 0 && is_sep(s[0])
}

/// The segments of a path string: the maximal nonempty runs of
/// non-separator characters, in order.
pub open spec fn spec_segments(s: Seq<char>) -> Seq<Seq<char>>
    decreases s.len(),
{
    if s.len() == 0 {
        Seq::empty()
    } else {
        let c = s.last();
        let r = spec_segments(s.drop_last());
        if is_sep(c) {
            r
        } else if s.len() >= 2 && !is_sep(s[s.len() - 2]) {
            r.update(r.len() - 1, r.last().push(c))
        } else {
            r.push(seq![c])
        }
    }
}

/// The view of a list of segment strings.
pub open spec fn segs_view(s: Seq<String>) -> Seq<Seq<char>> {
    s.map_values(|x: String| x@)
}

/// The view of a list of segment paths.
pub open spec fn paths_view(s: Seq<Vec<String>>) -> Seq<Seq<Seq<char>>> {
    s.map_values(|v: Vec<String>| segs_view(v@))
}

/// The `.` path component.
pub open spec fn dot_seg() -> Seq<char> {
    seq!['.']
}

/// The `..` path component.
pub open spec fn dotdot_seg() -> Seq<char> {
    seq!['.', '.']
}

/// Segments joined with `/`, without a leading separator.
pub open spec fn spec_joined(segs: Seq<Seq<char>>) -> Seq<char>
    decreases segs.len(),
{
    if segs.len() == 0 {
        Seq::empty()
    } else if segs.len() == 1 {
        segs[0]
    } else {
        spec_joined(segs.drop_last()) + seq!['/'] + segs.last()
    }
}

/// A whole path string rebuilt from its parsed form. An absolute path with
/// no segments renders as the root `/`.
pub open spec fn spec_join(absolute: bool, segs: Seq<Seq<char>>) -> Seq<char> {
    if absolute {
        seq!['/'] + spec_joined(segs)
    } else {
        spec_joined(segs)
    }
}

/// Lexical normalization: drop `.` segments, and let `..` cancel the
/// preceding real segment. For an absolute path, `..` at the root stays at
/// the root; for a relative path, leading `..` segments are kept.
pub open spec fn spec_normalize(absolute: bool, segs: Seq<Seq<char>>) -> Seq<Seq<char>>
    decreases segs.len(),
{
    if segs.len() == 0 {
        Seq::empty()
    } else {
        let r = spec_normalize(absolute, segs.drop_last());
        let last = segs.last();
        if last == dot_seg() {
            r
        } else if last == dotdot_seg() {
            if r.len() > 0 && r.last() != dotdot_seg() {
                r.drop_last()
            } else if absolute {
                r
            } else {
                r.push(dotdot_seg())
            }
        } else {
            r.push(last)
        }
    }
}

/// One sequence is a prefix of another.
pub open spec fn is_seq_prefix<A>(a: Seq<A>, b: Seq<A>) -> bool {
    a.len() <= b.len() && a == b.subrange(0, a.len() as int)
}

/// The unconstrained version requirement that the widening pass writes.
pub fn wildcard_version() -> (s: String)
    ensures
        s@ == "*"@,
{
    String::from_str("*")
}

/// Whether a character separates path segments.
fn sep_char(c: char) -> (r: bool)
    ensures
        r == is_sep(c),
{
    c == '/' || c == '\\'
}

/// A parsed path: absolute flag plus segment list.
#[derive(Debug, Clone, PartialEq, Eq)]
pub struct ParsedPath {
    pub absolute: bool,
    pub segments: Vec<String>,
}

/// Split a path string into its parsed form.
pub fn parse_path(s: &str) -> (p: ParsedPath)
    ensures
        p.absolute == spec_is_absolute(s@),
        segs_view(p.segments@) == spec_segments(s@),
{
    let n = s.unicode_len();
    let absolute = if n > 0 {
        sep_char(s.get_char(0))
    } else {
        false
    };
    let mut segs: Vec<String> = Vec::new();
    let mut start: usize = 0;
    let mut i: usize = 0;
    while i < n
        invariant
            n == s@.len(),
            0 <= start <= i <= n,
            forall|j: int| start <= j < i ==> !is_sep(#[trigger] s@[j]),
            start == i ==> (i == 0 || is_sep(s@[i - 1])),
            start < i ==> segs_view(segs@).push(s@.subrange(start as int, i as int))
                == spec_segments(s@.subrange(0, i as int)),
            start == i ==> segs_view(segs@) == spec_segments(s@.subrange(0, i as int)),
        decreases n - i,
    {
        let ghost pre = s@.subrange(0, i as int);
        let ghost post = s@.subrange(0, i as int + 1);
        proof {
            assert(post.drop_last() =~= pre);
            assert(post.last() == s@[i as int]);
        }
        let c = s.get_char(i);
        if sep_char(c) {
            if start < i {
                let run = s.substring_char(start, i).to_owned();
                proof {
                    assert(segs_view(segs@.push(run)) =~= segs_view(segs@).push(run@));
                }
                segs.push(run);
            }
            start = i + 1;
        } else {
            if start == i {
                proof {
                    assert(spec_segments(post) == spec_segments(pre).push(seq![s@[i as int]]));
                    assert(s@.subrange(start as int, i as int + 1) =~= seq![s@[i as int]]);
                }
            } else {
                proof {
                    let ghost r = spec_segments(pre);
                    let ghost run = s@.subrange(start as int, i as int);
                    assert(r == segs_view(segs@).push(run));
                    assert(r.len() > 0 && r.last() == run);
                    assert(!is_sep(s@[i as int - 1]));
                    assert(spec_segments(post) == r.update(r.len() - 1, run.push(s@[i as int])));
                    assert(r.update(r.len() - 1, run.push(s@[i as int]))
                        =~= segs_view(segs@).push(run.push(s@[i as int])));
                    assert(run.push(s@[i as int]) =~= s@.subrange(start as int, i as int + 1));
                }
            }
        }
        i = i + 1;
    }
    proof {
        assert(s@.subrange(0, n as int) =~= s@);
    }
    if start < n {
        let run = s.substring_char(start, n).to_owned();
        proof {
            assert(segs_view(segs@.push(run)) =~= segs_view(segs@).push(run@));
        }
        segs.push(run);
    }
    ParsedPath { absolute, segments: segs }
}

/// Join a parsed path back into a string, using `/` as the separator.
pub fn join_path(absolute: bool, segs: &Vec<String>) -> (r: String)
    ensures
        r@ == spec_join(absolute, segs_view(segs@)),
{
    proof {
        reveal_strlit("/");
        assert("/"@ =~= seq!['/']);
    }
    let mut out = String::new();
    if absolute {
        out.append("/");
    }
    let mut i: usize = 0;
    while i < segs.len()
        invariant
            0 <= i <= segs@.len(),
            absolute ==> out@ == seq!['/'] + spec_joined(segs_view(segs@).subrange(0, i as int)),
            !absolute ==> out@ == spec_joined(segs_view(segs@).subrange(0, i as int)),
            "/"@ == seq!['/'],
        decreases segs@.len() - i,
    {
        let ghost pre = segs_view(segs@).subrange(0, i as int);
        let ghost post = segs_view(segs@).subrange(0, i as int + 1);
        proof {
            assert(post.drop_last() =~= pre);
            assert(post.last() == segs_view(segs@)[i as int]);
            assert(post[0] == segs_view(segs@)[0]);
        }
        if i > 0 {
            out.append("/");
        }
        out.append(segs[i].as_str());
        proof {
            if i == 0 {
                assert(spec_joined(post) == post[0]);
            } else {
                assert(spec_joined(post) == spec_joined(pre) + seq!['/'] + post.last());
            }
        }
        i = i + 1;
    }
    proof {
        assert(segs_view(segs@).subrange(0, segs@.len() as int) =~= segs_view(segs@));
    }
    out
}

/// A path string produced by joining absolutely is itself absolute.
pub proof fn lemma_join_absolute(segs: Seq<Seq<char>>)
    ensures
        spec_is_absolute(spec_join(true, segs)),
{
    assert(spec_join(true, segs)[0] == '/');
}

/// A segment list is printable when every segment is nonempty and holds no
/// separator character: exactly the lists that a path string can spell.
pub open spec fn printable_segs(segs: Seq<Seq<char>>) -> bool {
    &&& forall|i: int| 0 <= i < segs.len() ==> (#[trigger] segs[i]).len() > 0
    &&& forall|i: int, j: int|
        0 <= i < segs.len() && 0 <= j < segs[i].len() ==> !is_sep(#[trigger] segs[i][j])
}

/// Appending a separator to a path string adds no segment.
proof fn lemma_segments_append_sep(s: Seq<char>)
    ensures
        spec_segments(s + seq!['/']) == spec_segments(s),
{
    assert((s + seq!['/']).drop_last() =~= s);
    assert((s + seq!['/']).last() == '/');
}

/// Appending one printable segment to a string that is empty or ends with a
/// separator adds exactly that segment.
proof fn lemma_segments_append_seg(s: Seq<char>, seg: Seq<char>)
    requires
        s.len() == 0 || is_sep(s.last()),
        seg.len() > 0,
        forall|j: int| 0 <= j < seg.len() ==> !is_sep(#[trigger] seg[j]),
    ensures
        spec_segments(s + seg) == spec_segments(s).push(seg),
    decreases seg.len(),
{
    let w = s + seg;
    if seg.len() == 1 {
        assert(w.drop_last() =~= s);
        assert(w.last() == seg[0]);
        assert(!is_sep(w.last()));
        if w.len() >= 2 {
            assert(w[w.len() - 2] == s.last());
            assert(is_sep(w[w.len() - 2]));
        }
        assert(spec_segments(w) == spec_segments(s).push(seq![seg[0]]));
        assert(seq![seg[0]] =~= seg);
    } else {
        lemma_segments_append_seg(s, seg.drop_last());
        let prev = s + seg.drop_last();
        assert(w.drop_last() =~= prev);
        assert(w.last() == seg.last());
        assert(w.len() >= 2);
        assert(w[w.len() - 2] == seg[seg.len() - 2]);
        assert(!is_sep(w[w.len() - 2]));
        let r = spec_segments(prev);
        assert(r == spec_segments(s).push(seg.drop_last()));
        assert(r.len() > 0 && r.last() == seg.drop_last());
        assert(spec_segments(w) == r.update(r.len() - 1, r.last().push(seg.last())));
        assert(r.update(r.len() - 1, seg.drop_last().push(seg.last()))
            =~= spec_segments(s).push(seg.drop_last().push(seg.last())));
        assert(seg.drop_last().push(seg.last()) =~= seg);
    }
}

/// The segments of a joined list, built behind an empty or root base.
proof fn lemma_join_parse_inner(base: Seq<char>, segs: Seq<Seq<char>>)
    requires
        base =~= Seq::<char>::empty() || base =~= seq!['/'],
        printable_segs(segs),
    ensures
        spec_segments(base + spec_joined(segs)) == segs,
    decreases segs.len(),
{
    if base.len() == 0 {
        assert(base =~= Seq::<char>::empty());
        assert(spec_segments(base) =~= Seq::<Seq<char>>::empty());
    } else {
        assert(base == seq!['/']);
        assert(base.last() == '/');
        assert(is_sep(base.last()));
        let e = base.drop_last();
        assert(e =~= Seq::<char>::empty());
        assert(e == Seq::<char>::empty());
        assert(spec_segments(e) =~= Seq::<Seq<char>>::empty());
        assert(spec_segments(base) == spec_segments(e));
    }
    assert(spec_segments(base) =~= Seq::<Seq<char>>::empty());
    if segs.len() == 0 {
        assert(base + spec_joined(segs) =~= base);
    } else if segs.len() == 1 {
        assert(segs[0].len() > 0);
        if base.len() > 0 {
            assert(is_sep(base.last()));
        }
        lemma_segments_append_seg(base, segs[0]);
        assert(spec_segments(base).push(segs[0]) =~= segs);
    } else {
        assert(printable_segs(segs.drop_last())) by {
            assert(forall|i: int, j: int|
                0 <= i < segs.drop_last().len() && 0 <= j < segs.drop_last()[i].len()
                    ==> #[trigger] segs.drop_last()[i][j] == segs[i][j]);
            assert(forall|i: int| 0 <= i < segs.drop_last().len()
                ==> #[trigger] segs.drop_last()[i] == segs[i]);
        }
        lemma_join_parse_inner(base, segs.drop_last());
        let x = base + spec_joined(segs.drop_last());
        lemma_segments_append_sep(x);
        let y = x + seq!['/'];
        assert(y.last() == '/');
        assert(segs.last().len() > 0);
        lemma_segments_append_seg(y, segs.last());
        assert(base + spec_joined(segs) =~= y + segs.last());
        assert(spec_segments(y).push(segs.last()) =~= segs);
    }
}

/// The first character of a joined nonempty printable list is the first
/// character of its first segment.
proof fn lemma_joined_first_char(segs: Seq<Seq<char>>)
    requires
        printable_segs(segs),
        segs.len() > 0,
    ensures
        spec_joined(segs).len() > 0,
        spec_joined(segs)[0] == segs[0][0],
    decreases segs.len(),
{
    if segs.len() == 1 {
        assert(segs[0].len() > 0);
    } else {
        assert(printable_segs(segs.drop_last())) by {
            assert(forall|i: int| 0 <= i < segs.drop_last().len()
                ==> #[trigger] segs.drop_last()[i] == segs[i]);
        }
        lemma_joined_first_char(segs.drop_last());
        assert(spec_joined(segs)[0] == spec_joined(segs.drop_last())[0]);
    }
}

/// Round trip: a printable segment list joined into a string parses back to
/// exactly the same list, and the string is absolute exactly when the join
/// was. The absolute path strings the rewrite writes therefore denote
/// precisely their normalized segments.
pub proof fn lemma_join_roundtrip(absolute: bool, segs: Seq<Seq<char>>)
    requires
        printable_segs(segs),
    ensures
        spec_segments(spec_join(absolute, segs)) == segs,
        spec_is_absolute(spec_join(absolute, segs)) == absolute,
{
    if absolute {
        lemma_join_parse_inner(seq!['/'], segs);
        lemma_join_absolute(segs);
    } else {
        lemma_join_parse_inner(Seq::empty(), segs);
        assert(Seq::<char>::empty() + spec_joined(segs) =~= spec_joined(segs));
        if segs.len() > 0 {
            lemma_joined_first_char(segs);
            assert(segs[0].len() > 0);
            assert(!is_sep(segs[0][0]));
        }
    }
}

/// Lexically normalize a segment list.
pub fn normalize_segments(absolute: bool, segs: Vec<String>) -> (r: Vec<String>)
    ensures
        segs_view(r@) == spec_normalize(absolute, segs_view(segs@)),
{
    proof {
        reveal_strlit(".");
        reveal_strlit("..");
        assert("."@ =~= dot_seg());
        assert(".."@ =~= dotdot_seg());
    }
    let dot = String::from_str(".");
    let dotdot = String::from_str("..");
    let mut out: Vec<String> = Vec::new();
    let mut i: usize = 0;
    while i < segs.len()
        invariant
            0 <= i <= segs@.len(),
            dot@ == dot_seg(),
            dotdot@ == dotdot_seg(),
            segs_view(out@) == spec_normalize(absolute, segs_view(segs@).subrange(0, i as int)),
        decreases segs@.len() - i,
    {
        let ghost pre = segs_view(segs@).subrange(0, i as int);
        let ghost post = segs_view(segs@).subrange(0, i as int + 1);
        proof {
            assert(post.drop_last() =~= pre);
            assert(post.last() == segs_view(segs@)[i as int]);
        }
        if segs[i] == dot {
            // dropped
        } else if segs[i] == dotdot {
            if out.len() > 0 && !(out[out.len() - 1] == dotdot) {
                proof {
                    assert(segs_view(out@).last() == out@[out@.len() - 1]@);
                }
                let _ = out.pop();
                proof {
                    assert(segs_view(out@) =~= spec_normalize(absolute, pre).drop_last());
                }
            } else if absolute {
                proof {
                    if out.len() > 0 {
                        assert(segs_view(out@).last() == out@[out@.len() - 1]@);
                    }
                }
            } else {
                proof {
                    if out.len() > 0 {
                        assert(segs_view(out@).last() == out@[out@.len() - 1]@);
                    }
                }
                let d = dotdot.clone();
                proof {
                    assert(segs_view(out@.push(d)) =~= segs_view(out@).push(d@));
                }
                out.push(d);
            }
        } else {
            let s = clone_string(&segs[i]);
            proof {
                assert(segs_view(out@.push(s)) =~= segs_view(out@).push(s@));
            }
            out.push(s);
        }
        i = i + 1;
    }
    proof {
        assert(segs_view(segs@).subrange(0, segs@.len() as int) =~= segs_view(segs@));
    }
    out
}

/// Clone one string, keeping its value.
pub fn clone_string(s: &String) -> (r: String)
    ensures
        r == s,
{
    s.clone()
}

/// Clone a segment list, keeping its value.
pub fn clone_segments(v: &Vec<String>) -> (r: Vec<String>)
    ensures
        r@ == v@,
{
    let mut out: Vec<String> = Vec::new();
    let mut i: usize = 0;
    while i < v.len()
        invariant
            0 <= i <= v@.len(),
            out@ == v@.subrange(0, i as int),
        decreases v@.len() - i,
    {
        out.push(clone_string(&v[i]));
        proof {
            assert(out@ =~= v@.subrange(0, i as int + 1));
        }
        i = i + 1;
    }
    proof {
        assert(v@.subrange(0, v@.len() as int) =~= v@);
    }
    out
}

/// Whether two segment lists spell the same path.
pub fn seg_lists_equal(a: &Vec<String>, b: &Vec<String>) -> (r: bool)
    ensures
        r == (segs_view(a@) == segs_view(b@)),
{
    if a.len() != b.len() {
        proof {
            assert(segs_view(a@).len() != segs_view(b@).len());
        }
        return false;
    }
    let mut i: usize = 0;
    while i < a.len()
        invariant
            0 <= i <= a@.len(),
            a@.len() == b@.len(),
            forall|j: int| 0 <= j < i ==> #[trigger] segs_view(a@)[j] == segs_view(b@)[j],
        decreases a@.len() - i,
    {
        if !(a[i] == b[i]) {
            proof {
                assert(segs_view(a@)[i as int] != segs_view(b@)[i as int]);
            }
            return false;
        }
        i = i + 1;
    }
    proof {
        assert(segs_view(a@) =~= segs_view(b@));
    }
    true
}

/// Whether `a` is a segment-wise prefix of `b`.
pub fn is_segs_prefix(a: &Vec<String>, b: &Vec<String>) -> (r: bool)
    ensures
        r == is_seq_prefix(segs_view(a@), segs_view(b@)),
{
    if a.len() > b.len() {
        return false;
    }
    let mut i: usize = 0;
    while i < a.len()
        invariant
            0 <= i <= a@.len(),
            a@.len() <= b@.len(),
            forall|j: int| 0 <= j < i ==> #[trigger] segs_view(a@)[j] == segs_view(b@)[j],
        decreases a@.len() - i,
    {
        if !(a[i] == b[i]) {
            proof {
                assert(segs_view(a@)[i as int] != segs_view(b@)[i as int]);
                assert(segs_view(b@).subrange(0, a@.len() as int)[i as int]
                    == segs_view(b@)[i as int]);
            }
            return false;
        }
        i = i + 1;
    }
    proof {
        assert(segs_view(a@) =~= segs_view(b@).subrange(0, a@.len() as int));
    }
    true
}

/// Drop a known prefix from a segment list.
pub fn strip_segs_prefix(a: &Vec<String>, b: &Vec<String>) -> (r: Vec<String>)
    requires
        is_seq_prefix(segs_view(a@), segs_view(b@)),
    ensures
        segs_view(r@) == segs_view(b@).subrange(a@.len() as int, b@.len() as int),
        segs_view(a@) + segs_view(r@) == segs_view(b@),
{
    let mut out: Vec<String> = Vec::new();
    let mut i: usize = a.len();
    proof {
        assert(segs_view(a@).len() == a@.len() && segs_view(b@).len() == b@.len());
    }
    while i < b.len()
        invariant
            a@.len() <= i <= b@.len(),
            out@ == b@.subrange(a@.len() as int, i as int),
        decreases b@.len() - i,
    {
        out.push(clone_string(&b[i]));
        proof {
            assert(out@ =~= b@.subrange(a@.len() as int, i as int + 1));
        }
        i = i + 1;
    }
    proof {
        assert(out@ =~= b@.subrange(a@.len() as int, b@.len() as int));
        assert(segs_view(out@) =~= segs_view(b@).subrange(a@.len() as int, b@.len() as int));
        assert(segs_view(a@) + segs_view(out@) =~= segs_view(b@));
    }
    out
}

/// Concatenate two segment lists.
pub fn append_segments(a: &Vec<String>, b: &Vec<String>) -> (r: Vec<String>)
    ensures
        r@ == a@ + b@,
        segs_view(r@) == segs_view(a@) + segs_view(b@),
{
    let mut out = clone_segments(a);
    let mut i: usize = 0;
    while i < b.len()
        invariant
            0 <= i <= b@.len(),
            out@ == a@ + b@.subrange(0, i as int),
        decreases b@.len() - i,
    {
        out.push(clone_string(&b[i]));
        proof {
            assert(out@ =~= a@ + b@.subrange(0, i as int + 1));
        }
        i = i + 1;
    }
    proof {
        assert(a@ + b@.subrange(0, b@.len() as int) =~= a@ + b@);
        assert(segs_view(a@ + b@) =~= segs_view(a@) + segs_view(b@));
    }
    out
}

} // verus!
