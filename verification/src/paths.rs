//! Unix paths held as text: their components, file name, extension, joining,
//! and the order in which paths sort.

use vstd::prelude::*;
use crate::text::{
    find_from, find_last, first_index_of, last_index_of, lemma_first_index_of,
    lemma_last_index_of, lemma_text_lt_order, same_text, text_less, text_lt,
};

verus! {

/// A component of a Unix path, as `std::path::Component` names them.
pub enum Part {
    Root,
    Cur,
    Parent,
    Normal(Seq<char>),
}

/// A path component, as executable data.
pub enum PathPart {
    /// The root directory `/`.
    Root,
    /// A leading `.`.
    Cur,
    /// A `..`.
    Parent,
    /// A file or directory name.
    Normal(String),
}

impl View for PathPart {
    type V = Part;

    open spec fn view(&self) -> Part {
        match self {
            PathPart::Root => Part::Root,
            PathPart::Cur => Part::Cur,
            PathPart::Parent => Part::Parent,
            PathPart::Normal(s) => Part::Normal(s@),
        }
    }
}

/// The views of a sequence of path components.
pub open spec fn parts_view(v: Seq<PathPart>) -> Seq<Part> {
    v.map_values(|x: PathPart| x@)
}

/// The pieces of `p` between occurrences of `c`.
pub open spec fn split_at_char(p: Seq<char>, c: char) -> Seq<Seq<char>>
    decreases p.len(),
{
    let i = first_index_of(p, c);
    if i < 0 {
        seq![p]
    } else {
        proof {
            lemma_first_index_of(p, c);
        }
        seq![p.take(i)] + split_at_char(p.skip(i + 1), c)
    }
}

/// The component a piece between slashes stands for: none for "" and ".",
/// `Parent` for "..", else a name.
pub open spec fn segment_part(seg: Seq<char>) -> Seq<Part> {
    if seg.len() == 0 || seg == seq!['.'] {
        Seq::empty()
    } else if seg == seq!['.', '.'] {
        seq![Part::Parent]
    } else {
        seq![Part::Normal(seg)]
    }
}

/// The components that a run of pieces between slashes stands for.
pub open spec fn segments_parts(segs: Seq<Seq<char>>) -> Seq<Part>
    decreases segs.len(),
{
    if segs.len() == 0 {
        Seq::empty()
    } else {
        segment_part(segs[0]) + segments_parts(segs.drop_first())
    }
}

/// The components of a Unix path as `Path::components` yields them: `Root`
/// for a leading '/', `Cur` for a leading "." piece, then the other pieces
/// with "" and "." left out.
pub open spec fn path_parts(p: Seq<char>) -> Seq<Part> {
    let segs = split_at_char(p, '/');
    if p.len() > 0 && p[0] == '/' {
        seq![Part::Root] + segments_parts(segs.drop_first())
    } else if segs[0] == seq!['.'] {
        seq![Part::Cur] + segments_parts(segs.drop_first())
    } else {
        segments_parts(segs)
    }
}

proof fn lemma_segments_parts_single(x: Seq<char>)
    ensures
        segments_parts(seq![x]) == segment_part(x),
{
    assert(seq![x].drop_first() =~= Seq::<Seq<char>>::empty());
    assert(segments_parts(Seq::<Seq<char>>::empty()) == Seq::<Part>::empty());
    assert(segments_parts(seq![x]) == segment_part(seq![x][0]) + segments_parts(seq![x].drop_first()));
    assert(segment_part(x) + Seq::<Part>::empty() =~= segment_part(x));
}

proof fn lemma_segments_parts_append(a: Seq<Seq<char>>, b: Seq<Seq<char>>)
    ensures
        segments_parts(a + b) == segments_parts(a) + segments_parts(b),
    decreases a.len(),
{
    if a.len() == 0 {
        assert(a + b =~= b);
    } else {
        lemma_segments_parts_append(a.drop_first(), b);
        assert((a + b).drop_first() =~= a.drop_first() + b);
        assert((a + b)[0] == a[0]);
    }
}

fn push_segment(parts: &mut Vec<PathPart>, p: &str, a: usize, b: usize)
    requires
        a <= b <= p@.len(),
    ensures
        parts_view(final(parts)@) == parts_view(old(parts)@) + segment_part(p@.subrange(a as int, b as int)),
{
    let seg = p.substring_char(a, b);
    let ghost before = parts@;
    proof {
        reveal_strlit(".");
        reveal_strlit("..");
        assert("."@ =~= seq!['.']);
        assert(".."@ =~= seq!['.', '.']);
    }
    if seg.unicode_len() == 0 || same_text(seg, ".") {
        assert(parts_view(before) + Seq::<Part>::empty() =~= parts_view(before));
    } else if same_text(seg, "..") {
        parts.push(PathPart::Parent);
        assert(parts_view(parts@) =~= parts_view(before) + seq![Part::Parent]);
    } else {
        parts.push(PathPart::Normal(String::from_str(seg)));
        assert(parts_view(parts@) =~= parts_view(before) + seq![Part::Normal(seg@)]);
    }
}

/// The components of a path.
pub fn components(p: &str) -> (r: Vec<PathPart>)
    ensures
        parts_view(r@) == path_parts(p@),
{
    let n = p.unicode_len();
    let mut parts: Vec<PathPart> = Vec::new();
    let ghost segs = split_at_char(p@, '/');
    // where the first piece ends
    let first_end = match find_from(p, '/', 0) {
        Some(i) => i,
        None => n,
    };
    proof {
        assert(p@.skip(0) =~= p@);
        lemma_first_index_of(p@, '/');
        if first_end < n {
            assert(segs[0] == p@.take(first_end as int));
            assert(segs.drop_first() == split_at_char(p@.skip(first_end + 1), '/'));
        } else {
            assert(segs[0] == p@);
        }
        assert(p@.subrange(0, first_end as int) =~= segs[0]);
    }
    let mut pos: usize;
    let ghost target: Seq<Part>;
    if first_end == 0 && n > 0 {
        // a leading '/'
        parts.push(PathPart::Root);
        pos = 1;
        proof {
            target = seq![Part::Root] + segments_parts(segs.drop_first());
            assert(parts_view(parts@) =~= seq![Part::Root]);
        }
    } else {
        proof {
            reveal_strlit(".");
            assert("."@ =~= seq!['.']);
        }
        let is_cur = same_text(p.substring_char(0, first_end), ".");
        if is_cur {
            parts.push(PathPart::Cur);
            proof {
                target = seq![Part::Cur] + segments_parts(segs.drop_first());
                assert(parts_view(parts@) =~= seq![Part::Cur]);
            }
        } else {
            push_segment(&mut parts, p, 0, first_end);
            proof {
                target = segments_parts(segs);
                assert(segments_parts(segs) == segment_part(segs[0]) + segments_parts(
                    segs.drop_first(),
                ));
                assert(parts_view(parts@) =~= Seq::<Part>::empty() + segment_part(segs[0]));
            }
        }
        if first_end == n {
            proof {
                assert(segs.drop_first() =~= Seq::<Seq<char>>::empty());
                assert(parts_view(parts@) =~= target);
            }
            return parts;
        }
        pos = first_end + 1;
    }
    proof {
        if first_end == 0 && n > 0 {
            assert(p@[0] == '/');
        }
    }
    // every later piece starts at `pos`, just after a '/'
    loop
        invariant
            n == p@.len(),
            pos <= n,
            parts_view(parts@) + segments_parts(split_at_char(p@.skip(pos as int), '/')) == target,
            target == path_parts(p@),
        decreases n - pos,
    {
        let ghost t = p@.skip(pos as int);
        proof {
            lemma_first_index_of(t, '/');
        }
        let next = find_from(p, '/', pos);
        let end = match next {
            Some(i) => i,
            None => n,
        };
        let ghost before = parts_view(parts@);
        push_segment(&mut parts, p, pos, end);
        proof {
            let piece = p@.subrange(pos as int, end as int);
            if next is None {
                assert(piece =~= t);
                assert(split_at_char(t, '/') == seq![t]);
                lemma_segments_parts_single(t);
            } else {
                assert(piece =~= t.take(end - pos));
                assert(t.skip(end - pos + 1) =~= p@.skip(end + 1));
                let rest = split_at_char(p@.skip(end + 1), '/');
                assert(split_at_char(t, '/') == seq![piece] + rest);
                lemma_segments_parts_append(seq![piece], rest);
                lemma_segments_parts_single(piece);
            }
        }
        match next {
            None => {
                proof {
                    assert(parts_view(parts@) =~= before + segment_part(t));
                }
                return parts;
            },
            Some(i) => {
                pos = i + 1;
            },
        }
    }
}

/// The file name of a path (what `Path::file_name` gives): its last
/// component, when that is a name.
pub open spec fn file_name_of(p: Seq<char>) -> Option<Seq<char>> {
    let parts = path_parts(p);
    if parts.len() > 0 {
        match parts.last() {
            Part::Normal(n) => Some(n),
            _ => None,
        }
    } else {
        None
    }
}

/// The file name of a path, when it has one.
pub(crate) fn file_name(path: &str) -> (r: Option<String>)
    ensures
        match r {
            Some(n) => file_name_of(path@) == Some(n@),
            None => file_name_of(path@) is None,
        },
{
    let parts = components(path);
    let n = parts.len();
    if n == 0 {
        return None;
    }
    proof {
        assert(parts_view(parts@).last() == parts@[n - 1]@);
    }
    match &parts[n - 1] {
        PathPart::Normal(s) => Some(s.clone()),
        _ => None,
    }
}

/// The error for a path that has no file name.
pub open spec fn invalid_name_text(path: Seq<char>) -> Seq<char> {
    "invalid file name for "@ + path
}

/// The file name of a path; a path without one (such as "/" or "a/..") is
/// an error that names the path.
pub fn basename(path: &str) -> (r: Result<String, String>)
    ensures
        match r {
            Ok(n) => file_name_of(path@) == Some(n@),
            Err(e) => file_name_of(path@) is None && e@ == invalid_name_text(path@),
        },
{
    match file_name(path) {
        Some(n) => Ok(n),
        None => {
            let mut e = String::from_str("invalid file name for ");
            e.append(path);
            Err(e)
        },
    }
}

/// The extension of a file name as `Path::extension` reads it: the text after
/// the last '.', unless that '.' is the first character or there is none.
pub open spec fn name_extension(f: Seq<char>) -> Option<Seq<char>> {
    let i = last_index_of(f, '.');
    if i <= 0 {
        None
    } else {
        Some(f.skip(i + 1))
    }
}

/// The extension of a path's file name.
pub open spec fn path_extension(p: Seq<char>) -> Option<Seq<char>> {
    match file_name_of(p) {
        Some(f) => name_extension(f),
        None => None,
    }
}

/// The extension of a path's file name, when it has one.
pub fn extension_of_path(path: &str) -> (r: Option<String>)
    ensures
        match r {
            Some(e) => path_extension(path@) == Some(e@),
            None => path_extension(path@) is None,
        },
{
    match file_name(path) {
        None => None,
        Some(f) => {
            let m = f.unicode_len();
            match find_last(f.as_str(), '.') {
                Some(i) => {
                    proof {
                        lemma_last_index_of(f@, '.');
                    }
                    if i == 0 {
                        None
                    } else {
                        Some(String::from_str(f.as_str().substring_char(i + 1, m)))
                    }
                },
                None => None,
            }
        },
    }
}

/// `dir` joined with `name` as `Path::join` does it on Unix: an absolute
/// `name` replaces `dir`; else a '/' goes between them unless `dir` is empty
/// or already ends with one.
pub open spec fn joined(dir: Seq<char>, name: Seq<char>) -> Seq<char> {
    if name.len() > 0 && name[0] == '/' {
        name
    } else if dir.len() > 0 && dir.last() != '/' {
        dir + seq!['/'] + name
    } else {
        dir + name
    }
}

/// Joins a path and a name.
pub fn join_path(dir: &str, name: &str) -> (r: String)
    ensures
        r@ == joined(dir@, name@),
{
    let nl = name.unicode_len();
    if nl > 0 && name.get_char(0) == '/' {
        return String::from_str(name);
    }
    let dl = dir.unicode_len();
    let mut out = String::from_str(dir);
    if dl > 0 && dir.get_char(dl - 1) != '/' {
        out.append("/");
        proof {
            reveal_strlit("/");
        }
    }
    out.append(name);
    out
}

/// The rank of each kind of component in the order of paths.
pub open spec fn part_rank(x: Part) -> int {
    match x {
        Part::Root => 0,
        Part::Cur => 1,
        Part::Parent => 2,
        Part::Normal(_) => 3,
    }
}

/// The order of components: by kind, then names by text.
pub open spec fn part_lt(x: Part, y: Part) -> bool {
    match (x, y) {
        (Part::Normal(a), Part::Normal(b)) => text_lt(a, b),
        _ => part_rank(x) < part_rank(y),
    }
}

/// The order of component sequences: lexicographic by `part_lt`.
pub open spec fn parts_lt(a: Seq<Part>, b: Seq<Part>) -> bool
    decreases a.len(),
{
    if a.len() == 0 {
        b.len() > 0
    } else if b.len() == 0 {
        false
    } else if a[0] != b[0] {
        part_lt(a[0], b[0])
    } else {
        parts_lt(a.drop_first(), b.drop_first())
    }
}

/// The order of paths (that of `PathBuf`): by their components.
pub open spec fn path_lt(a: Seq<char>, b: Seq<char>) -> bool {
    parts_lt(path_parts(a), path_parts(b))
}

proof fn lemma_part_lt_order(x: Part, y: Part, z: Part)
    ensures
        !part_lt(x, x),
        part_lt(x, y) ==> !part_lt(y, x),
        part_lt(x, y) && part_lt(y, z) ==> part_lt(x, z),
        x != y ==> part_lt(x, y) || part_lt(y, x),
{
    match (x, y, z) {
        (Part::Normal(a), Part::Normal(b), Part::Normal(c)) => {
            lemma_text_lt_order(a, b, c);
        },
        (Part::Normal(a), Part::Normal(b), _) => {
            lemma_text_lt_order(a, b, b);
        },
        (Part::Normal(a), _, _) => {
            lemma_text_lt_order(a, a, a);
        },
        _ => {},
    }
}

/// `parts_lt` is a strict total order.
pub proof fn lemma_parts_lt_order(a: Seq<Part>, b: Seq<Part>, c: Seq<Part>)
    ensures
        !parts_lt(a, a),
        parts_lt(a, b) ==> !parts_lt(b, a),
        parts_lt(a, b) && parts_lt(b, c) ==> parts_lt(a, c),
        a != b ==> parts_lt(a, b) || parts_lt(b, a),
    decreases a.len(),
{
    if a.len() > 0 && b.len() > 0 && c.len() > 0 {
        lemma_parts_lt_order(a.drop_first(), b.drop_first(), c.drop_first());
        lemma_part_lt_order(a[0], b[0], c[0]);
    } else if a.len() > 0 && b.len() > 0 {
        lemma_parts_lt_order(a.drop_first(), b.drop_first(), b.drop_first());
        lemma_part_lt_order(a[0], b[0], b[0]);
    } else if a.len() > 0 {
        lemma_parts_lt_order(a.drop_first(), a.drop_first(), a.drop_first());
        lemma_part_lt_order(a[0], a[0], a[0]);
    }
    if a.len() > 0 && b.len() > 0 && a[0] == b[0] && a.drop_first() == b.drop_first() {
        assert forall|i: int| 0 <= i < a.len() implies a[i] == b[i] by {
            if i > 0 {
                assert(a[i] == a.drop_first()[i - 1]);
                assert(b[i] == b.drop_first()[i - 1]);
            }
        }
        assert(a =~= b);
    }
    if a.len() == 0 && b.len() == 0 {
        assert(a =~= b);
    }
}

fn part_less(x: &PathPart, y: &PathPart) -> (r: bool)
    ensures
        r == part_lt(x@, y@),
{
    match (x, y) {
        (PathPart::Normal(a), PathPart::Normal(b)) => text_less(a.as_str(), b.as_str()),
        _ => part_rank_of(x) < part_rank_of(y),
    }
}

fn part_rank_of(x: &PathPart) -> (r: u8)
    ensures
        r == part_rank(x@),
{
    match x {
        PathPart::Root => 0,
        PathPart::Cur => 1,
        PathPart::Parent => 2,
        PathPart::Normal(_) => 3,
    }
}

fn part_same(x: &PathPart, y: &PathPart) -> (r: bool)
    ensures
        r == (x@ == y@),
{
    match (x, y) {
        (PathPart::Normal(a), PathPart::Normal(b)) => same_text(a.as_str(), b.as_str()),
        _ => part_rank_of(x) == part_rank_of(y),
    }
}

/// Whether path `a` sorts before path `b`.
pub fn path_less(a: &str, b: &str) -> (r: bool)
    ensures
        r == path_lt(a@, b@),
{
    let pa = components(a);
    let pb = components(b);
    let n = pa.len();
    let m = pb.len();
    let ghost va = parts_view(pa@);
    let ghost vb = parts_view(pb@);
    let mut i: usize = 0;
    assert(va.skip(0) =~= va);
    assert(vb.skip(0) =~= vb);
    while i < n && i < m
        invariant
            n == pa@.len(),
            m == pb@.len(),
            va == parts_view(pa@),
            vb == parts_view(pb@),
            va == path_parts(a@),
            vb == path_parts(b@),
            i <= n,
            i <= m,
            parts_lt(va, vb) == parts_lt(va.skip(i as int), vb.skip(i as int)),
        decreases n - i,
    {
        assert(va.skip(i as int).drop_first() =~= va.skip(i + 1));
        assert(vb.skip(i as int).drop_first() =~= vb.skip(i + 1));
        assert(va.skip(i as int)[0] == pa@[i as int]@);
        assert(vb.skip(i as int)[0] == pb@[i as int]@);
        if !part_same(&pa[i], &pb[i]) {
            assert(va.skip(i as int).len() > 0 && vb.skip(i as int).len() > 0);
            assert(va.skip(i as int)[0] != vb.skip(i as int)[0]);
            return part_less(&pa[i], &pb[i]);
        }
        i = i + 1;
    }
    i == n && i < m
}

} // verus!
