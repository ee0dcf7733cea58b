//! Unix paths as `std::path` reads them: their components, prefix test,
//! final name and extension, and joining.  A component is held as its text;
//! the root is written `/` and a leading current-directory mark `.`, texts
//! that no name can have.
use vstd::prelude::*;
use crate::text::{copy_range, ranges_within, split_all, split_ranges, texts_of};

verus! {

/// The path starts at the root.
pub open spec fn has_root(p: Seq<char>) -> bool {
    p.len() > 0 && p[0] == '/'
}

/// The path is relative and begins with a `.` component, which `std::path`
/// keeps (every later `.` is dropped).
pub open spec fn leading_cur_dir(p: Seq<char>) -> bool {
    !has_root(p) && p.len() > 0 && p[0] == '.' && (p.len() == 1 || p[1] == '/')
}

/// A piece between separators that names something (neither empty nor `.`).
pub open spec fn is_name(c: Seq<char>) -> bool {
    c.len() > 0 && c != seq!['.']
}

/// The pieces that name something, in order.
pub open spec fn names_in(ps: Seq<Seq<char>>) -> Seq<Seq<char>>
    decreases ps.len(),
{
    if ps.len() == 0 {
        Seq::empty()
    } else {
        names_in(ps.drop_last()) + if is_name(ps.last()) {
            seq![ps.last()]
        } else {
            Seq::empty()
        }
    }
}

/// The components of a path (`Path::components`): the root, a leading `.`,
/// then the names between separators; repeated separators, later `.`
/// pieces and a trailing separator leave no trace.
pub open spec fn components(p: Seq<char>) -> Seq<Seq<char>> {
    (if has_root(p) {
        seq![seq!['/']]
    } else {
        Seq::empty()
    }) + (if leading_cur_dir(p) {
        seq![seq!['.']]
    } else {
        Seq::empty()
    }) + names_in(split_all(p, seq!['/']))
}

/// `base` is a prefix of `p` component by component (`Path::starts_with`).
pub open spec fn path_starts_with(p: Seq<char>, base: Seq<char>) -> bool {
    let c = components(p);
    let b = components(base);
    b.len() <= c.len() && c.take(b.len() as int) == b
}

/// A component that is a plain name: not the root, `.` or `..`.
pub open spec fn is_plain_name(c: Seq<char>) -> bool {
    c != seq!['/'] && c != seq!['.'] && c != seq!['.', '.']
}

/// The final component, if it is a plain name (`Path::file_name`).
pub open spec fn file_name(p: Seq<char>) -> Option<Seq<char>> {
    let c = components(p);
    if c.len() > 0 && is_plain_name(c.last()) {
        Some(c.last())
    } else {
        None
    }
}

/// The position of the last `.` in `s`.
pub open spec fn last_dot(s: Seq<char>) -> Option<int>
    decreases s.len(),
{
    if s.len() == 0 {
        None
    } else if s.last() == '.' {
        Some(s.len() - 1)
    } else {
        last_dot(s.drop_last())
    }
}

/// The extension of a path (`Path::extension`): the text of the file name
/// after its last `.`, unless there is no `.` or the only one begins the name.
pub open spec fn extension(p: Seq<char>) -> Option<Seq<char>> {
    match file_name(p) {
        Some(f) => match last_dot(f) {
            Some(i) => if i == 0 {
                None
            } else {
                Some(f.skip(i + 1))
            },
            None => None,
        },
        None => None,
    }
}

/// `base` with `rel` pushed onto it (`PathBuf::push` on Unix): a path from
/// the root replaces `base`; otherwise a separator goes between them unless
/// `base` is empty or already ends with one.
pub open spec fn join(base: Seq<char>, rel: Seq<char>) -> Seq<char> {
    if has_root(rel) {
        rel
    } else if base.len() > 0 && base.last() != '/' {
        base + seq!['/'] + rel
    } else {
        base + rel
    }
}

/// `s` without every leading repetition of a nonempty `pre`
/// (`str::trim_start_matches`).
pub open spec fn trim_prefix_all(s: Seq<char>, pre: Seq<char>) -> Seq<char>
    decreases s.len(),
{
    if pre.len() > 0 && pre.len() <= s.len() && s.take(pre.len() as int) == pre {
        trim_prefix_all(s.skip(pre.len() as int), pre)
    } else {
        s
    }
}

/// Law: every path lies under itself, and a path under `b` lies under every
/// path that `b` lies under (so the root folder itself is servable, and so
/// is everything below a subfolder of it).
pub proof fn law_path_prefix_order(p: Seq<char>, b: Seq<char>, a: Seq<char>)
    ensures
        path_starts_with(p, p),
        path_starts_with(p, b) && path_starts_with(b, a) ==> path_starts_with(p, a),
{
    let cp = components(p);
    assert(cp.take(cp.len() as int) =~= cp);
    if path_starts_with(p, b) && path_starts_with(b, a) {
        let cb = components(b);
        let ca = components(a);
        assert(cp.take(ca.len() as int) =~= cb.take(ca.len() as int));
    }
}

/// The texts of a list of character vectors.
pub open spec fn views(v: Seq<Vec<char>>) -> Seq<Seq<char>> {
    v.map_values(|x: Vec<char>| x@)
}

/// Whether two texts are equal.
pub fn same_text(a: &[char], b: &[char]) -> (r: bool)
    ensures
        r == (a@ == b@),
{
    if a.len() != b.len() {
        return false;
    }
    let mut i: usize = 0;
    while i < a.len()
        invariant
            a@.len() == b@.len(),
            i <= a@.len(),
            forall|j: int| 0 <= j < i ==> a@[j] == b@[j],
        decreases a@.len() - i,
    {
        if a[i] != b[i] {
            return false;
        }
        i = i + 1;
    }
    assert(a@ =~= b@);
    true
}

/// The components of `p`.
pub fn path_components(p: &[char]) -> (r: Vec<Vec<char>>)
    ensures
        views(r@) == components(p@),
{
    let mut out: Vec<Vec<char>> = Vec::new();
    let ghost lead: Seq<Seq<char>> = (if has_root(p@) {
        seq![seq!['/']]
    } else {
        Seq::empty()
    }) + (if leading_cur_dir(p@) {
        seq![seq!['.']]
    } else {
        Seq::empty()
    });
    if p.len() > 0 && p[0] == '/' {
        let root: Vec<char> = vec!['/'];
        assert(root@ =~= seq!['/']);
        out.push(root);
        assert(views(out@) =~= lead);
    } else if p.len() > 0 && p[0] == '.' && (p.len() == 1 || p[1] == '/') {
        let dot: Vec<char> = vec!['.'];
        assert(dot@ =~= seq!['.']);
        out.push(dot);
        assert(views(out@) =~= lead);
    } else {
        assert(views(out@) =~= lead);
    }
    let sep: Vec<char> = vec!['/'];
    assert(sep@ =~= seq!['/']);
    let ranges = split_ranges(p, sep.as_slice(), 0);
    let ghost ps = split_all(p@, seq!['/']);
    assert(texts_of(p@, ranges@).len() == ranges@.len());
    let mut i: usize = 0;
    while i < ranges.len()
        invariant
            i <= ranges@.len(),
            ps == texts_of(p@, ranges@),
            ranges_within(p@, ranges@),
            views(out@) == lead + names_in(ps.take(i as int)),
        decreases ranges@.len() - i,
    {
        let (a, b) = ranges[i];
        assert(ranges_within(p@, ranges@) ==> ranges@[i as int].0 <= ranges@[i as int].1 <= p@.len());
        let c = copy_range(p, a, b);
        assert(c@ == ps[i as int]);
        assert(ps.take(i + 1).drop_last() =~= ps.take(i as int));
        assert(ps.take(i + 1).last() == ps[i as int]);
        let ghost before = views(out@);
        let is_dot = c.len() == 1 && c[0] == '.';
        assert(is_dot == (c@ == seq!['.'])) by {
            if c@.len() == 1 && c@ != seq!['.'] {
                assert(c@ =~= seq![c@[0]]);
            }
        }
        if c.len() > 0 && !is_dot {
            out.push(c);
            assert(views(out@) =~= before + seq![ps[i as int]]);
        }
        i = i + 1;
    }
    assert(ps.take(ranges@.len() as int) =~= ps);
    out
}

/// Whether `base` is a prefix of `p` component by component.
pub fn starts_with_path(p: &str, base: &str) -> (r: bool)
    ensures
        r == path_starts_with(p@, base@),
{
    let pc = crate::conv::chars_of(p);
    let bc = crate::conv::chars_of(base);
    let c = path_components(pc.as_slice());
    let b = path_components(bc.as_slice());
    let ghost cv = views(c@);
    let ghost bv = views(b@);
    assert(cv.len() == c@.len() && bv.len() == b@.len());
    if b.len() > c.len() {
        return false;
    }
    let mut i: usize = 0;
    while i < b.len()
        invariant
            b@.len() <= c@.len(),
            i <= b@.len(),
            cv == views(c@),
            bv == views(b@),
            cv.len() == c@.len(),
            bv.len() == b@.len(),
            cv == components(p@),
            bv == components(base@),
            forall|j: int| 0 <= j < i ==> cv[j] == bv[j],
        decreases b@.len() - i,
    {
        assert(cv[i as int] == c@[i as int]@ && bv[i as int] == b@[i as int]@);
        if !same_text(c[i].as_slice(), b[i].as_slice()) {
            assert(cv.take(bv.len() as int)[i as int] != bv[i as int]);
            return false;
        }
        i = i + 1;
    }
    assert(cv.take(bv.len() as int) =~= bv);
    true
}


/// The final name of `p`, if its last component is a plain name.
pub fn path_file_name(p: &[char]) -> (r: Option<Vec<char>>)
    ensures
        match r {
            Some(f) => file_name(p@) == Some(f@),
            None => file_name(p@) is None,
        },
{
    let mut c = path_components(p);
    let ghost cv = views(c@);
    assert(cv.len() == c@.len());
    match c.pop() {
        Some(last) => {
            assert(last@ == cv.last());
            let root: Vec<char> = vec!['/'];
            let dot: Vec<char> = vec!['.'];
            let dotdot: Vec<char> = vec!['.', '.'];
            assert(root@ =~= seq!['/']);
            assert(dot@ =~= seq!['.']);
            assert(dotdot@ =~= seq!['.', '.']);
            if same_text(last.as_slice(), root.as_slice()) || same_text(last.as_slice(), dot.as_slice())
                || same_text(last.as_slice(), dotdot.as_slice()) {
                None
            } else {
                Some(last)
            }
        },
        None => None,
    }
}

/// The last `.` lies within the text.
pub proof fn lemma_last_dot(s: Seq<char>)
    ensures
        last_dot(s) matches Some(i) ==> 0 <= i < s.len() && s[i] == '.',
    decreases s.len(),
{
    if s.len() > 0 && s.last() != '.' {
        lemma_last_dot(s.drop_last());
    }
}

/// The position of the last `.` in `s`.
fn find_last_dot(s: &[char]) -> (r: Option<usize>)
    ensures
        r == match last_dot(s@) {
            Some(i) => Some(i as usize),
            None => None::<usize>,
        },
{
    let mut i = s.len();
    assert(s@.take(i as int) =~= s@);
    while i > 0
        invariant
            i <= s@.len(),
            last_dot(s@) == last_dot(s@.take(i as int)),
        decreases i,
    {
        assert(s@.take(i as int).last() == s@[i - 1]);
        assert(s@.take(i as int).drop_last() =~= s@.take(i - 1));
        if s[i - 1] == '.' {
            return Some(i - 1);
        }
        i = i - 1;
    }
    None
}

/// The extension of `p`, if it has one.
pub fn path_extension(p: &[char]) -> (r: Option<Vec<char>>)
    ensures
        match r {
            Some(e) => extension(p@) == Some(e@),
            None => extension(p@) is None,
        },
{
    proof {
        assert(p@.take(p@.len() as int) =~= p@);
    }
    match path_file_name(p) {
        Some(f) => {
            assert(f@.take(f@.len() as int) =~= f@);
            let flen = f.len();
            proof {
                lemma_last_dot(f@);
            }
            match find_last_dot(f.as_slice()) {
                Some(i) => {
                    if i == 0 {
                        None
                    } else {
                        let e = copy_range(f.as_slice(), i + 1, flen);
                        assert(e@ =~= f@.skip(i + 1));
                        Some(e)
                    }
                },
                None => None,
            }
        },
        None => None,
    }
}

/// `base` with `rel` pushed onto it.
pub fn join_path(base: &[char], rel: &[char]) -> (r: Vec<char>)
    ensures
        r@ == join(base@, rel@),
{
    let mut out: Vec<char> = Vec::new();
    if rel.len() > 0 && rel[0] == '/' {
        crate::text::push_all(&mut out, rel);
        assert(out@ =~= rel@);
        return out;
    }
    crate::text::push_all(&mut out, base);
    if base.len() > 0 && base[base.len() - 1] != '/' {
        out.push('/');
    }
    crate::text::push_all(&mut out, rel);
    assert(out@ =~= join(base@, rel@));
    out
}

/// `s` without every leading repetition of the nonempty `pre`.
pub fn trim_prefix(s: &[char], pre: &[char]) -> (r: Vec<char>)
    requires
        pre@.len() > 0,
    ensures
        r@ == trim_prefix_all(s@, pre@),
{
    let n = pre.len();
    let mut pos: usize = 0;
    assert(s@.skip(0) =~= s@);
    loop
        invariant
            n == pre@.len(),
            n > 0,
            pos <= s@.len(),
            trim_prefix_all(s@.skip(pos as int), pre@) == trim_prefix_all(s@, pre@),
        decreases s@.len() - pos,
    {
        let ghost rest = s@.skip(pos as int);
        if n <= s.len() - pos && crate::text::occurs_here(s, pre, pos) {
            assert(rest.take(n as int) =~= s@.subrange(pos as int, pos + n));
            assert(rest.skip(n as int) =~= s@.skip(pos + n));
            pos = pos + n;
        } else {
            assert(n <= rest.len() ==> rest.take(n as int) =~= s@.subrange(pos as int, pos + n));
            let r = copy_range(s, pos, s.len());
            assert(r@ =~= rest);
            return r;
        }
    }
}

} // verus!
