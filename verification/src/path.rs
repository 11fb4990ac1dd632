//! Unix path components and `Path::starts_with`, on text paths.
//!
//! A path is read as `std::path::Path` reads it on Unix: a leading `/` is the root;
//! a relative path that begins with the segment `.` keeps that `.` as its first
//! component; every other segment between separators that is empty or `.` is
//! dropped. `starts_with` compares whole components, so `/usr/bin/ls` starts with
//! `/usr` and with `/usr/bin/` but not with `/us`.

use vstd::prelude::*;

verus! {

/// A segment that stays a component: neither empty nor `.`.
pub open spec fn kept(seg: Seq<char>) -> Seq<Seq<char>> {
    if seg.len() > 0 && seg != seq!['.'] {
        seq![seg]
    } else {
        Seq::empty()
    }
}

/// The normal components of `b[i..]`, where `cur` is the segment read so far.
pub open spec fn segments_from(b: Seq<char>, i: int, cur: Seq<char>) -> Seq<Seq<char>>
    decreases b.len() - i,
{
    if i < 0 || i >= b.len() {
        kept(cur)
    } else if b[i] == '/' {
        kept(cur) + segments_from(b, i + 1, Seq::empty())
    } else {
        segments_from(b, i + 1, cur.push(b[i]))
    }
}

/// The path has a root.
pub open spec fn has_root(b: Seq<char>) -> bool {
    b.len() > 0 && b[0] == '/'
}

/// The relative path begins with the segment `.`.
pub open spec fn has_cur_dir(b: Seq<char>) -> bool {
    !has_root(b) && b.len() > 0 && b[0] == '.' && (b.len() == 1 || b[1] == '/')
}

/// The components of a path: the root as `/`, a leading current directory as `.`,
/// then the normal components.
pub open spec fn components(b: Seq<char>) -> Seq<Seq<char>> {
    (if has_root(b) { seq![seq!['/']] } else { Seq::empty() }) + (if has_cur_dir(b) {
        seq![seq!['.']]
    } else {
        Seq::empty()
    }) + segments_from(b, 0, Seq::empty())
}

/// `Path::starts_with`: the components of `base` begin the components of `path`.
pub open spec fn path_starts_with_spec(path: Seq<char>, base: Seq<char>) -> bool {
    let pc = components(path);
    let bc = components(base);
    bc.len() <= pc.len() && pc.take(bc.len() as int) == bc
}

pub open spec fn nested_view(v: Seq<Vec<char>>) -> Seq<Seq<char>> {
    v.map_values(|x: Vec<char>| x@)
}

fn chars_equal(a: &[char], b: &[char]) -> (r: bool)
    ensures
        r == (a@ == b@),
{
    if a.len() != b.len() {
        return false;
    }
    let mut k: usize = 0;
    while k < a.len()
        invariant
            a@.len() == b@.len(),
            k <= a@.len(),
            forall|l: int| 0 <= l < k ==> a@[l] == b@[l],
        decreases a@.len() - k,
    {
        if a[k] != b[k] {
            return false;
        }
        k = k + 1;
    }
    assert(a@ =~= b@);
    true
}

fn push_kept(out: &mut Vec<Vec<char>>, seg: Vec<char>)
    ensures
        nested_view(final(out)@) == nested_view(old(out)@) + kept(seg@),
{
    let dot = seg.len() == 1 && seg[0] == '.';
    if seg.len() > 0 && !dot {
        assert(seg@ != seq!['.']) by {
            if seg@.len() == 1 {
                assert(seg@[0] != '.');
            }
        }
        let ghost sv = seg@;
        out.push(seg);
        assert(nested_view(out@) =~= nested_view(old(out)@) + seq![sv]);
    } else {
        assert(seg@.len() == 0 || seg@ =~= seq!['.']);
        assert(nested_view(out@) =~= nested_view(old(out)@) + kept(seg@));
    }
}

/// The components of a path (see `components`).
pub fn path_components(p: &[char]) -> (r: Vec<Vec<char>>)
    ensures
        nested_view(r@) == components(p@),
{
    let mut out: Vec<Vec<char>> = Vec::new();
    if p.len() > 0 && p[0] == '/' {
        let mut root: Vec<char> = Vec::new();
        root.push('/');
        out.push(root);
    } else if p.len() > 0 && p[0] == '.' && (p.len() == 1 || p[1] == '/') {
        let mut dot: Vec<char> = Vec::new();
        dot.push('.');
        out.push(dot);
    }
    let ghost head = nested_view(out@);
    assert(head =~= (if has_root(p@) { seq![seq!['/']] } else { Seq::<Seq<char>>::empty() }) + (if has_cur_dir(p@) {
        seq![seq!['.']]
    } else {
        Seq::<Seq<char>>::empty()
    }));
    let mut cur: Vec<char> = Vec::new();
    let mut i: usize = 0;
    while i < p.len()
        invariant
            i <= p@.len(),
            nested_view(out@) + segments_from(p@, i as int, cur@) == head + segments_from(p@, 0, Seq::empty()),
        decreases p@.len() - i,
    {
        if p[i] == '/' {
            let seg = cur;
            cur = Vec::new();
            let ghost before = nested_view(out@);
            let ghost sv = seg@;
            push_kept(&mut out, seg);
            assert(segments_from(p@, i as int, sv) == kept(sv) + segments_from(p@, i + 1, Seq::empty()));
            assert(nested_view(out@) + segments_from(p@, i + 1, cur@) =~= before + segments_from(p@, i as int, sv));
        } else {
            let ghost old_cur = cur@;
            cur.push(p[i]);
            assert(segments_from(p@, i as int, old_cur) == segments_from(p@, i + 1, cur@));
        }
        i = i + 1;
    }
    let ghost sv = cur@;
    assert(segments_from(p@, i as int, sv) == kept(sv));
    push_kept(&mut out, cur);
    assert(nested_view(out@) =~= head + segments_from(p@, 0, Seq::empty()));
    out
}

/// `Path::starts_with` on text paths.
pub fn path_starts_with(path: &str, base: &str) -> (b: bool)
    ensures
        b == path_starts_with_spec(path@, base@),
{
    let pv = crate::text::chars_of(path);
    let bv = crate::text::chars_of(base);
    let pc = path_components(pv.as_slice());
    let bc = path_components(bv.as_slice());
    let ghost pcv = nested_view(pc@);
    let ghost bcv = nested_view(bc@);
    assert(bcv.len() == bc@.len() && pcv.len() == pc@.len());
    if bc.len() > pc.len() {
        return false;
    }
    let mut k: usize = 0;
    while k < bc.len()
        invariant
            bc@.len() <= pc@.len(),
            k <= bc@.len(),
            pcv == nested_view(pc@),
            bcv == nested_view(bc@),
            pcv == components(path@),
            bcv == components(base@),
            forall|l: int| 0 <= l < k ==> pcv[l] == bcv[l],
        decreases bc@.len() - k,
    {
        assert(pcv[k as int] == pc@[k as int]@ && bcv[k as int] == bc@[k as int]@);
        if !chars_equal(pc[k].as_slice(), bc[k].as_slice()) {
            assert(pcv.take(bcv.len() as int)[k as int] != bcv[k as int]);
            return false;
        }
        k = k + 1;
    }
    assert(pcv.take(bcv.len() as int) =~= bcv);
    true
}

/// Every path starts with itself.
pub proof fn lemma_path_starts_with_itself(p: Seq<char>)
    ensures
        path_starts_with_spec(p, p),
{
    assert(components(p).take(components(p).len() as int) =~= components(p));
}

/// `Path::file_name`: the last component when it is a normal one (not the root,
/// a leading `.`, or `..`).
pub open spec fn file_name_spec(p: Seq<char>) -> Option<Seq<char>> {
    let c = components(p);
    if c.len() > 0 && c.last() != seq!['/'] && c.last() != seq!['.'] && c.last() != seq!['.', '.'] {
        Some(c.last())
    } else {
        None
    }
}

/// `Path::file_name` on a text path.
pub fn file_name(path: &str) -> (r: Option<String>)
    ensures
        match r {
            Some(n) => file_name_spec(path@) == Some(n@),
            None => file_name_spec(path@) is None,
        },
{
    let pv = crate::text::chars_of(path);
    let comps = path_components(pv.as_slice());
    let ghost cv = nested_view(comps@);
    assert(cv.len() == comps@.len());
    let n = comps.len();
    if n == 0 {
        return None;
    }
    let last = &comps[n - 1];
    assert(cv.last() == last@);
    let root = last.len() == 1 && last[0] == '/';
    let dot = last.len() == 1 && last[0] == '.';
    let dotdot = last.len() == 2 && last[0] == '.' && last[1] == '.';
    assert(root == (last@ == seq!['/'])) by {
        if last@ == seq!['/'] {
            assert(last@[0] == '/');
        }
        if root {
            assert(last@ =~= seq!['/']);
        }
    }
    assert(dot == (last@ == seq!['.'])) by {
        if last@ == seq!['.'] {
            assert(last@[0] == '.');
        }
        if dot {
            assert(last@ =~= seq!['.']);
        }
    }
    assert(dotdot == (last@ == seq!['.', '.'])) by {
        if last@ == seq!['.', '.'] {
            assert(last@[0] == '.' && last@[1] == '.');
        }
        if dotdot {
            assert(last@ =~= seq!['.', '.']);
        }
    }
    if root || dot || dotdot {
        None
    } else {
        Some(crate::text::string_of(last.as_slice()))
    }
}

} // verus!
