//! Unix path arithmetic on strings: the last name of a path and the path
//! that remains after a leading directory is taken off.
//!
//! A path is read as a list of segments separated by `/`. Empty segments
//! and `.` segments carry no name; a path that starts with `/` has a root,
//! and a relative path that starts with the segment `.` keeps that `.` as
//! its first component. The components of a path are its root or leading
//! `.` (if any) followed by its named segments.
use vstd::prelude::*;
use crate::text::{chars_of, string_of, same_chars};

verus! {

// ---------------------------------------------------------------- specs

/// The `/`-separated segments of `p`; there is always at least one.
pub open spec fn segments(p: Seq<char>) -> Seq<Seq<char>>
    decreases p.len(),
{
    if p.len() == 0 {
        seq![Seq::<char>::empty()]
    } else {
        let q = segments(p.drop_last());
        if p.last() == '/' {
            q.push(Seq::<char>::empty())
        } else {
            q.update(q.len() - 1, q.last().push(p.last()))
        }
    }
}

/// A segment that names something: neither empty nor `.`.
pub open spec fn is_named(s: Seq<char>) -> bool {
    !(s.len() == 0 || (s.len() == 1 && s[0] == '.'))
}

/// The segment `..`.
pub open spec fn is_parent(s: Seq<char>) -> bool {
    s.len() == 2 && s[0] == '.' && s[1] == '.'
}

/// The named segments of `segs`, in order.
pub open spec fn named(segs: Seq<Seq<char>>) -> Seq<Seq<char>>
    decreases segs.len(),
{
    if segs.len() == 0 {
        Seq::empty()
    } else {
        let r = named(segs.drop_last());
        if is_named(segs.last()) {
            r.push(segs.last())
        } else {
            r
        }
    }
}

/// `p` starts at the root directory.
pub open spec fn has_root(p: Seq<char>) -> bool {
    p.len() > 0 && p[0] == '/'
}

/// `p` is `.` or starts with `./`.
pub open spec fn has_cur_dir(p: Seq<char>) -> bool {
    p.len() > 0 && p[0] == '.' && (p.len() == 1 || p[1] == '/')
}

/// The number of leading components that are not named segments (0 or 1).
pub open spec fn head_len(p: Seq<char>) -> nat {
    if has_root(p) || has_cur_dir(p) {
        1
    } else {
        0
    }
}

/// The components of `p`, each written as text: `/` for the root, `.` for a
/// leading current directory, then the named segments.
pub open spec fn components(p: Seq<char>) -> Seq<Seq<char>> {
    (if has_root(p) {
        seq![seq!['/']]
    } else {
        Seq::empty()
    }) + (if has_cur_dir(p) {
        seq![seq!['.']]
    } else {
        Seq::empty()
    }) + named(segments(p))
}

/// The final name of `p`: its last component when that is a named segment
/// other than `..`.
pub open spec fn file_name_of(p: Seq<char>) -> Option<Seq<char>> {
    let n = named(segments(p));
    if n.len() == 0 || is_parent(n.last()) {
        None
    } else {
        Some(n.last())
    }
}

/// Segments joined back together with `/`.
pub open spec fn join(segs: Seq<Seq<char>>) -> Seq<char>
    decreases segs.len(),
{
    if segs.len() == 0 {
        Seq::empty()
    } else if segs.len() == 1 {
        segs[0]
    } else {
        join(segs.drop_last()) + seq!['/'] + segs.last()
    }
}

/// `segs` without its trailing segments that name nothing.
pub open spec fn trim_end(segs: Seq<Seq<char>>) -> Seq<Seq<char>>
    decreases segs.len(),
{
    if segs.len() > 0 && !is_named(segs.last()) {
        trim_end(segs.drop_last())
    } else {
        segs
    }
}

/// `segs` without its leading segments that name nothing.
pub open spec fn trim_start(segs: Seq<Seq<char>>) -> Seq<Seq<char>>
    decreases segs.len(),
{
    if segs.len() > 0 && !is_named(segs[0]) {
        trim_start(segs.drop_first())
    } else {
        segs
    }
}

/// `segs` after dropping everything up to and including its `j`-th named
/// segment.
pub open spec fn drop_named(segs: Seq<Seq<char>>, j: nat) -> Seq<Seq<char>>
    decreases segs.len(),
{
    if j == 0 || segs.len() == 0 {
        segs
    } else if is_named(segs[0]) {
        drop_named(segs.drop_first(), (j - 1) as nat)
    } else {
        drop_named(segs.drop_first(), j)
    }
}

/// The text of `p` that follows its first `k` components, without separators
/// or `.` segments at either end. With `k == 0` nothing is taken from the
/// front: the text keeps its root or leading `.`.
pub open spec fn remainder(p: Seq<char>, k: nat) -> Seq<char> {
    let segs = segments(p);
    if k == 0 {
        let t = trim_end(segs.drop_first());
        if has_root(p) {
            seq!['/'] + join(t)
        } else if has_cur_dir(p) {
            if t.len() == 0 {
                seq!['.']
            } else {
                seq!['.', '/'] + join(t)
            }
        } else {
            join(trim_end(segs))
        }
    } else {
        join(trim_start(trim_end(drop_named(segs, (k - head_len(p)) as nat))))
    }
}

/// `path` without its leading `base`, when the components of `base` are the
/// first components of `path`.
pub open spec fn strip_prefix_of(path: Seq<char>, base: Seq<char>) -> Option<Seq<char>> {
    let cp = components(path);
    let cb = components(base);
    if cb.len() <= cp.len() && cp.subrange(0, cb.len() as int) == cb {
        Some(remainder(path, cb.len()))
    } else {
        None
    }
}

/// The views of a vector of character vectors.
pub open spec fn views(v: Seq<Vec<char>>) -> Seq<Seq<char>> {
    v.map_values(|s: Vec<char>| s@)
}

// ---------------------------------------------------------------- lemmas

proof fn lemma_segments_nonempty(p: Seq<char>)
    ensures
        segments(p).len() >= 1,
    decreases p.len(),
{
    if p.len() > 0 {
        lemma_segments_nonempty(p.drop_last());
    }
}


/// Every segment of `p` names something: `p` is a relative path without
/// empty or `.` segments.
pub open spec fn is_clean_relative(p: Seq<char>) -> bool {
    forall|i: int| 0 <= i < segments(p).len() ==> #[trigger] is_named(segments(p)[i])
}

proof fn lemma_segments_concat(a: Seq<char>, b: Seq<char>)
    ensures
        segments(a + seq!['/'] + b) == segments(a) + segments(b),
    decreases b.len(),
{
    lemma_segments_nonempty(a);
    lemma_segments_nonempty(b);
    let p = a + seq!['/'] + b;
    if b.len() == 0 {
        assert(p.drop_last() =~= a);
        assert(segments(p) =~= segments(a) + segments(b));
    } else {
        let b1 = b.drop_last();
        lemma_segments_concat(a, b1);
        lemma_segments_nonempty(b1);
        assert(p.drop_last() =~= a + seq!['/'] + b1);
        assert(p.last() == b.last());
        assert(segments(p) =~= segments(a) + segments(b));
    }
}

proof fn lemma_named_concat(x: Seq<Seq<char>>, y: Seq<Seq<char>>)
    ensures
        named(x + y) == named(x) + named(y),
    decreases y.len(),
{
    if y.len() == 0 {
        assert(x + y =~= x);
        assert(named(x) + named(y) =~= named(x));
    } else {
        lemma_named_concat(x, y.drop_last());
        assert((x + y).drop_last() =~= x + y.drop_last());
        assert((x + y).last() == y.last());
        assert(named(x + y) =~= named(x) + named(y));
    }
}

proof fn lemma_named_all(y: Seq<Seq<char>>)
    requires
        forall|i: int| 0 <= i < y.len() ==> #[trigger] is_named(y[i]),
    ensures
        named(y) == y,
    decreases y.len(),
{
    if y.len() > 0 {
        lemma_named_all(y.drop_last());
        assert(named(y) =~= y);
    }
}

proof fn lemma_join_segments(p: Seq<char>)
    ensures
        join(segments(p)) == p,
    decreases p.len(),
{
    lemma_segments_nonempty(p);
    if p.len() > 0 {
        let q = p.drop_last();
        lemma_join_segments(q);
        lemma_segments_nonempty(q);
        let sq = segments(q);
        if p.last() == '/' {
            let sp = segments(p);
            assert(sp.drop_last() =~= sq);
            assert(join(sp) == join(sq) + seq!['/'] + sp.last());
            assert(p =~= q + seq!['/'] + Seq::<char>::empty());
        } else {
            lemma_join_update_last(sq, p.last());
            assert(p =~= q.push(p.last()));
        }
    }
}

proof fn lemma_join_update_last(s: Seq<Seq<char>>, c: char)
    requires
        s.len() >= 1,
    ensures
        join(s.update(s.len() - 1, s.last().push(c))) == join(s).push(c),
{
    let t = s.update(s.len() - 1, s.last().push(c));
    if s.len() == 1 {
        assert(t[0] == s[0].push(c));
    } else {
        assert(t.drop_last() =~= s.drop_last());
        assert(join(t) =~= join(s).push(c));
    }
}

/// The first segment of `p` runs up to its first `/`.
proof fn lemma_first_segment(p: Seq<char>)
    ensures
        segments(p).len() >= 1,
        segments(p)[0] == p.subrange(0, segments(p)[0].len() as int),
        forall|i: int| 0 <= i < segments(p)[0].len() ==> p[i] != '/',
        segments(p).len() == 1 ==> segments(p)[0] == p,
        segments(p).len() > 1 ==> segments(p)[0].len() < p.len() && p[segments(p)[0].len() as int]
            == '/',
    decreases p.len(),
{
    lemma_segments_nonempty(p);
    if p.len() > 0 {
        let q = p.drop_last();
        lemma_first_segment(q);
        let sq = segments(q);
        lemma_segments_nonempty(q);
        assert forall|i: int| 0 <= i < segments(p)[0].len() implies p[i] != '/' by {
            if i < q.len() {
                assert(p[i] == q[i]);
            }
        }
        if p.last() == '/' {
            assert(segments(p)[0] == sq[0]);
            if sq.len() == 1 {
                assert(sq[0] == q);
                assert(p.subrange(0, q.len() as int) =~= q);
            } else {
                assert(p.subrange(0, sq[0].len() as int) =~= q.subrange(0, sq[0].len() as int));
            }
        } else {
            if sq.len() == 1 {
                assert(segments(p)[0] == q.push(p.last()));
                assert(segments(p)[0] =~= p);
            } else {
                assert(segments(p)[0] == sq[0]);
                assert(p.subrange(0, sq[0].len() as int) =~= q.subrange(0, sq[0].len() as int));
            }
        }
    }
}

/// A path that is not empty has at least one component.
proof fn lemma_components_nonempty(p: Seq<char>)
    requires
        p.len() > 0,
    ensures
        components(p).len() >= 1,
        head_len(p) == 0 ==> named(segments(p)).len() >= 1,
        head_len(p) == 0 ==> is_named(segments(p)[0]),
{
    lemma_first_segment(p);
    let s = segments(p);
    if head_len(p) == 0 {
        assert(s[0].len() >= 1) by {
            if s[0].len() == 0 {
                if s.len() == 1 {
                    assert(p.len() == 0);
                } else {
                    assert(p[0] == '/');
                }
            }
        }
        assert(is_named(s[0])) by {
            if s[0].len() == 1 && s[0][0] == '.' {
                assert(p[0] == '.');
                if s.len() == 1 {
                    assert(p.len() == 1);
                } else {
                    assert(p[1] == '/');
                }
            }
        }
        lemma_named_nonempty(s, 0);
    }
}

proof fn lemma_named_nonempty(s: Seq<Seq<char>>, i: int)
    requires
        0 <= i < s.len(),
        is_named(s[i]),
    ensures
        named(s).len() >= 1,
    decreases s.len(),
{
    if i < s.len() - 1 {
        lemma_named_nonempty(s.drop_last(), i);
    }
}

/// Dropping as many named segments as `x` holds leaves the unnamed tail of
/// `x` followed by `y`.
proof fn lemma_drop_named_concat(x: Seq<Seq<char>>, y: Seq<Seq<char>>)
    ensures
        exists|z: Seq<Seq<char>>|
            #![trigger z + y]
            drop_named(x + y, named(x).len()) == z + y && (forall|i: int|
                0 <= i < z.len() ==> !is_named(#[trigger] z[i])),
    decreases x.len(),
{
    if x.len() == 0 {
        assert(x + y =~= y);
        assert(Seq::<Seq<char>>::empty() + y =~= y);
        assert(drop_named(x + y, named(x).len()) == Seq::<Seq<char>>::empty() + y);
    } else {
        let x1 = x.drop_first();
        lemma_named_first(x);
        lemma_drop_named_concat(x1, y);
        assert((x + y).drop_first() =~= x1 + y);
        assert((x + y)[0] == x[0]);
        if is_named(x[0]) {
            assert(named(x).len() == named(x1).len() + 1);
        } else {
            let z = choose|z: Seq<Seq<char>>|
                #![trigger z + y]
                drop_named(x1 + y, named(x1).len()) == z + y && (forall|i: int|
                    0 <= i < z.len() ==> !is_named(#[trigger] z[i]));
            if named(x1).len() == 0 {
                let z2 = seq![x[0]] + z;
                assert(drop_named(x + y, named(x).len()) == x + y);
                assert(x =~= seq![x[0]] + x1);
                assert(forall|i: int| 0 <= i < x1.len() ==> !is_named(#[trigger] x1[i])) by {
                    lemma_named_empty(x1);
                }
                assert(x + y =~= x + y);
                assert(forall|i: int| 0 <= i < x.len() ==> !is_named(#[trigger] x[i])) by {
                    assert forall|i: int| 0 <= i < x.len() implies !is_named(#[trigger] x[i]) by {
                        if i > 0 {
                            assert(x[i] == x1[i - 1]);
                        }
                    }
                }
            } else {
                assert(named(x).len() == named(x1).len());
            }
        }
    }
}

proof fn lemma_named_first(x: Seq<Seq<char>>)
    requires
        x.len() > 0,
    ensures
        named(x) == if is_named(x[0]) {
            seq![x[0]] + named(x.drop_first())
        } else {
            named(x.drop_first())
        },
{
    assert(x =~= seq![x[0]] + x.drop_first());
    lemma_named_concat(seq![x[0]], x.drop_first());
    let one = seq![x[0]];
    assert(one.drop_last() =~= Seq::<Seq<char>>::empty());
    assert(named(one) == if is_named(x[0]) {
        seq![x[0]]
    } else {
        Seq::<Seq<char>>::empty()
    }) by {
        assert(named(Seq::<Seq<char>>::empty()) =~= Seq::<Seq<char>>::empty());
        if is_named(x[0]) {
            assert(Seq::<Seq<char>>::empty().push(x[0]) =~= seq![x[0]]);
        }
    }
    if !is_named(x[0]) {
        assert(Seq::<Seq<char>>::empty() + named(x.drop_first()) =~= named(x.drop_first()));
    }
}

proof fn lemma_named_empty(x: Seq<Seq<char>>)
    requires
        named(x).len() == 0,
    ensures
        forall|i: int| 0 <= i < x.len() ==> !is_named(#[trigger] x[i]),
    decreases x.len(),
{
    if x.len() > 0 {
        lemma_named_empty(x.drop_last());
        assert forall|i: int| 0 <= i < x.len() implies !is_named(#[trigger] x[i]) by {
            if i < x.len() - 1 {
                assert(x[i] == x.drop_last()[i]);
            }
        }
    }
}

proof fn lemma_trim_unnamed_prefix(z: Seq<Seq<char>>, y: Seq<Seq<char>>)
    requires
        forall|i: int| 0 <= i < z.len() ==> !is_named(#[trigger] z[i]),
        y.len() > 0,
        is_named(y[0]),
    ensures
        trim_start(z + y) == y,
    decreases z.len(),
{
    if z.len() == 0 {
        assert(z + y =~= y);
    } else {
        assert((z + y)[0] == z[0]);
        assert((z + y).drop_first() =~= z.drop_first() + y);
        lemma_trim_unnamed_prefix(z.drop_first(), y);
    }
}

/// The key of a file inside the wiki folder is its path relative to the
/// folder: taking a non-empty `root` off `root/rel` gives back `rel` when
/// every segment of `rel` names something; and that file's final name is
/// the final name of `rel`.
pub proof fn lemma_strip_joined(root: Seq<char>, rel: Seq<char>)
    requires
        root.len() > 0,
        rel.len() > 0,
        is_clean_relative(rel),
    ensures
        strip_prefix_of(root + seq!['/'] + rel, root) == Some(rel),
        file_name_of(root + seq!['/'] + rel) == file_name_of(rel),
{
    let p = root + seq!['/'] + rel;
    let sr = segments(root);
    let sl = segments(rel);
    lemma_segments_concat(root, rel);
    lemma_named_concat(sr, sl);
    lemma_named_all(sl);
    lemma_segments_nonempty(rel);
    assert(has_root(p) == has_root(root));
    assert(has_cur_dir(p) == has_cur_dir(root)) by {
        if root.len() == 1 {
            assert(p[1] == '/');
        } else {
            assert(p[1] == root[1]);
        }
    }
    let cr = components(root);
    let cp = components(p);
    assert(cp =~= cr + sl);
    assert(cp.subrange(0, cr.len() as int) =~= cr);
    lemma_components_nonempty(root);
    let k = cr.len();
    assert(k >= 1);
    assert(k - head_len(p) == named(sr).len());
    lemma_drop_named_concat(sr, sl);
    let z = choose|z: Seq<Seq<char>>|
        #![trigger z + sl]
        drop_named(sr + sl, named(sr).len()) == z + sl && (forall|i: int|
            0 <= i < z.len() ==> !is_named(#[trigger] z[i]));
    let d = z + sl;
    assert(d.last() == sl.last());
    assert(is_named(sl[sl.len() - 1]));
    assert(trim_end(d) == d);
    assert(is_named(sl[0]));
    lemma_trim_unnamed_prefix(z, sl);
    lemma_join_segments(rel);
    assert(remainder(p, k) == rel);
    assert(named(segments(p)) =~= named(sr) + sl);
    assert(named(segments(p)).last() == sl.last());
    assert(named(sl) == sl);
}


/// No segment of `t` holds a `/`.
pub open spec fn slash_free(t: Seq<Seq<char>>) -> bool {
    forall|i: int, j: int| 0 <= i < t.len() && 0 <= j < t[i].len() ==> #[trigger] t[i][j] != '/'
}

proof fn lemma_segments_slash_free(p: Seq<char>)
    ensures
        slash_free(segments(p)),
    decreases p.len(),
{
    if p.len() > 0 {
        let q = p.drop_last();
        lemma_segments_slash_free(q);
        lemma_segments_nonempty(q);
        let sq = segments(q);
        let sp = segments(p);
        assert forall|i: int, j: int| 0 <= i < sp.len() && 0 <= j < sp[i].len() implies #[trigger] sp[i][j]
            != '/' by {
            if p.last() != '/' && i == sq.len() - 1 && j == sq[i].len() {
                assert(sp[i][j] == p.last());
            } else if i < sq.len() {
                assert(sp[i][j] == sq[i][j]);
            }
        }
    }
}

proof fn lemma_segments_of_slash_free(p: Seq<char>)
    requires
        forall|j: int| 0 <= j < p.len() ==> p[j] != '/',
    ensures
        segments(p) == seq![p],
    decreases p.len(),
{
    if p.len() > 0 {
        let q = p.drop_last();
        assert forall|j: int| 0 <= j < q.len() implies q[j] != '/' by {
            assert(q[j] == p[j]);
        }
        lemma_segments_of_slash_free(q);
        assert(p.last() != '/');
        assert(q.push(p.last()) =~= p);
        let x = seq![q].update(0, q.push(p.last()));
        assert(segments(p) == x);
        assert(x.len() == 1);
        assert(x[0] == p);
        assert(x =~= seq![p]);
    } else {
        assert(p =~= Seq::<char>::empty());
        assert(segments(p) =~= seq![p]);
    }
}

proof fn lemma_segments_join(t: Seq<Seq<char>>)
    requires
        t.len() >= 1,
        slash_free(t),
    ensures
        segments(join(t)) == t,
    decreases t.len(),
{
    if t.len() == 1 {
        assert forall|j: int| 0 <= j < t[0].len() implies t[0][j] != '/' by {
            assert(t[0][j] != '/');
        }
        lemma_segments_of_slash_free(t[0]);
        assert(seq![t[0]] =~= t);
    } else {
        let t1 = t.drop_last();
        assert(slash_free(t1)) by {
            assert forall|i: int, j: int| 0 <= i < t1.len() && 0 <= j < t1[i].len() implies #[trigger] t1[i][j]
                != '/' by {
                assert(t1[i] == t[i]);
                assert(t[i][j] != '/');
            }
        }
        lemma_segments_join(t1);
        assert forall|j: int| 0 <= j < t.last().len() implies t.last()[j] != '/' by {
            assert(t[t.len() - 1][j] != '/');
        }
        lemma_segments_of_slash_free(t.last());
        lemma_segments_concat(join(t1), t.last());
        assert(t1 + seq![t.last()] =~= t);
    }
}

/// `join(t)` starts with the first segment of `t`.
proof fn lemma_join_starts_with_first(t: Seq<Seq<char>>)
    requires
        t.len() >= 1,
    ensures
        join(t).len() >= t[0].len(),
        forall|i: int| 0 <= i < t[0].len() ==> join(t)[i] == t[0][i],
    decreases t.len(),
{
    if t.len() > 1 {
        lemma_join_starts_with_first(t.drop_last());
        assert(t.drop_last()[0] == t[0]);
        let a = join(t.drop_last());
        assert forall|i: int| 0 <= i < t[0].len() implies join(t)[i] == t[0][i] by {
            assert(join(t)[i] == a[i]);
        }
    }
}

proof fn lemma_named_trim_end(s: Seq<Seq<char>>)
    ensures
        named(trim_end(s)) == named(s),
        slash_free(s) ==> slash_free(trim_end(s)),
        exists|m: int| 0 <= m <= s.len() && trim_end(s) == #[trigger] s.subrange(0, m),
    decreases s.len(),
{
    if s.len() > 0 && !is_named(s.last()) {
        lemma_named_trim_end(s.drop_last());
        let m = choose|m: int|
            0 <= m <= s.drop_last().len() && trim_end(s.drop_last()) == #[trigger] s.drop_last().subrange(0, m);
        assert(s.drop_last().subrange(0, m) =~= s.subrange(0, m));
        if slash_free(s) {
            assert(slash_free(s.drop_last())) by {
                assert forall|i: int, j: int| 0 <= i < s.drop_last().len() && 0 <= j < s.drop_last()[i].len() implies #[trigger] s.drop_last()[i][j] != '/' by {
                    assert(s.drop_last()[i] == s[i]);
                    assert(s[i][j] != '/');
                }
            }
        }
    } else {
        assert(s.subrange(0, s.len() as int) =~= s);
    }
}

proof fn lemma_named_trim_start(s: Seq<Seq<char>>)
    ensures
        named(trim_start(s)) == named(s),
        slash_free(s) ==> slash_free(trim_start(s)),
        trim_start(s).len() > 0 ==> is_named(trim_start(s)[0]),
    decreases s.len(),
{
    if s.len() > 0 && !is_named(s[0]) {
        lemma_named_first(s);
        lemma_named_trim_start(s.drop_first());
        if slash_free(s) {
            assert(slash_free(s.drop_first())) by {
                assert forall|i: int, j: int| 0 <= i < s.drop_first().len() && 0 <= j < s.drop_first()[i].len() implies #[trigger] s.drop_first()[i][j] != '/' by {
                    assert(s.drop_first()[i] == s[i + 1]);
                    assert(s[i + 1][j] != '/');
                }
            }
        }
    }
}

proof fn lemma_named_drop_named(s: Seq<Seq<char>>, j: nat)
    requires
        j <= named(s).len(),
    ensures
        named(drop_named(s, j)) == named(s).skip(j as int),
        slash_free(s) ==> slash_free(drop_named(s, j)),
    decreases s.len(),
{
    if j == 0 || s.len() == 0 {
        assert(named(s).skip(0) =~= named(s));
    } else {
        lemma_named_first(s);
        let s1 = s.drop_first();
        if slash_free(s) {
            assert(slash_free(s1)) by {
                assert forall|i: int, k: int| 0 <= i < s1.len() && 0 <= k < s1[i].len() implies #[trigger] s1[i][k] != '/' by {
                    assert(s1[i] == s[i + 1]);
                    assert(s[i + 1][k] != '/');
                }
            }
        }
        if is_named(s[0]) {
            lemma_named_drop_named(s1, (j - 1) as nat);
            assert(named(s).skip(j as int) =~= named(s1).skip(j - 1));
        } else {
            lemma_named_drop_named(s1, j);
        }
    }
}

/// The components of the join of named, `/`-free segments whose first one
/// names something: just those segments, with no root and no leading `.`.
proof fn lemma_components_of_join(t: Seq<Seq<char>>)
    requires
        slash_free(t),
        t.len() > 0 ==> is_named(t[0]),
    ensures
        !has_root(join(t)),
        !has_cur_dir(join(t)),
        components(join(t)) == named(t),
{
    let rel = join(t);
    if t.len() == 0 {
        let s0 = segments(rel);
        assert(s0 =~= seq![Seq::<char>::empty()]);
        assert(s0.drop_last() =~= Seq::<Seq<char>>::empty());
        assert(!is_named(s0.last()));
        assert(named(Seq::<Seq<char>>::empty()) =~= Seq::<Seq<char>>::empty());
        assert(named(s0) == named(s0.drop_last()));
        assert(named(s0) =~= Seq::<Seq<char>>::empty());
        assert(components(rel) =~= named(t));
    } else {
        lemma_segments_join(t);
        lemma_join_starts_with_first(t);
        assert(t[0][0] != '/');
        if t[0][0] == '.' {
            assert(t[0].len() >= 2);
            assert(t[0][1] != '/');
        }
        assert(components(rel) =~= named(t));
    }
}

/// Putting a relative path `rel` after `base` adds its components to those of
/// `base`.
proof fn lemma_components_join_onto(base: Seq<char>, rel: Seq<char>)
    requires
        base.len() > 0,
        !has_root(rel),
        !has_cur_dir(rel),
    ensures
        components(base + seq!['/'] + rel) == components(base) + components(rel),
{
    let p2 = base + seq!['/'] + rel;
    lemma_segments_concat(base, rel);
    lemma_named_concat(segments(base), segments(rel));
    assert(has_root(p2) == has_root(base));
    assert(has_cur_dir(p2) == has_cur_dir(base)) by {
        if base.len() == 1 {
            assert(p2[1] == '/');
        } else {
            assert(p2[1] == base[1]);
        }
    }
    assert(components(p2) =~= components(base) + components(rel));
}

/// The key of a file is relative, and putting it back on the folder gives
/// the file again: when `base` is not empty and `path` lies inside it, the
/// text `rel` left after taking `base` off `path` has no root and no leading
/// `.`, the components of `base` followed by those of `rel` are the
/// components of `path`, and `base/rel` has the components of `path`.
pub proof fn lemma_strip_rejoins(path: Seq<char>, base: Seq<char>)
    requires
        base.len() > 0,
        strip_prefix_of(path, base) is Some,
    ensures
        ({
            let rel = strip_prefix_of(path, base)->0;
            &&& !has_root(rel)
            &&& !has_cur_dir(rel)
            &&& components(base) + components(rel) == components(path)
            &&& components(base + seq!['/'] + rel) == components(path)
        }),
{
    let cp = components(path);
    let cb = components(base);
    let segs = segments(path);
    let n = named(segs);
    let h = head_len(path);
    let k = cb.len();
    lemma_components_nonempty(base);
    assert(cp.len() == h + n.len());
    let j = (k - h) as nat;
    let t0 = drop_named(segs, j);
    let t1 = trim_end(t0);
    let t2 = trim_start(t1);
    let rel = join(t2);
    assert(strip_prefix_of(path, base) == Some(rel));
    lemma_segments_slash_free(path);
    lemma_named_drop_named(segs, j);
    lemma_named_trim_end(t0);
    lemma_named_trim_start(t1);
    lemma_components_of_join(t2);
    assert(components(rel) == n.skip(j as int));
    assert(cp.subrange(0, k as int) == cb);
    assert(cb + components(rel) =~= cp);
    lemma_components_join_onto(base, rel);
}


proof fn lemma_named_single_unnamed(x: Seq<char>)
    requires
        !is_named(x),
    ensures
        named(seq![x]).len() == 0,
{
    let s0 = seq![x];
    assert(s0.drop_last() =~= Seq::<Seq<char>>::empty());
    assert(named(Seq::<Seq<char>>::empty()) =~= Seq::<Seq<char>>::empty());
}

/// With the empty folder as `base`, the key of `path` is `path` itself up to
/// separators and `.` segments at its end: it has the components of `path`,
/// and it has a root exactly when `path` has one. So a relative file's key is
/// relative and, put after the empty folder, gives the file again.
pub proof fn lemma_strip_empty_base(path: Seq<char>)
    ensures
        strip_prefix_of(path, Seq::<char>::empty()) == Some(remainder(path, 0)),
        components(remainder(path, 0)) == components(path),
        has_root(remainder(path, 0)) == has_root(path),
{
    let e = Seq::<char>::empty();
    assert(segments(e) =~= seq![e]);
    lemma_named_single_unnamed(e);
    assert(components(e) =~= Seq::<Seq<char>>::empty());
    assert(components(path).subrange(0, 0) =~= components(e));
    let segs = segments(path);
    let rel = remainder(path, 0);
    lemma_segments_slash_free(path);
    lemma_first_segment(path);
    lemma_segments_nonempty(path);
    if has_root(path) || has_cur_dir(path) {
        let rest = segs.drop_first();
        let t = trim_end(rest);
        assert(slash_free(rest)) by {
            assert forall|i: int, j: int| 0 <= i < rest.len() && 0 <= j < rest[i].len() implies #[trigger] rest[i][j] != '/' by {
                assert(rest[i] == segs[i + 1]);
                assert(segs[i + 1][j] != '/');
            }
        }
        lemma_named_trim_end(rest);
        assert(!is_named(segs[0])) by {
            if segs[0].len() > 0 {
                assert(segs[0][0] == path[0]);
                if has_cur_dir(path) && segs[0].len() > 1 {
                    assert(segs[0][1] == path[1]);
                }
            }
        }
        lemma_named_first(segs);
        assert(named(segs) == named(t));
        if has_root(path) {
            assert(rel == seq!['/'] + join(t));
            assert(e + seq!['/'] + join(t) =~= rel);
            lemma_segments_concat(e, join(t));
            lemma_named_concat(seq![e], segments(join(t)));
            if t.len() == 0 {
                assert(join(t) =~= e);
            } else {
                lemma_segments_join(t);
            }
            assert(components(rel) =~= components(path));
        } else {
            let dot = seq!['.'];
            assert(segs[0] =~= dot) by {
                assert(segs[0][0] == path[0]);
                if segs[0].len() > 1 {
                    assert(segs[0][1] == path[1]);
                }
            }
            lemma_segments_of_slash_free(dot);
            lemma_named_single_unnamed(dot);
            if t.len() == 0 {
                assert(rel == dot);
                assert(components(rel) =~= components(path));
            } else {
                assert(rel == seq!['.', '/'] + join(t));
                assert(dot + seq!['/'] + join(t) =~= rel);
                lemma_segments_concat(dot, join(t));
                lemma_named_concat(seq![dot], segments(join(t)));
                lemma_segments_join(t);
                assert(components(rel) =~= components(path));
            }
        }
    } else {
        let t = trim_end(segs);
        lemma_named_trim_end(segs);
        if path.len() == 0 {
            assert(segs =~= seq![e]);
            lemma_named_single_unnamed(e);
            assert(segs.drop_last() =~= Seq::<Seq<char>>::empty());
            assert(!is_named(segs.last()));
            assert(trim_end(Seq::<Seq<char>>::empty()) =~= Seq::<Seq<char>>::empty());
            assert(t == trim_end(segs.drop_last()));
            assert(t.len() == 0);
            assert(components(rel) =~= components(path));
        } else {
            lemma_components_nonempty(path);
            let m = choose|m: int| 0 <= m <= segs.len() && t == #[trigger] segs.subrange(0, m);
            assert(named(t).len() >= 1);
            assert(m >= 1) by {
                if m == 0 {
                    assert(t =~= Seq::<Seq<char>>::empty());
                }
            }
            assert(t[0] == segs[0]);
            lemma_components_of_join(t);
            assert(components(rel) =~= components(path));
        }
    }
}

// ---------------------------------------------------------------- exec

fn is_named_exec(s: &Vec<char>) -> (res: bool)
    ensures
        res == is_named(s@),
{
    !(s.len() == 0 || (s.len() == 1 && s[0] == '.'))
}

fn is_parent_exec(s: &Vec<char>) -> (res: bool)
    ensures
        res == is_parent(s@),
{
    s.len() == 2 && s[0] == '.' && s[1] == '.'
}

fn has_root_exec(p: &Vec<char>) -> (res: bool)
    ensures
        res == has_root(p@),
{
    p.len() > 0 && p[0] == '/'
}

fn has_cur_dir_exec(p: &Vec<char>) -> (res: bool)
    ensures
        res == has_cur_dir(p@),
{
    p.len() > 0 && p[0] == '.' && (p.len() == 1 || p[1] == '/')
}

/// Splits `p` at each `/`.
fn split_segments(p: &Vec<char>) -> (res: Vec<Vec<char>>)
    ensures
        views(res@) == segments(p@),
        res@.len() >= 1,
{
    let mut res: Vec<Vec<char>> = Vec::new();
    res.push(Vec::new());
    let mut i: usize = 0;
    proof {
        assert(p@.subrange(0, 0) =~= Seq::<char>::empty());
        assert(views(res@) =~= segments(p@.subrange(0, 0)));
    }
    while i < p.len()
        invariant
            i <= p.len(),
            res@.len() >= 1,
            views(res@) == segments(p@.subrange(0, i as int)),
        decreases p.len() - i,
    {
        let c = p[i];
        let ghost prev = views(res@);
        proof {
            assert(p@.subrange(0, i + 1).drop_last() =~= p@.subrange(0, i as int));
            assert(p@.subrange(0, i + 1).last() == c);
            lemma_segments_nonempty(p@.subrange(0, i as int));
        }
        if c == '/' {
            res.push(Vec::new());
            proof {
                assert(views(res@) =~= prev.push(Seq::<char>::empty()));
            }
        } else {
            let mut last = res.pop().unwrap();
            last.push(c);
            res.push(last);
            proof {
                assert(views(res@) =~= prev.update(prev.len() - 1, prev.last().push(c)));
            }
        }
        i = i + 1;
    }
    proof {
        assert(p@.subrange(0, p@.len() as int) =~= p@);
    }
    res
}

/// The named segments of `segs`.
fn named_segments(segs: &Vec<Vec<char>>) -> (res: Vec<Vec<char>>)
    ensures
        views(res@) == named(views(segs@)),
{
    let mut res: Vec<Vec<char>> = Vec::new();
    let mut i: usize = 0;
    while i < segs.len()
        invariant
            i <= segs.len(),
            views(res@) == named(views(segs@).subrange(0, i as int)),
        decreases segs.len() - i,
    {
        proof {
            assert(views(segs@).subrange(0, i + 1).drop_last() =~= views(segs@).subrange(
                0,
                i as int,
            ));
        }
        if is_named_exec(&segs[i]) {
            let ghost prev = views(res@);
            res.push(segs[i].clone());
            proof {
                assert(views(res@) =~= prev.push(segs@[i as int]@));
            }
        }
        i = i + 1;
    }
    proof {
        assert(views(segs@).subrange(0, segs@.len() as int) =~= views(segs@));
    }
    res
}

/// The components of `p` (see `components`), given its segments.
fn components_exec(p: &Vec<char>, segs: &Vec<Vec<char>>) -> (res: Vec<Vec<char>>)
    requires
        views(segs@) == segments(p@),
    ensures
        views(res@) == components(p@),
{
    let mut res: Vec<Vec<char>> = Vec::new();
    if has_root_exec(p) {
        let mut r: Vec<char> = Vec::new();
        r.push('/');
        res.push(r);
    }
    if has_cur_dir_exec(p) {
        let mut r: Vec<char> = Vec::new();
        r.push('.');
        res.push(r);
    }
    let ghost head = views(res@);
    proof {
        assert(head =~= (if has_root(p@) {
            seq![seq!['/']]
        } else {
            Seq::empty()
        }) + (if has_cur_dir(p@) {
            seq![seq!['.']]
        } else {
            Seq::empty()
        }));
    }
    let named_segs = named_segments(segs);
    let mut i: usize = 0;
    while i < named_segs.len()
        invariant
            i <= named_segs.len(),
            views(res@) == head + views(named_segs@).subrange(0, i as int),
        decreases named_segs.len() - i,
    {
        let ghost prev = views(res@);
        let seg = named_segs[i].clone();
        res.push(seg);
        proof {
            assert(seg@ == views(named_segs@)[i as int]);
            assert(views(res@) =~= prev.push(seg@));
            assert(views(res@) =~= head + views(named_segs@).subrange(0, i + 1));
        }
        i = i + 1;
    }
    proof {
        assert(views(named_segs@).subrange(0, named_segs@.len() as int) =~= views(named_segs@));
    }
    res
}

/// The final name of `path`, as `std::path::Path::file_name` gives it:
/// `None` when the path has no named segment or its last one is `..`.
pub fn file_name(path: &str) -> (res: Option<String>)
    ensures
        match res {
            Some(s) => file_name_of(path@) == Some(s@),
            None => file_name_of(path@) is None,
        },
{
    let p = chars_of(path);
    let segs = split_segments(&p);
    let named_segs = named_segments(&segs);
    let n = named_segs.len();
    if n == 0 || is_parent_exec(&named_segs[n - 1]) {
        None
    } else {
        Some(string_of(&named_segs[n - 1]))
    }
}

/// Appends the characters of `s` to `out`.
fn append_chars(out: &mut Vec<char>, s: &Vec<char>)
    ensures
        final(out)@ == old(out)@ + s@,
{
    let mut i: usize = 0;
    while i < s.len()
        invariant
            i <= s.len(),
            out@ == old(out)@ + s@.subrange(0, i as int),
        decreases s.len() - i,
    {
        out.push(s[i]);
        proof {
            assert(old(out)@ + s@.subrange(0, i + 1) =~= old(out)@ + s@.subrange(0, i as int) + seq![s@[i as int]]);
        }
        i = i + 1;
    }
    proof {
        assert(s@.subrange(0, s@.len() as int) =~= s@);
    }
}

/// The segments `segs[lo..hi]` joined with `/`.
fn join_range(segs: &Vec<Vec<char>>, lo: usize, hi: usize) -> (res: Vec<char>)
    requires
        lo <= hi <= segs.len(),
    ensures
        res@ == join(views(segs@).subrange(lo as int, hi as int)),
{
    let ghost v = views(segs@);
    let mut out: Vec<char> = Vec::new();
    if lo == hi {
        proof {
            assert(v.subrange(lo as int, hi as int).len() == 0);
        }
        return out;
    }
    append_chars(&mut out, &segs[lo]);
    proof {
        assert(out@ =~= v[lo as int]);
        assert(v.subrange(lo as int, lo + 1).len() == 1);
        assert(v.subrange(lo as int, lo + 1)[0] == v[lo as int]);
    }
    let mut i: usize = lo + 1;
    while i < hi
        invariant
            v == views(segs@),
            lo < i <= hi <= segs.len(),
            out@ == join(v.subrange(lo as int, i as int)),
        decreases hi - i,
    {
        let ghost prev = out@;
        out.push('/');
        append_chars(&mut out, &segs[i]);
        proof {
            let w = v.subrange(lo as int, i + 1);
            assert(w.drop_last() =~= v.subrange(lo as int, i as int));
            assert(w.last() == v[i as int]);
            assert(out@ =~= prev + seq!['/'] + v[i as int]);
        }
        i = i + 1;
    }
    out
}

/// The end of `segs[lo..hi]` once trailing unnamed segments are dropped.
fn trim_end_index(segs: &Vec<Vec<char>>, lo: usize, hi: usize) -> (e: usize)
    requires
        lo <= hi <= segs.len(),
    ensures
        lo <= e <= hi,
        trim_end(views(segs@).subrange(lo as int, hi as int)) == views(segs@).subrange(
            lo as int,
            e as int,
        ),
{
    let ghost v = views(segs@);
    let mut e = hi;
    while e > lo && !is_named_exec(&segs[e - 1])
        invariant
            v == views(segs@),
            lo <= e <= hi <= segs.len(),
            trim_end(v.subrange(lo as int, hi as int)) == trim_end(v.subrange(lo as int, e as int)),
        decreases e,
    {
        proof {
            let w = v.subrange(lo as int, e as int);
            assert(w.last() == v[e - 1]);
            assert(w.drop_last() =~= v.subrange(lo as int, e - 1));
        }
        e = e - 1;
    }
    proof {
        let w = v.subrange(lo as int, e as int);
        if e > lo {
            assert(w.last() == v[e - 1]);
        }
    }
    e
}

/// The start of `segs[lo..hi]` once leading unnamed segments are dropped.
fn trim_start_index(segs: &Vec<Vec<char>>, lo: usize, hi: usize) -> (a: usize)
    requires
        lo <= hi <= segs.len(),
    ensures
        lo <= a <= hi,
        trim_start(views(segs@).subrange(lo as int, hi as int)) == views(segs@).subrange(
            a as int,
            hi as int,
        ),
{
    let ghost v = views(segs@);
    let mut a = lo;
    while a < hi && !is_named_exec(&segs[a])
        invariant
            v == views(segs@),
            lo <= a <= hi <= segs.len(),
            trim_start(v.subrange(lo as int, hi as int)) == trim_start(v.subrange(a as int, hi as int)),
        decreases hi - a,
    {
        proof {
            let w = v.subrange(a as int, hi as int);
            assert(w[0] == v[a as int]);
            assert(w.drop_first() =~= v.subrange(a + 1, hi as int));
        }
        a = a + 1;
    }
    proof {
        let w = v.subrange(a as int, hi as int);
        if a < hi {
            assert(w[0] == v[a as int]);
        }
    }
    a
}

/// Where `segs` resumes after its first `j` named segments.
fn drop_named_index(segs: &Vec<Vec<char>>, j: usize) -> (idx: usize)
    ensures
        idx <= segs.len(),
        drop_named(views(segs@), j as nat) == views(segs@).subrange(idx as int, segs.len() as int),
{
    let ghost v = views(segs@);
    let mut idx: usize = 0;
    let mut left = j;
    proof {
        assert(v.subrange(0, v.len() as int) =~= v);
    }
    while left > 0 && idx < segs.len()
        invariant
            v == views(segs@),
            idx <= segs.len(),
            drop_named(v, j as nat) == drop_named(v.subrange(idx as int, v.len() as int), left as nat),
        decreases segs.len() - idx,
    {
        proof {
            let w = v.subrange(idx as int, v.len() as int);
            assert(w[0] == v[idx as int]);
            assert(w.drop_first() =~= v.subrange(idx + 1, v.len() as int));
        }
        if is_named_exec(&segs[idx]) {
            left = left - 1;
        }
        idx = idx + 1;
    }
    idx
}

/// The text of `p` after its first `k` components (see `remainder`).
fn remainder_exec(p: &Vec<char>, segs: &Vec<Vec<char>>, k: usize) -> (res: Vec<char>)
    requires
        views(segs@) == segments(p@),
        k >= 1 ==> k >= head_len(p@),
    ensures
        res@ == remainder(p@, k as nat),
{
    let ghost v = views(segs@);
    proof {
        lemma_segments_nonempty(p@);
    }
    let n = segs.len();
    if k == 0 {
        if has_root_exec(p) || has_cur_dir_exec(p) {
            let e = trim_end_index(segs, 1, n);
            proof {
                assert(v.drop_first() =~= v.subrange(1, n as int));
            }
            let body = join_range(segs, 1, e);
            let mut out: Vec<char> = Vec::new();
            if has_root_exec(p) {
                out.push('/');
                append_chars(&mut out, &body);
                proof {
                    assert(out@ =~= seq!['/'] + body@);
                }
            } else {
                out.push('.');
                if e > 1 {
                    out.push('/');
                    append_chars(&mut out, &body);
                    proof {
                        assert(out@ =~= seq!['.', '/'] + body@);
                    }
                } else {
                    proof {
                        assert(out@ =~= seq!['.']);
                    }
                }
            }
            out
        } else {
            let e = trim_end_index(segs, 0, n);
            proof {
                assert(v.subrange(0, n as int) =~= v);
            }
            join_range(segs, 0, e)
        }
    } else {
        let h: usize = if has_root_exec(p) || has_cur_dir_exec(p) {
            1
        } else {
            0
        };
        let idx = drop_named_index(segs, k - h);
        let e = trim_end_index(segs, idx, n);
        let a = trim_start_index(segs, idx, e);
        proof {
            assert(v.subrange(idx as int, e as int).subrange(0, 0) =~= v.subrange(idx as int, idx as int));
        }
        join_range(segs, a, e)
    }
}

/// `path` with its leading `base` taken off, as
/// `std::path::Path::strip_prefix` gives it: `None` when the components of
/// `base` are not the first components of `path`.
pub fn strip_prefix(path: &str, base: &str) -> (res: Option<String>)
    ensures
        match res {
            Some(s) => strip_prefix_of(path@, base@) == Some(s@),
            None => strip_prefix_of(path@, base@) is None,
        },
{
    let p = chars_of(path);
    let b = chars_of(base);
    let ps = split_segments(&p);
    let bs = split_segments(&b);
    let cp = components_exec(&p, &ps);
    let cb = components_exec(&b, &bs);
    let ghost vp = views(cp@);
    let ghost vb = views(cb@);
    if cb.len() > cp.len() {
        proof {
            assert(vb.len() == cb@.len() && vp.len() == cp@.len());
        }
        return None;
    }
    let mut i: usize = 0;
    while i < cb.len()
        invariant
            vp == views(cp@),
            vb == views(cb@),
            vp == components(path@),
            vb == components(base@),
            cb.len() <= cp.len(),
            i <= cb.len(),
            forall|j: int| 0 <= j < i ==> vp[j] == vb[j],
        decreases cb.len() - i,
    {
        if !same_chars(&cp[i], &cb[i]) {
            proof {
                assert(vp.subrange(0, vb.len() as int)[i as int] != vb[i as int]);
            }
            return None;
        }
        i = i + 1;
    }
    proof {
        assert(vp.subrange(0, vb.len() as int) =~= vb);
        assert(components(p@).len() >= head_len(p@));
    }
    let rest = remainder_exec(&p, &ps, cb.len());
    Some(string_of(&rest))
}

} // verus!
