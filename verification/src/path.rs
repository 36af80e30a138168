//! Paths as `std::path::Path` reads them on Unix: their components, and
//! whether one path lies within another.
use vstd::prelude::*;

use crate::text::{chars_of, find, find_char_from, lemma_find, same_chars, sub_chars};

verus! {

/// The pieces of `s` between `/` characters.
pub open spec fn segments(s: Seq<char>) -> Seq<Seq<char>>
    decreases s.len(),
{
    let p = find(s, '/');
    if p >= s.len() {
        seq![s]
    } else {
        proof {
            lemma_find(s, '/');
        }
        seq![s.subrange(0, p)] + segments(s.subrange(p + 1, s.len() as int))
    }
}

/// The segments that name something: neither empty nor `.`.
pub open spec fn normal_parts(segs: Seq<Seq<char>>) -> Seq<Seq<char>>
    decreases segs.len(),
{
    if segs.len() == 0 {
        Seq::empty()
    } else {
        let rest = normal_parts(segs.drop_first());
        if segs[0].len() == 0 || segs[0] == seq!['.'] {
            rest
        } else {
            seq![segs[0]] + rest
        }
    }
}

/// The components of a path, as `Path::components` gives them: the root (written
/// `/`) for an absolute path, a leading `.` of a relative path, then the
/// segments that are neither empty nor `.`.
pub open spec fn components(p: Seq<char>) -> Seq<Seq<char>> {
    let segs = segments(p);
    if p.len() > 0 && p[0] == '/' {
        seq![seq!['/']] + normal_parts(segs.drop_first())
    } else if segs[0] == seq!['.'] {
        seq![seq!['.']] + normal_parts(segs.drop_first())
    } else {
        normal_parts(segs)
    }
}

/// Whether `p` lies within `base`, as `Path::starts_with` decides it: the
/// components of `base` begin the components of `p`.
pub open spec fn path_starts_with_spec(p: Seq<char>, base: Seq<char>) -> bool {
    components(base).is_prefix_of(components(p))
}

proof fn lemma_find_shift(s: Seq<char>, c: char, i: int)
    requires
        0 <= i <= s.len(),
    ensures
        find(s.subrange(i, s.len() as int), c) == crate::text::find_from(s, c, i) - i,
{
    let t = s.subrange(i, s.len() as int);
    crate::text::lemma_find_from(s, c, i);
    lemma_find(t, c);
    let f = crate::text::find_from(s, c, i);
    let g = find(t, c);
    if g < f - i {
        assert(t[g] == s[g + i]);
    }
    if g > f - i {
        assert(t[f - i] == s[f]);
    }
}

/// The segments of `v` (see [`segments`]).
fn segments_of(v: &Vec<char>) -> (r: Vec<Vec<char>>)
    ensures
        r@.map_values(|x: Vec<char>| x@) == segments(v@),
{
    let n = v.len();
    let mut out: Vec<Vec<char>> = Vec::new();
    let mut pos: usize = 0;
    assert(v@.subrange(0, n as int) =~= v@);
    loop
        invariant
            pos <= n == v.len(),
            out@.map_values(|x: Vec<char>| x@) + segments(v@.subrange(pos as int, n as int))
                == segments(v@),
        decreases n - pos,
    {
        let ghost rem = v@.subrange(pos as int, n as int);
        let p = find_char_from(v, '/', pos);
        proof {
            lemma_find_shift(v@, '/', pos as int);
            lemma_find(rem, '/');
        }
        let seg = sub_chars(v, pos, p);
        assert(seg@ =~= rem.subrange(0, p - pos));
        let ghost before = out@.map_values(|x: Vec<char>| x@);
        let ghost seg_v = seg@;
        out.push(seg);
        assert(out@.map_values(|x: Vec<char>| x@) =~= before.push(seg_v));
        if p >= n {
            assert(rem.subrange(0, p - pos) =~= rem);
            assert(segments(rem) == seq![rem]);
            assert(out@.map_values(|x: Vec<char>| x@) =~= before + segments(rem));
            return out;
        }
        proof {
            assert(v@.subrange(p as int + 1, n as int) =~= rem.subrange(p - pos + 1, rem.len() as int));
            assert(segments(rem) == seq![seg_v] + segments(v@.subrange(p as int + 1, n as int)));
            assert(before + segments(rem) =~= before.push(seg_v) + segments(
                v@.subrange(p as int + 1, n as int),
            ));
        }
        pos = p + 1;
    }
}

pub proof fn lemma_segments_nonempty(s: Seq<char>)
    ensures
        segments(s).len() > 0,
{
    lemma_find(s, '/');
}

/// Whether `x` is the segment `.`.
fn is_dot(x: &Vec<char>) -> (r: bool)
    ensures
        r == (x@ == seq!['.']),
{
    let r = x.len() == 1 && x[0] == '.';
    proof {
        if r {
            assert(x@ =~= seq!['.']);
        }
    }
    r
}

/// The components of the path `p` (see [`components`]).
pub fn components_of(p: &str) -> (r: Vec<Vec<char>>)
    ensures
        r@.map_values(|x: Vec<char>| x@) == components(p@),
{
    let v = chars_of(p);
    let segs = segments_of(&v);
    let ghost sv = segs@.map_values(|x: Vec<char>| x@);
    proof {
        lemma_segments_nonempty(v@);
    }
    assert(segs@.len() > 0);
    let mut out: Vec<Vec<char>> = Vec::new();
    let mut start: usize = 0;
    if v.len() > 0 && v[0] == '/' {
        let mut root: Vec<char> = Vec::new();
        root.push('/');
        assert(root@ =~= seq!['/']);
        out.push(root);
        start = 1;
    } else if is_dot(&segs[0]) {
        let mut dot: Vec<char> = Vec::new();
        dot.push('.');
        assert(dot@ =~= seq!['.']);
        out.push(dot);
        start = 1;
    }
    assert(out@.map_values(|x: Vec<char>| x@) =~= (if start == 1 {
        if v@.len() > 0 && v@[0] == '/' {
            seq![seq!['/']]
        } else {
            seq![seq!['.']]
        }
    } else {
        Seq::<Seq<char>>::empty()
    }));
    let ghost head = out@.map_values(|x: Vec<char>| x@);
    assert(sv.subrange(start as int, sv.len() as int) =~= if start == 1 {
        sv.drop_first()
    } else {
        sv
    });
    let mut k = start;
    while k < segs.len()
        invariant
            start <= k <= segs@.len(),
            sv == segs@.map_values(|x: Vec<char>| x@),
            out@.map_values(|x: Vec<char>| x@) + normal_parts(sv.subrange(k as int, sv.len() as int))
                == head + normal_parts(sv.subrange(start as int, sv.len() as int)),
        decreases segs.len() - k,
    {
        let ghost rest = sv.subrange(k as int, sv.len() as int);
        assert(rest.drop_first() =~= sv.subrange(k + 1, sv.len() as int));
        assert(rest[0] == segs@[k as int]@);
        let ghost before = out@.map_values(|x: Vec<char>| x@);
        if segs[k].len() > 0 && !is_dot(&segs[k]) {
            let seg = sub_chars(&segs[k], 0, segs[k].len());
            assert(seg@ =~= segs@[k as int]@);
            out.push(seg);
            assert(out@.map_values(|x: Vec<char>| x@) =~= before.push(rest[0]));
            assert(before.push(rest[0]) + normal_parts(rest.drop_first()) =~= before + normal_parts(
                rest,
            ));
        }
        k = k + 1;
    }
    assert(sv.subrange(k as int, sv.len() as int) =~= Seq::<Seq<char>>::empty());
    assert(out@.map_values(|x: Vec<char>| x@) =~= out@.map_values(|x: Vec<char>| x@) + normal_parts(
        Seq::<Seq<char>>::empty(),
    ));
    out
}

/// Whether `p` lies within `base` (see [`path_starts_with_spec`]).
pub fn path_starts_with(p: &str, base: &str) -> (r: bool)
    ensures
        r == path_starts_with_spec(p@, base@),
{
    let a = components_of(p);
    let b = components_of(base);
    let ghost av = a@.map_values(|x: Vec<char>| x@);
    let ghost bv = b@.map_values(|x: Vec<char>| x@);
    assert(av.len() == a@.len() && bv.len() == b@.len());
    if b.len() > a.len() {
        return false;
    }
    let mut k: usize = 0;
    while k < b.len()
        invariant
            k <= b@.len() <= a@.len(),
            av == a@.map_values(|x: Vec<char>| x@),
            bv == b@.map_values(|x: Vec<char>| x@),
            av == components(p@),
            bv == components(base@),
            forall|j: int| 0 <= j < k ==> bv[j] == av[j],
        decreases b.len() - k,
    {
        assert(av[k as int] == a@[k as int]@ && bv[k as int] == b@[k as int]@);
        if !same_chars(&a[k], &b[k]) {
            assert(bv[k as int] != av[k as int]);
            assert(av.subrange(0, bv.len() as int)[k as int] == av[k as int]);
            assert(bv != av.subrange(0, bv.len() as int));
            assert(!bv.is_prefix_of(av));
            return false;
        }
        k = k + 1;
    }
    assert(bv =~= av.subrange(0, bv.len() as int));
    true
}

/// The component `..`, which names the parent directory.
pub open spec fn parent_dir() -> Seq<char> {
    seq!['.', '.']
}

/// Whether walking the components `cs`, starting `depth` levels below a
/// directory, never climbs above that directory: each `..` goes one level up,
/// any other component one level down.
pub open spec fn stays_below(cs: Seq<Seq<char>>, depth: nat) -> bool
    decreases cs.len(),
{
    if cs.len() == 0 {
        true
    } else if cs[0] == parent_dir() {
        depth > 0 && stays_below(cs.drop_first(), (depth - 1) as nat)
    } else {
        stays_below(cs.drop_first(), depth + 1)
    }
}

/// Whether `p` lies within `base` with its `..` components followed: the
/// components of `p` begin with those of `base`, and the rest never climbs
/// above `base`.
pub open spec fn stays_within_spec(p: Seq<char>, base: Seq<char>) -> bool {
    &&& path_starts_with_spec(p, base)
    &&& stays_below(components(p).subrange(components(base).len() as int, components(p).len() as int), 0)
}

/// Components without `..` never climb.
pub proof fn lemma_no_parent_stays_below(cs: Seq<Seq<char>>, depth: nat)
    requires
        !cs.contains(parent_dir()),
    ensures
        stays_below(cs, depth),
    decreases cs.len(),
{
    if cs.len() > 0 {
        assert(cs[0] != parent_dir());
        assert forall|c: Seq<char>| cs.drop_first().contains(c) implies cs.contains(c) by {
            let j = choose|j: int| 0 <= j < cs.drop_first().len() && cs.drop_first()[j] == c;
            assert(cs[j + 1] == c);
        }
        lemma_no_parent_stays_below(cs.drop_first(), depth + 1);
    }
}

/// Whether `p` lies within `base` with its `..` components followed (see
/// [`stays_within_spec`]).
pub fn stays_within(p: &str, base: &str) -> (r: bool)
    ensures
        r == stays_within_spec(p@, base@),
{
    if !path_starts_with(p, base) {
        return false;
    }
    let a = components_of(p);
    let b = components_of(base);
    let ghost av = a@.map_values(|x: Vec<char>| x@);
    let ghost bv = b@.map_values(|x: Vec<char>| x@);
    assert(av.len() == a@.len() && bv.len() == b@.len());
    assert(bv.is_prefix_of(av));
    let ghost whole = av.subrange(bv.len() as int, av.len() as int);
    let mut dd: Vec<char> = Vec::new();
    dd.push('.');
    dd.push('.');
    assert(dd@ =~= parent_dir());
    let mut k: usize = b.len();
    let mut depth: usize = 0;
    assert(av.subrange(k as int, av.len() as int) =~= whole);
    while k < a.len()
        invariant
            b@.len() <= k <= a@.len(),
            depth <= k,
            av == a@.map_values(|x: Vec<char>| x@),
            av == components(p@),
            bv == components(base@),
            dd@ == parent_dir(),
            whole == av.subrange(bv.len() as int, av.len() as int),
            stays_below(whole, 0) == stays_below(av.subrange(k as int, av.len() as int), depth as nat),
        decreases a.len() - k,
    {
        let ghost rest = av.subrange(k as int, av.len() as int);
        assert(rest[0] == a@[k as int]@);
        assert(rest.drop_first() =~= av.subrange(k + 1, av.len() as int));
        if same_chars(&a[k], &dd) {
            if depth == 0 {
                return false;
            }
            depth = depth - 1;
        } else {
            depth = depth + 1;
        }
        k = k + 1;
    }
    assert(av.subrange(k as int, av.len() as int) =~= Seq::<Seq<char>>::empty());
    true
}

/// The first `/` of `a + x`, where `x` starts with `/`, is that of `a` if `a`
/// has one, else the one that starts `x`.
proof fn lemma_find_concat(a: Seq<char>, x: Seq<char>)
    requires
        x.len() > 0,
        x[0] == '/',
    ensures
        find(a + x, '/') == if find(a, '/') < a.len() {
            find(a, '/')
        } else {
            a.len() as int
        },
{
    let s = a + x;
    lemma_find(s, '/');
    lemma_find(a, '/');
    let f = find(s, '/');
    let g = find(a, '/');
    if g < a.len() {
        assert(s[g] == '/');
        if f < g {
            assert(a[f] == s[f]);
        }
    } else {
        assert(s[a.len() as int] == '/');
        if f < a.len() {
            assert(a[f] == s[f]);
            assert(crate::text::has_char(a, '/'));
        }
    }
}

/// Splitting at a `/` splits the segments: those of `a`, then those of `b`.
pub proof fn lemma_segments_concat(a: Seq<char>, b: Seq<char>)
    ensures
        segments(a + seq!['/'] + b) == segments(a) + segments(b),
    decreases a.len(),
{
    let s = a + seq!['/'] + b;
    assert(s =~= a + (seq!['/'] + b));
    lemma_find_concat(a, seq!['/'] + b);
    lemma_find(a, '/');
    let g = find(a, '/');
    if g < a.len() {
        let rest_a = a.subrange(g + 1, a.len() as int);
        lemma_segments_concat(rest_a, b);
        assert(s.subrange(0, g) =~= a.subrange(0, g));
        assert(s.subrange(g + 1, s.len() as int) =~= rest_a + seq!['/'] + b);
        assert(segments(a) == seq![a.subrange(0, g)] + segments(rest_a));
        assert(segments(s) =~= segments(a) + segments(b));
    } else {
        assert(s.subrange(0, a.len() as int) =~= a);
        assert(s.subrange(a.len() as int + 1, s.len() as int) =~= b);
        assert(segments(a) == seq![a]);
        assert(segments(s) =~= segments(a) + segments(b));
    }
}

/// The normal parts of a concatenation are those of each part, in order.
pub proof fn lemma_normal_parts_concat(x: Seq<Seq<char>>, y: Seq<Seq<char>>)
    ensures
        normal_parts(x + y) == normal_parts(x) + normal_parts(y),
    decreases x.len(),
{
    if x.len() == 0 {
        assert(x + y =~= y);
    } else {
        lemma_normal_parts_concat(x.drop_first(), y);
        assert((x + y).drop_first() =~= x.drop_first() + y);
        assert((x + y)[0] == x[0]);
    }
}

/// A component that names something: not empty, not `.`, and free of `/`.
pub open spec fn is_normal(c: Seq<char>) -> bool {
    c.len() > 0 && c != seq!['.'] && !crate::text::has_char(c, '/')
}

/// No segment holds a `/`.
pub proof fn lemma_segments_no_slash(s: Seq<char>)
    ensures
        forall|i: int|
            0 <= i < segments(s).len() ==> !crate::text::has_char(#[trigger] segments(s)[i], '/'),
    decreases s.len(),
{
    lemma_find(s, '/');
    let p = find(s, '/');
    if p < s.len() {
        let head = s.subrange(0, p);
        let rest = s.subrange(p + 1, s.len() as int);
        lemma_segments_no_slash(rest);
        assert forall|k: int| 0 <= k < head.len() implies head[k] != '/' by {
            assert(head[k] == s[k]);
        }
        assert forall|i: int|
            0 <= i < segments(s).len() implies !crate::text::has_char(#[trigger] segments(s)[i], '/') by {
            if i == 0 {
                assert(segments(s)[0] == head);
            } else {
                assert(segments(s)[i] == segments(rest)[i - 1]);
            }
        }
    }
}

/// The normal parts of slash-free segments are normal, and are among them.
pub proof fn lemma_normal_parts_normal(segs: Seq<Seq<char>>)
    requires
        forall|i: int| 0 <= i < segs.len() ==> !crate::text::has_char(#[trigger] segs[i], '/'),
    ensures
        forall|i: int| 0 <= i < normal_parts(segs).len() ==> is_normal(#[trigger] normal_parts(segs)[i]),
        forall|c: Seq<char>| normal_parts(segs).contains(c) ==> segs.contains(c),
    decreases segs.len(),
{
    if segs.len() > 0 {
        let rest = segs.drop_first();
        assert forall|i: int| 0 <= i < rest.len() implies !crate::text::has_char(#[trigger] rest[i], '/') by {
            assert(rest[i] == segs[i + 1]);
        }
        lemma_normal_parts_normal(rest);
        let np = normal_parts(segs);
        assert forall|c: Seq<char>| np.contains(c) implies segs.contains(c) by {
            let k = choose|k: int| 0 <= k < np.len() && np[k] == c;
            let nr = normal_parts(rest);
            if segs[0].len() == 0 || segs[0] == seq!['.'] {
                assert(np == nr);
                assert(nr[k] == c);
                assert(nr.contains(c));
            } else {
                assert(np == seq![segs[0]] + nr);
                if k == 0 {
                    assert(segs[0] == c);
                } else {
                    assert(nr[k - 1] == c);
                    assert(nr.contains(c));
                }
            }
            if nr.contains(c) {
                assert(rest.contains(c));
                let j = choose|j: int| 0 <= j < rest.len() && rest[j] == c;
                assert(segs[j + 1] == rest[j]);
            }
        }
        assert forall|i: int| 0 <= i < np.len() implies is_normal(#[trigger] np[i]) by {
            if !(segs[0].len() == 0 || segs[0] == seq!['.']) && i == 0 {
                assert(np[0] == segs[0]);
            } else if segs[0].len() == 0 || segs[0] == seq!['.'] {
                assert(np[i] == normal_parts(rest)[i]);
            } else {
                assert(np[i] == normal_parts(rest)[i - 1]);
            }
        }
    }
}

/// The components of an absolute path: the root, then the normal parts of
/// its segments after the first.
pub proof fn lemma_absolute_components(p: Seq<char>)
    requires
        p.len() > 0,
        p[0] == '/',
    ensures
        components(p) == seq![seq!['/']] + normal_parts(segments(p).drop_first()),
        forall|i: int| 1 <= i < components(p).len() ==> is_normal(#[trigger] components(p)[i]),
{
    lemma_segments_no_slash(p);
    let segs = segments(p);
    lemma_segments_nonempty(p);
    assert forall|i: int| 0 <= i < segs.drop_first().len() implies !crate::text::has_char(
        #[trigger] segs.drop_first()[i],
        '/',
    ) by {
        assert(segs.drop_first()[i] == segs[i + 1]);
    }
    lemma_normal_parts_normal(segs.drop_first());
    let cs = components(p);
    assert forall|i: int| 1 <= i < cs.len() implies is_normal(#[trigger] cs[i]) by {
        assert(cs[i] == normal_parts(segs.drop_first())[i - 1]);
    }
}

/// Joining a relative path to an absolute one appends the relative path's
/// normal parts to the components.
pub proof fn lemma_join_components(base: Seq<char>, rel: Seq<char>)
    requires
        base.len() > 0,
        base[0] == '/',
        rel.len() == 0 || rel[0] != '/',
    ensures
        components(crate::text::path_join_spec(base, rel)) == components(base) + normal_parts(
            segments(rel),
        ),
{
    let joined = crate::text::path_join_spec(base, rel);
    let a = if base[base.len() - 1] == '/' {
        base.subrange(0, base.len() - 1)
    } else {
        base
    };
    assert(joined =~= a + seq!['/'] + rel);
    lemma_segments_concat(a, rel);
    lemma_segments_nonempty(a);
    assert(joined[0] == '/');
    lemma_absolute_components(joined);
    lemma_absolute_components(base);
    let sa = segments(a);
    assert((sa + segments(rel)).drop_first() =~= sa.drop_first() + segments(rel));
    lemma_normal_parts_concat(sa.drop_first(), segments(rel));
    if base[base.len() - 1] == '/' {
        let e = Seq::<char>::empty();
        assert(base =~= a + seq!['/'] + e);
        lemma_segments_concat(a, e);
        lemma_find(e, '/');
        assert(segments(e) == seq![e]);
        assert((sa + seq![e]).drop_first() =~= sa.drop_first() + seq![e]);
        lemma_normal_parts_concat(sa.drop_first(), seq![e]);
        assert(normal_parts(seq![e]) =~= Seq::<Seq<char>>::empty()) by {
            assert(seq![e].drop_first() =~= Seq::<Seq<char>>::empty());
            assert(normal_parts(Seq::<Seq<char>>::empty()) == Seq::<Seq<char>>::empty());
            assert(seq![e][0].len() == 0);
        }
        assert(normal_parts(sa.drop_first()) + Seq::<Seq<char>>::empty() =~= normal_parts(
            sa.drop_first(),
        ));
    }
    assert(components(joined) =~= components(base) + normal_parts(segments(rel)));
}

} // verus!
