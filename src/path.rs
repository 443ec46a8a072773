//! Paths: `/`-separated names from the root, where a trailing `/` marks a
//! directory.
use crate::error::FsError;
use vstd::prelude::*;

verus! {

/// The byte `/`.
pub const SLASH: u8 = 47;

/// `p` ends with `/`.
pub open spec fn ends_with_slash(p: Seq<u8>) -> bool {
    p.len() > 0 && p.last() == SLASH
}

/// `p` starts with `/`.
pub open spec fn is_absolute(p: Seq<u8>) -> bool {
    p.len() > 0 && p[0] == SLASH
}

/// `p` holds two `/` in a row.
pub open spec fn has_double_slash(p: Seq<u8>) -> bool {
    exists|j: int| 0 <= j < p.len() - 1 && #[trigger] p[j] == SLASH && p[j + 1] == SLASH
}

/// The index of the last `/` in `s`, if any.
pub open spec fn last_slash(s: Seq<u8>) -> Option<int>
    decreases s.len(),
{
    if s.len() == 0 {
        None
    } else if s.last() == SLASH {
        Some(s.len() - 1)
    } else {
        last_slash(s.drop_last())
    }
}

/// Where `split_path` splits `p`: after the last `/` that comes before the
/// final name, ignoring a trailing `/` of a directory.
pub open spec fn split_spec(p: Seq<u8>, allow_dirs: bool, require_dir: bool) -> Result<
    (Seq<u8>, Seq<u8>),
    FsError,
> {
    if !allow_dirs && ends_with_slash(p) {
        Err(FsError::DirectoryNotAllowed)
    } else if require_dir && !ends_with_slash(p) {
        Err(FsError::DirectoryRequired)
    } else {
        let bound = if ends_with_slash(p) {
            p.len() - 1
        } else {
            p.len() as int
        };
        match last_slash(p.take(bound)) {
            None => Err(FsError::MissingName),
            Some(i) => Ok((p.take(i + 1), p.skip(i + 1))),
        }
    }
}

/// Splits a path into its parent directory (ending in `/`) and its last
/// name (a directory's name keeps its trailing `/`).
pub fn split_path<'a>(path: &'a [u8], allow_dirs: bool, require_dir: bool) -> (r: Result<
    (&'a [u8], &'a [u8]),
    FsError,
>)
    requires
        require_dir ==> allow_dirs,
    ensures
        match r {
            Ok((parent, name)) => split_spec(path@, allow_dirs, require_dir) == Ok::<
                (Seq<u8>, Seq<u8>),
                FsError,
            >((parent@, name@)),
            Err(e) => split_spec(path@, allow_dirs, require_dir) == Err::<
                (Seq<u8>, Seq<u8>),
                FsError,
            >(e),
        },
{
    let n = path.len();
    let trailing = n > 0 && path[n - 1] == SLASH;
    if !allow_dirs && trailing {
        return Err(FsError::DirectoryNotAllowed);
    }
    if require_dir && !trailing {
        return Err(FsError::DirectoryRequired);
    }
    let bound = if trailing {
        n - 1
    } else {
        n
    };
    let mut i = bound;
    while i > 0
        invariant
            i <= bound <= n,
            n == path@.len(),
            trailing == ends_with_slash(path@),
            bound == (if trailing { n - 1 } else { n as int }),
            allow_dirs || !trailing,
            !require_dir || trailing,
            last_slash(path@.take(bound as int)) == last_slash(path@.take(i as int)),
        decreases i,
    {
        if path[i - 1] == SLASH {
            assert(path@.take(i as int).last() == path@[i - 1]);
            let parent = vstd::slice::slice_subrange(path, 0, i);
            let name = vstd::slice::slice_subrange(path, i, n);
            assert(parent@ =~= path@.take(i as int));
            assert(name@ =~= path@.skip(i as int));
            assert(last_slash(path@.take(i as int)) == Some(i - 1));
            assert(ends_with_slash(path@) == trailing);
            assert(split_spec(path@, allow_dirs, require_dir) == Ok::<(Seq<u8>, Seq<u8>), FsError>(
                (parent@, name@),
            ));
            return Ok((parent, name));
        }
        assert(path@.take(i as int).drop_last() =~= path@.take(i - 1));
        i = i - 1;
    }
    Err(FsError::MissingName)
}

/// `seg` has no `/` but possibly its last byte.
pub open spec fn no_inner_slash(seg: Seq<u8>) -> bool {
    forall|j: int| 0 <= j < seg.len() - 1 ==> #[trigger] seg[j] != SLASH
}

/// `segs` cuts `s` after each `/`: together they make up `s`, none is
/// empty, a `/` stands only at the end of one, and each but the last ends
/// with `/`.
pub open spec fn is_split(s: Seq<u8>, segs: Seq<Seq<u8>>) -> bool {
    &&& segs.flatten_alt() == s
    &&& forall|k: int| 0 <= k < segs.len() ==> (#[trigger] segs[k]).len() > 0 && no_inner_slash(segs[k])
    &&& forall|k: int| 0 <= k < segs.len() - 1 ==> (#[trigger] segs[k]).last() == SLASH
}

/// The views of a list of byte strings.
pub open spec fn byte_views(v: Seq<Vec<u8>>) -> Seq<Seq<u8>> {
    v.map_values(|x: Vec<u8>| x@)
}

/// Cuts `s` after each `/`.
pub fn split_segments(s: &[u8]) -> (r: Vec<Vec<u8>>)
    ensures
        is_split(s@, byte_views(r@)),
{
    let n = s.len();
    let mut segs: Vec<Vec<u8>> = Vec::new();
    let mut start: usize = 0;
    let mut i: usize = 0;
    assert(s@.take(0) =~= Seq::<u8>::empty());
    while i < n
        invariant
            n == s@.len(),
            start <= i <= n,
            byte_views(segs@).flatten_alt() == s@.take(start as int),
            forall|k: int|
                0 <= k < segs@.len() ==> (#[trigger] byte_views(segs@)[k]).len() > 0
                    && no_inner_slash(byte_views(segs@)[k]) && byte_views(segs@)[k].last()
                    == SLASH,
            forall|j: int| start <= j < i ==> #[trigger] s@[j] != SLASH,
        decreases n - i,
    {
        if s[i] == SLASH {
            let seg = vstd::slice::slice_to_vec(vstd::slice::slice_subrange(s, start, i + 1));
            let ghost before = byte_views(segs@);
            segs.push(seg);
            proof {
                assert(byte_views(segs@) =~= before.push(seg@));
                assert(before.push(seg@).drop_last() =~= before);
                assert(s@.take(i + 1) =~= s@.take(start as int) + seg@);
                assert forall|j: int| 0 <= j < seg@.len() - 1 implies #[trigger] seg@[j] != SLASH by {
                    assert(seg@[j] == s@[start + j]);
                }
            }
            start = i + 1;
        }
        i = i + 1;
    }
    if start < n {
        let seg = vstd::slice::slice_to_vec(vstd::slice::slice_subrange(s, start, n));
        let ghost before = byte_views(segs@);
        segs.push(seg);
        proof {
            assert(byte_views(segs@) =~= before.push(seg@));
            assert(before.push(seg@).drop_last() =~= before);
            assert(s@.take(n as int) =~= s@.take(start as int) + seg@);
            assert forall|j: int| 0 <= j < seg@.len() - 1 implies #[trigger] seg@[j] != SLASH by {
                assert(seg@[j] == s@[start + j]);
            }
            let after = byte_views(segs@);
            assert forall|k: int| 0 <= k < after.len() - 1 implies (#[trigger] after[k]).last()
                == SLASH by {
                assert(after[k] == before[k]);
            }
            assert forall|k: int| 0 <= k < after.len() implies (#[trigger] after[k]).len() > 0
                && no_inner_slash(after[k]) by {
                if k < before.len() {
                    assert(after[k] == before[k]);
                }
            }
        }
    }
    assert(s@.take(n as int) =~= s@);
    segs
}

/// Whether `p` holds two `/` in a row.
pub fn double_slash(p: &[u8]) -> (r: bool)
    ensures
        r == has_double_slash(p@),
{
    let n = p.len();
    if n < 2 {
        return false;
    }
    let mut j: usize = 0;
    while j < n - 1
        invariant
            n == p@.len(),
            n >= 2,
            j <= n - 1,
            forall|k: int| 0 <= k < j && k < n - 1 ==> !(#[trigger] p@[k] == SLASH && p@[k + 1] == SLASH),
        decreases n - j,
    {
        if p[j] == SLASH && p[j + 1] == SLASH {
            return true;
        }
        j = j + 1;
    }
    false
}

/// The last segment of a split is the end of `s`, and the others split
/// the rest, which ends in `/` unless it is empty.
proof fn lemma_split_last(s: Seq<u8>, a: Seq<Seq<u8>>)
    requires
        is_split(s, a),
        a.len() > 0,
    ensures
        a.last().len() <= s.len(),
        s.subrange(s.len() - a.last().len(), s.len() as int) == a.last(),
        is_split(s.subrange(0, s.len() - a.last().len()), a.drop_last()),
        a.len() == 1 ==> a.last().len() == s.len(),
        a.len() > 1 ==> s.len() - a.last().len() > 0 && s[s.len() - a.last().len() - 1] == SLASH,
{
    let front = a.drop_last();
    let f = front.flatten_alt();
    assert(s == f + a.last());
    let m = f.len() as int;
    assert(s.subrange(m, s.len() as int) =~= a.last());
    assert(s.subrange(0, m) =~= f);
    assert forall|k: int| 0 <= k < front.len() implies (#[trigger] front[k]).len() > 0
        && no_inner_slash(front[k]) by {
        assert(front[k] == a[k]);
    }
    assert forall|k: int| 0 <= k < front.len() - 1 implies (#[trigger] front[k]).last()
        == SLASH by {
        assert(front[k] == a[k]);
    }
    if a.len() == 1 {
        assert(front.len() == 0);
        assert(f.len() == 0);
    }
    if a.len() > 1 {
        let g = front.drop_last().flatten_alt();
        assert(f == g + front.last());
        assert(front.last() == a[a.len() - 2]);
        assert(a[a.len() - 2].last() == SLASH);
        assert(f[m - 1] == front.last().last());
        assert(s[m - 1] == f[m - 1]);
    }
}

/// `is_split` pins the segments down: a sequence has one split.
pub proof fn lemma_split_unique(s: Seq<u8>, a: Seq<Seq<u8>>, b: Seq<Seq<u8>>)
    requires
        is_split(s, a),
        is_split(s, b),
    ensures
        a == b,
    decreases a.len(),
{
    if a.len() == 0 || b.len() == 0 {
        if a.len() > 0 {
            lemma_split_last(s, a);
            assert(s.len() == 0);
        }
        if b.len() > 0 {
            lemma_split_last(s, b);
            assert(s.len() == 0);
        }
        assert(a =~= b);
    } else {
        lemma_split_last(s, a);
        lemma_split_last(s, b);
        let n = s.len() as int;
        let la = a.last().len() as int;
        let lb = b.last().len() as int;
        if la < lb {
            assert(a.len() > 1);
            assert(s[n - la - 1] == SLASH);
            assert(b.last()[lb - la - 1] == s[n - la - 1]);
            assert(no_inner_slash(b.last()));
        }
        if lb < la {
            assert(b.len() > 1);
            assert(s[n - lb - 1] == SLASH);
            assert(a.last()[la - lb - 1] == s[n - lb - 1]);
            assert(no_inner_slash(a.last()));
        }
        assert(la == lb);
        lemma_split_unique(s.subrange(0, n - la), a.drop_last(), b.drop_last());
        assert(a =~= a.drop_last().push(a.last()));
        assert(b =~= b.drop_last().push(b.last()));
    }
}

} // verus!
