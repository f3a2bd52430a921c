//! Name-based lookup of a compiled descriptor: a stored fully-qualified
//! kernel name matches a requested module path and kernel name when its
//! last path segment equals the kernel name and the module path's segments
//! stand as a subsequence among the remaining segments.

use vstd::prelude::*;
use vstd::string::StrSliceExecFns;
use crate::desc::{desc_matches, Cache, KernelDesc};
use crate::strutil::str_eq;

verus! {

/// Splitting on the two-character path separator, scanning left to right:
/// the characters gathered so far form the current segment.
pub open spec fn split_path_acc(s: Seq<char>, cur: Seq<char>) -> Seq<Seq<char>>
    decreases s.len(),
{
    if s.len() == 0 {
        seq![cur]
    } else if s.len() >= 2 && s[0] == ':' && s[1] == ':' {
        seq![cur] + split_path_acc(s.skip(2), Seq::empty())
    } else {
        split_path_acc(s.drop_first(), cur.push(s[0]))
    }
}

/// The path segments of a fully-qualified name.
pub open spec fn spec_split_path(s: Seq<char>) -> Seq<Seq<char>> {
    split_path_acc(s, Seq::empty())
}

/// Splitting yields at least one segment.
pub proof fn lemma_split_path_nonempty(s: Seq<char>, cur: Seq<char>)
    ensures
        split_path_acc(s, cur).len() >= 1,
    decreases s.len(),
{
    if s.len() == 0 {
    } else if s.len() >= 2 && s[0] == ':' && s[1] == ':' {
        lemma_split_path_nonempty(s.skip(2), Seq::empty());
    } else {
        lemma_split_path_nonempty(s.drop_first(), cur.push(s[0]));
    }
}

/// `m` is a subsequence of `r`, matched greedily from the right.
pub open spec fn is_subseq_of(m: Seq<Seq<char>>, r: Seq<Seq<char>>) -> bool
    decreases m.len() + r.len(),
{
    if m.len() == 0 {
        true
    } else if r.len() == 0 {
        false
    } else if m.last() == r.last() {
        is_subseq_of(m.drop_last(), r.drop_last())
    } else {
        is_subseq_of(m, r.drop_last())
    }
}

/// Whether a stored kernel name answers a request for `kernel` inside the
/// module path `module`.
pub open spec fn name_matches(name: Seq<char>, module: Seq<char>, kernel: Seq<char>) -> bool {
    let segs = spec_split_path(name);
    segs.last() == kernel && is_subseq_of(spec_split_path(module), segs.drop_last())
}

/// The path segments of a fully-qualified name.
pub fn split_path(s: &str) -> (r: Vec<String>)
    ensures
        r@.map_values(|x: String| x@) == spec_split_path(s@),
{
    let len = s.unicode_len();
    let mut r: Vec<String> = Vec::new();
    let mut seg_start: usize = 0;
    let mut i: usize = 0;
    proof {
        assert(s@.skip(0) =~= s@);
        assert(s@.subrange(0, 0) =~= Seq::<char>::empty());
        assert(r@.map_values(|x: String| x@) =~= Seq::<Seq<char>>::empty());
        assert(Seq::<Seq<char>>::empty() + split_path_acc(s@, Seq::empty()) =~= split_path_acc(
            s@,
            Seq::empty(),
        ));
    }
    while i < len
        invariant
            seg_start <= i <= len,
            len == s@.len(),
            spec_split_path(s@) == r@.map_values(|x: String| x@) + split_path_acc(
                s@.skip(i as int),
                s@.subrange(seg_start as int, i as int),
            ),
        decreases len - i,
    {
        let ghost pre = r@.map_values(|x: String| x@);
        let ghost rem = s@.skip(i as int);
        let ghost cur = s@.subrange(seg_start as int, i as int);
        if i + 1 < len && s.get_char(i) == ':' && s.get_char(i + 1) == ':' {
            let seg = s.substring_char(seg_start, i).to_owned();
            r.push(seg);
            proof {
                assert(rem.skip(2) =~= s@.skip(i + 2));
                assert(split_path_acc(rem, cur) == seq![cur] + split_path_acc(
                    s@.skip(i + 2),
                    Seq::empty(),
                ));
                assert(r@.map_values(|x: String| x@) =~= pre + seq![cur]);
                assert(pre + (seq![cur] + split_path_acc(s@.skip(i + 2), Seq::empty())) =~= (pre
                    + seq![cur]) + split_path_acc(s@.skip(i + 2), Seq::empty()));
                assert(s@.subrange(i + 2, i + 2) =~= Seq::<char>::empty());
            }
            i += 2;
            seg_start = i;
        } else {
            proof {
                assert(rem.drop_first() =~= s@.skip(i + 1));
                assert(rem[0] == s@[i as int]);
                assert(cur.push(s@[i as int]) =~= s@.subrange(seg_start as int, i + 1));
                if i + 1 < len {
                    assert(!(rem.len() >= 2 && rem[0] == ':' && rem[1] == ':'));
                } else {
                    assert(rem.len() == 1);
                }
            }
            i += 1;
        }
    }
    let seg = s.substring_char(seg_start, len).to_owned();
    r.push(seg);
    proof {
        assert(s@.skip(len as int) =~= Seq::<char>::empty());
        let ghost pre = r@.map_values(|x: String| x@).drop_last();
        assert(r@.map_values(|x: String| x@) =~= spec_split_path(s@));
    }
    r
}

/// Decides subsequence containment, matching greedily from the right.
pub fn is_subseq(m: &Vec<String>, r: &Vec<String>) -> (res: bool)
    ensures
        res == is_subseq_of(
            m@.map_values(|x: String| x@),
            r@.map_values(|x: String| x@),
        ),
{
    let ghost mv = m@.map_values(|x: String| x@);
    let ghost rv = r@.map_values(|x: String| x@);
    let mut mi: usize = m.len();
    let mut ri: usize = r.len();
    proof {
        assert(mv.take(mv.len() as int) =~= mv);
        assert(rv.take(rv.len() as int) =~= rv);
    }
    while mi > 0 && ri > 0
        invariant
            mi <= mv.len(),
            ri <= rv.len(),
            mv == m@.map_values(|x: String| x@),
            rv == r@.map_values(|x: String| x@),
            is_subseq_of(mv, rv) == is_subseq_of(mv.take(mi as int), rv.take(ri as int)),
        decreases mi + ri,
    {
        proof {
            assert(mv.take(mi as int).last() == mv[mi - 1]);
            assert(rv.take(ri as int).last() == rv[ri - 1]);
            assert(mv.take(mi as int).drop_last() =~= mv.take(mi - 1));
            assert(rv.take(ri as int).drop_last() =~= rv.take(ri - 1));
        }
        if str_eq(m[mi - 1].as_str(), r[ri - 1].as_str()) {
            mi -= 1;
            ri -= 1;
        } else {
            ri -= 1;
        }
    }
    proof {
        if mi == 0 {
            assert(mv.take(0) =~= Seq::<Seq<char>>::empty());
        } else {
            assert(rv.take(0) =~= Seq::<Seq<char>>::empty());
        }
    }
    mi == 0
}

/// Whether a stored kernel name answers a request.
pub fn kernel_name_matches(name: &str, module: &str, kernel: &str) -> (r: bool)
    ensures
        r == name_matches(name@, module@, kernel@),
{
    let segs = split_path(name);
    proof {
        lemma_split_path_nonempty(name@, Seq::empty());
    }
    let last = &segs[segs.len() - 1];
    if !str_eq(last.as_str(), kernel) {
        proof {
            assert(segs@.map_values(|x: String| x@).last() == segs@[segs@.len() - 1]@);
        }
        return false;
    }
    let module_segs = split_path(module);
    let mut rest = segs;
    let _last = rest.pop();
    proof {
        assert(rest@.map_values(|x: String| x@) =~= spec_split_path(name@).drop_last());
        assert(spec_split_path(name@).last() == kernel@);
    }
    is_subseq(&module_segs, &rest)
}

/// Finds the first completed descriptor answering a request: its index in
/// the cache's list, or nothing when no stored name matches.
pub fn lookup_kernel(cache: &Cache, module: &str, kernel: &str) -> (r: Option<usize>)
    ensures
        match r {
            Some(i) => i < cache.kernels@.len() && name_matches(
                cache.kernels@[i as int].name@,
                module@,
                kernel@,
            ) && forall|j: int|
                0 <= j < i ==> !name_matches(
                    (#[trigger] cache.kernels@[j]).name@,
                    module@,
                    kernel@,
                ),
            None => forall|j: int|
                0 <= j < cache.kernels@.len() ==> !name_matches(
                    (#[trigger] cache.kernels@[j]).name@,
                    module@,
                    kernel@,
                ),
        },
{
    let mut i: usize = 0;
    while i < cache.kernels.len()
        invariant
            i <= cache.kernels@.len(),
            forall|j: int|
                0 <= j < i ==> !name_matches(
                    (#[trigger] cache.kernels@[j]).name@,
                    module@,
                    kernel@,
                ),
        decreases cache.kernels@.len() - i,
    {
        if kernel_name_matches(cache.kernels[i].name.as_str(), module, kernel) {
            return Some(i);
        }
        i += 1;
    }
    None
}

/// Finds and clones the first completed descriptor answering a request:
/// a descriptor read back from a cache is immutable and cloned per
/// consumer.
pub fn find_kernel(cache: &Cache, module: &str, kernel: &str) -> (r: Option<KernelDesc>)
    ensures
        match r {
            Some(d) => exists|i: int|
                0 <= i < cache.kernels@.len() && name_matches(
                    (#[trigger] cache.kernels@[i]).name@,
                    module@,
                    kernel@,
                ) && desc_matches(d, cache.kernels@[i]),
            None => forall|j: int|
                0 <= j < cache.kernels@.len() ==> !name_matches(
                    (#[trigger] cache.kernels@[j]).name@,
                    module@,
                    kernel@,
                ),
        },
{
    match lookup_kernel(cache, module, kernel) {
        Some(i) => Some(cache.kernels[i].clone()),
        None => None,
    }
}

} // verus!
