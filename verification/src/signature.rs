//! The signature-help popup: which part of a signature's label is the
//! parameter being typed.
use vstd::prelude::*;

use crate::text::chars_of;

verus! {

/// `needle` occurs in `hay` starting at char `i`.
pub open spec fn occurs_at(hay: Seq<char>, needle: Seq<char>, i: int) -> bool {
    &&& 0 <= i
    &&& i + needle.len() <= hay.len()
    &&& hay.subrange(i, i + needle.len()) == needle
}

/// `i` is the first char at which `needle` occurs in `hay`.
pub open spec fn first_occurrence(hay: Seq<char>, needle: Seq<char>, i: int) -> bool {
    &&& occurs_at(hay, needle, i)
    &&& forall|j: int| 0 <= j < i ==> !#[trigger] occurs_at(hay, needle, j)
}

/// Whether `needle` matches `hay` at char `i`, char by char.
fn matches_at(hay: &Vec<char>, needle: &Vec<char>, i: usize) -> (r: bool)
    requires
        i + needle.len() <= hay.len(),
    ensures
        r == occurs_at(hay@, needle@, i as int),
{
    let m = needle.len();
    let mut k: usize = 0;
    while k < m
        invariant
            m == needle.len(),
            i + m <= hay.len(),
            k <= m,
            forall|t: int| 0 <= t < k ==> hay@[i + t] == needle@[t],
        decreases m - k,
    {
        if hay[i + k] != needle[k] {
            proof {
                assert(hay@.subrange(i as int, i + m)[k as int] != needle@[k as int]);
            }
            return false;
        }
        k = k + 1;
    }
    proof {
        assert(hay@.subrange(i as int, i + m) =~= needle@);
    }
    true
}

/// The char index of the first occurrence of `needle` in `hay` (what
/// `str::find` locates), `None` where it does not occur.
pub fn find_first(hay: &str, needle: &str) -> (r: Option<usize>)
    ensures
        match r {
            Some(i) => first_occurrence(hay@, needle@, i as int),
            None => forall|j: int| !#[trigger] occurs_at(hay@, needle@, j),
        },
{
    let h = chars_of(hay);
    let n = chars_of(needle);
    if n.len() > h.len() {
        return None;
    }
    let last = h.len() - n.len();
    let mut i: usize = 0;
    loop
        invariant
            h@ == hay@,
            n@ == needle@,
            last == h.len() - n.len(),
            n.len() <= h.len(),
            i <= last,
            forall|j: int| 0 <= j < i ==> !#[trigger] occurs_at(hay@, needle@, j),
        decreases last - i,
    {
        if matches_at(&h, &n, i) {
            return Some(i);
        }
        if i == last {
            proof {
                assert forall|j: int| !#[trigger] occurs_at(hay@, needle@, j) by {
                    if 0 <= j && j < i {
                    }
                }
            }
            return None;
        }
        i = i + 1;
    }
}

/// How a signature label is shown: split around the first occurrence of
/// the active parameter's label, as (before, parameter, after); `None`
/// (the label shown whole) where there is no active parameter or its
/// label does not occur in the signature.
pub open spec fn spec_label_parts(label: Seq<char>, param: Option<Seq<char>>) -> Option<
    (Seq<char>, Seq<char>, Seq<char>),
> {
    match param {
        None => None,
        Some(p) => if exists|i: int| occurs_at(label, p, i) {
            let i = choose|i: int| first_occurrence(label, p, i);
            Some((label.subrange(0, i), p, label.subrange(i + p.len(), label.len() as int)))
        } else {
            None
        },
    }
}

/// The first occurrence of a needle is unique.
proof fn lemma_first_occurrence_unique(hay: Seq<char>, needle: Seq<char>, i: int, k: int)
    requires
        first_occurrence(hay, needle, i),
        first_occurrence(hay, needle, k),
    ensures
        i == k,
{
    if i < k {
        assert(!occurs_at(hay, needle, i));
    } else if k < i {
        assert(!occurs_at(hay, needle, k));
    }
}

/// The three parts a signature label is shown in, the middle one being
/// the active parameter (`active_param`, the parameter's own label).
pub fn signature_label_parts(label: &str, active_param: Option<&str>) -> (parts: Option<(String, String, String)>)
    ensures
        match active_param {
            None => parts is None,
            Some(p) => match parts {
                Some(t) => spec_label_parts(label@, Some(p@)) == Some((t.0@, t.1@, t.2@)),
                None => spec_label_parts(label@, Some(p@)) is None,
            },
        },
{
    let param = match active_param {
        Some(p) => p,
        None => return None,
    };
    match find_first(label, param) {
        None => None,
        Some(start) => {
            let n = label.unicode_len();
            let m = param.unicode_len();
            let end = start + m;
            let before = label.substring_char(0, start).to_owned();
            let active = label.substring_char(start, end).to_owned();
            let after = label.substring_char(end, n).to_owned();
            proof {
                let c = choose|i: int| first_occurrence(label@, param@, i);
                assert(first_occurrence(label@, param@, c));
                lemma_first_occurrence_unique(label@, param@, c, start as int);
            }
            Some((before, active, after))
        },
    }
}

/// Wherever a needle occurs, it has a first occurrence.
proof fn lemma_first_occurrence_exists(hay: Seq<char>, needle: Seq<char>, i: int)
    requires
        occurs_at(hay, needle, i),
    ensures
        exists|k: int| first_occurrence(hay, needle, k),
    decreases i,
{
    if exists|j: int| 0 <= j < i && occurs_at(hay, needle, j) {
        let j = choose|j: int| 0 <= j < i && occurs_at(hay, needle, j);
        lemma_first_occurrence_exists(hay, needle, j);
    } else {
        assert(first_occurrence(hay, needle, i));
    }
}

/// Law: the parts a signature label is split into spell out the label,
/// the middle one being the active parameter.
pub proof fn lemma_label_parts_rebuild(label: Seq<char>, param: Seq<char>)
    requires
        spec_label_parts(label, Some(param)) is Some,
    ensures
        ({
            let t = spec_label_parts(label, Some(param)).unwrap();
            &&& t.0 + t.1 + t.2 == label
            &&& t.1 == param
        }),
{
    let w = choose|i: int| occurs_at(label, param, i);
    lemma_first_occurrence_exists(label, param, w);
    let i = choose|i: int| first_occurrence(label, param, i);
    assert(label.subrange(i, i + param.len()) == param);
    assert(label.subrange(0, i) + param + label.subrange(i + param.len(), label.len() as int) =~= label);
}

} // verus!
