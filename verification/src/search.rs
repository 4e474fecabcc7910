//! Project-wide search results: grouping hits by file and splitting a
//! preview line around its match.
use vstd::prelude::*;
use crate::paths::{path_eq, path_eq_is_equivalence, paths_equal};
use crate::text::{chars_of, decimal, dec_str, str_eq};

verus! {

/// Where in a file a search matched, with a windowed preview of the line.
#[derive(Clone, Debug)]
pub struct SearchHit {
    /// 0-based line of the match.
    pub line: usize,
    /// Char column of the match in the real line.
    pub col: usize,
    /// A snippet of the line around the match.
    pub preview: String,
    /// Char column of the match within `preview`.
    pub preview_col: usize,
}

/// One search match.
#[derive(Clone, Debug)]
pub struct SearchResult {
    pub path: String,
    pub hit: SearchHit,
    /// Length of the query, in chars.
    pub query_len_chars: usize,
}

/// `results` grouped into runs of consecutive results for equal paths,
/// each run keyed by its first result's path.
pub open spec fn groups_of(results: Seq<SearchResult>) -> Seq<(Seq<char>, Seq<SearchResult>)>
    decreases results.len(),
{
    if results.len() == 0 {
        seq![]
    } else {
        let g = groups_of(results.drop_last());
        let r = results.last();
        if g.len() > 0 && path_eq(g.last().0, r.path@) {
            g.update(g.len() - 1, (g.last().0, g.last().1.push(r)))
        } else {
            g.push((r.path@, seq![r]))
        }
    }
}

/// The results of `groups`, one group after another.
pub open spec fn concat_groups(groups: Seq<(Seq<char>, Seq<SearchResult>)>) -> Seq<SearchResult>
    decreases groups.len(),
{
    if groups.len() == 0 {
        seq![]
    } else {
        concat_groups(groups.drop_last()) + groups.last().1
    }
}

/// Law: grouping by file keeps every result once and in order, and every
/// group is non-empty and keyed by its first result's path.
pub proof fn lemma_groups_faithful(results: Seq<SearchResult>)
    ensures
        concat_groups(groups_of(results)) == results,
        forall|j: int|
            0 <= j < groups_of(results).len() ==> (#[trigger] groups_of(results)[j]).1.len() > 0
                && groups_of(results)[j].0 == groups_of(results)[j].1[0].path@,
    decreases results.len(),
{
    if results.len() > 0 {
        let prev = results.drop_last();
        lemma_groups_faithful(prev);
        let g = groups_of(prev);
        let r = results.last();
        let out = groups_of(results);
        if g.len() > 0 && path_eq(g.last().0, r.path@) {
            assert(out.drop_last() =~= g.drop_last());
            assert(concat_groups(g) == concat_groups(g.drop_last()) + g.last().1);
            assert(concat_groups(out) =~= concat_groups(g).push(r));
            assert forall|j: int| 0 <= j < out.len() implies (#[trigger] out[j]).1.len() > 0
                && out[j].0 == out[j].1[0].path@ by {
                if j < out.len() - 1 {
                    assert(out[j] == g[j]);
                } else {
                    assert(g[g.len() - 1] == g.last());
                    assert(g.last().1.push(r)[0] == g.last().1[0]);
                }
            }
        } else {
            assert(out.drop_last() =~= g);
            assert(concat_groups(out) =~= concat_groups(g) + seq![r]);
            assert forall|j: int| 0 <= j < out.len() implies (#[trigger] out[j]).1.len() > 0
                && out[j].0 == out[j].1[0].path@ by {
                if j < out.len() - 1 {
                    assert(out[j] == g[j]);
                }
            }
        }
        assert(prev.push(r) =~= results);
    }
}

/// How many times the path changes between neighbouring results.
pub open spec fn path_changes(results: Seq<SearchResult>) -> nat
    decreases results.len(),
{
    if results.len() < 2 {
        0
    } else {
        path_changes(results.drop_last()) + if path_eq(results[results.len() - 2].path@, results.last().path@) {
            0nat
        } else {
            1nat
        }
    }
}

/// Each file's results are contiguous: a result for the same file as an
/// earlier one is only ever preceded by results for that file since it.
pub open spec fn files_contiguous(results: Seq<SearchResult>) -> bool {
    forall|i: int, j: int, k: int|
        #![trigger results[i], results[j], results[k]]
        0 <= i < j < k < results.len() && path_eq(results[i].path@, results[k].path@) ==> path_eq(
            results[i].path@,
            results[j].path@,
        )
}

/// Law: neighbouring groups are for different files.
pub proof fn lemma_groups_adjacent_differ(results: Seq<SearchResult>)
    ensures
        forall|j: int|
            #![trigger groups_of(results)[j]]
            0 <= j < groups_of(results).len() - 1 ==> !path_eq(groups_of(results)[j].0, groups_of(results)[j + 1].0),
    decreases results.len(),
{
    if results.len() > 0 {
        let prev = results.drop_last();
        lemma_groups_adjacent_differ(prev);
        let g = groups_of(prev);
        let r = results.last();
        let out = groups_of(results);
        if g.len() > 0 && path_eq(g.last().0, r.path@) {
            assert forall|j: int| #![trigger out[j]] 0 <= j < out.len() - 1 implies !path_eq(out[j].0, out[j + 1].0) by {
                assert(out[j].0 == g[j].0);
                assert(out[j + 1].0 == g[j + 1].0);
            }
        } else {
            assert forall|j: int| #![trigger out[j]] 0 <= j < out.len() - 1 implies !path_eq(out[j].0, out[j + 1].0) by {
                assert(out[j] == g[j]);
                if j + 1 < g.len() {
                    assert(out[j + 1] == g[j + 1]);
                } else {
                    assert(g[j] == g.last());
                }
            }
        }
    }
}

/// Law: where path equality is an equivalence (as `Path`'s `Eq` promises),
/// there is one group per run of neighbouring results for the same file,
/// the last group is for the last result's file, and each group's path is
/// one of the results' paths; and where each file's results are
/// contiguous, no two groups are for the same file.
pub proof fn lemma_groups_count(results: Seq<SearchResult>)
    requires
        path_eq_is_equivalence(),
    ensures
        groups_of(results).len() == (if results.len() == 0 { 0 } else { 1 + path_changes(results) }),
        results.len() > 0 ==> path_eq(groups_of(results).last().0, results.last().path@),
        forall|a: int|
            #![trigger groups_of(results)[a]]
            0 <= a < groups_of(results).len() ==> exists|s: int|
                0 <= s < results.len() && groups_of(results)[a].0 == results[s].path@,
        files_contiguous(results) ==> forall|a: int, b: int|
            #![trigger groups_of(results)[a], groups_of(results)[b]]
            0 <= a < b < groups_of(results).len() ==> !path_eq(groups_of(results)[a].0, groups_of(results)[b].0),
    decreases results.len(),
{
    if results.len() > 0 {
        let prev = results.drop_last();
        let n = prev.len() as int;
        lemma_groups_count(prev);
        lemma_groups_adjacent_differ(prev);
        let g = groups_of(prev);
        let r = results.last();
        let out = groups_of(results);
        assert(forall|t: int| 0 <= t < n ==> prev[t] == results[t]);
        if n >= 1 {
            assert(results[n - 1] == prev.last());
            assert(path_changes(results) == path_changes(prev) + if path_eq(prev.last().path@, r.path@) {
                0nat
            } else {
                1nat
            });
        } else {
            assert(path_changes(results) == 0);
        }
        if files_contiguous(results) {
            assert forall|i: int, j: int, k: int|
                #![trigger prev[i], prev[j], prev[k]]
                0 <= i < j < k < prev.len() && path_eq(prev[i].path@, prev[k].path@) implies path_eq(
                prev[i].path@,
                prev[j].path@,
            ) by {
                assert(results[i] == prev[i] && results[j] == prev[j] && results[k] == prev[k]);
            }
        }
        if g.len() > 0 && path_eq(g.last().0, r.path@) {
            // the last group grows
            assert(path_eq(g.last().0, prev.last().path@));
            assert(path_eq(prev.last().path@, g.last().0));
            assert(path_eq(prev.last().path@, r.path@));
            assert(out.last().0 == g.last().0);
            assert forall|a: int| #![trigger out[a]] 0 <= a < out.len() implies exists|s: int|
                0 <= s < results.len() && out[a].0 == results[s].path@ by {
                assert(out[a].0 == g[a].0);
                let s = choose|s: int| 0 <= s < prev.len() && g[a].0 == prev[s].path@;
                assert(results[s] == prev[s]);
            }
            if files_contiguous(results) {
                assert forall|a: int, b: int| #![trigger out[a], out[b]] 0 <= a < b < out.len() implies !path_eq(
                    out[a].0,
                    out[b].0,
                ) by {
                    assert(out[a].0 == g[a].0);
                    assert(out[b].0 == g[b].0);
                }
            }
        } else {
            // a new group starts at `r`
            assert(out.len() == g.len() + 1);
            assert(out.last().0 == r.path@);
            assert(path_eq(r.path@, r.path@));
            if g.len() > 0 {
                assert(path_eq(g.last().0, prev.last().path@));
                if path_eq(prev.last().path@, r.path@) {
                    assert(path_eq(g.last().0, r.path@));
                }
            }
            assert forall|a: int| #![trigger out[a]] 0 <= a < out.len() implies exists|s: int|
                0 <= s < results.len() && out[a].0 == results[s].path@ by {
                if a < g.len() {
                    assert(out[a] == g[a]);
                    let s = choose|s: int| 0 <= s < prev.len() && g[a].0 == prev[s].path@;
                    assert(results[s] == prev[s]);
                } else {
                    assert(out[a].0 == results[n].path@);
                }
            }
            if files_contiguous(results) {
                assert forall|a: int| 0 <= a < g.len() implies !path_eq(#[trigger] g[a].0, r.path@) by {
                    if path_eq(g[a].0, r.path@) {
                        let s = choose|s: int| 0 <= s < prev.len() && g[a].0 == prev[s].path@;
                        assert(results[s] == prev[s]);
                        assert(results[n] == r);
                        // the result before `r` is for the same file as `g[a]`
                        if s < n - 1 {
                            assert(path_eq(results[s].path@, results[n].path@));
                            assert(path_eq(results[s].path@, results[n - 1].path@));
                        }
                        assert(path_eq(g[a].0, prev.last().path@));
                        assert(path_eq(prev.last().path@, g.last().0));
                        assert(path_eq(g[a].0, g.last().0));
                        if a < g.len() - 1 {
                            assert(!path_eq(g[a].0, g[g.len() - 1].0));
                        } else {
                            assert(g[a] == g.last());
                        }
                    }
                }
                assert forall|a: int, b: int| #![trigger out[a], out[b]] 0 <= a < b < out.len() implies !path_eq(
                    out[a].0,
                    out[b].0,
                ) by {
                    assert(out[a] == g[a]);
                    if b < g.len() {
                        assert(out[b] == g[b]);
                    } else {
                        assert(out[b].0 == r.path@);
                    }
                }
            }
        }
    }
}

/// The groups of `groups`, by value.
pub open spec fn groups_view(groups: Seq<(&str, Vec<&SearchResult>)>) -> Seq<(Seq<char>, Seq<SearchResult>)> {
    groups.map_values(|g: (&str, Vec<&SearchResult>)| (g.0@, g.1@.map_values(|r: &SearchResult| *r)))
}

/// Groups `results` by file, relying on the search already visiting files
/// one at a time (so each file's hits are contiguous) rather than sorting.
pub fn group_by_file(results: &[SearchResult]) -> (groups: Vec<(&str, Vec<&SearchResult>)>)
    ensures
        groups_view(groups@) == groups_of(results@),
        forall|j: int|
            #![trigger groups@[j]]
            0 <= j < groups@.len() - 1 ==> !path_eq(groups@[j].0@, groups@[j + 1].0@),
        path_eq_is_equivalence() ==> groups@.len() == (if results@.len() == 0 {
            0
        } else {
            1 + path_changes(results@)
        }),
        path_eq_is_equivalence() && files_contiguous(results@) ==> forall|a: int, b: int|
            #![trigger groups@[a], groups@[b]]
            0 <= a < b < groups@.len() ==> !path_eq(groups@[a].0@, groups@[b].0@),
{
    let n = results.len();
    let mut groups: Vec<(&str, Vec<&SearchResult>)> = Vec::new();
    let mut cur_path: &str = "";
    let mut cur: Vec<&SearchResult> = Vec::new();
    let mut i: usize = 0;
    proof {
        assert(results@.take(0) =~= Seq::<SearchResult>::empty());
        assert(groups_view(groups@) =~= Seq::<(Seq<char>, Seq<SearchResult>)>::empty());
    }
    while i < n
        invariant
            n == results@.len(),
            i <= n,
            cur@.len() == 0 ==> i == 0 && groups@.len() == 0,
            cur@.len() == 0 ==> groups_view(groups@) == groups_of(results@.take(i as int)),
            cur@.len() > 0 ==> groups_view(groups@).push(
                (cur_path@, cur@.map_values(|r: &SearchResult| *r)),
            ) == groups_of(results@.take(i as int)),
        decreases n - i,
    {
        let ghost old_groups = groups_view(groups@);
        let ghost old_cur = cur@.map_values(|r: &SearchResult| *r);
        proof {
            assert(results@.take(i as int + 1).drop_last() =~= results@.take(i as int));
            assert(results@.take(i as int + 1).last() == results@[i as int]);
        }
        let result = &results[i];
        if cur.len() > 0 && paths_equal(cur_path, result.path.as_str()) {
            cur.push(result);
            proof {
                assert(cur@.map_values(|r: &SearchResult| *r) =~= old_cur.push(*result));
                let g = old_groups.push((cur_path@, old_cur));
                assert(g.update(g.len() - 1, (cur_path@, old_cur.push(*result))) =~= old_groups.push(
                    (cur_path@, old_cur.push(*result)),
                ));
            }
        } else {
            if cur.len() > 0 {
                let done = cur;
                groups.push((cur_path, done));
                proof {
                    assert(groups_view(groups@) =~= old_groups.push((cur_path@, old_cur)));
                }
            }
            cur = Vec::new();
            cur.push(result);
            cur_path = result.path.as_str();
            proof {
                assert(cur@.map_values(|r: &SearchResult| *r) =~= seq![*result]);
            }
        }
        i = i + 1;
    }
    proof {
        assert(results@.take(n as int) =~= results@);
    }
    if cur.len() > 0 {
        let ghost old_groups = groups_view(groups@);
        let ghost old_cur = cur@.map_values(|r: &SearchResult| *r);
        groups.push((cur_path, cur));
        proof {
            assert(groups_view(groups@) =~= old_groups.push((cur_path@, old_cur)));
        }
    }
    proof {
        let gs = groups_of(results@);
        assert(groups_view(groups@).len() == groups@.len());
        assert(forall|j: int| 0 <= j < groups@.len() ==> #[trigger] groups@[j].0@ == gs[j].0) by {
            assert forall|j: int| 0 <= j < groups@.len() implies #[trigger] groups@[j].0@ == gs[j].0 by {
                assert(groups_view(groups@)[j] == gs[j]);
            }
        }
        lemma_groups_adjacent_differ(results@);
        assert forall|j: int| #![trigger groups@[j]] 0 <= j < groups@.len() - 1 implies !path_eq(
            groups@[j].0@,
            groups@[j + 1].0@,
        ) by {
            assert(groups@[j + 1].0@ == gs[j + 1].0);
            assert(gs[j] == gs[j]);
        }
        if path_eq_is_equivalence() {
            lemma_groups_count(results@);
            if files_contiguous(results@) {
                assert forall|a: int, b: int| #![trigger groups@[a], groups@[b]] 0 <= a < b < groups@.len() implies !path_eq(
                    groups@[a].0@,
                    groups@[b].0@,
                ) by {
                    assert(gs[a] == gs[a] && gs[b] == gs[b]);
                }
            }
        }
    }
    groups
}

/// The runs a preview line is shown as: the text before the match, the
/// match itself (flagged `true`), and the text after it, each only when
/// non-empty — or the whole line unflagged when the match is empty. The
/// match range `[start, start + len)` is clamped to the line.
pub open spec fn spec_match_runs(preview: Seq<char>, start: nat, len: nat) -> Seq<(bool, Seq<char>)> {
    let n = preview.len();
    if len == 0 {
        seq![(false, preview)]
    } else {
        let a = if start <= n { start } else { n };
        let b = if start + len <= n { start + len } else { n };
        (if a > 0 { seq![(false, preview.subrange(0, a as int))] } else { seq![] }) + (if b > a {
            seq![(true, preview.subrange(a as int, b as int))]
        } else {
            seq![]
        }) + (if b < n { seq![(false, preview.subrange(b as int, n as int))] } else { seq![] })
    }
}

/// The text of `runs`, one after another.
pub open spec fn concat_runs(runs: Seq<(bool, Seq<char>)>) -> Seq<char>
    decreases runs.len(),
{
    if runs.len() == 0 {
        seq![]
    } else {
        concat_runs(runs.drop_last()) + runs.last().1
    }
}

/// Law: the runs a preview is split into spell out the preview exactly,
/// and the flagged run (if any) is the clamped match range.
pub proof fn lemma_match_runs_rebuild(preview: Seq<char>, start: nat, len: nat)
    ensures
        concat_runs(spec_match_runs(preview, start, len)) == preview,
{
    let n = preview.len();
    let runs = spec_match_runs(preview, start, len);
    if len == 0 {
        lemma_concat_runs_single(runs);
    } else {
        let a = if start <= n { start } else { n };
        let b = if start + len <= n { start + len } else { n };
        let pre: Seq<(bool, Seq<char>)> = if a > 0 { seq![(false, preview.subrange(0, a as int))] } else { seq![] };
        let mid: Seq<(bool, Seq<char>)> = if b > a { seq![(true, preview.subrange(a as int, b as int))] } else { seq![] };
        let post: Seq<(bool, Seq<char>)> = if b < n { seq![(false, preview.subrange(b as int, n as int))] } else { seq![] };
        lemma_concat_runs_append(pre, mid);
        lemma_concat_runs_append(pre + mid, post);
        lemma_concat_runs_single(pre);
        lemma_concat_runs_single(mid);
        lemma_concat_runs_single(post);
        assert(concat_runs(pre) =~= preview.subrange(0, a as int));
        assert(concat_runs(mid) =~= preview.subrange(a as int, b as int));
        assert(concat_runs(post) =~= preview.subrange(b as int, n as int));
        assert(preview.subrange(0, a as int) + preview.subrange(a as int, b as int) + preview.subrange(
            b as int,
            n as int,
        ) =~= preview);
    }
}

proof fn lemma_concat_runs_single(runs: Seq<(bool, Seq<char>)>)
    requires
        runs.len() <= 1,
    ensures
        runs.len() == 1 ==> concat_runs(runs) == runs[0].1,
        runs.len() == 0 ==> concat_runs(runs) == Seq::<char>::empty(),
{
    if runs.len() == 1 {
        assert(runs.drop_last() =~= Seq::<(bool, Seq<char>)>::empty());
        assert(concat_runs(runs.drop_last()) =~= Seq::<char>::empty());
        assert(concat_runs(runs) =~= runs[0].1);
    }
}

proof fn lemma_concat_runs_append(a: Seq<(bool, Seq<char>)>, b: Seq<(bool, Seq<char>)>)
    ensures
        concat_runs(a + b) == concat_runs(a) + concat_runs(b),
    decreases b.len(),
{
    if b.len() == 0 {
        assert(a + b =~= a);
        assert(concat_runs(a) + concat_runs(b) =~= concat_runs(a));
    } else {
        lemma_concat_runs_append(a, b.drop_last());
        assert((a + b).drop_last() =~= a + b.drop_last());
        assert((a + b).last() == b.last());
        assert(concat_runs(a + b) =~= concat_runs(a) + concat_runs(b));
    }
}

/// Splits `preview` into up to three runs around the char range
/// `[match_start, match_start + match_len)`, the matched one flagged.
pub fn match_line_runs(preview: &str, match_start: usize, match_len: usize) -> (runs: Vec<(bool, String)>)
    requires
        match_start + match_len <= usize::MAX,
    ensures
        runs@.map_values(|r: (bool, String)| (r.0, r.1@)) == spec_match_runs(
            preview@,
            match_start as nat,
            match_len as nat,
        ),
{
    let mut out: Vec<(bool, String)> = Vec::new();
    if match_len == 0 {
        out.push((false, preview.to_owned()));
        proof {
            assert(out@.map_values(|r: (bool, String)| (r.0, r.1@)) =~= seq![(false, preview@)]);
        }
        return out;
    }
    let chars = chars_of(preview);
    let len = chars.len();
    let local_start = if match_start <= len { match_start } else { len };
    let local_end = if match_start + match_len <= len { match_start + match_len } else { len };
    let ghost pre: Seq<(bool, Seq<char>)> = if local_start > 0 {
        seq![(false, preview@.subrange(0, local_start as int))]
    } else {
        seq![]
    };
    let ghost mid: Seq<(bool, Seq<char>)> = if local_end > local_start {
        seq![(true, preview@.subrange(local_start as int, local_end as int))]
    } else {
        seq![]
    };
    if local_start > 0 {
        out.push((false, preview.substring_char(0, local_start).to_owned()));
    }
    proof {
        assert(out@.map_values(|r: (bool, String)| (r.0, r.1@)) =~= pre);
    }
    if local_end > local_start {
        let ghost before = out@.map_values(|r: (bool, String)| (r.0, r.1@));
        out.push((true, preview.substring_char(local_start, local_end).to_owned()));
        proof {
            assert(out@.map_values(|r: (bool, String)| (r.0, r.1@)) =~= before + mid);
        }
    }
    if local_end < len {
        let ghost before = out@.map_values(|r: (bool, String)| (r.0, r.1@));
        out.push((false, preview.substring_char(local_end, len).to_owned()));
        proof {
            assert(out@.map_values(|r: (bool, String)| (r.0, r.1@)) =~= before + seq![
                (false, preview@.subrange(local_end as int, len as int)),
            ]);
        }
    }
    proof {
        assert(out@.map_values(|r: (bool, String)| (r.0, r.1@)) =~= spec_match_runs(
            preview@,
            match_start as nat,
            match_len as nat,
        ));
    }
    out
}

/// The find bar's match readout: nothing without a query, `"No results"`
/// without matches, else `"K of N"`, marked `(wrapped)` right after the
/// search wrapped around.
pub open spec fn spec_find_count_label(query_empty: bool, current: nat, total: nat, just_wrapped: bool) -> Seq<
    char,
> {
    if query_empty {
        seq![]
    } else if total == 0 {
        seq!['N', 'o', ' ', 'r', 'e', 's', 'u', 'l', 't', 's']
    } else {
        dec_str(current + 1) + seq![' ', 'o', 'f', ' '] + dec_str(total) + if just_wrapped {
            seq![' ', '(', 'w', 'r', 'a', 'p', 'p', 'e', 'd', ')']
        } else {
            seq![]
        }
    }
}

/// The find bar's "K of N" readout for the `current` (0-based) of `total`
/// matches.
pub fn find_count_label(query_empty: bool, current: usize, total: usize, just_wrapped: bool) -> (s: String)
    requires
        current < usize::MAX,
    ensures
        s@ == spec_find_count_label(query_empty, current as nat, total as nat, just_wrapped),
{
    proof {
        reveal_strlit("No results");
        reveal_strlit(" of ");
        reveal_strlit(" (wrapped)");
    }
    if query_empty {
        return String::new();
    }
    if total == 0 {
        return "No results".to_owned();
    }
    let mut s = decimal(current as u128 + 1);
    s.append(" of ");
    s.append(decimal(total as u128).as_str());
    if just_wrapped {
        s.append(" (wrapped)");
    }
    proof {
        assert(s@ =~= spec_find_count_label(query_empty, current as nat, total as nat, just_wrapped));
    }
    s
}

/// The question the find bar asks before replacing all `n` matches.
pub fn replace_all_prompt(n: usize) -> (s: String)
    ensures
        s@ == "Replace "@ + dec_str(n as nat) + (if n == 1 { " match?"@ } else { " matches?"@ }),
{
    let mut s = "Replace ".to_owned();
    s.append(decimal(n as u128).as_str());
    if n == 1 {
        s.append(" match?");
    } else {
        s.append(" matches?");
    }
    s
}

/// `paths[i]` is the first of its file: no earlier path names the same
/// file.
pub open spec fn first_of_file(paths: Seq<Seq<char>>, i: int) -> bool {
    forall|j: int| 0 <= j < i ==> !path_eq(#[trigger] paths[j], paths[i])
}

/// How many of the first `n` paths are the first of their file: the
/// number of distinct files among them.
pub open spec fn distinct_files(paths: Seq<Seq<char>>, n: int) -> nat
    decreases n,
{
    if n <= 0 {
        0
    } else {
        distinct_files(paths, n - 1) + if first_of_file(paths, n - 1) {
            1nat
        } else {
            0nat
        }
    }
}

/// The paths of `results`, in order.
pub open spec fn result_paths(results: Seq<SearchResult>) -> Seq<Seq<char>> {
    results.map_values(|r: SearchResult| r.path@)
}

/// The number of distinct files the search results fall in.
pub fn distinct_file_count(results: &[SearchResult]) -> (n: usize)
    ensures
        n == distinct_files(result_paths(results@), results@.len() as int),
{
    let ghost ps = result_paths(results@);
    let len = results.len();
    let mut count: usize = 0;
    let mut i: usize = 0;
    while i < len
        invariant
            len == results@.len(),
            ps == result_paths(results@),
            i <= len,
            count == distinct_files(ps, i as int),
            count <= i,
        decreases len - i,
    {
        let mut j: usize = 0;
        let mut seen = false;
        while j < i
            invariant
                len == results@.len(),
                ps == result_paths(results@),
                i < len,
                j <= i,
                seen == exists|k: int| 0 <= k < j && path_eq(#[trigger] ps[k], ps[i as int]),
            decreases i - j,
        {
            if paths_equal(results[j].path.as_str(), results[i].path.as_str()) {
                seen = true;
            }
            proof {
                assert(ps[j as int] == results@[j as int].path@);
                assert(ps[i as int] == results@[i as int].path@);
            }
            j = j + 1;
        }
        proof {
            assert(first_of_file(ps, i as int) == !seen);
        }
        if !seen {
            count = count + 1;
        }
        i = i + 1;
    }
    count
}

/// The stats line above the search results.
pub fn search_stats_label(matches: usize, files: usize, millis: u128) -> (s: String)
    ensures
        s@ == dec_str(matches as nat) + " MATCHES // "@ + dec_str(files as nat) + " FILES // "@ + dec_str(
            millis as nat,
        ) + " MS"@,
{
    let mut s = decimal(matches as u128);
    s.append(" MATCHES // ");
    s.append(decimal(files as u128).as_str());
    s.append(" FILES // ");
    s.append(decimal(millis).as_str());
    s.append(" MS");
    s
}

/// The heading above the search results.
pub fn results_heading(last_query: &str) -> (s: String)
    ensures
        s@ == "Results for \u{201c}"@ + last_query@ + "\u{201d}"@,
{
    let mut s = "Results for \u{201c}".to_owned();
    s.append(last_query);
    s.append("\u{201d}");
    s
}

/// What the search panel's body shows.
#[derive(Clone, Copy, Debug, PartialEq, Eq, Structural)]
pub enum SearchBody {
    /// Nothing typed yet.
    Hint,
    /// A search for the current query is running.
    Searching,
    /// The query changed since the last search, which has not run yet.
    Pending,
    /// The last search, for the current query, found nothing.
    NoMatches,
    /// The results of the last search, for the current query.
    Results,
}

/// The body for the typed `query`, the `last_query` searched, whether a
/// search is running and whether the last one found anything: results are
/// only shown for the query they were found for.
pub open spec fn spec_search_body(query: Seq<char>, last_query: Seq<char>, in_progress: bool, has_results: bool) -> SearchBody {
    if query.len() == 0 {
        SearchBody::Hint
    } else if in_progress {
        SearchBody::Searching
    } else if query != last_query {
        SearchBody::Pending
    } else if !has_results {
        SearchBody::NoMatches
    } else {
        SearchBody::Results
    }
}

/// Chooses the search panel's body.
pub fn search_body(query: &str, last_query: &str, in_progress: bool, has_results: bool) -> (b: SearchBody)
    ensures
        b == spec_search_body(query@, last_query@, in_progress, has_results),
{
    if query.unicode_len() == 0 {
        SearchBody::Hint
    } else if in_progress {
        SearchBody::Searching
    } else if !str_eq(query, last_query) {
        SearchBody::Pending
    } else if !has_results {
        SearchBody::NoMatches
    } else {
        SearchBody::Results
    }
}

/// The placeholder text of a body that shows no results; `None` for the
/// results themselves.
pub open spec fn spec_search_placeholder(body: SearchBody, query: Seq<char>) -> Option<Seq<char>> {
    match body {
        SearchBody::Hint => Some("Type to search project files"@),
        SearchBody::Searching => Some("Searching for \u{201c}"@ + query + "\u{201d}\u{2026}"@),
        SearchBody::Pending => Some("Press Enter to search for \u{201c}"@ + query + "\u{201d} now"@),
        SearchBody::NoMatches => Some("No matches for \u{201c}"@ + query + "\u{201d}"@),
        SearchBody::Results => None,
    }
}

/// The text shown in place of results.
pub fn search_placeholder(body: SearchBody, query: &str) -> (s: Option<String>)
    ensures
        match s {
            Some(t) => spec_search_placeholder(body, query@) == Some(t@),
            None => spec_search_placeholder(body, query@) is None,
        },
{
    let (head, tail) = match body {
        SearchBody::Hint => return Some("Type to search project files".to_owned()),
        SearchBody::Searching => ("Searching for \u{201c}", "\u{201d}\u{2026}"),
        SearchBody::Pending => ("Press Enter to search for \u{201c}", "\u{201d} now"),
        SearchBody::NoMatches => ("No matches for \u{201c}", "\u{201d}"),
        SearchBody::Results => return None,
    };
    let mut s = head.to_owned();
    s.append(query);
    s.append(tail);
    Some(s)
}

} // verus!
