//! The chat panel's session picker: which past sessions a filter shows.
use vstd::prelude::*;

use crate::signature::{find_first, occurs_at};
use crate::text::{chars_of, is_white, is_white_char, push_char};

verus! {

/// `s` without its leading whitespace.
pub open spec fn trim_start(s: Seq<char>) -> Seq<char>
    decreases s.len(),
{
    if s.len() > 0 && is_white(s[0]) {
        trim_start(s.subrange(1, s.len() as int))
    } else {
        s
    }
}

/// `s` without its trailing whitespace.
pub open spec fn trim_end(s: Seq<char>) -> Seq<char>
    decreases s.len(),
{
    if s.len() > 0 && is_white(s[s.len() - 1]) {
        trim_end(s.subrange(0, s.len() - 1))
    } else {
        s
    }
}

/// `s` without leading and trailing whitespace (what `str::trim` keeps).
pub open spec fn trim(s: Seq<char>) -> Seq<char> {
    trim_end(trim_start(s))
}

/// `s` with leading and trailing whitespace removed.
pub fn trim_white(s: &str) -> (t: String)
    ensures
        t@ == trim(s@),
{
    let chars = chars_of(s);
    let n = chars.len();
    let mut lo: usize = 0;
    proof {
        assert(s@.subrange(0, n as int) =~= s@);
    }
    while lo < n && is_white_char(chars[lo])
        invariant
            chars@ == s@,
            n == s@.len(),
            lo <= n,
            trim_start(s@) == trim_start(s@.subrange(lo as int, n as int)),
        decreases n - lo,
    {
        proof {
            assert(s@.subrange(lo as int, n as int).subrange(1, (n - lo) as int) =~= s@.subrange(lo + 1, n as int));
        }
        lo = lo + 1;
    }
    let ghost mid = s@.subrange(lo as int, n as int);
    proof {
        assert(trim_start(s@) == mid);
        assert(mid.subrange(0, mid.len() as int) =~= mid);
    }
    let mut hi: usize = n;
    while hi > lo && is_white_char(chars[hi - 1])
        invariant
            chars@ == s@,
            n == s@.len(),
            lo <= hi <= n,
            mid == s@.subrange(lo as int, n as int),
            trim_end(mid) == trim_end(s@.subrange(lo as int, hi as int)),
        decreases hi - lo,
    {
        proof {
            let cur = s@.subrange(lo as int, hi as int);
            assert(cur[cur.len() - 1] == s@[hi - 1]);
            assert(cur.subrange(0, cur.len() - 1) =~= s@.subrange(lo as int, hi - 1));
        }
        hi = hi - 1;
    }
    proof {
        let cur = s@.subrange(lo as int, hi as int);
        if cur.len() > 0 {
            assert(cur[cur.len() - 1] == s@[hi - 1]);
        }
    }
    s.substring_char(lo, hi).to_owned()
}

/// `c` in ASCII lower case: `A`..=`Z` mapped to `a`..=`z`, anything else
/// kept.
pub open spec fn ascii_lower(c: char) -> char {
    if 'A' <= c && c <= 'Z' {
        ((c as u32) + 32) as char
    } else {
        c
    }
}

/// `s` in ASCII lower case (what `str::to_ascii_lowercase` returns).
pub open spec fn ascii_lowercase(s: Seq<char>) -> Seq<char> {
    s.map_values(|c: char| ascii_lower(c))
}

fn lower_char(c: char) -> (d: char)
    ensures
        d == ascii_lower(c),
{
    if 'A' <= c && c <= 'Z' {
        ((c as u8) + 32) as char
    } else {
        c
    }
}

/// `s` with every ASCII capital letter made lower case.
pub fn to_ascii_lower(s: &str) -> (t: String)
    ensures
        t@ == ascii_lowercase(s@),
{
    let chars = chars_of(s);
    let n = chars.len();
    let mut t = String::new();
    let mut i: usize = 0;
    while i < n
        invariant
            chars@ == s@,
            n == s@.len(),
            i <= n,
            t@ == ascii_lowercase(s@.take(i as int)),
        decreases n - i,
    {
        push_char(&mut t, lower_char(chars[i]));
        proof {
            assert(ascii_lowercase(s@.take(i + 1)) =~= ascii_lowercase(s@.take(i as int)).push(ascii_lower(s@[i as int])));
        }
        i = i + 1;
    }
    proof {
        assert(s@.take(n as int) =~= s@);
    }
    t
}

/// Whether a session titled `title` shows under the filter text `filter`:
/// every session for a blank filter, else those whose title contains the
/// trimmed filter, ignoring ASCII case.
pub open spec fn session_shown(filter: Seq<char>, title: Seq<char>) -> bool {
    let f = ascii_lowercase(trim(filter));
    f.len() == 0 || exists|i: int| occurs_at(ascii_lowercase(title), f, i)
}

/// The indices, in order, of the first `n` titles that show under `filter`.
pub open spec fn shown_sessions(filter: Seq<char>, titles: Seq<Seq<char>>, n: int) -> Seq<usize>
    decreases n,
{
    if n <= 0 {
        seq![]
    } else {
        shown_sessions(filter, titles, n - 1) + if session_shown(filter, titles[n - 1]) {
            seq![(n - 1) as usize]
        } else {
            seq![]
        }
    }
}

/// The sessions the picker lists for `filter`, as indices into `titles`.
pub fn filter_sessions(filter: &str, titles: &[String]) -> (shown: Vec<usize>)
    ensures
        shown@ == shown_sessions(filter@, titles@.map_values(|t: String| t@), titles@.len() as int),
{
    let f = to_ascii_lower(trim_white(filter).as_str());
    let blank = f.unicode_len() == 0;
    let ghost ts = titles@.map_values(|t: String| t@);
    let n = titles.len();
    let mut shown: Vec<usize> = Vec::new();
    let mut i: usize = 0;
    while i < n
        invariant
            n == titles@.len(),
            ts == titles@.map_values(|t: String| t@),
            f@ == ascii_lowercase(trim(filter@)),
            blank == (f@.len() == 0),
            i <= n,
            shown@ == shown_sessions(filter@, ts, i as int),
        decreases n - i,
    {
        let keep = if blank {
            true
        } else {
            let t = to_ascii_lower(titles[i].as_str());
            match find_first(t.as_str(), f.as_str()) {
                Some(_) => true,
                None => false,
            }
        };
        proof {
            assert(ts[i as int] == titles@[i as int]@);
            assert(keep == session_shown(filter@, ts[i as int]));
        }
        if keep {
            shown.push(i);
        }
        proof {
            assert(shown_sessions(filter@, ts, i + 1) == shown_sessions(filter@, ts, i as int) + if session_shown(
                filter@,
                ts[i as int],
            ) {
                seq![i]
            } else {
                seq![]
            });
            assert(shown@ =~= shown_sessions(filter@, ts, i + 1));
        }
        i = i + 1;
    }
    shown
}

proof fn lemma_shown_sessions_prefix(filter: Seq<char>, titles: Seq<Seq<char>>, n: int)
    requires
        0 <= n <= titles.len(),
        titles.len() <= usize::MAX,
    ensures
        forall|j: int| 0 <= j < shown_sessions(filter, titles, n).len() ==> (#[trigger] shown_sessions(filter, titles, n)[j]) < n,
        forall|a: int, b: int|
            0 <= a < b < shown_sessions(filter, titles, n).len() ==> #[trigger] shown_sessions(filter, titles, n)[a]
                < #[trigger] shown_sessions(filter, titles, n)[b],
        forall|k: int|
            0 <= k < n ==> (lists(shown_sessions(filter, titles, n), k) <==> session_shown(
                filter,
                #[trigger] titles[k],
            )),
    decreases n,
{
    if n > 0 {
        lemma_shown_sessions_prefix(filter, titles, n - 1);
        let prev = shown_sessions(filter, titles, n - 1);
        let cur = shown_sessions(filter, titles, n);
        assert forall|k: int| 0 <= k < n implies (lists(cur, k) <==> session_shown(
            filter,
            #[trigger] titles[k],
        )) by {
            if session_shown(filter, titles[n - 1]) {
                assert(cur == prev.push((n - 1) as usize));
                if k < n - 1 {
                    if lists(cur, k) {
                        let j = choose|j: int| 0 <= j < cur.len() && cur[j] == k;
                        if j < prev.len() {
                            assert(prev[j] == k);
                        }
                    }
                    if lists(prev, k) {
                        let j = choose|j: int| 0 <= j < prev.len() && prev[j] == k;
                        assert(cur[j] == k);
                    }
                } else {
                    assert(cur[cur.len() - 1] == k);
                }
            } else {
                assert(cur =~= prev);
                if k == n - 1 && lists(cur, k) {
                    let j = choose|j: int| 0 <= j < cur.len() && cur[j] == k;
                    assert(prev[j] < n - 1);
                }
            }
        }
        if session_shown(filter, titles[n - 1]) {
            assert(cur == prev.push((n - 1) as usize));
        } else {
            assert(cur =~= prev);
        }
    }
}

/// `s` with each ASCII capital `A`..=`Z` replaced by its small letter.
pub open spec fn small_ascii(s: Seq<char>) -> Seq<char> {
    Seq::new(
        s.len(),
        |j: int|
            if 'A' <= s[j] && s[j] <= 'Z' {
                ((s[j] as u32) + 32) as char
            } else {
                s[j]
            },
    )
}

/// `f` appears in `t` as a run of consecutive characters, starting at any
/// index.
pub open spec fn has_run(t: Seq<char>, f: Seq<char>) -> bool {
    exists|i: int| 0 <= i && i + f.len() <= t.len() && #[trigger] t.subrange(i, i + f.len()) == f
}

proof fn lemma_session_shown_run(filter: Seq<char>, title: Seq<char>)
    ensures
        session_shown(filter, title) == (trim(filter).len() == 0 || has_run(small_ascii(title), small_ascii(trim(filter)))),
{
    let f = small_ascii(trim(filter));
    assert(f =~= ascii_lowercase(trim(filter)));
    let t = small_ascii(title);
    assert(t =~= ascii_lowercase(title));
    if exists|i: int| occurs_at(ascii_lowercase(title), f, i) {
        let i = choose|i: int| occurs_at(ascii_lowercase(title), f, i);
        assert(t.subrange(i, i + f.len()) == f);
    }
    if has_run(t, f) {
        let i = choose|i: int| 0 <= i && i + f.len() <= t.len() && #[trigger] t.subrange(i, i + f.len()) == f;
        assert(occurs_at(ascii_lowercase(title), f, i));
    }
}

/// `k` is one of the indices in `shown`.
pub open spec fn lists(shown: Seq<usize>, k: int) -> bool {
    exists|j: int| 0 <= j < shown.len() && shown[j] == k
}

/// Session `k` is listed exactly when its title, ASCII-lowercased,
/// contains the ASCII-lowercased, trimmed filter as a run of characters
/// (or that filter is blank).
pub open spec fn shown_exactly_matching(filter: Seq<char>, titles: Seq<Seq<char>>) -> bool {
    forall|k: int|
        #![trigger small_ascii(titles[k])]
        0 <= k < titles.len() ==> (lists(shown_sessions(filter, titles, titles.len() as int), k) <==> (
        trim(filter).len() == 0 || has_run(small_ascii(titles[k]), small_ascii(trim(filter)))))
}

/// Law: the session picker lists, in increasing order and each once,
/// exactly the sessions whose title, ASCII-lowercased, contains the
/// ASCII-lowercased, trimmed filter as a run of characters starting
/// anywhere in it (mid-word too); every session when the trimmed filter is
/// blank.
pub proof fn lemma_filter_sessions_contains(filter: Seq<char>, titles: Seq<Seq<char>>)
    requires
        titles.len() <= usize::MAX,
    ensures
        forall|a: int, b: int|
            0 <= a < b < shown_sessions(filter, titles, titles.len() as int).len() ==> #[trigger] shown_sessions(
                filter,
                titles,
                titles.len() as int,
            )[a] < #[trigger] shown_sessions(filter, titles, titles.len() as int)[b],
        forall|j: int|
            0 <= j < shown_sessions(filter, titles, titles.len() as int).len() ==> (#[trigger] shown_sessions(
                filter,
                titles,
                titles.len() as int,
            )[j]) < titles.len(),
        shown_exactly_matching(filter, titles),
{
    lemma_shown_sessions_prefix(filter, titles, titles.len() as int);
    assert forall|k: int| 0 <= k < titles.len() implies (lists(shown_sessions(filter, titles, titles.len() as int), k) <==> (trim(
            filter,
        ).len() == 0 || has_run(small_ascii(titles[k]), small_ascii(trim(filter))))) by {
        lemma_session_shown_run(filter, titles[k]);
        assert(lists(shown_sessions(filter, titles, titles.len() as int), k) <==> session_shown(filter, titles[k]));
    }
    assert(shown_exactly_matching(filter, titles));
}

/// What the session picker lists.
#[derive(Clone, Copy, Debug, PartialEq, Eq, Structural)]
pub enum SessionList {
    /// The project has no past sessions.
    NoSessions,
    /// No session matches the filter.
    NoMatches,
    /// The matching sessions.
    Sessions,
}

/// The picker's body: empty states first, the list otherwise.
pub fn session_list(has_sessions: bool, any_shown: bool) -> (l: SessionList)
    ensures
        l == (if !has_sessions {
            SessionList::NoSessions
        } else if !any_shown {
            SessionList::NoMatches
        } else {
            SessionList::Sessions
        }),
{
    if !has_sessions {
        SessionList::NoSessions
    } else if !any_shown {
        SessionList::NoMatches
    } else {
        SessionList::Sessions
    }
}

/// The text shown in place of an empty session list.
pub fn session_list_placeholder(l: SessionList) -> (s: Option<&'static str>)
    ensures
        s == match l {
            SessionList::NoSessions => Some("No past sessions for this project yet"),
            SessionList::NoMatches => Some("No sessions match your search"),
            SessionList::Sessions => None::<&'static str>,
        },
{
    match l {
        SessionList::NoSessions => Some("No past sessions for this project yet"),
        SessionList::NoMatches => Some("No sessions match your search"),
        SessionList::Sessions => None,
    }
}

/// Law: a blank filter (nothing but whitespace) lists every session, in
/// order.
pub proof fn lemma_blank_filter_shows_all(filter: Seq<char>, titles: Seq<Seq<char>>, n: int)
    requires
        trim(filter).len() == 0,
        0 <= n <= titles.len(),
    ensures
        shown_sessions(filter, titles, n) == Seq::new(n as nat, |i: int| i as usize),
    decreases n,
{
    assert(ascii_lowercase(trim(filter)).len() == 0);
    if n > 0 {
        lemma_blank_filter_shows_all(filter, titles, n - 1);
        assert(session_shown(filter, titles[n - 1]));
        assert(shown_sessions(filter, titles, n) =~= Seq::new(n as nat, |i: int| i as usize));
    } else {
        assert(shown_sessions(filter, titles, n) =~= Seq::new(n as nat, |i: int| i as usize));
    }
}

} // verus!
