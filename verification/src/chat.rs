//! The AI chat panel's transcript logic: what a tool call is summarized
//! as, which files a prompt mentions, and how settled tool calls cluster.
use vstd::prelude::*;
use crate::json::{JsonValue, find_from, spec_str_field};
use crate::text::{chars_of, is_white, is_white_char, lines_of, str_eq, text_lines, decimal, dec_str};

verus! {

/// The whitespace-separated words of `s` (`str::split_whitespace`), in
/// order: each non-whitespace char extends the word the previous char
/// belongs to, or starts a new word after whitespace.
pub open spec fn words_of(s: Seq<char>) -> Seq<Seq<char>>
    decreases s.len(),
{
    if s.len() == 0 {
        seq![]
    } else {
        let w = words_of(s.drop_last());
        let c = s.last();
        if is_white(c) {
            w
        } else if s.len() >= 2 && !is_white(s[s.len() - 2]) {
            w.update(w.len() - 1, w.last().push(c))
        } else {
            w.push(seq![c])
        }
    }
}

/// Punctuation trimmed off the end of a mention: ASCII punctuation other
/// than `/` and `.`.
pub open spec fn is_trailing_punct(c: char) -> bool {
    let u = c as u32;
    ((33 <= u && u <= 47) || (58 <= u && u <= 64) || (91 <= u && u <= 96) || (123 <= u && u
        <= 126)) && c != '/' && c != '.'
}

/// `t` without its leading `@`s.
pub open spec fn trim_at(t: Seq<char>) -> Seq<char>
    decreases t.len(),
{
    if t.len() > 0 && t[0] == '@' {
        trim_at(t.drop_first())
    } else {
        t
    }
}

/// `t` without its trailing mention punctuation.
pub open spec fn trim_punct(t: Seq<char>) -> Seq<char>
    decreases t.len(),
{
    if t.len() > 0 && is_trailing_punct(t.last()) {
        trim_punct(t.drop_last())
    } else {
        t
    }
}

/// The file mentioned by a word, if it is a mention: a word starting
/// with `@` and longer than that, trimmed, and non-empty after trimming.
pub open spec fn mention_of(w: Seq<char>) -> Option<Seq<char>> {
    if w.len() > 1 && w[0] == '@' && trim_punct(trim_at(w)).len() > 0 {
        Some(trim_punct(trim_at(w)))
    } else {
        None
    }
}

/// The mentions among `ws`, in order.
pub open spec fn mentions_in(ws: Seq<Seq<char>>) -> Seq<Seq<char>>
    decreases ws.len(),
{
    if ws.len() == 0 {
        seq![]
    } else {
        match mention_of(ws.last()) {
            Some(m) => mentions_in(ws.drop_last()).push(m),
            None => mentions_in(ws.drop_last()),
        }
    }
}

proof fn lemma_trim_at_shape(t: Seq<char>)
    ensures
        trim_at(t).len() > 0 ==> trim_at(t)[0] != '@',
    decreases t.len(),
{
    if t.len() > 0 && t[0] == '@' {
        lemma_trim_at_shape(t.drop_first());
    }
}

proof fn lemma_trim_punct_shape(t: Seq<char>)
    ensures
        trim_punct(t).len() <= t.len(),
        forall|i: int| 0 <= i < trim_punct(t).len() ==> trim_punct(t)[i] == t[i],
        trim_punct(t).len() > 0 ==> !is_trailing_punct(trim_punct(t).last()),
    decreases t.len(),
{
    if t.len() > 0 && is_trailing_punct(t.last()) {
        lemma_trim_punct_shape(t.drop_last());
        assert forall|i: int| 0 <= i < trim_punct(t).len() implies trim_punct(t)[i] == t[i] by {
            assert(t.drop_last()[i] == t[i]);
        }
    }
}

/// Law: every mention is non-empty, starts with something other than
/// `@`, and ends with something other than trimmed punctuation.
pub proof fn lemma_mentions_trimmed(ws: Seq<Seq<char>>)
    ensures
        forall|i: int|
            0 <= i < mentions_in(ws).len() ==> {
                let m = #[trigger] mentions_in(ws)[i];
                m.len() > 0 && m[0] != '@' && !is_trailing_punct(m.last())
            },
    decreases ws.len(),
{
    if ws.len() > 0 {
        lemma_mentions_trimmed(ws.drop_last());
        let w = ws.last();
        lemma_trim_at_shape(w);
        lemma_trim_punct_shape(trim_at(w));
        let prev = mentions_in(ws.drop_last());
        assert forall|i: int| 0 <= i < mentions_in(ws).len() implies {
            let m = #[trigger] mentions_in(ws)[i];
            m.len() > 0 && m[0] != '@' && !is_trailing_punct(m.last())
        } by {
            if i < prev.len() {
                assert(mentions_in(ws)[i] == prev[i]);
            } else {
                let m = trim_punct(trim_at(w));
                assert(mentions_in(ws)[i] == m);
                assert(m[0] == trim_at(w)[0]);
            }
        }
    }
}

/// What `char::is_ascii_punctuation` tests: the ASCII graphic characters
/// that are neither letters nor digits.
pub open spec fn ascii_punctuation(c: char) -> bool {
    let u = c as u32;
    (0x21 <= u && u <= 0x2f) || (0x3a <= u && u <= 0x40) || (0x5b <= u && u <= 0x60) || (0x7b <= u && u
        <= 0x7e)
}

proof fn lemma_trim_punct_run(m: Seq<char>, q: Seq<char>)
    requires
        m.len() > 0,
        !(ascii_punctuation(m.last()) && m.last() != '/' && m.last() != '.'),
        forall|i: int| 0 <= i < q.len() ==> ascii_punctuation(#[trigger] q[i]) && q[i] != '/' && q[i] != '.',
    ensures
        trim_punct(m + q) == m,
    decreases q.len(),
{
    if q.len() == 0 {
        assert(m + q =~= m);
    } else {
        assert((m + q).last() == q.last());
        assert(q.last() == q[q.len() - 1]);
        assert((m + q).drop_last() =~= m + q.drop_last());
        lemma_trim_punct_run(m, q.drop_last());
    }
}

/// Law: a word `@` + `m` + `q`, where `m` neither starts with `@` nor ends
/// with ASCII punctuation other than `/` and `.`, and `q` is a run of such
/// punctuation, mentions exactly `m`.
pub proof fn lemma_mention_of_word(m: Seq<char>, q: Seq<char>)
    requires
        m.len() > 0,
        m[0] != '@',
        !(ascii_punctuation(m.last()) && m.last() != '/' && m.last() != '.'),
        forall|i: int| 0 <= i < q.len() ==> ascii_punctuation(#[trigger] q[i]) && q[i] != '/' && q[i] != '.',
    ensures
        mention_of(seq!['@'] + m + q) == Some(m),
{
    let w = seq!['@'] + m + q;
    assert(w.drop_first() =~= m + q);
    assert((m + q)[0] == m[0]);
    assert(trim_at(m + q) == m + q);
    assert(trim_at(w) == m + q);
    lemma_trim_punct_run(m, q);
}

proof fn lemma_mentions_in_contains(ws: Seq<Seq<char>>, k: int, m: Seq<char>)
    requires
        0 <= k < ws.len(),
        mention_of(ws[k]) == Some(m),
    ensures
        mentions_in(ws).contains(m),
    decreases ws.len(),
{
    if k == ws.len() - 1 {
        assert(mentions_in(ws).last() == m);
    } else {
        lemma_mentions_in_contains(ws.drop_last(), k, m);
        let j = choose|j: int| 0 <= j < mentions_in(ws.drop_last()).len() && mentions_in(ws.drop_last())[j] == m;
        match mention_of(ws.last()) {
            Some(x) => assert(mentions_in(ws)[j] == m),
            None => {},
        }
    }
}

/// Law: no mention ends with ASCII punctuation other than `/` and `.`
/// (`:` included), and none is empty.
pub proof fn lemma_mentions_end_clean(ws: Seq<Seq<char>>)
    ensures
        forall|i: int|
            0 <= i < mentions_in(ws).len() ==> #[trigger] mentions_in(ws)[i].len() > 0 && !(ascii_punctuation(
                mentions_in(ws)[i].last(),
            ) && mentions_in(ws)[i].last() != '/' && mentions_in(ws)[i].last() != '.'),
{
    lemma_mentions_trimmed(ws);
    assert forall|i: int| 0 <= i < mentions_in(ws).len() implies #[trigger] mentions_in(ws)[i].len() > 0
        && !(ascii_punctuation(mentions_in(ws)[i].last()) && mentions_in(ws)[i].last() != '/'
        && mentions_in(ws)[i].last() != '.') by {
        let c = mentions_in(ws)[i].last();
        assert(!is_trailing_punct(c));
    }
}

/// Law: every word of a prompt of the form `@` + `m` + `q` (with `m` and
/// `q` as in `lemma_mention_of_word`) has `m` among the prompt's mentions.
pub proof fn lemma_prompt_mentions(ws: Seq<Seq<char>>, k: int, m: Seq<char>, q: Seq<char>)
    requires
        0 <= k < ws.len(),
        ws[k] == seq!['@'] + m + q,
        m.len() > 0,
        m[0] != '@',
        !(ascii_punctuation(m.last()) && m.last() != '/' && m.last() != '.'),
        forall|i: int| 0 <= i < q.len() ==> ascii_punctuation(#[trigger] q[i]) && q[i] != '/' && q[i] != '.',
    ensures
        mentions_in(ws).contains(m),
{
    lemma_mention_of_word(m, q);
    lemma_mentions_in_contains(ws, k, m);
}

fn is_trailing_punct_char(c: char) -> (b: bool)
    ensures
        b == is_trailing_punct(c),
{
    let u = c as u32;
    ((33 <= u && u <= 47) || (58 <= u && u <= 64) || (91 <= u && u <= 96) || (123 <= u && u
        <= 126)) && c != '/' && c != '.'
}

/// Char range `[a, b)` of `w[lo..hi)` left after trimming its leading
/// `@`s and trailing punctuation.
fn trimmed_range(w: &Vec<char>, lo: usize, hi: usize) -> (r: (usize, usize))
    requires
        lo <= hi <= w@.len(),
    ensures
        lo <= r.0 <= r.1 <= hi,
        w@.subrange(r.0 as int, r.1 as int) == trim_punct(trim_at(w@.subrange(lo as int, hi as int))),
{
    let mut a = lo;
    while a < hi && w[a] == '@'
        invariant
            lo <= a <= hi <= w@.len(),
            trim_at(w@.subrange(lo as int, hi as int)) == trim_at(w@.subrange(a as int, hi as int)),
        decreases hi - a,
    {
        proof {
            assert(w@.subrange(a as int, hi as int).drop_first() =~= w@.subrange(a as int + 1, hi as int));
        }
        a = a + 1;
    }
    proof {
        assert(trim_at(w@.subrange(a as int, hi as int)) == w@.subrange(a as int, hi as int));
    }
    let mut b = hi;
    while b > a && is_trailing_punct_char(w[b - 1])
        invariant
            lo <= a <= b <= hi <= w@.len(),
            trim_punct(w@.subrange(a as int, hi as int)) == trim_punct(w@.subrange(a as int, b as int)),
        decreases b - a,
    {
        proof {
            assert(w@.subrange(a as int, b as int).drop_last() =~= w@.subrange(a as int, b as int - 1));
        }
        b = b - 1;
    }
    (a, b)
}

/// Appends the mention made by the word `text[start..end)`, if it is one.
fn push_mention<'a>(text: &'a str, chars: &Vec<char>, start: usize, end: usize, out: &mut Vec<&'a str>)
    requires
        chars@ == text@,
        start < end <= chars@.len(),
    ensures
        final(out)@.map_values(|m: &str| m@) == match mention_of(text@.subrange(start as int, end as int)) {
            Some(m) => old(out)@.map_values(|m: &str| m@).push(m),
            None => old(out)@.map_values(|m: &str| m@),
        },
{
    let ghost before = out@.map_values(|m: &str| m@);
    let ghost w = text@.subrange(start as int, end as int);
    if end - start > 1 && chars[start] == '@' {
        let (a, b) = trimmed_range(chars, start, end);
        proof {
            assert(chars@.subrange(start as int, end as int) == w);
        }
        if b > a {
            let m = text.substring_char(a, b);
            out.push(m);
            proof {
                assert(out@.map_values(|m: &str| m@) =~= before.push(m@));
            }
        } else {
            proof {
                assert(trim_punct(trim_at(w)).len() == 0);
            }
        }
    }
}

/// The `@path` tokens a prompt references: words starting with `@` (a
/// bare `@` or one mid-word is no mention), with the `@`s and trailing
/// punctuation other than `/` and `.` trimmed off; empty results dropped.
pub fn context_mentions(text_content: &str) -> (r: Vec<&str>)
    ensures
        r@.map_values(|m: &str| m@) == mentions_in(words_of(text_content@)),
{
    let chars = chars_of(text_content);
    let n = chars.len();
    let ghost s = text_content@;
    let mut out: Vec<&str> = Vec::new();
    let mut in_word = false;
    let mut start: usize = 0;
    let ghost mut done: Seq<Seq<char>> = seq![];
    let mut i: usize = 0;
    proof {
        assert(s.take(0) =~= Seq::<char>::empty());
        assert(out@.map_values(|m: &str| m@) =~= Seq::<Seq<char>>::empty());
    }
    while i < n
        invariant
            chars@ == s,
            s == text_content@,
            n == s.len(),
            i <= n,
            start <= i,
            in_word ==> start < i && words_of(s.take(i as int)) == done.push(
                s.subrange(start as int, i as int),
            ) && !is_white(s[i - 1]),
            !in_word ==> words_of(s.take(i as int)) == done && (i > 0 ==> is_white(s[i - 1])),
            out@.map_values(|m: &str| m@) == mentions_in(done),
        decreases n - i,
    {
        proof {
            assert(s.take(i as int + 1).drop_last() =~= s.take(i as int));
            assert(s.take(i as int + 1).last() == s[i as int]);
        }
        if is_white_char(chars[i]) {
            if in_word {
                push_mention(text_content, &chars, start, i, &mut out);
                proof {
                    let w = s.subrange(start as int, i as int);
                    assert(done.push(w).drop_last() =~= done);
                    done = done.push(w);
                }
                in_word = false;
            }
        } else if !in_word {
            start = i;
            in_word = true;
            proof {
                assert(s.subrange(i as int, i as int + 1) =~= seq![s[i as int]]);
            }
        } else {
            proof {
                assert(s.subrange(start as int, i as int).push(s[i as int]) =~= s.subrange(
                    start as int,
                    i as int + 1,
                ));
            }
        }
        i = i + 1;
    }
    proof {
        assert(s.take(n as int) =~= s);
    }
    if in_word {
        push_mention(text_content, &chars, start, n, &mut out);
        proof {
            let w = s.subrange(start as int, n as int);
            assert(done.push(w).drop_last() =~= done);
        }
    }
    out
}

/// A tool call's permission gate.
#[derive(Clone, Copy, Debug, PartialEq, Eq)]
pub enum PermissionState {
    Pending,
    Approved,
    Denied,
}

/// How a tool call ended (it carries no payload by design).
#[derive(Clone, Copy, Debug, PartialEq, Eq)]
pub struct ToolActivityResult {
    pub is_error: bool,
}

/// One tool call of the assistant.
#[derive(Debug)]
pub struct ToolActivity {
    pub id: String,
    pub name: String,
    pub input: JsonValue,
    pub permission: Option<PermissionState>,
    pub result: Option<ToolActivityResult>,
}

/// One entry of the chat transcript.
#[derive(Debug)]
pub enum ChatMessage {
    Operator(String),
    Assistant { text: String, streaming: bool },
    Tool(ToolActivity),
}

/// One printable unit of the transcript: a message of its own, or a run
/// of consecutive settled tool calls shown as one recessed block.
pub enum ThreadRow<'a> {
    Message(&'a ChatMessage),
    ToolGroup(Vec<&'a ToolActivity>),
}

/// A `ThreadRow` by value.
pub enum RowShape {
    Single(ChatMessage),
    Group(Seq<ToolActivity>),
}

impl<'a> ThreadRow<'a> {
    /// What the row holds, by value.
    pub open spec fn shape(&self) -> RowShape {
        match self {
            ThreadRow::Message(m) => RowShape::Single(**m),
            ThreadRow::ToolGroup(v) => RowShape::Group(v@.map_values(|t: &ToolActivity| *t)),
        }
    }
}

/// The shapes of `rows`, in order.
pub open spec fn shapes(rows: Seq<ThreadRow>) -> Seq<RowShape> {
    rows.map_values(|r: ThreadRow| r.shape())
}

/// A tool call that is settled or was never gated: grouped with its
/// neighbours rather than shown as a full permission card.
pub open spec fn is_settled_tool(m: ChatMessage) -> bool {
    m matches ChatMessage::Tool(t) && t.permission != Some(PermissionState::Pending)
}

/// The transcript `msgs` as rows: every settled tool call joins the group
/// right before it, or starts one; every other message is its own row.
pub open spec fn thread_rows(msgs: Seq<ChatMessage>) -> Seq<RowShape>
    decreases msgs.len(),
{
    if msgs.len() == 0 {
        seq![]
    } else {
        let r = thread_rows(msgs.drop_last());
        let m = msgs.last();
        if is_settled_tool(m) {
            let t = m->Tool_0;
            if r.len() > 0 && r.last() is Group {
                r.update(r.len() - 1, RowShape::Group(r.last()->Group_0.push(t)))
            } else {
                r.push(RowShape::Group(seq![t]))
            }
        } else {
            r.push(RowShape::Single(m))
        }
    }
}

/// The messages rows stand for, in order: a group stands for its tool
/// calls.
pub open spec fn flatten_rows(rows: Seq<RowShape>) -> Seq<ChatMessage>
    decreases rows.len(),
{
    if rows.len() == 0 {
        seq![]
    } else {
        flatten_rows(rows.drop_last()) + match rows.last() {
            RowShape::Single(m) => seq![m],
            RowShape::Group(ts) => ts.map_values(|t: ToolActivity| ChatMessage::Tool(t)),
        }
    }
}

/// Rows are well shaped: groups are non-empty runs of settled tool calls
/// never adjacent to another group, and single rows are never settled
/// tool calls.
pub open spec fn rows_well_shaped(rows: Seq<RowShape>) -> bool {
    &&& forall|j: int| #![trigger rows[j]] 0 <= j < rows.len() ==> match rows[j] {
        RowShape::Single(m) => !is_settled_tool(m),
        RowShape::Group(ts) => ts.len() > 0 && forall|k: int|
            0 <= k < ts.len() ==> (#[trigger] ts[k]).permission != Some(PermissionState::Pending),
    }
    &&& forall|j: int| #![trigger rows[j]] 0 <= j < rows.len() - 1 ==> !(rows[j] is Group && rows[j + 1] is Group)
}

/// Law: grouping the transcript loses, duplicates and reorders nothing —
/// the rows stand for exactly the given messages in order — and the
/// rows are well shaped (each settled tool call sits in a group, groups
/// are maximal, pending permission cards stay on their own).
pub proof fn lemma_thread_rows_faithful(msgs: Seq<ChatMessage>)
    ensures
        flatten_rows(thread_rows(msgs)) == msgs,
        rows_well_shaped(thread_rows(msgs)),
    decreases msgs.len(),
{
    if msgs.len() > 0 {
        let prev = msgs.drop_last();
        lemma_thread_rows_faithful(prev);
        let r = thread_rows(prev);
        let m = msgs.last();
        let out = thread_rows(msgs);
        if is_settled_tool(m) {
            let t = m->Tool_0;
            if r.len() > 0 && r.last() is Group {
                let g = r.last()->Group_0;
                assert(out.drop_last() =~= r.drop_last());
                assert(flatten_rows(r) == flatten_rows(r.drop_last()) + g.map_values(
                    |t: ToolActivity| ChatMessage::Tool(t),
                ));
                assert(g.push(t).map_values(|t: ToolActivity| ChatMessage::Tool(t)) =~= g.map_values(
                    |t: ToolActivity| ChatMessage::Tool(t),
                ).push(ChatMessage::Tool(t)));
                assert(flatten_rows(out) =~= flatten_rows(r).push(m));
                assert(prev.push(m) =~= msgs);
                assert forall|j: int| #![trigger out[j]] 0 <= j < out.len() implies match out[j] {
                    RowShape::Single(m) => !is_settled_tool(m),
                    RowShape::Group(ts) => ts.len() > 0 && forall|k: int|
                        0 <= k < ts.len() ==> (#[trigger] ts[k]).permission != Some(
                            PermissionState::Pending,
                        ),
                } by {
                    if j == out.len() - 1 {
                        let ts = g.push(t);
                        assert forall|k: int| 0 <= k < ts.len() implies (#[trigger] ts[k]).permission
                            != Some(PermissionState::Pending) by {
                            if k < g.len() {
                                assert(r[r.len() - 1] == r.last());
                            }
                        }
                    } else {
                        assert(out[j] == r[j]);
                    }
                }
                assert forall|j: int| #![trigger out[j]] 0 <= j < out.len() - 1 implies !(out[j] is Group
                    && out[j + 1] is Group) by {
                    assert(out[j] == r[j]);
                    if j + 1 < out.len() - 1 {
                        assert(out[j + 1] == r[j + 1]);
                    } else {
                        assert(r[j + 1] == r.last());
                    }
                }
            } else {
                assert(out.drop_last() =~= r);
                assert(seq![t].map_values(|t: ToolActivity| ChatMessage::Tool(t)) =~= seq![m]);
                assert(flatten_rows(out) =~= flatten_rows(r).push(m));
                assert(prev.push(m) =~= msgs);
                assert forall|j: int| #![trigger out[j]] 0 <= j < out.len() - 1 implies !(out[j] is Group
                    && out[j + 1] is Group) by {
                    assert(out[j] == r[j]);
                    if j + 1 < out.len() - 1 {
                        assert(out[j + 1] == r[j + 1]);
                    }
                }
                assert forall|j: int| #![trigger out[j]] 0 <= j < out.len() implies match out[j] {
                    RowShape::Single(m) => !is_settled_tool(m),
                    RowShape::Group(ts) => ts.len() > 0 && forall|k: int|
                        0 <= k < ts.len() ==> (#[trigger] ts[k]).permission != Some(
                            PermissionState::Pending,
                        ),
                } by {
                    if j < out.len() - 1 {
                        assert(out[j] == r[j]);
                    }
                }
            }
        } else {
            assert(out.drop_last() =~= r);
            assert(flatten_rows(out) =~= flatten_rows(r).push(m));
            assert(prev.push(m) =~= msgs);
            assert forall|j: int| #![trigger out[j]] 0 <= j < out.len() - 1 implies !(out[j] is Group
                && out[j + 1] is Group) by {
                assert(out[j] == r[j]);
                if j + 1 < out.len() - 1 {
                    assert(out[j + 1] == r[j + 1]);
                }
            }
            assert forall|j: int| #![trigger out[j]] 0 <= j < out.len() implies match out[j] {
                RowShape::Single(m) => !is_settled_tool(m),
                RowShape::Group(ts) => ts.len() > 0 && forall|k: int|
                    0 <= k < ts.len() ==> (#[trigger] ts[k]).permission != Some(
                        PermissionState::Pending,
                    ),
            } by {
                if j < out.len() - 1 {
                    assert(out[j] == r[j]);
                }
            }
        }
    }
}

/// Clusters consecutive settled tool calls (approved-and-done, denied, or
/// never gated at all) into a single `ToolGroup`, leaving everything else
/// — operator/assistant messages and still-pending permission cards — as
/// its own `Message` row.
pub fn group_thread(messages: &[ChatMessage]) -> (rows: Vec<ThreadRow<'_>>)
    ensures
        shapes(rows@) == thread_rows(messages@),
{
    let n = messages.len();
    let mut rows: Vec<ThreadRow> = Vec::new();
    let mut group: Vec<&ToolActivity> = Vec::new();
    let mut i: usize = 0;
    proof {
        assert(messages@.take(0) =~= Seq::<ChatMessage>::empty());
    }
    while i < n
        invariant
            n == messages@.len(),
            i <= n,
            group@.len() == 0 ==> shapes(rows@) == thread_rows(messages@.take(i as int)),
            group@.len() > 0 ==> shapes(rows@).push(
                RowShape::Group(group@.map_values(|t: &ToolActivity| *t)),
            ) == thread_rows(messages@.take(i as int)),
            shapes(rows@).len() > 0 ==> !(shapes(rows@).last() is Group),
        decreases n - i,
    {
        let ghost prefix = messages@.take(i as int);
        let ghost old_shapes = shapes(rows@);
        let ghost old_group = group@.map_values(|t: &ToolActivity| *t);
        proof {
            assert(messages@.take(i as int + 1).drop_last() =~= prefix);
            assert(messages@.take(i as int + 1).last() == messages@[i as int]);
        }
        let msg = &messages[i];
        let settled = match msg {
            ChatMessage::Tool(tool) => !matches!(tool.permission, Some(PermissionState::Pending)),
            _ => false,
        };
        if settled {
            if let ChatMessage::Tool(tool) = msg {
                group.push(tool);
                proof {
                    assert(group@.map_values(|t: &ToolActivity| *t) =~= old_group.push(*tool));
                    if old_group.len() == 0 {
                        assert(old_group.push(*tool) =~= seq![*tool]);
                    } else {
                        let r = old_shapes.push(RowShape::Group(old_group));
                        assert(r.update(r.len() - 1, RowShape::Group(old_group.push(*tool))) =~= old_shapes.push(
                            RowShape::Group(old_group.push(*tool)),
                        ));
                    }
                }
            }
        } else {
            if group.len() > 0 {
                let g = group;
                group = Vec::new();
                rows.push(ThreadRow::ToolGroup(g));
                proof {
                    assert(shapes(rows@) =~= old_shapes.push(RowShape::Group(old_group)));
                }
            }
            let ghost mid = shapes(rows@);
            rows.push(ThreadRow::Message(msg));
            proof {
                assert(shapes(rows@) =~= mid.push(RowShape::Single(*msg)));
            }
        }
        i = i + 1;
    }
    proof {
        assert(messages@.take(n as int) =~= messages@);
    }
    if group.len() > 0 {
        let ghost old_shapes = shapes(rows@);
        let ghost old_group = group@.map_values(|t: &ToolActivity| *t);
        rows.push(ThreadRow::ToolGroup(group));
        proof {
            assert(shapes(rows@) =~= old_shapes.push(RowShape::Group(old_group)));
        }
    }
    rows
}

/// How the chat panel is laid out.
#[derive(Clone, Copy, Debug, PartialEq, Eq)]
pub enum ChatMode {
    Docked,
    Collapsed,
    Closed,
}

/// Identity of an editor tab.
#[derive(Clone, Debug, PartialEq, Eq)]
pub enum TabKey {
    File(String),
    Diff(String),
    Chat,
    Search,
}

/// Where the chat panel is presented when it shows an input bar.
#[derive(Clone, Copy, Debug, PartialEq, Eq)]
pub enum ChatPresentation {
    Docked,
    Tab,
}

/// Docked whenever the panel is docked; as a tab when the chat tab is
/// open and active; otherwise it shows no input bar.
pub open spec fn spec_presentation(
    chat_mode: ChatMode,
    chat_tab_open: bool,
    active_tab: Option<TabKey>,
) -> Option<ChatPresentation> {
    if chat_mode == ChatMode::Docked {
        Some(ChatPresentation::Docked)
    } else if chat_tab_open && active_tab == Some(TabKey::Chat) {
        Some(ChatPresentation::Tab)
    } else {
        None
    }
}

/// Where the chat panel is currently presented, if it shows an input bar.
pub fn current_presentation(chat_mode: ChatMode, chat_tab_open: bool, active_tab: &Option<TabKey>) -> (p: Option<
    ChatPresentation,
>)
    ensures
        p == spec_presentation(chat_mode, chat_tab_open, *active_tab),
{
    if matches!(chat_mode, ChatMode::Docked) {
        Some(ChatPresentation::Docked)
    } else if chat_tab_open && matches!(active_tab, Some(TabKey::Chat)) {
        Some(ChatPresentation::Tab)
    } else {
        None
    }
}

/// The four-plus-one states a settled or running tool call is shown in.
#[derive(Clone, Copy, Debug, PartialEq, Eq)]
pub enum ToolStatus {
    Running,
    Done,
    Denied,
    Failed,
}

/// A denial wins; then a result decides between failed and done; no
/// result yet means still running.
pub open spec fn spec_tool_status(tool: ToolActivity) -> ToolStatus {
    if tool.permission == Some(PermissionState::Denied) {
        ToolStatus::Denied
    } else {
        match tool.result {
            Some(r) => if r.is_error {
                ToolStatus::Failed
            } else {
                ToolStatus::Done
            },
            None => ToolStatus::Running,
        }
    }
}

/// The status a tool call is shown with.
pub fn tool_status(tool: &ToolActivity) -> (st: ToolStatus)
    ensures
        st == spec_tool_status(*tool),
{
    match (&tool.permission, &tool.result) {
        (Some(PermissionState::Denied), _) => ToolStatus::Denied,
        (_, Some(r)) => if r.is_error {
            ToolStatus::Failed
        } else {
            ToolStatus::Done
        },
        (_, None) => ToolStatus::Running,
    }
}

/// The glyph shown for a status; `caret_visible` is the blink phase that
/// pulses a running call between a filled and a hollow dot.
pub open spec fn status_glyph(status: ToolStatus, caret_visible: bool) -> Seq<char> {
    match status {
        ToolStatus::Denied => seq!['\u{2715}'],
        ToolStatus::Failed => seq!['!'],
        ToolStatus::Done => seq!['\u{2713}'],
        ToolStatus::Running => if caret_visible {
            seq!['\u{25cf}']
        } else {
            seq!['\u{25cb}']
        },
    }
}

/// The status glyph of `tool_status_glyph` (its color comes from the
/// theme: danger for denied/failed, success for done, accent otherwise).
pub fn tool_status_glyph(status: ToolStatus, caret_visible: bool) -> (g: &'static str)
    ensures
        g@ == status_glyph(status, caret_visible),
{
    proof {
        reveal_strlit("\u{2715}");
        reveal_strlit("!");
        reveal_strlit("\u{2713}");
        reveal_strlit("\u{25cf}");
        reveal_strlit("\u{25cb}");
    }
    match status {
        ToolStatus::Denied => "\u{2715}",
        ToolStatus::Failed => "!",
        ToolStatus::Done => "\u{2713}",
        ToolStatus::Running => if caret_visible {
            "\u{25cf}"
        } else {
            "\u{25cb}"
        },
    }
}

/// The `-old/+new` line counts of an Edit: how many lines its
/// `old_string` and `new_string` inputs have, when both are strings.
pub open spec fn spec_edit_diffstat(input: JsonValue) -> Option<(nat, nat)> {
    match (spec_str_field(input, seq!['o', 'l', 'd', '_', 's', 't', 'r', 'i', 'n', 'g']), spec_str_field(
        input,
        seq!['n', 'e', 'w', '_', 's', 't', 'r', 'i', 'n', 'g'],
    )) {
        (Some(old), Some(new)) => Some((lines_of(old).len(), lines_of(new).len())),
        _ => None,
    }
}

/// Line counts of an Edit's old and new text, a size-of-change hint.
pub fn edit_diffstat(tool: &ToolActivity) -> (r: Option<(usize, usize)>)
    ensures
        match r {
            Some((a, b)) => spec_edit_diffstat(tool.input) == Some((a as nat, b as nat)),
            None => spec_edit_diffstat(tool.input) is None,
        },
{
    proof {
        reveal_strlit("old_string");
        reveal_strlit("new_string");
        assert("old_string"@ =~= seq!['o', 'l', 'd', '_', 's', 't', 'r', 'i', 'n', 'g']);
        assert("new_string"@ =~= seq!['n', 'e', 'w', '_', 's', 't', 'r', 'i', 'n', 'g']);
    }
    let old = match tool.input.str_field("old_string") {
        Some(s) => s,
        None => return None,
    };
    let new = match tool.input.str_field("new_string") {
        Some(s) => s,
        None => return None,
    };
    let old_lines = text_lines(old.as_str());
    let new_lines = text_lines(new.as_str());
    proof {
        assert(old_lines@.map_values(|l: String| l@).len() == old_lines@.len());
        assert(new_lines@.map_values(|l: String| l@).len() == new_lines@.len());
    }
    Some((old_lines.len(), new_lines.len()))
}

/// The input field a tool's summary shows: the file of Read/Edit/Write,
/// the pattern of Glob/Grep, the command of Bash; none for other tools.
pub open spec fn summary_field(name: Seq<char>) -> Option<Seq<char>> {
    if name == seq!['R', 'e', 'a', 'd'] || name == seq!['E', 'd', 'i', 't'] || name == seq![
        'W',
        'r',
        'i',
        't',
        'e',
    ] {
        Some(seq!['f', 'i', 'l', 'e', '_', 'p', 'a', 't', 'h'])
    } else if name == seq!['G', 'l', 'o', 'b'] || name == seq!['G', 'r', 'e', 'p'] {
        Some(seq!['p', 'a', 't', 't', 'e', 'r', 'n'])
    } else if name == seq!['B', 'a', 's', 'h'] {
        Some(seq!['c', 'o', 'm', 'm', 'a', 'n', 'd'])
    } else {
        None
    }
}

/// A one-line summary of a tool call: the tool's name followed by the
/// field that says what it acts on, or just the name when that field is
/// missing or the tool is not one of the known ones.
pub open spec fn spec_tool_summary(name: Seq<char>, input: JsonValue) -> Seq<char> {
    match summary_field(name) {
        Some(key) => match spec_str_field(input, key) {
            Some(v) => name + seq![' '] + v,
            None => name,
        },
        None => name,
    }
}

/// `entries[i]` is the first entry keyed `key`.
proof fn lemma_find_first_entry(entries: Seq<(String, JsonValue)>, key: Seq<char>, i: int, k: int)
    requires
        0 <= k <= i < entries.len(),
        entries[i].0@ == key,
        forall|j: int| 0 <= j < i ==> (#[trigger] entries[j]).0@ != key,
    ensures
        find_from(entries, key, k) == Some(entries[i].1),
    decreases i - k,
{
    if k < i {
        lemma_find_first_entry(entries, key, i, k + 1);
    }
}

/// No entry from `k` on is keyed `key`.
proof fn lemma_find_no_entry(entries: Seq<(String, JsonValue)>, key: Seq<char>, k: int)
    requires
        0 <= k,
        forall|j: int| 0 <= j < entries.len() ==> (#[trigger] entries[j]).0@ != key,
    ensures
        find_from(entries, key, k) is None,
    decreases entries.len() - k,
{
    if k < entries.len() {
        lemma_find_no_entry(entries, key, k + 1);
    }
}

/// Law: the summary of a Read, Edit or Write call whose input object has
/// (as its first `file_path` entry) the string `p` is the tool's name, a
/// space, then `p`; Glob and Grep show their `pattern`, Bash its
/// `command`, the same way; a tool of any other name is summarised by its
/// name alone, whatever its input.
pub proof fn lemma_tool_summary_shows_target(
    name: Seq<char>,
    entries: Vec<(String, JsonValue)>,
    field: Seq<char>,
    i: int,
    p: String,
)
    requires
        0 <= i < entries@.len(),
        entries@[i].0@ == field,
        entries@[i].1 == JsonValue::String(p),
        forall|j: int| 0 <= j < i ==> (#[trigger] entries@[j]).0@ != field,
    ensures
        (name == seq!['R', 'e', 'a', 'd'] || name == seq!['E', 'd', 'i', 't'] || name == seq!['W', 'r', 'i', 't', 'e'])
            && field == seq!['f', 'i', 'l', 'e', '_', 'p', 'a', 't', 'h'] ==> spec_tool_summary(
            name,
            JsonValue::Object(entries),
        ) == name + seq![' '] + p@,
        (name == seq!['G', 'l', 'o', 'b'] || name == seq!['G', 'r', 'e', 'p']) && field == seq![
            'p',
            'a',
            't',
            't',
            'e',
            'r',
            'n',
        ] ==> spec_tool_summary(name, JsonValue::Object(entries)) == name + seq![' '] + p@,
        name == seq!['B', 'a', 's', 'h'] && field == seq!['c', 'o', 'm', 'm', 'a', 'n', 'd'] ==> spec_tool_summary(
            name,
            JsonValue::Object(entries),
        ) == name + seq![' '] + p@,
{
    lemma_find_first_entry(entries@, field, i, 0);
}

/// Law: a tool other than Read, Edit, Write, Glob, Grep and Bash is
/// summarised by its name alone, and so is a known tool whose input has no
/// entry under the field it shows.
pub proof fn lemma_tool_summary_name_only(name: Seq<char>, entries: Vec<(String, JsonValue)>)
    ensures
        name != seq!['R', 'e', 'a', 'd'] && name != seq!['E', 'd', 'i', 't'] && name != seq!['W', 'r', 'i', 't', 'e']
            && name != seq!['G', 'l', 'o', 'b'] && name != seq!['G', 'r', 'e', 'p'] && name != seq!['B', 'a', 's', 'h']
            ==> spec_tool_summary(name, JsonValue::Object(entries)) == name,
        (forall|j: int| 0 <= j < entries@.len() ==> (#[trigger] entries@[j]).0@ != seq![
            'f',
            'i',
            'l',
            'e',
            '_',
            'p',
            'a',
            't',
            'h',
        ]) && (name == seq!['R', 'e', 'a', 'd'] || name == seq!['E', 'd', 'i', 't'] || name == seq![
            'W',
            'r',
            'i',
            't',
            'e',
        ]) ==> spec_tool_summary(name, JsonValue::Object(entries)) == name,
{
    if (forall|j: int| 0 <= j < entries@.len() ==> (#[trigger] entries@[j]).0@ != seq![
        'f',
        'i',
        'l',
        'e',
        '_',
        'p',
        'a',
        't',
        'h',
    ]) {
        lemma_find_no_entry(entries@, seq!['f', 'i', 'l', 'e', '_', 'p', 'a', 't', 'h'], 0);
    }
}


/// Short, human-readable one-liner for a tool call.
pub fn tool_summary(name: &str, input: &JsonValue) -> (s: String)
    ensures
        s@ == spec_tool_summary(name@, *input),
{
    proof {
        reveal_strlit("Read");
        reveal_strlit("Edit");
        reveal_strlit("Write");
        reveal_strlit("Glob");
        reveal_strlit("Grep");
        reveal_strlit("Bash");
        reveal_strlit("file_path");
        reveal_strlit("pattern");
        reveal_strlit("command");
        reveal_strlit(" ");
        assert("Read"@ =~= seq!['R', 'e', 'a', 'd']);
        assert("Edit"@ =~= seq!['E', 'd', 'i', 't']);
        assert("Write"@ =~= seq!['W', 'r', 'i', 't', 'e']);
        assert("Glob"@ =~= seq!['G', 'l', 'o', 'b']);
        assert("Grep"@ =~= seq!['G', 'r', 'e', 'p']);
        assert("Bash"@ =~= seq!['B', 'a', 's', 'h']);
        assert("file_path"@ =~= seq!['f', 'i', 'l', 'e', '_', 'p', 'a', 't', 'h']);
        assert("pattern"@ =~= seq!['p', 'a', 't', 't', 'e', 'r', 'n']);
        assert("command"@ =~= seq!['c', 'o', 'm', 'm', 'a', 'n', 'd']);
    }
    let key = if str_eq(name, "Read") || str_eq(name, "Edit") || str_eq(name, "Write") {
        Some("file_path")
    } else if str_eq(name, "Glob") || str_eq(name, "Grep") {
        Some("pattern")
    } else if str_eq(name, "Bash") {
        Some("command")
    } else {
        None
    };
    proof {
        assert(match key {
            Some(k) => summary_field(name@) == Some(k@),
            None => summary_field(name@) is None,
        });
    }
    let mut s = name.to_owned();
    if let Some(k) = key {
        if let Some(v) = input.str_field(k) {
            s.append(" ");
            s.append(v.as_str());
        }
    }
    s
}

/// The first `limit` lines of `text`, then a count of the hidden rest —
/// `text` itself when it has at most `limit` lines.
pub open spec fn spec_truncate_lines(text: Seq<char>, limit: nat) -> Seq<char> {
    let lines = lines_of(text);
    if lines.len() <= limit {
        text
    } else {
        join_lines(lines.take(limit as int)) + seq!['\n', '\u{2026}', ' '] + dec_str(
            (lines.len() - limit) as nat,
        ) + seq![' ', 'm', 'o', 'r', 'e', ' ', 'l', 'i', 'n', 'e', 's']
    }
}

/// `lines` joined with `\n` between them.
pub open spec fn join_lines(lines: Seq<Seq<char>>) -> Seq<char>
    decreases lines.len(),
{
    if lines.len() == 0 {
        seq![]
    } else if lines.len() == 1 {
        lines[0]
    } else {
        join_lines(lines.drop_last()) + seq!['\n'] + lines.last()
    }
}

/// The first `limit` lines of `text`, with a trailing count of what's
/// hidden.
pub fn truncate_lines(text: &str, limit: usize) -> (s: String)
    ensures
        s@ == spec_truncate_lines(text@, limit as nat),
{
    let lines = text_lines(text);
    let ghost views = lines@.map_values(|l: String| l@);
    if lines.len() <= limit {
        return text.to_owned();
    }
    let mut s = String::new();
    let mut i: usize = 0;
    while i < limit
        invariant
            i <= limit < lines@.len(),
            views == lines@.map_values(|l: String| l@),
            s@ == join_lines(views.take(i as int)),
        decreases limit - i,
    {
        proof {
            assert(views.take(i as int + 1).drop_last() =~= views.take(i as int));
            reveal_strlit("\n");
        }
        if i > 0 {
            s.append("\n");
        }
        s.append(lines[i].as_str());
        proof {
            if i == 0 {
                assert(views.take(1) =~= seq![views[0]]);
                assert(s@ =~= join_lines(views.take(1)));
            } else {
                assert(s@ =~= join_lines(views.take(i as int + 1)));
            }
        }
        i = i + 1;
    }
    proof {
        reveal_strlit("\n\u{2026} ");
        reveal_strlit(" more lines");
    }
    s.append("\n\u{2026} ");
    s.append(decimal((lines.len() - limit) as u128).as_str());
    s.append(" more lines");
    s
}

/// Lines of each side a permission card's diff preview shows before the
/// rest is folded away.
pub const DIFF_PREVIEW_LINES: usize = 6;

/// What a permission card previews of an Edit's `old`/`new` text: both
/// truncated to `DIFF_PREVIEW_LINES` lines when either side is longer and
/// the card is not expanded, both in full otherwise; the flag says whether
/// either side is long (and so whether the expand toggle shows).
pub open spec fn spec_diff_preview(old: Seq<char>, new: Seq<char>, expanded: bool) -> (Seq<char>, Seq<char>, bool) {
    let is_long = lines_of(old).len() > DIFF_PREVIEW_LINES || lines_of(new).len() > DIFF_PREVIEW_LINES;
    if is_long && !expanded {
        (
            spec_truncate_lines(old, DIFF_PREVIEW_LINES as nat),
            spec_truncate_lines(new, DIFF_PREVIEW_LINES as nat),
            is_long,
        )
    } else {
        (old, new, is_long)
    }
}

/// The diff preview of a pending Edit's permission card.
pub fn diff_preview(old: &str, new: &str, expanded: bool) -> (r: (String, String, bool))
    ensures
        (r.0@, r.1@, r.2) == spec_diff_preview(old@, new@, expanded),
{
    let old_lines = text_lines(old);
    let new_lines = text_lines(new);
    proof {
        assert(old_lines@.map_values(|l: String| l@).len() == old_lines@.len());
        assert(new_lines@.map_values(|l: String| l@).len() == new_lines@.len());
    }
    let is_long = old_lines.len() > DIFF_PREVIEW_LINES || new_lines.len() > DIFF_PREVIEW_LINES;
    if is_long && !expanded {
        (truncate_lines(old, DIFF_PREVIEW_LINES), truncate_lines(new, DIFF_PREVIEW_LINES), is_long)
    } else {
        (old.to_owned(), new.to_owned(), is_long)
    }
}

/// What the chat backend is doing, as the status line reports it.
#[derive(Clone, Debug)]
pub enum ChatStatus {
    /// The provider's process is starting.
    Starting,
    /// The provider could not be started, for the given reason.
    Unavailable(String),
    /// The provider answers prompts.
    Ready,
}

/// The chat status line, given the provider's name as shown there and the
/// model name shown once ready.
pub open spec fn spec_status_text(
    status: ChatStatus,
    shown_provider: Seq<char>,
    model: Seq<char>,
    input_tokens: nat,
    output_tokens: nat,
) -> Seq<char> {
    match status {
        ChatStatus::Starting => "STARTING "@ + shown_provider + "\u{2026}"@,
        ChatStatus::Unavailable(reason) => "UNAVAILABLE \u{2014} "@ + reason@,
        ChatStatus::Ready => model + " \u{2014} "@ + dec_str(input_tokens) + "+"@ + dec_str(output_tokens)
            + " TOK"@,
    }
}

/// The chat status line from the provider name and model as shown.
pub fn status_text(status: &ChatStatus, shown_provider: &str, model: &str, input_tokens: u64, output_tokens: u64) -> (s:
    String)
    ensures
        s@ == spec_status_text(*status, shown_provider@, model@, input_tokens as nat, output_tokens as nat),
{
    match status {
        ChatStatus::Starting => {
            let mut s = "STARTING ".to_owned();
            s.append(shown_provider);
            s.append("\u{2026}");
            s
        },
        ChatStatus::Unavailable(reason) => {
            let mut s = "UNAVAILABLE \u{2014} ".to_owned();
            s.append(reason.as_str());
            s
        },
        ChatStatus::Ready => {
            let mut s = model.to_owned();
            s.append(" \u{2014} ");
            s.append(decimal(input_tokens as u128).as_str());
            s.append("+");
            s.append(decimal(output_tokens as u128).as_str());
            s.append(" TOK");
            s
        },
    }
}

/// What `str::to_uppercase` returns for `s`.
pub uninterp spec fn upper_case(s: Seq<char>) -> Seq<char>;

/// What `str::to_lowercase` returns for `s`.
pub uninterp spec fn lower_case(s: Seq<char>) -> Seq<char>;

/// `str::to_uppercase`. Its contract only names the result: the Unicode
/// case mapping itself is left to `upper_case`.
#[verifier::external_body]
fn to_upper(s: &str) -> (r: String)
    ensures
        r@ == upper_case(s@),
{
    s.to_uppercase()
}

/// `str::to_lowercase`. Its contract only names the result: the Unicode
/// case mapping itself is left to `lower_case`.
#[verifier::external_body]
fn to_lower(s: &str) -> (r: String)
    ensures
        r@ == lower_case(s@),
{
    s.to_lowercase()
}

/// The chat panel's status line: the provider upper-cased while it starts,
/// the reason it is unavailable, or once ready the model (the provider's
/// name in lower case when no model is known) and the tokens spent.
pub fn chat_status_label(
    status: &ChatStatus,
    provider_label: &str,
    model: Option<&str>,
    input_tokens: u64,
    output_tokens: u64,
) -> (s: String)
    ensures
        s@ == spec_status_text(
            *status,
            upper_case(provider_label@),
            match model {
                Some(m) => m@,
                None => lower_case(provider_label@),
            },
            input_tokens as nat,
            output_tokens as nat,
        ),
{
    let shown = to_upper(provider_label);
    let fallback = to_lower(provider_label);
    let model_text: &str = match model {
        Some(m) => m,
        None => fallback.as_str(),
    };
    status_text(status, shown.as_str(), model_text, input_tokens, output_tokens)
}

/// An assistant reply as shown: with a block caret appended while it is
/// still streaming and the blinking caret is in its visible phase.
pub fn streaming_text(text_content: &str, streaming: bool, caret_visible: bool) -> (s: String)
    ensures
        s@ == (if streaming && caret_visible { text_content@ + "\u{258c}"@ } else { text_content@ }),
{
    let mut s = text_content.to_owned();
    if streaming && caret_visible {
        s.append("\u{258c}");
    }
    s
}

/// `"N line"` / `"N lines"` for the selected text: its number of lines,
/// at least one.
pub open spec fn spec_selection_lines_label(selected: Seq<char>) -> Seq<char> {
    let n = if lines_of(selected).len() >= 1 { lines_of(selected).len() } else { 1 };
    dec_str(n) + if n == 1 { " line"@ } else { " lines"@ }
}

/// The size of the selection offered as chat context.
pub fn selection_lines_label(selected: &str) -> (s: String)
    ensures
        s@ == spec_selection_lines_label(selected@),
{
    let lines = text_lines(selected);
    proof {
        assert(lines@.map_values(|l: String| l@).len() == lines@.len());
    }
    let n = if lines.len() >= 1 { lines.len() } else { 1 };
    let mut s = decimal(n as u128);
    if n == 1 {
        s.append(" line");
    } else {
        s.append(" lines");
    }
    s
}

/// The chat input's placeholder: how to type a prompt once the provider
/// is running, else that it is still starting.
pub fn input_placeholder(enabled: bool, provider_label: &str) -> (s: String)
    ensures
        s@ == (if enabled {
            "Ask about this project\u{2026} (Shift+Enter for a new line)"@
        } else {
            "Waiting for "@ + provider_label@ + " to start\u{2026}"@
        }),
{
    if enabled {
        "Ask about this project\u{2026} (Shift+Enter for a new line)".to_owned()
    } else {
        let mut s = "Waiting for ".to_owned();
        s.append(provider_label);
        s.append(" to start\u{2026}");
        s
    }
}

/// One entry of the chat transcript's list, top to bottom.
#[derive(Clone, Copy, Debug, PartialEq, Eq, Structural)]
pub enum ThreadItem {
    /// The "load earlier messages" row above a truncated history.
    LoadEarlier,
    /// The rule that opens every turn but the first.
    Divider,
    /// The thread row at this index.
    Row(usize),
    /// The typing indicator while a prompt awaits its first reply.
    Typing,
    /// The retry / regenerate / continue links.
    Continuation,
}

/// A row starts a turn: it is an operator's message.
pub open spec fn starts_turn(shape: RowShape) -> bool {
    shape matches RowShape::Single(ChatMessage::Operator(_))
}

/// The first `n` thread rows, each preceded by a divider where it starts a
/// turn other than the first row.
pub open spec fn row_items(shapes: Seq<RowShape>, n: int) -> Seq<ThreadItem>
    decreases n,
{
    if n <= 0 {
        seq![]
    } else {
        row_items(shapes, n - 1) + (if n - 1 > 0 && starts_turn(shapes[n - 1]) {
            seq![ThreadItem::Divider]
        } else {
            seq![]
        }) + seq![ThreadItem::Row((n - 1) as usize)]
    }
}

/// The transcript's entries: the load-earlier row over a truncated
/// history, the rows with their turn dividers, the typing indicator while
/// sending, and the continuation links after a non-empty list when they
/// apply. An empty list shows the empty state instead.
pub open spec fn spec_thread_layout(
    shapes: Seq<RowShape>,
    history_truncated: bool,
    sending: bool,
    has_continuation: bool,
) -> Seq<ThreadItem> {
    let items = (if history_truncated { seq![ThreadItem::LoadEarlier] } else { seq![] }) + row_items(
        shapes,
        shapes.len() as int,
    ) + (if sending { seq![ThreadItem::Typing] } else { seq![] });
    if items.len() > 0 && has_continuation {
        items.push(ThreadItem::Continuation)
    } else {
        items
    }
}

/// Lays out the transcript list over the grouped thread rows.
pub fn thread_layout(rows: &[ThreadRow], history_truncated: bool, sending: bool, has_continuation: bool) -> (items: Vec<
    ThreadItem,
>)
    ensures
        items@ == spec_thread_layout(shapes(rows@), history_truncated, sending, has_continuation),
{
    let ghost sh = shapes(rows@);
    let mut items: Vec<ThreadItem> = Vec::new();
    if history_truncated {
        items.push(ThreadItem::LoadEarlier);
    }
    let ghost head = items@;
    let n = rows.len();
    let mut i: usize = 0;
    while i < n
        invariant
            n == rows@.len(),
            sh == shapes(rows@),
            i <= n,
            items@ == head + row_items(sh, i as int),
        decreases n - i,
    {
        let turn = match &rows[i] {
            ThreadRow::Message(m) => match m {
                ChatMessage::Operator(_) => true,
                _ => false,
            },
            ThreadRow::ToolGroup(_) => false,
        };
        proof {
            assert(sh[i as int] == rows@[i as int].shape());
            assert(turn == starts_turn(sh[i as int]));
        }
        if i > 0 && turn {
            items.push(ThreadItem::Divider);
        }
        items.push(ThreadItem::Row(i));
        proof {
            assert(items@ =~= head + row_items(sh, i + 1));
        }
        i = i + 1;
    }
    if sending {
        items.push(ThreadItem::Typing);
    }
    if items.len() > 0 && has_continuation {
        items.push(ThreadItem::Continuation);
    }
    items
}

/// How a transcript message is drawn.
#[derive(Clone, Copy, Debug, PartialEq, Eq, Structural)]
pub enum MessageView {
    Operator,
    Assistant,
    /// A tool call awaiting the operator's approval.
    PermissionCard,
    /// A tool call that needs no decision.
    ToolActivity,
}

/// A tool call still awaiting approval is drawn as a permission card; any
/// other message by its kind.
pub open spec fn spec_message_view(msg: ChatMessage) -> MessageView {
    match msg {
        ChatMessage::Operator(_) => MessageView::Operator,
        ChatMessage::Assistant { .. } => MessageView::Assistant,
        ChatMessage::Tool(t) => if t.permission == Some(PermissionState::Pending) {
            MessageView::PermissionCard
        } else {
            MessageView::ToolActivity
        },
    }
}

/// How `msg` is drawn in the transcript.
pub fn message_view(msg: &ChatMessage) -> (v: MessageView)
    ensures
        v == spec_message_view(*msg),
{
    match msg {
        ChatMessage::Operator(_) => MessageView::Operator,
        ChatMessage::Assistant { .. } => MessageView::Assistant,
        ChatMessage::Tool(t) => match t.permission {
            Some(PermissionState::Pending) => MessageView::PermissionCard,
            _ => MessageView::ToolActivity,
        },
    }
}

/// The entries of `items` that show a thread row, in order.
pub open spec fn shown_rows(items: Seq<ThreadItem>) -> Seq<usize>
    decreases items.len(),
{
    if items.len() == 0 {
        seq![]
    } else {
        shown_rows(items.drop_last()) + match items.last() {
            ThreadItem::Row(i) => seq![i],
            _ => seq![],
        }
    }
}

proof fn lemma_shown_rows_append(a: Seq<ThreadItem>, b: Seq<ThreadItem>)
    ensures
        shown_rows(a + b) == shown_rows(a) + shown_rows(b),
    decreases b.len(),
{
    if b.len() == 0 {
        assert(a + b =~= a);
        assert(shown_rows(a) + shown_rows(b) =~= shown_rows(a));
    } else {
        lemma_shown_rows_append(a, b.drop_last());
        assert((a + b).drop_last() =~= a + b.drop_last());
        assert(shown_rows(a + b) =~= shown_rows(a) + shown_rows(b));
    }
}

proof fn lemma_shown_rows_single(x: ThreadItem)
    ensures
        shown_rows(seq![x]) == match x {
            ThreadItem::Row(i) => seq![i],
            _ => Seq::<usize>::empty(),
        },
{
    assert(seq![x].drop_last() =~= Seq::<ThreadItem>::empty());
    assert(shown_rows(Seq::<ThreadItem>::empty()) =~= Seq::<usize>::empty());
    assert(shown_rows(seq![x]) =~= match x {
        ThreadItem::Row(i) => seq![i],
        _ => Seq::<usize>::empty(),
    });
}

proof fn lemma_row_items_rows(shapes: Seq<RowShape>, n: int)
    requires
        0 <= n,
    ensures
        shown_rows(row_items(shapes, n)) == Seq::new(n as nat, |i: int| i as usize),
    decreases n,
{
    if n > 0 {
        lemma_row_items_rows(shapes, n - 1);
        let div: Seq<ThreadItem> = if n - 1 > 0 && starts_turn(shapes[n - 1]) {
            seq![ThreadItem::Divider]
        } else {
            seq![]
        };
        let last: Seq<ThreadItem> = seq![ThreadItem::Row((n - 1) as usize)];
        lemma_shown_rows_append(row_items(shapes, n - 1), div);
        lemma_shown_rows_append(row_items(shapes, n - 1) + div, last);
        lemma_shown_rows_single(ThreadItem::Divider);
        lemma_shown_rows_single(ThreadItem::Row((n - 1) as usize));
        assert(shown_rows(Seq::<ThreadItem>::empty()) =~= Seq::<usize>::empty());
        assert(shown_rows(row_items(shapes, n)) =~= Seq::new(n as nat, |i: int| i as usize));
    } else {
        assert(shown_rows(row_items(shapes, n)) =~= Seq::new(n as nat, |i: int| i as usize));
    }
}

/// Law: the transcript list shows every thread row exactly once, in order,
/// whatever else it adds around them.
pub proof fn lemma_thread_layout_shows_each_row(
    shapes: Seq<RowShape>,
    history_truncated: bool,
    sending: bool,
    has_continuation: bool,
)
    ensures
        shown_rows(spec_thread_layout(shapes, history_truncated, sending, has_continuation)) == Seq::new(
            shapes.len(),
            |i: int| i as usize,
        ),
{
    let pre: Seq<ThreadItem> = if history_truncated { seq![ThreadItem::LoadEarlier] } else { seq![] };
    let mid = row_items(shapes, shapes.len() as int);
    let post: Seq<ThreadItem> = if sending { seq![ThreadItem::Typing] } else { seq![] };
    let items = pre + mid + post;
    lemma_row_items_rows(shapes, shapes.len() as int);
    lemma_shown_rows_append(pre, mid);
    lemma_shown_rows_append(pre + mid, post);
    lemma_shown_rows_single(ThreadItem::LoadEarlier);
    lemma_shown_rows_single(ThreadItem::Typing);
    lemma_shown_rows_single(ThreadItem::Continuation);
    assert(shown_rows(Seq::<ThreadItem>::empty()) =~= Seq::<usize>::empty());
    assert(shown_rows(items) =~= Seq::new(shapes.len(), |i: int| i as usize));
    if items.len() > 0 && has_continuation {
        lemma_shown_rows_append(items, seq![ThreadItem::Continuation]);
        assert(items.push(ThreadItem::Continuation) =~= items + seq![ThreadItem::Continuation]);
    }
}

} // verus!
