//! JSON values as the tree view and the chat panel read them, and the
//! flattening of a value into the tree view's rows.
use vstd::prelude::*;
use crate::text::{decimal, dec_str, push_char};

verus! {

/// A JSON value. Numbers are held as the text JSON prints them as, since
/// that text is all that is ever read of them; object entries keep their
/// order.
#[derive(Debug)]
pub enum JsonValue {
    Null,
    Bool(bool),
    Number(String),
    String(String),
    Array(Vec<JsonValue>),
    Object(Vec<(String, JsonValue)>),
}

/// The value of the first entry from index `i` on whose key is `key`.
pub open spec fn find_from(entries: Seq<(String, JsonValue)>, key: Seq<char>, i: int) -> Option<
    JsonValue,
>
    decreases entries.len() - i,
{
    if i < 0 || i >= entries.len() {
        None
    } else if entries[i].0@ == key {
        Some(entries[i].1)
    } else {
        find_from(entries, key, i + 1)
    }
}

/// The value stored under `key`, for an object holding it (first entry
/// wins); `None` for any other value.
pub open spec fn spec_get(v: JsonValue, key: Seq<char>) -> Option<JsonValue> {
    match v {
        JsonValue::Object(entries) => find_from(entries@, key, 0),
        _ => None,
    }
}

/// The string under `key` (`value.get(key).and_then(as_str)`).
pub open spec fn spec_str_field(v: JsonValue, key: Seq<char>) -> Option<Seq<char>> {
    match spec_get(v, key) {
        Some(JsonValue::String(s)) => Some(s@),
        _ => None,
    }
}

impl JsonValue {
    /// `self.get(key).and_then(as_str)`: the string stored under `key` of
    /// an object, if that entry exists and is a string.
    pub fn str_field(&self, key: &str) -> (r: Option<&String>)
        ensures
            match r {
                Some(s) => spec_str_field(*self, key@) == Some(s@),
                None => spec_str_field(*self, key@) is None,
            },
    {
        match self {
            JsonValue::Object(entries) => {
                let wanted = key.to_owned();
                let n = entries.len();
                let mut i: usize = 0;
                while i < n
                    invariant
                        n == entries@.len(),
                        i <= n,
                        *self == JsonValue::Object(*entries),
                        wanted@ == key@,
                        find_from(entries@, key@, 0) == find_from(entries@, key@, i as int),
                    decreases n - i,
                {
                    if entries[i].0 == wanted {
                        return match &entries[i].1 {
                            JsonValue::String(s) => Some(s),
                            _ => None,
                        };
                    }
                    i = i + 1;
                }
                None
            },
            _ => None,
        }
    }
}

/// The color category a leaf row shows its value in.
#[derive(Clone, Copy, Debug, PartialEq, Eq)]
pub enum JsonKind {
    String,
    Number,
    Bool,
    Null,
    Container,
}

/// The category of `v` (`value_color`'s choice).
pub open spec fn spec_kind(v: JsonValue) -> JsonKind {
    match v {
        JsonValue::String(_) => JsonKind::String,
        JsonValue::Number(_) => JsonKind::Number,
        JsonValue::Bool(_) => JsonKind::Bool,
        JsonValue::Null => JsonKind::Null,
        _ => JsonKind::Container,
    }
}

/// The color category `value` is shown in.
pub fn value_kind(value: &JsonValue) -> (k: JsonKind)
    ensures
        k == spec_kind(*value),
{
    match value {
        JsonValue::String(_) => JsonKind::String,
        JsonValue::Number(_) => JsonKind::Number,
        JsonValue::Bool(_) => JsonKind::Bool,
        JsonValue::Null => JsonKind::Null,
        _ => JsonKind::Container,
    }
}

/// What one row of the JSON tree shows, besides its indent and key label.
#[derive(Clone, Debug, PartialEq, Eq)]
pub enum JsonRowContent {
    /// A non-empty object or array: its collapse toggle (keyed by `path`)
    /// and a summary (`{…} N keys` when collapsed, `{` when open).
    Header { path: String, collapsed: bool, summary: String },
    /// A scalar or an empty container.
    Leaf { text: String, kind: JsonKind },
    /// The closing bracket of an open object or array.
    Closing { glyph: String },
}

/// One row of the JSON tree view.
#[derive(Clone, Debug, PartialEq, Eq)]
pub struct JsonRow {
    pub depth: usize,
    pub key: Option<String>,
    pub content: JsonRowContent,
}

/// `JsonRowContent` with its strings as character sequences.
pub enum ContentView {
    Header { path: Seq<char>, collapsed: bool, summary: Seq<char> },
    Leaf { text: Seq<char>, kind: JsonKind },
    Closing { glyph: Seq<char> },
}

/// `JsonRow` with its strings as character sequences.
pub struct RowView {
    pub depth: int,
    pub key: Option<Seq<char>>,
    pub content: ContentView,
}

impl View for JsonRow {
    type V = RowView;

    open spec fn view(&self) -> RowView {
        RowView {
            depth: self.depth as int,
            key: match self.key {
                Some(k) => Some(k@),
                None => None,
            },
            content: match self.content {
                JsonRowContent::Header { path, collapsed, summary } => ContentView::Header {
                    path: path@,
                    collapsed,
                    summary: summary@,
                },
                JsonRowContent::Leaf { text, kind } => ContentView::Leaf { text: text@, kind },
                JsonRowContent::Closing { glyph } => ContentView::Closing { glyph: glyph@ },
            },
        }
    }
}

/// The views of `rows`, in order.
pub open spec fn rows_view(rows: Seq<JsonRow>) -> Seq<RowView> {
    rows.map_values(|r: JsonRow| r@)
}

/// No path is listed twice: the list stands for a set of paths.
pub open spec fn no_repeats(collapsed: Seq<String>) -> bool {
    forall|i: int, j: int| #![trigger collapsed[i], collapsed[j]] 0 <= i < j < collapsed.len() ==> collapsed[i]@ != collapsed[j]@
}

/// `path` is one of the collapsed node paths.
pub open spec fn is_collapsed(collapsed: Seq<String>, path: Seq<char>) -> bool {
    exists|i: int| 0 <= i < collapsed.len() && (#[trigger] collapsed[i])@ == path
}

/// Lowercase hexadecimal digit for `d < 16`.
pub open spec fn hex_digit(d: nat) -> char {
    if d < 10 {
        crate::text::digit_char(d)
    } else if d == 10 {
        'a'
    } else if d == 11 {
        'b'
    } else if d == 12 {
        'c'
    } else if d == 13 {
        'd'
    } else if d == 14 {
        'e'
    } else {
        'f'
    }
}

/// How JSON writes `c` inside a string literal: quote, backslash and the
/// control chars below 0x20 escaped (`\b \t \n \f \r` by name, the
/// others as `\u00XX` in lowercase hex), everything else as is.
pub open spec fn escape_char(c: char) -> Seq<char> {
    let u = c as u32;
    if c == '"' {
        seq!['\\', '"']
    } else if c == '\\' {
        seq!['\\', '\\']
    } else if u == 0x08 {
        seq!['\\', 'b']
    } else if u == 0x09 {
        seq!['\\', 't']
    } else if u == 0x0a {
        seq!['\\', 'n']
    } else if u == 0x0c {
        seq!['\\', 'f']
    } else if u == 0x0d {
        seq!['\\', 'r']
    } else if u < 0x20 {
        seq!['\\', 'u', '0', '0', hex_digit((u / 16) as nat), hex_digit((u % 16) as nat)]
    } else {
        seq![c]
    }
}

/// `s` escaped char by char, in order.
pub open spec fn escape_seq(s: Seq<char>) -> Seq<char>
    decreases s.len(),
{
    if s.len() == 0 {
        seq![]
    } else {
        escape_seq(s.drop_last()) + escape_char(s.last())
    }
}

/// `s` as a JSON string literal: in quotes, escaped.
pub open spec fn json_string_text(s: Seq<char>) -> Seq<char> {
    seq!['"'] + escape_seq(s) + seq!['"']
}

/// `serde_json::to_string` on a string slice: its JSON string literal,
/// written by serde_json's `format_escaped_str` with its `ESCAPE` table,
/// as `json_string_text` states. Serializing a string slice into memory
/// does not fail, so the empty fall-back is never taken.
#[verifier::external_body]
fn json_string(s: &str) -> (t: String)
    ensures
        t@ == json_string_text(s@),
{
    match serde_json::to_string(s) {
        Ok(t) => t,
        Err(_) => String::new(),
    }
}

/// The compact JSON text of `v` (no whitespace, entries in order).
pub open spec fn json_text(v: JsonValue) -> Seq<char>
    decreases v, 1int, 0int,
{
    match v {
        JsonValue::Null => seq!['n', 'u', 'l', 'l'],
        JsonValue::Bool(b) => if b {
            seq!['t', 'r', 'u', 'e']
        } else {
            seq!['f', 'a', 'l', 's', 'e']
        },
        JsonValue::Number(n) => n@,
        JsonValue::String(s) => json_string_text(s@),
        JsonValue::Array(items) => seq!['['] + members_text(v, items@.len() as int) + seq![']'],
        JsonValue::Object(entries) => seq!['{'] + members_text(v, entries@.len() as int) + seq![
            '}',
        ],
    }
}

/// The first `i` members of the container `v`, comma separated: items as
/// JSON, entries as `"key":value`.
pub open spec fn members_text(v: JsonValue, i: int) -> Seq<char>
    decreases v, 0int, i,
{
    if i <= 0 {
        seq![]
    } else {
        let member = match v {
            JsonValue::Array(items) => if i <= items@.len() {
                json_text(items@[i - 1])
            } else {
                seq![]
            },
            JsonValue::Object(entries) => if i <= entries@.len() {
                json_string_text(entries@[i - 1].0@) + seq![':'] + json_text(entries@[i - 1].1)
            } else {
                seq![]
            },
            _ => seq![],
        };
        if i == 1 {
            member
        } else {
            members_text(v, i - 1) + seq![','] + member
        }
    }
}

/// Text shown for a scalar leaf: a string in quotes (as is, unescaped),
/// anything else as its JSON text.
pub open spec fn scalar_text_spec(v: JsonValue) -> Seq<char> {
    match v {
        JsonValue::String(s) => seq!['"'] + s@ + seq!['"'],
        _ => json_text(v),
    }
}

/// Summary of a collapsed container of `n` children: `{…} n keys` for an
/// object, `[…] n items` for an array.
pub open spec fn collapsed_summary(is_object: bool, n: nat) -> Seq<char> {
    if is_object {
        seq!['{', '\u{2026}', '}', ' '] + dec_str(n) + seq![' ', 'k', 'e', 'y', 's']
    } else {
        seq!['[', '\u{2026}', ']', ' '] + dec_str(n) + seq![' ', 'i', 't', 'e', 'm', 's']
    }
}

/// Rows for a node: a header (plus, unless collapsed, its children one
/// level deeper and a closing row) for a non-empty container, a single
/// leaf otherwise.
pub open spec fn json_rows(
    key: Option<Seq<char>>,
    v: JsonValue,
    path: Seq<char>,
    collapsed: Seq<String>,
    depth: int,
) -> Seq<RowView>
    decreases v, 1int, 0int,
{
    let n = match v {
        JsonValue::Object(entries) => entries@.len(),
        JsonValue::Array(items) => items@.len(),
        _ => 0,
    };
    let is_object = v is Object;
    if (v is Object || v is Array) && n > 0 {
        let c = is_collapsed(collapsed, path);
        let header = RowView {
            depth,
            key,
            content: ContentView::Header {
                path,
                collapsed: c,
                summary: if c {
                    collapsed_summary(is_object, n)
                } else if is_object {
                    seq!['{']
                } else {
                    seq!['[']
                },
            },
        };
        if c {
            seq![header]
        } else {
            let close = RowView {
                depth,
                key: None,
                content: ContentView::Closing {
                    glyph: if is_object {
                        seq!['}']
                    } else {
                        seq![']']
                    },
                },
            };
            seq![header] + child_rows(v, n as int, path, collapsed, depth) + seq![close]
        }
    } else {
        let text = match v {
            JsonValue::Object(_) => seq!['{', '}'],
            JsonValue::Array(_) => seq!['[', ']'],
            _ => scalar_text_spec(v),
        };
        seq![
            RowView {
                depth,
                key,
                content: ContentView::Leaf {
                    text,
                    kind: if v is Object || v is Array {
                        JsonKind::Container
                    } else {
                        spec_kind(v)
                    },
                },
            },
        ]
    }
}

/// Rows of the first `i` children of the container `v`: an object's
/// entries get paths `path.key`, an array's items `path[index]`.
pub open spec fn child_rows(
    v: JsonValue,
    i: int,
    path: Seq<char>,
    collapsed: Seq<String>,
    depth: int,
) -> Seq<RowView>
    decreases v, 0int, i,
{
    if i <= 0 {
        seq![]
    } else {
        match v {
            JsonValue::Object(entries) => if i <= entries@.len() {
                let (k, child) = entries@[i - 1];
                child_rows(v, i - 1, path, collapsed, depth) + json_rows(
                    Some(k@),
                    child,
                    path + seq!['.'] + k@,
                    collapsed,
                    depth + 1,
                )
            } else {
                seq![]
            },
            JsonValue::Array(items) => if i <= items@.len() {
                child_rows(v, i - 1, path, collapsed, depth) + json_rows(
                    None,
                    items@[i - 1],
                    path + seq!['['] + dec_str((i - 1) as nat) + seq![']'],
                    collapsed,
                    depth + 1,
                )
            } else {
                seq![]
            },
            _ => seq![],
        }
    }
}

/// Nesting depth of `v` below itself (0 for a scalar).
pub open spec fn height(v: JsonValue) -> nat
    decreases v, 1int, 0int,
{
    match v {
        JsonValue::Object(entries) => children_height(v, entries@.len() as int),
        JsonValue::Array(items) => children_height(v, items@.len() as int),
        _ => 0,
    }
}

/// One more than the greatest height among the first `i` children of `v`
/// (0 when there are none).
pub open spec fn children_height(v: JsonValue, i: int) -> nat
    decreases v, 0int, i,
{
    if i <= 0 {
        0
    } else {
        let h = match v {
            JsonValue::Object(entries) => if i <= entries@.len() {
                height(entries@[i - 1].1) + 1
            } else {
                0
            },
            JsonValue::Array(items) => if i <= items@.len() {
                height(items@[i - 1]) + 1
            } else {
                0
            },
            _ => 0,
        };
        let rest = children_height(v, i - 1);
        if h > rest {
            h
        } else {
            rest
        }
    }
}

proof fn lemma_children_height_mono(v: JsonValue, i: int, j: int)
    requires
        i <= j,
    ensures
        children_height(v, i) <= children_height(v, j),
    decreases j - i,
{
    if i < j {
        lemma_children_height_mono(v, i, j - 1);
    }
}

proof fn lemma_rows_view_push(rows: Seq<JsonRow>, r: JsonRow)
    ensures
        rows_view(rows.push(r)) == rows_view(rows).push(r@),
{
    assert(rows_view(rows.push(r)) =~= rows_view(rows).push(r@));
}

fn contains_path(collapsed: &Vec<String>, path: &String) -> (b: bool)
    ensures
        b == is_collapsed(collapsed@, path@),
{
    let n = collapsed.len();
    let mut i: usize = 0;
    while i < n
        invariant
            n == collapsed@.len(),
            i <= n,
            forall|j: int| 0 <= j < i ==> (#[trigger] collapsed@[j])@ != path@,
        decreases n - i,
    {
        if collapsed[i] == *path {
            return true;
        }
        i = i + 1;
    }
    false
}

/// Appends the compact JSON text of `value` to `out`.
fn push_json(out: &mut String, value: &JsonValue)
    ensures
        final(out)@ == old(out)@ + json_text(*value),
    decreases value,
{
    proof {
        reveal_strlit("null");
        reveal_strlit("true");
        reveal_strlit("false");
    }
    match value {
        JsonValue::Null => out.append("null"),
        JsonValue::Bool(b) => out.append(if *b { "true" } else { "false" }),
        JsonValue::Number(n) => out.append(n.as_str()),
        JsonValue::String(s) => out.append(json_string(s.as_str()).as_str()),
        JsonValue::Array(items) => {
            push_char(out, '[');
            let ghost start = out@;
            let n = items.len();
            let mut i: usize = 0;
            while i < n
                invariant
                    i <= n,
                    n == items@.len(),
                    *value == JsonValue::Array(*items),
                    out@ == start + members_text(*value, i as int),
                decreases n - i,
            {
                if i > 0 {
                    push_char(out, ',');
                }
                proof {
                    assert(decreases_to!(*value => value->Array_0));
                    assert(decreases_to!(*items => items@));
                    assert(decreases_to!(items@ => items@[i as int]));
                }
                push_json(out, &items[i]);
                i = i + 1;
            }
            push_char(out, ']');
        },
        JsonValue::Object(entries) => {
            push_char(out, '{');
            let ghost start = out@;
            let n = entries.len();
            let mut i: usize = 0;
            while i < n
                invariant
                    i <= n,
                    n == entries@.len(),
                    *value == JsonValue::Object(*entries),
                    out@ == start + members_text(*value, i as int),
                decreases n - i,
            {
                if i > 0 {
                    push_char(out, ',');
                }
                out.append(json_string(entries[i].0.as_str()).as_str());
                push_char(out, ':');
                proof {
                    assert(decreases_to!(*value => value->Object_0));
                    assert(decreases_to!(*entries => entries@));
                    assert(decreases_to!(entries@ => entries@[i as int]));
                    assert(decreases_to!(entries@[i as int] => entries@[i as int].1));
                }
                push_json(out, &entries[i].1);
                i = i + 1;
            }
            push_char(out, '}');
        },
    }
}

/// Text shown for a value's leaf row: a string in quotes, anything else
/// as its JSON text.
pub fn scalar_text(value: &JsonValue) -> (t: String)
    ensures
        t@ == scalar_text_spec(*value),
{
    let mut t = String::new();
    match value {
        JsonValue::String(s) => {
            push_char(&mut t, '"');
            t.append(s.as_str());
            push_char(&mut t, '"');
        },
        _ => push_json(&mut t, value),
    }
    t
}

fn opt_key(key: Option<&str>) -> (k: Option<String>)
    ensures
        match key {
            Some(s) => k matches Some(t) && t@ == s@,
            None => k is None,
        },
{
    match key {
        Some(s) => Some(s.to_owned()),
        None => None,
    }
}

/// Appends to `out` the rows of the node `value` (keyed `key` in its
/// parent object, collapse-state key `path`, e.g. `root.foo[2]`) at
/// indent `depth`, recursing into its children unless it is collapsed.
pub fn node_rows(
    key: Option<&str>,
    value: &JsonValue,
    path: String,
    collapsed: &Vec<String>,
    depth: usize,
    out: &mut Vec<JsonRow>,
)
    requires
        depth + height(*value) <= usize::MAX,
        no_repeats(collapsed@),
    ensures
        rows_view(final(out)@) == rows_view(old(out)@) + json_rows(
            match key {
                Some(k) => Some(k@),
                None => None,
            },
            *value,
            path@,
            collapsed@,
            depth as int,
        ),
    decreases value,
{
    let ghost key_view = match key {
        Some(k) => Some(k@),
        None => None,
    };
    let ghost old_rows = rows_view(old(out)@);
    proof {
        reveal_strlit("{");
        reveal_strlit("[");
        reveal_strlit("}");
        reveal_strlit("]");
        reveal_strlit(".");
        reveal_strlit("{\u{2026}} ");
        reveal_strlit("[\u{2026}] ");
        reveal_strlit(" keys");
        reveal_strlit(" items");
    }
    let (is_object, n) = match value {
        JsonValue::Object(entries) => (true, entries.len()),
        JsonValue::Array(items) => (false, items.len()),
        _ => (false, 0),
    };
    let is_container = match value {
        JsonValue::Object(_) | JsonValue::Array(_) => true,
        _ => false,
    };
    if !is_container || n == 0 {
        let text = match value {
            JsonValue::Object(_) => "{}".to_owned(),
            JsonValue::Array(_) => "[]".to_owned(),
            _ => scalar_text(value),
        };
        proof {
            reveal_strlit("{}");
            reveal_strlit("[]");
            let expected = match *value {
                JsonValue::Object(_) => seq!['{', '}'],
                JsonValue::Array(_) => seq!['[', ']'],
                _ => scalar_text_spec(*value),
            };
            assert(text@ =~= expected);
        }
        let kind = if is_container { JsonKind::Container } else { value_kind(value) };
        let row = JsonRow { depth, key: opt_key(key), content: JsonRowContent::Leaf { text, kind } };
        let ghost pre = out@;
        out.push(row);
        proof {
            lemma_rows_view_push(pre, row);
            let jr = json_rows(key_view, *value, path@, collapsed@, depth as int);
            assert(jr.len() == 1);
            assert(jr[0].depth == row@.depth);
            assert(jr[0].key == row@.key);
            assert(jr[0].content == row@.content);
            assert(json_rows(key_view, *value, path@, collapsed@, depth as int) =~= seq![row@]);
            assert(rows_view(out@) =~= old_rows + json_rows(
                key_view,
                *value,
                path@,
                collapsed@,
                depth as int,
            ));
        }
        return;
    }
    let is_collapsed_here = contains_path(collapsed, &path);
    let summary = if is_collapsed_here {
        let mut s = if is_object { "{\u{2026}} ".to_owned() } else { "[\u{2026}] ".to_owned() };
        s.append(decimal(n as u128).as_str());
        s.append(if is_object { " keys" } else { " items" });
        s
    } else if is_object {
        "{".to_owned()
    } else {
        "[".to_owned()
    };
    proof {
        let exp = if is_collapsed_here {
            collapsed_summary(is_object, n as nat)
        } else if is_object {
            seq!['{']
        } else {
            seq!['[']
        };
        assert(summary@ =~= exp);
    }
    let header = JsonRow {
        depth,
        key: opt_key(key),
        content: JsonRowContent::Header { path: path.clone(), collapsed: is_collapsed_here, summary },
    };
    let ghost pre = out@;
    out.push(header);
    let ghost header_rows = rows_view(out@);
    proof {
        lemma_rows_view_push(pre, header);
        assert(header@ == json_rows(key_view, *value, path@, collapsed@, depth as int)[0]);
    }
    if is_collapsed_here {
        proof {
            assert(rows_view(out@) =~= old_rows + json_rows(
                key_view,
                *value,
                path@,
                collapsed@,
                depth as int,
            ));
        }
        return;
    }
    let mut i: usize = 0;
    while i < n
        invariant
            i <= n,
            depth + height(*value) <= usize::MAX,
            rows_view(out@) == header_rows + child_rows(*value, i as int, path@, collapsed@, depth as int),
            no_repeats(collapsed@),
            match *value {
                JsonValue::Object(entries) => is_object && n == entries@.len(),
                JsonValue::Array(items) => !is_object && n == items@.len(),
                _ => false,
            },
        decreases n - i,
    {
        proof {
            lemma_children_height_mono(*value, i as int + 1, n as int);
        }
        let ghost before = rows_view(out@);
        match value {
            JsonValue::Object(entries) => {
                let mut child_path = path.clone();
                child_path.append(".");
                child_path.append(entries[i].0.as_str());
                proof {
                    reveal_strlit(".");
                    assert(child_path@ =~= path@ + seq!['.'] + entries@[i as int].0@);
                }
                node_rows(Some(entries[i].0.as_str()), &entries[i].1, child_path, collapsed, depth + 1, out);
            },
            JsonValue::Array(items) => {
                let mut child_path = path.clone();
                child_path.append("[");
                child_path.append(decimal(i as u128).as_str());
                child_path.append("]");
                proof {
                    reveal_strlit("[");
                    reveal_strlit("]");
                    assert(child_path@ =~= path@ + seq!['['] + dec_str(i as nat) + seq![']']);
                }
                node_rows(None, &items[i], child_path, collapsed, depth + 1, out);
            },
            _ => {},
        }
        proof {
            assert(rows_view(out@) =~= header_rows + child_rows(*value, i as int + 1, path@, collapsed@, depth as int));
        }
        i = i + 1;
    }
    let glyph = if is_object { "}".to_owned() } else { "]".to_owned() };
    proof {
        reveal_strlit("}");
        reveal_strlit("]");
        assert(glyph@ =~= (if is_object { seq!['}'] } else { seq![']'] }));
    }
    let close = JsonRow { depth, key: None, content: JsonRowContent::Closing { glyph } };
    let ghost pre = out@;
    out.push(close);
    proof {
        lemma_rows_view_push(pre, close);
        let jr = json_rows(key_view, *value, path@, collapsed@, depth as int);
        assert(jr =~= seq![header_rows.last()] + child_rows(*value, n as int, path@, collapsed@, depth as int) + seq![close@]);
        assert(rows_view(out@) =~= old_rows + jr);
    }
}

/// Law: a scalar is shown in the colour of its own kind, and anything
/// holding other values in the container colour: strings as strings,
/// numbers as numbers, booleans as booleans, null as null.
pub proof fn lemma_value_kind_is_own_variant(v: JsonValue)
    ensures
        v is String ==> spec_kind(v) == JsonKind::String,
        v is Number ==> spec_kind(v) == JsonKind::Number,
        v is Bool ==> spec_kind(v) == JsonKind::Bool,
        v is Null ==> spec_kind(v) == JsonKind::Null,
        (v is Object || v is Array) ==> spec_kind(v) == JsonKind::Container,
{
}

/// Law: a scalar value is one leaf row at its depth and key: a string in
/// quotes with the string kind, a number as its text with the number
/// kind, a boolean as `true`/`false` with the boolean kind, null as
/// `null` with the null kind.
pub proof fn lemma_scalar_leaf_rows(
    key: Option<Seq<char>>,
    v: JsonValue,
    path: Seq<char>,
    collapsed: Seq<String>,
    depth: int,
)
    ensures
        v matches JsonValue::String(s) ==> json_rows(key, v, path, collapsed, depth) == seq![
            RowView { depth, key, content: ContentView::Leaf { text: seq!['"'] + s@ + seq!['"'], kind: JsonKind::String } },
        ],
        v matches JsonValue::Number(t) ==> json_rows(key, v, path, collapsed, depth) == seq![
            RowView { depth, key, content: ContentView::Leaf { text: t@, kind: JsonKind::Number } },
        ],
        v matches JsonValue::Bool(b) ==> json_rows(key, v, path, collapsed, depth) == seq![
            RowView {
                depth,
                key,
                content: ContentView::Leaf {
                    text: if b { seq!['t', 'r', 'u', 'e'] } else { seq!['f', 'a', 'l', 's', 'e'] },
                    kind: JsonKind::Bool,
                },
            },
        ],
        v is Null ==> json_rows(key, v, path, collapsed, depth) == seq![
            RowView { depth, key, content: ContentView::Leaf { text: seq!['n', 'u', 'l', 'l'], kind: JsonKind::Null } },
        ],
{
}

} // verus!
