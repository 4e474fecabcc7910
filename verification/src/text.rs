//! Character/byte arithmetic over UTF-8 text.
use vstd::prelude::*;

verus! {

/// Number of bytes in the UTF-8 encoding of `c`.
pub open spec fn utf8_width(c: char) -> nat {
    if (c as u32) < 0x80 {
        1
    } else if (c as u32) < 0x800 {
        2
    } else if (c as u32) < 0x10000 {
        3
    } else {
        4
    }
}

/// Byte length of the UTF-8 encoding of `s`.
pub open spec fn utf8_len(s: Seq<char>) -> nat
    decreases s.len(),
{
    if s.len() == 0 {
        0
    } else {
        utf8_len(s.drop_last()) + utf8_width(s.last())
    }
}

/// Byte offset, within the UTF-8 encoding of `s`, at which its `k`-th
/// character starts (the whole length for `k == s.len()`).
pub open spec fn byte_offset(s: Seq<char>, k: int) -> nat {
    utf8_len(s.take(k))
}

/// `b` is a byte offset at which some character of `s` starts, or the end
/// of its encoding.
pub open spec fn is_boundary(s: Seq<char>, b: int) -> bool {
    exists|k: int| 0 <= k <= s.len() && byte_offset(s, k) == b
}

/// Appending a character adds its width.
pub proof fn lemma_offset_step(s: Seq<char>, k: int)
    requires
        0 <= k < s.len(),
    ensures
        byte_offset(s, k + 1) == byte_offset(s, k) + utf8_width(s[k]),
{
    assert(s.take(k + 1).drop_last() =~= s.take(k));
}

/// Byte offsets grow strictly with the character index.
pub proof fn lemma_offset_strict(s: Seq<char>, i: int, j: int)
    requires
        0 <= i < j <= s.len(),
    ensures
        byte_offset(s, i) + j - i <= byte_offset(s, j),
    decreases j - i,
{
    lemma_offset_step(s, j - 1);
    if i < j - 1 {
        lemma_offset_strict(s, i, j - 1);
    }
}

/// Distinct character indices start at distinct byte offsets.
pub proof fn lemma_offset_injective(s: Seq<char>, i: int, j: int)
    requires
        0 <= i <= s.len(),
        0 <= j <= s.len(),
        byte_offset(s, i) == byte_offset(s, j),
    ensures
        i == j,
{
    if i < j {
        lemma_offset_strict(s, i, j);
    } else if j < i {
        lemma_offset_strict(s, j, i);
    }
}

/// Law: `byte_to_char` undoes `char_to_byte`. For any char index `k` of
/// `s` (the end included), the only index that `byte_to_char`'s contract
/// allows for the byte offset `char_to_byte` gives for `k` is `k` itself.
pub proof fn lemma_char_byte_round_trip(s: Seq<char>, k: int, back: int)
    requires
        0 <= k <= s.len(),
        0 <= back <= s.len(),
        byte_offset(s, k) >= utf8_len(s) ==> back == s.len(),
        byte_offset(s, k) < utf8_len(s) ==> byte_offset(s, back) == byte_offset(s, k),
    ensures
        back == k,
{
    assert(s.take(s.len() as int) =~= s);
    if byte_offset(s, k) >= utf8_len(s) {
        if k < s.len() {
            lemma_offset_strict(s, k, s.len() as int);
        }
    } else {
        lemma_offset_injective(s, back, k);
    }
}

/// Every byte offset `char_to_byte` returns for an index inside `s` is a
/// char boundary, so `byte_to_char` may always be called on it.
pub proof fn lemma_char_to_byte_boundary(s: Seq<char>, k: int)
    requires
        0 <= k <= s.len(),
    ensures
        is_boundary(s, byte_offset(s, k) as int),
{
}

/// Peeling the first character off a sequence.
proof fn lemma_utf8_len_first(s: Seq<char>)
    requires
        s.len() > 0,
    ensures
        utf8_len(s) == utf8_width(s[0]) + utf8_len(s.drop_first()),
    decreases s.len(),
{
    if s.len() > 1 {
        lemma_utf8_len_first(s.drop_last());
        assert(s.drop_last().drop_first() =~= s.drop_first().drop_last());
        assert(s.drop_last()[0] == s[0]);
        assert(s.drop_first().last() == s.last());
        assert(utf8_len(s.drop_first()) == utf8_len(s.drop_first().drop_last()) + utf8_width(
            s.drop_first().last(),
        ));
    } else {
        assert(s.drop_first().len() == 0);
        assert(s.drop_last().len() == 0);
        assert(utf8_len(s.drop_first()) == 0);
        assert(utf8_len(s.drop_last()) == 0);
    }
}

/// `utf8_len` agrees with vstd's encoding of a character sequence.
pub proof fn lemma_utf8_len_encode(s: Seq<char>)
    ensures
        utf8_len(s) == vstd::utf8::encode_utf8(s).len(),
    decreases s.len(),
{
    if s.len() > 0 {
        lemma_utf8_len_first(s);
        lemma_utf8_len_encode(s.drop_first());
        vstd::utf8::char_is_scalar(s[0]);
    }
}

/// The byte length of a string slice is `utf8_len` of its characters.
pub fn byte_len(text: &str) -> (n: usize)
    ensures
        n == utf8_len(text@),
{
    let bytes = text.as_bytes();
    proof {
        lemma_utf8_len_encode(text@);
    }
    bytes.len()
}

/// Number of bytes `c` takes in UTF-8.
pub fn char_width(c: char) -> (w: usize)
    ensures
        w == utf8_width(c),
{
    let u = c as u32;
    if u < 0x80 {
        1
    } else if u < 0x800 {
        2
    } else if u < 0x10000 {
        3
    } else {
        4
    }
}

/// The characters of `s`, in order.
pub fn chars_of(s: &str) -> (v: Vec<char>)
    ensures
        v@ == s@,
{
    let mut v: Vec<char> = Vec::new();
    for c in it: s.chars()
        invariant
            v@ == it.seq().take(it.index() as int),
    {
        v.push(c);
    }
    v
}

/// Byte offset of the `char_idx`-th char of `text`, or `text.len()` past
/// the end.
pub fn char_to_byte(text: &str, char_idx: usize) -> (b: usize)
    ensures
        char_idx <= text@.len() ==> b == byte_offset(text@, char_idx as int),
        char_idx > text@.len() ==> b == utf8_len(text@),
{
    let total = byte_len(text);
    let chars = chars_of(text);
    let n = chars.len();
    let mut i: usize = 0;
    let mut b: usize = 0;
    while i < n && i < char_idx
        invariant
            chars@ == text@,
            n == chars@.len(),
            i <= n,
            i <= char_idx,
            b == byte_offset(text@, i as int),
            total == utf8_len(text@),
        decreases n - i,
    {
        proof {
            lemma_offset_step(text@, i as int);
            if i + 1 < n {
                lemma_offset_strict(text@, i as int + 1, n as int);
            }
            assert(text@.take(n as int) =~= text@);
        }
        b = b + char_width(chars[i]);
        i = i + 1;
    }
    proof {
        assert(text@.take(n as int) =~= text@);
    }
    b
}

/// Char offset of the char starting at byte `byte_idx` of `text` (every
/// offset past the end counts as the end) — the inverse of `char_to_byte`.
pub fn byte_to_char(text: &str, byte_idx: usize) -> (k: usize)
    requires
        byte_idx >= utf8_len(text@) || is_boundary(text@, byte_idx as int),
    ensures
        k <= text@.len(),
        byte_idx >= utf8_len(text@) ==> k == text@.len(),
        byte_idx < utf8_len(text@) ==> byte_offset(text@, k as int) == byte_idx,
{
    let chars = chars_of(text);
    let n = chars.len();
    let mut i: usize = 0;
    let mut b: usize = 0;
    proof {
        assert(text@.take(n as int) =~= text@);
    }
    while i < n && b < byte_idx
        invariant
            chars@ == text@,
            n == chars@.len(),
            i <= n,
            b == byte_offset(text@, i as int),
            b <= byte_idx,
            byte_offset(text@, n as int) == utf8_len(text@),
            byte_idx >= utf8_len(text@) || is_boundary(text@, byte_idx as int),
            forall|k: int| 0 <= k < i ==> byte_offset(text@, k) < byte_idx,
        decreases n - i,
    {
        proof {
            lemma_offset_step(text@, i as int);
            if i + 1 < n {
                lemma_offset_strict(text@, i as int + 1, n as int);
            }
            if byte_idx < utf8_len(text@) {
                let k = choose|k: int| 0 <= k <= text@.len() && byte_offset(text@, k) == byte_idx;
                if k <= i {
                    if k < i {
                        assert(byte_offset(text@, k) < byte_idx);
                    }
                } else {
                    if k > i + 1 {
                        lemma_offset_strict(text@, i as int + 1, k);
                    }
                }
            }
        }
        b = b + char_width(chars[i]);
        i = i + 1;
    }
    proof {
        if byte_idx < utf8_len(text@) {
            let k = choose|k: int| 0 <= k <= text@.len() && byte_offset(text@, k) == byte_idx;
            if i == n {
                if k < n {
                    assert(byte_offset(text@, k) < byte_idx);
                }
            }
        } else {
            if i < n {
                lemma_offset_strict(text@, i as int, n as int);
            }
        }
    }
    i
}

/// The ASCII digit for `d < 10`.
pub open spec fn digit_char(d: nat) -> char {
    if d == 0 {
        '0'
    } else if d == 1 {
        '1'
    } else if d == 2 {
        '2'
    } else if d == 3 {
        '3'
    } else if d == 4 {
        '4'
    } else if d == 5 {
        '5'
    } else if d == 6 {
        '6'
    } else if d == 7 {
        '7'
    } else if d == 8 {
        '8'
    } else {
        '9'
    }
}

/// Decimal rendering of `n`, without leading zeros (`"0"` for zero).
pub open spec fn dec_str(n: nat) -> Seq<char>
    decreases n,
{
    if n < 10 {
        seq![digit_char(n)]
    } else {
        dec_str(n / 10).push(digit_char(n % 10))
    }
}

fn digit_str(d: u128) -> (s: &'static str)
    requires
        d < 10,
    ensures
        s@ == seq![digit_char(d as nat)],
{
    proof {
        reveal_strlit("0");
        reveal_strlit("1");
        reveal_strlit("2");
        reveal_strlit("3");
        reveal_strlit("4");
        reveal_strlit("5");
        reveal_strlit("6");
        reveal_strlit("7");
        reveal_strlit("8");
        reveal_strlit("9");
    }
    if d == 0 {
        "0"
    } else if d == 1 {
        "1"
    } else if d == 2 {
        "2"
    } else if d == 3 {
        "3"
    } else if d == 4 {
        "4"
    } else if d == 5 {
        "5"
    } else if d == 6 {
        "6"
    } else if d == 7 {
        "7"
    } else if d == 8 {
        "8"
    } else {
        "9"
    }
}

/// Decimal rendering of `n` (what `format!("{n}")` prints).
pub fn decimal(n: u128) -> (s: String)
    ensures
        s@ == dec_str(n as nat),
    decreases n,
{
    if n < 10 {
        digit_str(n).to_owned()
    } else {
        let mut s = decimal(n / 10);
        s.append(digit_str(n % 10));
        s
    }
}

/// `String::push`: appends the single character `c` to `s`.
#[verifier::external_body]
pub fn push_char(s: &mut String, c: char)
    ensures
        final(s)@ == old(s)@.push(c),
{
    s.push(c);
}

/// Whether two string slices hold the same text.
pub fn str_eq(a: &str, b: &str) -> (r: bool)
    ensures
        r == (a@ == b@),
{
    a.to_owned() == b.to_owned()
}

/// `c` has the Unicode White_Space property (what `char::is_whitespace`
/// tests).
pub open spec fn is_white(c: char) -> bool {
    let u = c as u32;
    (0x09 <= u && u <= 0x0d) || u == 0x20 || u == 0x85 || u == 0xa0 || u == 0x1680 || (0x2000 <= u
        && u <= 0x200a) || u == 0x2028 || u == 0x2029 || u == 0x202f || u == 0x205f || u == 0x3000
}

/// Whether `c` is Unicode whitespace.
pub fn is_white_char(c: char) -> (b: bool)
    ensures
        b == is_white(c),
{
    let u = c as u32;
    (0x09 <= u && u <= 0x0d) || u == 0x20 || u == 0x85 || u == 0xa0 || u == 0x1680 || (0x2000 <= u
        && u <= 0x200a) || u == 0x2028 || u == 0x2029 || u == 0x202f || u == 0x205f || u == 0x3000
}

/// `s` cut at every `\n` (the newlines themselves dropped): always at
/// least one piece, the last one being what follows the final newline.
pub open spec fn split_newlines(s: Seq<char>) -> Seq<Seq<char>>
    decreases s.len(),
{
    if s.len() == 0 {
        seq![seq![]]
    } else {
        let p = split_newlines(s.drop_last());
        if s.last() == '\n' {
            p.push(seq![])
        } else {
            p.update(p.len() - 1, p.last().push(s.last()))
        }
    }
}

/// A newline-terminated line without its optional trailing `\r`.
pub open spec fn strip_cr(l: Seq<char>) -> Seq<char> {
    if l.len() > 0 && l.last() == '\r' {
        l.drop_last()
    } else {
        l
    }
}

/// The lines of `s` as `str::lines` yields them: split at `\n` (a `\r`
/// right before it dropped too), the final line ending optional, so an
/// empty text has no lines.
pub open spec fn lines_of(s: Seq<char>) -> Seq<Seq<char>> {
    let p = split_newlines(s);
    let done = p.drop_last().map_values(|l: Seq<char>| strip_cr(l));
    if p.last().len() == 0 {
        done
    } else {
        done.push(p.last())
    }
}

proof fn lemma_split_newlines_nonempty(s: Seq<char>)
    ensures
        split_newlines(s).len() >= 1,
    decreases s.len(),
{
    if s.len() > 0 {
        lemma_split_newlines_nonempty(s.drop_last());
    }
}

/// The lines of `text` (`text.lines()`), each as an owned string.
pub fn text_lines(text: &str) -> (lines: Vec<String>)
    ensures
        lines@.map_values(|l: String| l@) == lines_of(text@),
{
    let chars = chars_of(text);
    let n = chars.len();
    let mut lines: Vec<String> = Vec::new();
    let mut current = String::new();
    // A `\r` seen at the end of the current piece, not yet appended.
    let mut pending_cr = false;
    let mut i: usize = 0;
    proof {
        assert(text@.take(0) =~= Seq::<char>::empty());
    }
    while i < n
        invariant
            chars@ == text@,
            n == text@.len(),
            i <= n,
            split_newlines(text@.take(i as int)).len() >= 1,
            lines@.map_values(|l: String| l@) == split_newlines(text@.take(i as int)).drop_last().map_values(
                |l: Seq<char>| strip_cr(l),
            ),
            split_newlines(text@.take(i as int)).last() == (if pending_cr {
                current@.push('\r')
            } else {
                current@
            }),
            !pending_cr ==> current@.len() == 0 || current@.last() != '\r',
        decreases n - i,
    {
        let c = chars[i];
        let ghost prefix = text@.take(i as int);
        let ghost old_lines = lines@.map_values(|l: String| l@);
        proof {
            assert(text@.take(i as int + 1).drop_last() =~= prefix);
            lemma_split_newlines_nonempty(prefix);
        }
        if c == '\n' {
            let line = current;
            lines.push(line);
            current = String::new();
            pending_cr = false;
            proof {
                let p = split_newlines(prefix);
                assert(split_newlines(text@.take(i as int + 1)) == p.push(seq![]));
                assert(strip_cr(p.last()) == line@);
                assert(lines@.map_values(|l: String| l@) =~= old_lines.push(line@));
                assert(p.push(seq![]).drop_last() =~= p);
                assert(p.map_values(|l: Seq<char>| strip_cr(l)) =~= p.drop_last().map_values(
                    |l: Seq<char>| strip_cr(l),
                ).push(strip_cr(p.last())));
            }
        } else if c == '\r' {
            if pending_cr {
                push_char(&mut current, '\r');
            }
            pending_cr = true;
            proof {
                let p = split_newlines(prefix);
                assert(p.update(p.len() - 1, p.last().push(c)).drop_last() =~= p.drop_last());
            }
        } else {
            if pending_cr {
                push_char(&mut current, '\r');
            }
            pending_cr = false;
            push_char(&mut current, c);
            proof {
                let p = split_newlines(prefix);
                assert(p.update(p.len() - 1, p.last().push(c)).drop_last() =~= p.drop_last());
            }
        }
        i = i + 1;
    }
    proof {
        assert(text@.take(n as int) =~= text@);
    }
    if pending_cr {
        push_char(&mut current, '\r');
    }
    if !current.as_str().is_empty() {
        let ghost before = lines@.map_values(|l: String| l@);
        lines.push(current);
        proof {
            assert(lines@.map_values(|l: String| l@) =~= before.push(current@));
        }
    }
    lines
}

} // verus!
