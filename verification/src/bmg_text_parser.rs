use vstd::prelude::*;

use crate::bmg_message::{
    MessageAttributes, MessageSingleLang, MessageText, PartView, SingleView, Tag, TagView, TextPart, text_view,
};
use crate::text_codec::{chars_of, string_of};
use crate::utils::unpack_u16;

verus! {

// ---------------------------------------------------------------------------
// Hexadecimal numbers
// ---------------------------------------------------------------------------

pub open spec fn is_hex_digit(c: char) -> bool {
    (48 <= c as u32 <= 57) || (97 <= c as u32 <= 102) || (65 <= c as u32 <= 70)
}

/// The value of a hexadecimal digit (0 for other characters).
pub open spec fn hex_val(c: char) -> nat {
    if 48 <= c as u32 <= 57 {
        (c as u32 - 48) as nat
    } else if 97 <= c as u32 <= 102 {
        (c as u32 - 87) as nat
    } else if 65 <= c as u32 <= 70 {
        (c as u32 - 55) as nat
    } else {
        0
    }
}

/// The value of a string of hexadecimal digits.
pub open spec fn hex_value(s: Seq<char>) -> nat
    decreases s.len(),
{
    if s.len() == 0 {
        0
    } else {
        hex_value(s.drop_last()) * 16 + hex_val(s.last())
    }
}

pub open spec fn all_hex(s: Seq<char>) -> bool {
    forall|i: int| 0 <= i < s.len() ==> is_hex_digit(#[trigger] s[i])
}

/// The digits of a number: the text without one leading `+`.
pub open spec fn hex_digits_of(s: Seq<char>) -> Seq<char> {
    if s.len() > 0 && s[0] == '+' {
        s.drop_first()
    } else {
        s
    }
}

/// Reading `s` as a hexadecimal number of an unsigned type whose largest
/// value is `max`: an optional `+`, then at least one hexadecimal digit and
/// nothing else, with a value of at most `max`.
pub open spec fn parse_hex(s: Seq<char>, max: nat) -> Option<nat> {
    let d = hex_digits_of(s);
    if d.len() == 0 || !all_hex(d) || hex_value(d) > max {
        None
    } else {
        Some(hex_value(d))
    }
}

pub proof fn lemma_hex_prefix(d: Seq<char>, k: int)
    requires
        0 <= k <= d.len(),
    ensures
        hex_value(d.take(k)) <= hex_value(d),
    decreases d.len() - k,
{
    if k < d.len() {
        lemma_hex_prefix(d, k + 1);
        assert(d.take(k + 1).drop_last() =~= d.take(k));
    } else {
        assert(d.take(k) =~= d);
    }
}

fn hex_digit_value(c: char) -> (r: Option<u64>)
    ensures
        r matches Some(v) ==> is_hex_digit(c) && v == hex_val(c),
        r is None ==> !is_hex_digit(c),
{
    let u = c as u32;
    if 48 <= u && u <= 57 {
        Some((u - 48) as u64)
    } else if 97 <= u && u <= 102 {
        Some((u - 87) as u64)
    } else if 65 <= u && u <= 70 {
        Some((u - 55) as u64)
    } else {
        None
    }
}

/// Reads `s` as a hexadecimal number of at most `max` (see [`parse_hex`]).
pub fn parse_hex_chars(s: &[char], max: u64) -> (r: Option<u64>)
    ensures
        r matches Some(v) ==> parse_hex(s@, max as nat) == Some(v as nat),
        r is None ==> parse_hex(s@, max as nat) is None,
{
    let start: usize = if s.len() > 0 && s[0] == '+' { 1 } else { 0 };
    let ghost d = hex_digits_of(s@);
    assert(d =~= s@.skip(start as int));
    if start == s.len() {
        return None;
    }
    let mut v: u64 = 0;
    let mut i: usize = start;
    while i < s.len()
        invariant
            start <= i <= s@.len(),
            d == s@.skip(start as int),
            d == hex_digits_of(s@),
            v as nat == hex_value(d.take(i - start)),
            v <= max,
            forall|j: int| 0 <= j < i - start ==> is_hex_digit(#[trigger] d[j]),
        decreases s@.len() - i,
    {
        assert(d.take(i - start + 1).drop_last() =~= d.take(i - start));
        assert(d[i - start] == s@[i as int]);
        let dv = match hex_digit_value(s[i]) {
            Some(x) => x,
            None => {
                assert(!is_hex_digit(d[i - start]));
                assert(!all_hex(d));
                return None;
            },
        };
        let nv: u128 = v as u128 * 16 + dv as u128;
        assert(d.take(i - start + 1).last() == d[i - start]);
        assert(hex_value(d.take(i - start + 1)) == nv);
        if nv > max as u128 {
            proof {
                lemma_hex_prefix(d, i - start + 1);
            }
            return None;
        }
        v = nv as u64;
        i = i + 1;
    }
    assert(d.take(i - start) =~= d);
    Some(v)
}

// ---------------------------------------------------------------------------
// Escapes and splitting
// ---------------------------------------------------------------------------

/// The text with every two-character escape `\n` replaced by a line break,
/// matched left to right.
pub open spec fn unescape_nl(s: Seq<char>) -> Seq<char>
    decreases s.len(),
{
    if s.len() == 0 {
        Seq::empty()
    } else if s.len() >= 2 && s[0] == '\\' && s[1] == 'n' {
        seq!['\n'] + unescape_nl(s.skip(2))
    } else {
        seq![s[0]] + unescape_nl(s.skip(1))
    }
}

/// Replaces every escape `\n` of `s` with a line break.
pub fn unescape_newlines(s: &[char]) -> (r: Vec<char>)
    ensures
        r@ == unescape_nl(s@),
{
    let mut r: Vec<char> = Vec::new();
    let mut i: usize = 0;
    assert(s@.skip(0) =~= s@);
    assert(r@ + unescape_nl(s@.skip(0)) =~= unescape_nl(s@));
    while i < s.len()
        invariant
            i <= s@.len(),
            r@ + unescape_nl(s@.skip(i as int)) == unescape_nl(s@),
        decreases s@.len() - i,
    {
        let ghost rest = s@.skip(i as int);
        if i + 1 < s.len() && s[i] == '\\' && s[i + 1] == 'n' {
            assert(rest.skip(2) =~= s@.skip(i + 2));
            r.push('\n');
            assert(r@ + unescape_nl(s@.skip(i + 2)) =~= r@.drop_last() + unescape_nl(rest));
            i = i + 2;
        } else {
            assert(rest.skip(1) =~= s@.skip(i + 1));
            r.push(s[i]);
            assert(r@ + unescape_nl(s@.skip(i + 1)) =~= r@.drop_last() + unescape_nl(rest));
            i = i + 1;
        }
    }
    assert(s@.skip(i as int) =~= Seq::<char>::empty());
    assert(r@ =~= r@ + Seq::<char>::empty());
    r
}

/// The first position at or after `k` that holds `c`, or the length.
pub open spec fn find_char(s: Seq<char>, k: int, c: char) -> int
    decreases s.len() - k,
{
    if k >= s.len() {
        s.len() as int
    } else if s[k] == c {
        k
    } else {
        find_char(s, k + 1, c)
    }
}

pub proof fn lemma_find_char(s: Seq<char>, k: int, c: char)
    requires
        0 <= k <= s.len(),
    ensures
        k <= find_char(s, k, c) <= s.len(),
        find_char(s, k, c) < s.len() ==> s[find_char(s, k, c)] == c,
        forall|j: int| k <= j < find_char(s, k, c) ==> #[trigger] s[j] != c,
    decreases s.len() - k,
{
    if k < s.len() && s[k] != c {
        lemma_find_char(s, k + 1, c);
    }
}

fn find_char_exec(s: &[char], k: usize, c: char) -> (r: usize)
    requires
        k <= s@.len(),
    ensures
        r == find_char(s@, k as int, c),
{
    let mut i = k;
    while i < s.len() && s[i] != c
        invariant
            k <= i <= s@.len(),
            find_char(s@, k as int, c) == find_char(s@, i as int, c),
        decreases s@.len() - i,
    {
        i = i + 1;
    }
    i
}

/// The pieces of `s` between commas (one piece when there is none).
pub open spec fn split_commas(s: Seq<char>) -> Seq<Seq<char>>
    decreases s.len(),
{
    let k = find_char(s, 0, ',');
    if k >= s.len() {
        seq![s]
    } else {
        proof {
            lemma_find_char(s, 0, ',');
        }
        seq![s.take(k)] + split_commas(s.skip(k + 1))
    }
}

/// Splits `s[start..end]` at its commas.
fn split_commas_exec(s: &[char], start: usize, end: usize) -> (r: Vec<Vec<char>>)
    requires
        start <= end <= s@.len(),
    ensures
        r@.map_values(|v: Vec<char>| v@) == split_commas(s@.subrange(start as int, end as int)),
{
    let sub = &s[start..end];
    let ghost whole = sub@;
    let mut r: Vec<Vec<char>> = Vec::new();
    let mut i: usize = 0;
    assert(whole.skip(0) =~= whole);
    assert(r@.map_values(|v: Vec<char>| v@) + split_commas(whole.skip(0)) =~= split_commas(whole));
    loop
        invariant
            whole == sub@,
            whole == s@.subrange(start as int, end as int),
            i <= whole.len(),
            r@.map_values(|v: Vec<char>| v@) + split_commas(whole.skip(i as int)) == split_commas(whole),
        decreases whole.len() - i,
    {
        let ghost rest = whole.skip(i as int);
        let k = find_char_exec(sub, i, ',');
        proof {
            lemma_find_char(whole, i as int, ',');
            assert forall|j: int| 0 <= j < k - i implies rest[j] != ',' by {
                assert(rest[j] == whole[i + j]);
            }
            lemma_find_char(rest, 0, ',');
            if k < whole.len() {
                assert(rest[k - i] == ',');
                assert(find_char(rest, 0, ',') == k - i) by {
                    lemma_find_char_first(rest, 0, k - i, ',');
                }
            } else {
                assert(find_char(rest, 0, ',') == rest.len()) by {
                    lemma_find_char_none(rest, 0, ',');
                }
            }
        }
        let piece = crate::bmg_message::copy_chars(sub, i, k);
        let ghost before = r@.map_values(|v: Vec<char>| v@);
        r.push(piece);
        assert(r@.map_values(|v: Vec<char>| v@) =~= before.push(whole.subrange(i as int, k as int)));
        if k >= sub.len() {
            assert(rest.take(rest.len() as int) =~= whole.subrange(i as int, k as int));
            assert(rest =~= whole.subrange(i as int, k as int));
            assert(r@.map_values(|v: Vec<char>| v@) =~= before + seq![rest]);
            return r;
        }
        assert(rest.take(k - i) =~= whole.subrange(i as int, k as int));
        assert(rest.skip(k - i + 1) =~= whole.skip(k + 1));
        assert(before + (seq![rest.take(k - i)] + split_commas(rest.skip(k - i + 1)))
            =~= before.push(whole.subrange(i as int, k as int)) + split_commas(whole.skip(k + 1)));
        i = k + 1;
    }
}

pub proof fn lemma_find_char_first(s: Seq<char>, k: int, j: int, c: char)
    requires
        0 <= k <= j < s.len(),
        s[j] == c,
        forall|m: int| k <= m < j ==> s[m] != c,
    ensures
        find_char(s, k, c) == j,
    decreases j - k,
{
    if k < j {
        lemma_find_char_first(s, k + 1, j, c);
    }
}

pub proof fn lemma_find_char_none(s: Seq<char>, k: int, c: char)
    requires
        0 <= k <= s.len(),
        forall|m: int| k <= m < s.len() ==> s[m] != c,
    ensures
        find_char(s, k, c) == s.len(),
    decreases s.len() - k,
{
    if k < s.len() {
        lemma_find_char_none(s, k + 1, c);
    }
}


// ---------------------------------------------------------------------------
// Tag escapes: a backslash, one of `x`, `|`, `z`, then `{`, the arguments and
// the first `}` (the arguments never hold a line break)
// ---------------------------------------------------------------------------

/// The first position at or after `k` holding `}` or a line break, or the length.
pub open spec fn tag_close(t: Seq<char>, k: int) -> int
    decreases t.len() - k,
{
    if k >= t.len() {
        t.len() as int
    } else if t[k] == '}' || t[k] == '\n' {
        k
    } else {
        tag_close(t, k + 1)
    }
}

pub open spec fn is_tag_kind(c: char) -> bool {
    c == 'x' || c == '|' || c == 'z'
}

/// Whether a tag escape starts at position `i` of `t`.
pub open spec fn tag_match_at(t: Seq<char>, i: int) -> bool {
    &&& 0 <= i
    &&& i + 3 <= t.len()
    &&& t[i] == '\\'
    &&& is_tag_kind(t[i + 1])
    &&& t[i + 2] == '{'
    &&& tag_close(t, i + 3) < t.len()
    &&& t[tag_close(t, i + 3)] == '}'
}

/// The position just after the tag escape that starts at `i`.
pub open spec fn tag_end(t: Seq<char>, i: int) -> int {
    tag_close(t, i + 3) + 1
}

/// The leftmost start of a tag escape at or after `k`, or the length.
pub open spec fn next_tag(t: Seq<char>, k: int) -> int
    decreases t.len() - k,
{
    if k >= t.len() {
        t.len() as int
    } else if tag_match_at(t, k) {
        k
    } else {
        next_tag(t, k + 1)
    }
}

pub proof fn lemma_tag_close(t: Seq<char>, k: int)
    requires
        k <= t.len(),
    ensures
        k <= tag_close(t, k) <= t.len(),
        tag_close(t, k) < t.len() ==> (t[tag_close(t, k)] == '}' || t[tag_close(t, k)] == '\n'),
    decreases t.len() - k,
{
    if k < t.len() && !(t[k] == '}' || t[k] == '\n') {
        lemma_tag_close(t, k + 1);
    }
}

pub proof fn lemma_next_tag(t: Seq<char>, k: int)
    requires
        0 <= k,
    ensures
        next_tag(t, k) < t.len() ==> k <= next_tag(t, k) && tag_match_at(t, next_tag(t, k)),
        next_tag(t, k) < t.len() ==> next_tag(t, k) + 4 <= tag_end(t, next_tag(t, k)) <= t.len(),
        k <= t.len() ==> next_tag(t, k) <= t.len(),
        forall|j: int| k <= j < next_tag(t, k) ==> !#[trigger] tag_match_at(t, j),
    decreases t.len() - k,
{
    if k < t.len() && !tag_match_at(t, k) {
        lemma_next_tag(t, k + 1);
    }
    if next_tag(t, k) < t.len() {
        lemma_tag_close(t, next_tag(t, k) + 3);
    }
}

/// The text pieces of `t[k..]` between tag escapes (always one more than
/// the escapes).
pub open spec fn split_texts(t: Seq<char>, k: int) -> Seq<Seq<char>>
    decreases t.len() - k,
{
    if k < 0 || next_tag(t, k) >= t.len() {
        seq![t.subrange(k, t.len() as int)]
    } else {
        proof {
            lemma_next_tag(t, k);
        }
        seq![t.subrange(k, next_tag(t, k))] + split_texts(t, tag_end(t, next_tag(t, k)))
    }
}

/// The tag escapes of `t[k..]`, left to right.
pub open spec fn tag_spans(t: Seq<char>, k: int) -> Seq<Seq<char>>
    decreases t.len() - k,
{
    if k < 0 || next_tag(t, k) >= t.len() {
        Seq::empty()
    } else {
        proof {
            lemma_next_tag(t, k);
        }
        seq![t.subrange(next_tag(t, k), tag_end(t, next_tag(t, k)))] + tag_spans(
            t,
            tag_end(t, next_tag(t, k)),
        )
    }
}

fn tag_close_exec(t: &[char], k: usize) -> (r: usize)
    requires
        k <= t@.len(),
    ensures
        r == tag_close(t@, k as int),
{
    let mut i = k;
    while i < t.len() && t[i] != '}' && t[i] != '\n'
        invariant
            k <= i <= t@.len(),
            tag_close(t@, k as int) == tag_close(t@, i as int),
        decreases t@.len() - i,
    {
        i = i + 1;
    }
    i
}

fn tag_match_at_exec(t: &[char], i: usize) -> (r: bool)
    requires
        i <= t@.len(),
    ensures
        r == tag_match_at(t@, i as int),
{
    if t.len() - i >= 3 && t[i] == '\\' && (t[i + 1] == 'x' || t[i + 1] == '|' || t[i + 1] == 'z')
        && t[i + 2] == '{' {
        let c = tag_close_exec(t, i + 3);
        c < t.len() && t[c] == '}'
    } else {
        false
    }
}

fn next_tag_exec(t: &[char], k: usize) -> (r: usize)
    requires
        k <= t@.len(),
    ensures
        r == next_tag(t@, k as int),
{
    let mut i = k;
    while i < t.len() && !tag_match_at_exec(t, i)
        invariant
            k <= i <= t@.len(),
            next_tag(t@, k as int) == next_tag(t@, i as int),
        decreases t@.len() - i,
    {
        i = i + 1;
    }
    i
}

// ---------------------------------------------------------------------------
// Reading one tag escape
// ---------------------------------------------------------------------------

/// The value of a hexadecimal number of at most `max`, or 0 where the text
/// is no such number.
pub open spec fn hex_or_zero(s: Seq<char>, max: nat) -> nat {
    match parse_hex(s, max) {
        Some(v) => v,
        None => 0,
    }
}

/// The two bytes, high first, of a 16-bit hexadecimal argument; nothing for
/// an argument that is no such number.
pub open spec fn hex_pair(s: Seq<char>) -> Seq<u8> {
    match parse_hex(s, 0xFFFF) {
        Some(v) => seq![(v / 256) as u8, (v % 256) as u8],
        None => Seq::empty(),
    }
}

/// The bytes of a list of 16-bit hexadecimal arguments.
pub open spec fn payload_bytes(vals: Seq<Seq<char>>) -> Seq<u8>
    decreases vals.len(),
{
    if vals.len() == 0 {
        Seq::empty()
    } else {
        payload_bytes(vals.drop_last()) + hex_pair(vals.last())
    }
}

/// The arguments of the leftmost tag escape of `s`.
pub open spec fn tag_args(s: Seq<char>) -> Seq<char> {
    s.subrange(next_tag(s, 0) + 3, tag_close(s, next_tag(s, 0) + 3))
}

/// Reading `s` as a tag escape `\x{size,number,arg,...}`.
///
/// `Some(Err(..))` when `s` holds no tag escape, or does not start with
/// `\x`; `None` where reading fails outright: fewer than three arguments, a
/// declared size under 6 (the high byte of the first argument), or a number
/// that is no 16-bit hexadecimal value. Otherwise the tag has the low byte of
/// the first argument as group, the second as number, and as payload the
/// bytes of the further 16-bit arguments (those that are numbers), cut to
/// the even size below the declared one less 5.
pub open spec fn spec_tag_text(s: Seq<char>) -> Option<Result<TagView, Seq<char>>> {
    let values = split_commas(tag_args(s));
    let ts = hex_or_zero(values[1], 0xFFFF);
    let total = ts / 256;
    let even = (total / 2) * 2 - 5;
    let bytes = payload_bytes(values.skip(3));
    if next_tag(s, 0) >= s.len() {
        Some(Err("Couldn't capture data"@))
    } else if !(s.len() >= 2 && s[0] == '\\' && s[1] == 'x') {
        Some(Err("Z escapes not implemented yet"@))
    } else if values.len() < 2 || total < 6 || values.len() < 3 || parse_hex(values[2], 0xFFFF) is None {
        None
    } else {
        Some(
            Ok(
                TagView {
                    group: (ts % 256) as u8,
                    number: parse_hex(values[2], 0xFFFF).unwrap() as u16,
                    payload: if even <= bytes.len() {
                        bytes.take(even)
                    } else {
                        bytes
                    },
                },
            ),
        )
    }
}

/// The value of an outcome of reading a tag.
pub open spec fn tag_outcome(r: Option<Result<Tag, &'static str>>) -> Option<Result<TagView, Seq<char>>> {
    match r {
        None => None,
        Some(Ok(t)) => Some(Ok(t@)),
        Some(Err(e)) => Some(Err(e@)),
    }
}

fn payload_of(values: &Vec<Vec<char>>) -> (r: Vec<u8>)
    requires
        values@.len() >= 3,
    ensures
        r@ == payload_bytes(values@.map_values(|v: Vec<char>| v@).skip(3)),
{
    let ghost vv = values@.map_values(|v: Vec<char>| v@);
    let mut r: Vec<u8> = Vec::new();
    let mut i: usize = 3;
    assert(vv.subrange(3, 3) =~= Seq::<Seq<char>>::empty());
    while i < values.len()
        invariant
            3 <= i <= values@.len(),
            vv == values@.map_values(|v: Vec<char>| v@),
            r@ == payload_bytes(vv.subrange(3, i as int)),
        decreases values@.len() - i,
    {
        assert(vv.subrange(3, i + 1).drop_last() =~= vv.subrange(3, i as int));
        assert(vv[i as int] == values@[i as int]@);
        match parse_hex_chars(values[i].as_slice(), 0xFFFF) {
            Some(v) => {
                let (hi, lo) = unpack_u16(v as u16);
                r.push(hi);
                r.push(lo);
            },
            None => {},
        }
        assert(r@ =~= payload_bytes(vv.subrange(3, i + 1)));
        i = i + 1;
    }
    assert(vv.subrange(3, i as int) =~= vv.skip(3));
    r
}

fn truncated(v: Vec<u8>, n: usize) -> (r: Vec<u8>)
    ensures
        r@ == (if n <= v@.len() { v@.take(n as int) } else { v@ }),
{
    if n <= v.len() {
        crate::bmg_message::copy_range(v.as_slice(), 0, n)
    } else {
        v
    }
}

impl Tag {
    /// Reads a tag escape of the text format (see [`spec_tag_text`]).
    pub fn parse_text(s: &str) -> (r: Option<Result<Tag, &'static str>>)
        ensures
            tag_outcome(r) == spec_tag_text(s@),
    {
        let t = chars_of(s);
        Tag::parse_chars(t.as_slice())
    }

    fn parse_chars(t: &[char]) -> (r: Option<Result<Tag, &'static str>>)
        ensures
            tag_outcome(r) == spec_tag_text(t@),
    {
        let n = next_tag_exec(t, 0);
        proof {
            lemma_next_tag(t@, 0);
        }
        if n >= t.len() {
            return Some(Err("Couldn't capture data"));
        }
        if !(t.len() >= 2 && t[0] == '\\' && t[1] == 'x') {
            return Some(Err("Z escapes not implemented yet"));
        }
        proof {
            lemma_tag_close(t@, n + 3);
        }
        let c = tag_close_exec(t, n + 3);
        let values = split_commas_exec(t, n + 3, c);
        let ghost vv = values@.map_values(|v: Vec<char>| v@);
        if values.len() < 2 {
            return None;
        }
        assert(vv[1] == values@[1]@);
        let ts: u16 = match parse_hex_chars(values[1].as_slice(), 0xFFFF) {
            Some(v) => v as u16,
            None => 0,
        };
        let (total, group) = unpack_u16(ts);
        if total < 6 {
            return None;
        }
        let even: usize = ((total / 2) * 2 - 5) as usize;
        if values.len() < 3 {
            return None;
        }
        assert(vv[2] == values@[2]@);
        let number: u16 = match parse_hex_chars(values[2].as_slice(), 0xFFFF) {
            Some(v) => v as u16,
            None => {
                return None;
            },
        };
        let bytes = payload_of(&values);
        let payload = truncated(bytes, even);
        Some(Ok(Tag { group, number, payload }))
    }
}

// ---------------------------------------------------------------------------
// Text with tag escapes
// ---------------------------------------------------------------------------

/// The tags read from a list of tag escapes: those that read as tags, in
/// order, or `None` where one fails outright.
pub open spec fn tags_of(spans: Seq<Seq<char>>) -> Option<Seq<TagView>>
    decreases spans.len(),
{
    if spans.len() == 0 {
        Some(Seq::empty())
    } else {
        match (spec_tag_text(spans[0]), tags_of(spans.drop_first())) {
            (Some(Ok(v)), Some(rest)) => Some(seq![v] + rest),
            (Some(Err(_)), Some(rest)) => Some(rest),
            _ => None,
        }
    }
}

/// `a` then `b` in turn, starting with `a`; what is left of the longer
/// one at the end.
pub open spec fn interleave(a: Seq<PartView>, b: Seq<PartView>) -> Seq<PartView>
    decreases a.len() + b.len(),
{
    if a.len() == 0 {
        b
    } else {
        seq![a[0]] + interleave(b, a.drop_first())
    }
}

pub open spec fn as_texts(s: Seq<Seq<char>>) -> Seq<PartView> {
    s.map_values(|x: Seq<char>| PartView::Text(x))
}

pub open spec fn as_tags(s: Seq<TagView>) -> Seq<PartView> {
    s.map_values(|x: TagView| PartView::Tag(x))
}

/// The parts of a message text written with tag escapes: the pieces between
/// the escapes as text, in turn with the escapes that read as tags; `None`
/// where an escape fails outright.
pub open spec fn spec_text_parts(u: Seq<char>) -> Option<Seq<PartView>> {
    match tags_of(tag_spans(u, 0)) {
        Some(tags) => Some(interleave(as_texts(split_texts(u, 0)), as_tags(tags))),
        None => None,
    }
}


/// `tags_of` of a list whose first escape gives `first`.
pub open spec fn prepend_tags(a: Seq<TagView>, o: Option<Seq<TagView>>) -> Option<Seq<TagView>> {
    match o {
        Some(r) => Some(a + r),
        None => None,
    }
}

pub open spec fn strings_view(v: Seq<String>) -> Seq<Seq<char>> {
    v.map_values(|x: String| x@)
}

pub open spec fn tags_view(v: Seq<Tag>) -> Seq<TagView> {
    v.map_values(|x: Tag| x@)
}

/// Splits `t` at its tag escapes: the pieces between them and the tags they
/// read as; `None` where one fails outright.
fn scan_tags(t: &[char]) -> (r: Option<(Vec<String>, Vec<Tag>)>)
    ensures
        r matches Some((texts, tags)) ==> strings_view(texts@) == split_texts(t@, 0) && tags_of(
            tag_spans(t@, 0),
        ) == Some(tags_view(tags@)),
        r is None ==> tags_of(tag_spans(t@, 0)) is None,
{
    let mut texts: Vec<String> = Vec::new();
    let mut tags: Vec<Tag> = Vec::new();
    let mut k: usize = 0;
    assert(strings_view(texts@) + split_texts(t@, 0) =~= split_texts(t@, 0));
    assert(prepend_tags(tags_view(tags@), tags_of(tag_spans(t@, 0))) =~= tags_of(tag_spans(t@, 0)))
        by {
        if tags_of(tag_spans(t@, 0)) is Some {
            assert(tags_view(tags@) + tags_of(tag_spans(t@, 0)).unwrap() =~= tags_of(
                tag_spans(t@, 0),
            ).unwrap());
        }
    }
    loop
        invariant
            k <= t@.len(),
            strings_view(texts@) + split_texts(t@, k as int) == split_texts(t@, 0),
            prepend_tags(tags_view(tags@), tags_of(tag_spans(t@, k as int))) == tags_of(
                tag_spans(t@, 0),
            ),
        decreases t@.len() - k,
    {
        let n = next_tag_exec(t, k);
        proof {
            lemma_next_tag(t@, k as int);
        }
        let piece = string_of(t, k, n);
        let ghost before = strings_view(texts@);
        texts.push(piece);
        assert(strings_view(texts@) =~= before.push(t@.subrange(k as int, n as int)));
        if n >= t.len() {
            assert(split_texts(t@, k as int) == seq![t@.subrange(k as int, t@.len() as int)]);
            assert(strings_view(texts@) =~= split_texts(t@, 0));
            assert(tag_spans(t@, k as int) == Seq::<Seq<char>>::empty());
            assert(tags_view(tags@) + Seq::<TagView>::empty() =~= tags_view(tags@));
            return Some((texts, tags));
        }
        let e = tag_close_exec(t, n + 3) + 1;
        assert(e == tag_end(t@, n as int));
        assert(strings_view(texts@) + split_texts(t@, e as int) =~= before + split_texts(
            t@,
            k as int,
        ));
        let span = crate::bmg_message::copy_chars(t, n, e);
        let ghost spans_k = tag_spans(t@, k as int);
        assert(spans_k[0] == span@);
        assert(spans_k.drop_first() =~= tag_spans(t@, e as int));
        match Tag::parse_chars(span.as_slice()) {
            None => {
                return None;
            },
            Some(Err(_)) => {},
            Some(Ok(tag)) => {
                let ghost old_tags = tags_view(tags@);
                tags.push(tag);
                assert(tags_view(tags@) =~= old_tags.push(tag@));
                proof {
                    if tags_of(tag_spans(t@, e as int)) is Some {
                        assert(old_tags + (seq![tag@] + tags_of(tag_spans(t@, e as int)).unwrap())
                            =~= tags_view(tags@) + tags_of(tag_spans(t@, e as int)).unwrap());
                    }
                }
            },
        }
        k = e;
    }
}

pub proof fn lemma_interleave_empty(a: Seq<PartView>)
    ensures
        interleave(a, Seq::empty()) == a,
{
    if a.len() > 0 {
        assert(interleave(Seq::empty(), a.drop_first()) == a.drop_first());
        assert(seq![a[0]] + a.drop_first() =~= a);
    }
}

/// What is left of `s` after its first `i` items.
spec fn rest_of(s: Seq<PartView>, i: int) -> Seq<PartView> {
    if i < s.len() {
        s.skip(i)
    } else {
        Seq::empty()
    }
}

/// The parts of a text: its pieces as text, in turn with its tags.
fn interleave_parts(texts: &Vec<String>, tags: &Vec<Tag>) -> (r: Vec<TextPart>)
    ensures
        text_view(r@) == interleave(as_texts(strings_view(texts@)), as_tags(tags_view(tags@))),
{
    let ghost a = as_texts(strings_view(texts@));
    let ghost b = as_tags(tags_view(tags@));
    let mut r: Vec<TextPart> = Vec::new();
    let mut i: usize = 0;
    proof {
        if a.len() > 0 {
            assert(a.skip(0) =~= a);
        } else {
            assert(a =~= Seq::<PartView>::empty());
        }
        if b.len() > 0 {
            assert(b.skip(0) =~= b);
        } else {
            assert(b =~= Seq::<PartView>::empty());
        }
    }
    assert(text_view(r@) + interleave(rest_of(a, 0), rest_of(b, 0)) =~= interleave(a, b));
    while i < texts.len() || i < tags.len()
        invariant
            a == as_texts(strings_view(texts@)),
            b == as_tags(tags_view(tags@)),
            a.len() == texts@.len(),
            b.len() == tags@.len(),
            i <= texts@.len() || i <= tags@.len(),
            text_view(r@) + interleave(rest_of(a, i as int), rest_of(b, i as int)) == interleave(a, b),
        decreases texts@.len() + tags@.len() - i,
    {
        let ghost before = text_view(r@);
        let ghost sa = rest_of(a, i as int);
        let ghost sb = rest_of(b, i as int);
        let ghost na = rest_of(a, i + 1);
        let ghost nb = rest_of(b, i + 1);
        if i < texts.len() {
            assert(sa[0] == a[i as int]);
            assert(sa.drop_first() =~= na);
            r.push(TextPart::Text(texts[i].clone()));
            assert(text_view(r@) =~= before.push(a[i as int]));
            if i < tags.len() {
                assert(sb[0] == b[i as int]);
                assert(sb.drop_first() =~= nb);
                let ghost mid = text_view(r@);
                r.push(TextPart::Tag(tags[i].duplicate()));
                assert(text_view(r@) =~= mid.push(b[i as int]));
                assert(interleave(sa, sb) == seq![a[i as int]] + interleave(sb, na));
                assert(interleave(sb, na) == seq![b[i as int]] + interleave(na, nb));
                assert(text_view(r@) + interleave(na, nb) =~= before + interleave(sa, sb));
            } else {
                assert(sb =~= Seq::<PartView>::empty());
                assert(nb =~= Seq::<PartView>::empty());
                proof {
                    lemma_interleave_empty(na);
                }
                assert(interleave(sa, sb) == seq![a[i as int]] + interleave(sb, na));
                assert(interleave(sb, na) == na);
                assert(text_view(r@) + interleave(na, nb) =~= before + interleave(sa, sb));
            }
        } else {
            assert(sa =~= Seq::<PartView>::empty());
            assert(na =~= Seq::<PartView>::empty());
            assert(sb[0] == b[i as int]);
            assert(sb.drop_first() =~= nb);
            r.push(TextPart::Tag(tags[i].duplicate()));
            assert(text_view(r@) =~= before.push(b[i as int]));
            assert(interleave(sa, sb) == sb);
            assert(sb =~= seq![b[i as int]] + nb);
            assert(text_view(r@) + interleave(na, nb) =~= before + interleave(sa, sb));
        }
        i = i + 1;
    }
    assert(rest_of(a, i as int) =~= Seq::<PartView>::empty());
    assert(rest_of(b, i as int) =~= Seq::<PartView>::empty());
    assert(text_view(r@) =~= text_view(r@) + Seq::<PartView>::empty());
    r
}

/// Reads a message text written with tag escapes (see [`spec_text_parts`]).
pub fn text_parts(u: &[char]) -> (r: Option<MessageText>)
    ensures
        r matches Some(parts) ==> spec_text_parts(u@) == Some(text_view(parts@)),
        r is None ==> spec_text_parts(u@) is None,
{
    match scan_tags(u) {
        None => None,
        Some((texts, tags)) => {
            let parts = interleave_parts(&texts, &tags);
            assert(as_texts(strings_view(texts@)) == as_texts(split_texts(u@, 0)));
            Some(parts)
        },
    }
}


// ---------------------------------------------------------------------------
// Attributes: hexadecimal bytes separated by `,`; a `/` after a byte pads
// with zeros to the next multiple of four bytes
// ---------------------------------------------------------------------------

pub open spec fn is_attr_sep(c: char) -> bool {
    c == ',' || c == '/'
}

/// The first position at or after `k` holding `,` or `/`, or the length.
pub open spec fn find_sep(s: Seq<char>, k: int) -> int
    decreases s.len() - k,
{
    if k >= s.len() {
        s.len() as int
    } else if is_attr_sep(s[k]) {
        k
    } else {
        find_sep(s, k + 1)
    }
}

pub proof fn lemma_find_sep(s: Seq<char>, k: int)
    requires
        0 <= k <= s.len(),
    ensures
        k <= find_sep(s, k) <= s.len(),
        find_sep(s, k) < s.len() ==> is_attr_sep(s[find_sep(s, k)]),
        forall|j: int| k <= j < find_sep(s, k) ==> !is_attr_sep(#[trigger] s[j]),
    decreases s.len() - k,
{
    if k < s.len() && !is_attr_sep(s[k]) {
        lemma_find_sep(s, k + 1);
    }
}

pub proof fn lemma_find_sep_shift(s: Seq<char>, i: int, k: int)
    requires
        0 <= i <= k <= s.len(),
    ensures
        find_sep(s.skip(i), k - i) == find_sep(s, k) - i,
    decreases s.len() - k,
{
    if k < s.len() {
        assert(s.skip(i)[k - i] == s[k]);
        if !is_attr_sep(s[k]) {
            lemma_find_sep_shift(s, i, k + 1);
        }
    }
}

/// A byte written in hexadecimal; 0 where the text is no such byte.
pub open spec fn byte_of(s: Seq<char>) -> u8 {
    hex_or_zero(s, 255) as u8
}

pub open spec fn zeros(n: nat) -> Seq<u8> {
    Seq::new(n, |_i: int| 0u8)
}

/// `v` with zeros added up to length `n`.
pub open spec fn pad_to(v: Seq<u8>, n: int) -> Seq<u8> {
    if v.len() < n {
        v + zeros((n - v.len()) as nat)
    } else {
        v
    }
}

/// The bytes of attribute text `s`, after the bytes `acc`.
pub open spec fn attr_fold(s: Seq<char>, acc: Seq<u8>) -> Seq<u8>
    decreases s.len(),
{
    if s.len() == 0 {
        acc
    } else if find_sep(s, 0) >= s.len() {
        acc.push(byte_of(s))
    } else {
        let k = find_sep(s, 0);
        let acc1 = acc.push(byte_of(s.take(k)));
        proof {
            lemma_find_sep(s, 0);
        }
        attr_fold(
            s.skip(k + 1),
            if s[k] == ',' {
                acc1
            } else {
                pad_to(acc1, (((acc1.len() + 4) / 4) * 4) as int)
            },
        )
    }
}

/// The attributes written as `s`: its bytes, cut or padded with zeros to
/// sixteen.
pub open spec fn spec_attributes(s: Seq<char>) -> Seq<u8> {
    let v = attr_fold(s, Seq::empty());
    if v.len() >= 16 {
        v.take(16)
    } else {
        pad_to(v, 16)
    }
}

fn pad_exec(v: &mut Vec<u8>, n: u128)
    ensures
        final(v)@ == pad_to(old(v)@, n as int),
{
    let ghost start = v@;
    assert(start + zeros(0) =~= start);
    while (v.len() as u128) < n
        invariant
            start.len() <= v@.len(),
            v@.len() <= n || v@.len() == start.len(),
            v@ == start + zeros((v@.len() - start.len()) as nat),
        decreases n - v@.len(),
    {
        let ghost m = (v@.len() - start.len()) as nat;
        v.push(0u8);
        assert(start + zeros(m + 1) =~= (start + zeros(m)).push(0u8));
    }
    proof {
        if start.len() >= n {
            assert(start + zeros(0) =~= start);
        }
    }
}

fn find_sep_exec(s: &[char], k: usize) -> (r: usize)
    requires
        k <= s@.len(),
    ensures
        r == find_sep(s@, k as int),
{
    let mut i = k;
    while i < s.len() && s[i] != ',' && s[i] != '/'
        invariant
            k <= i <= s@.len(),
            find_sep(s@, k as int) == find_sep(s@, i as int),
        decreases s@.len() - i,
    {
        i = i + 1;
    }
    i
}

fn byte_exec(s: &[char], start: usize, end: usize) -> (r: u8)
    requires
        start <= end <= s@.len(),
    ensures
        r == byte_of(s@.subrange(start as int, end as int)),
{
    let piece = crate::bmg_message::copy_chars(s, start, end);
    match parse_hex_chars(piece.as_slice(), 255) {
        Some(v) => v as u8,
        None => 0,
    }
}

/// The attribute bytes written as `s[start..end]` (see [`spec_attributes`]).
fn attributes_exec(s: &[char], start: usize, end: usize) -> (r: Vec<u8>)
    requires
        start <= end <= s@.len(),
    ensures
        r@ == spec_attributes(s@.subrange(start as int, end as int)),
{
    let piece = crate::bmg_message::copy_chars(s, start, end);
    let t = piece.as_slice();
    let ghost whole = t@;
    let mut acc: Vec<u8> = Vec::new();
    let mut i: usize = 0;
    assert(whole.skip(0) =~= whole);
    while i < t.len()
        invariant
            whole == t@,
            i <= whole.len(),
            attr_fold(whole.skip(i as int), acc@) == attr_fold(whole, Seq::empty()),
        decreases whole.len() - i,
    {
        let ghost rest = whole.skip(i as int);
        let k = find_sep_exec(t, i);
        proof {
            lemma_find_sep(whole, i as int);
            lemma_find_sep_shift(whole, i as int, i as int);
            assert(whole.skip(i as int) =~= rest);
        }
        let b = byte_exec(t, i, k);
        if k >= t.len() {
            assert(rest.take(rest.len() as int) =~= rest);
            assert(whole.subrange(i as int, k as int) =~= rest);
            acc.push(b);
            i = t.len();
            assert(whole.skip(i as int) =~= Seq::<char>::empty());
        } else {
            assert(rest.take(k - i) =~= whole.subrange(i as int, k as int));
            assert(rest.skip(k - i + 1) =~= whole.skip(k + 1));
            assert(rest[k - i] == whole[k as int]);
            acc.push(b);
            if t[k] == '/' {
                let n: u128 = ((acc.len() as u128 + 4) / 4) * 4;
                pad_exec(&mut acc, n);
            }
            i = k + 1;
        }
    }
    assert(whole.skip(i as int) =~= Seq::<char>::empty());
    let v = acc;
    if v.len() >= 16 {
        crate::bmg_message::copy_range(v.as_slice(), 0, 16)
    } else {
        let mut w = v;
        pad_exec(&mut w, 16);
        w
    }
}

impl MessageAttributes {
    /// Reads attributes written in the text format (see [`spec_attributes`]).
    pub fn parse_text(s: &str) -> (r: MessageAttributes)
        ensures
            r.payload@ == spec_attributes(s@),
    {
        let t = chars_of(s);
        assert(t@.subrange(0, t@.len() as int) =~= t@);
        MessageAttributes { payload: attributes_exec(t.as_slice(), 0, t.len()) }
    }
}


// ---------------------------------------------------------------------------
// Message lines: `ID [@SLOT ][ATTRIBUTES] = TEXT`
// ---------------------------------------------------------------------------

/// The end of the run of hexadecimal digits that starts at `k`.
pub open spec fn hex_run_end(t: Seq<char>, k: int) -> int
    decreases t.len() - k,
{
    if 0 <= k < t.len() && is_hex_digit(t[k]) {
        hex_run_end(t, k + 1)
    } else {
        k
    }
}

/// Whether a slot `@XXXX ` (four hexadecimal digits and a space) starts at `p`.
pub open spec fn slot_at(t: Seq<char>, p: int) -> bool {
    &&& 0 <= p
    &&& p + 6 <= t.len()
    &&& t[p] == '@'
    &&& is_hex_digit(t[p + 1])
    &&& is_hex_digit(t[p + 2])
    &&& is_hex_digit(t[p + 3])
    &&& is_hex_digit(t[p + 4])
    &&& t[p + 5] == ' '
}

/// Where the attributes of a line whose identifier starts at `i` begin: after
/// the identifier, a space and the slot, if there is one.
pub open spec fn attr_start(t: Seq<char>, i: int) -> int {
    let p = hex_run_end(t, i) + 1;
    if slot_at(t, p) {
        p + 6
    } else {
        p
    }
}

/// Whether the attributes that open with `[` at `q` can close with the `]`
/// at `j`: at least one character between, no line break, and ` = ` after.
pub open spec fn attr_close_ok(t: Seq<char>, q: int, j: int) -> bool {
    &&& q + 2 <= j
    &&& j < find_char(t, q + 1, '\n')
    &&& j + 4 <= t.len()
    &&& t[j] == ']'
    &&& t[j + 1] == ' '
    &&& t[j + 2] == '='
    &&& t[j + 3] == ' '
}

/// The last position at or before `j` where the attributes opened at `q`
/// can close, or -1.
pub open spec fn attr_close_from(t: Seq<char>, q: int, j: int) -> int
    decreases j - q,
{
    if j < q + 2 {
        -1
    } else if attr_close_ok(t, q, j) {
        j
    } else {
        attr_close_from(t, q, j - 1)
    }
}

/// Where the attributes opened at `q` close: the last possible place on the
/// line, or -1.
pub open spec fn attr_close(t: Seq<char>, q: int) -> int {
    attr_close_from(t, q, find_char(t, q + 1, '\n') - 1)
}

pub proof fn lemma_attr_close_from(t: Seq<char>, q: int, j: int)
    ensures
        attr_close_from(t, q, j) >= 0 ==> attr_close_ok(t, q, attr_close_from(t, q, j)),
    decreases j - q,
{
    if j >= q + 2 && !attr_close_ok(t, q, j) {
        lemma_attr_close_from(t, q, j - 1);
    }
}

/// Whether a message line starts at position `i` of `t`.
pub open spec fn line_match_at(t: Seq<char>, i: int) -> bool {
    &&& 0 <= i < t.len()
    &&& is_hex_digit(t[i])
    &&& hex_run_end(t, i) < t.len()
    &&& t[hex_run_end(t, i)] == ' '
    &&& attr_start(t, i) < t.len()
    &&& t[attr_start(t, i)] == '['
    &&& attr_close(t, attr_start(t, i)) >= 0
}

/// The leftmost start of a message line at or after `k`, or the length.
pub open spec fn first_line_match(t: Seq<char>, k: int) -> int
    decreases t.len() - k,
{
    if k >= t.len() {
        t.len() as int
    } else if line_match_at(t, k) {
        k
    } else {
        first_line_match(t, k + 1)
    }
}

/// Whether `t` holds a message line anywhere.
pub open spec fn holds_line(t: Seq<char>) -> bool {
    first_line_match(t, 0) < t.len()
}

/// The text of a line whose attributes close at `j`: the rest of the line
/// after ` = `, if it is not empty.
pub open spec fn line_text(t: Seq<char>, j: int) -> Option<Seq<char>> {
    if j + 4 < t.len() && t[j + 4] != '\n' {
        Some(t.subrange(j + 4, find_char(t, j + 4, '\n')))
    } else {
        None
    }
}

/// Reading a line of the text format as a message.
///
/// The leftmost match of the line pattern gives the identifier (hexadecimal),
/// the attributes between the brackets and the text after ` = `, in which
/// each `\n` stands for a line break. An empty line, a line without a match,
/// and an identifier of 0 (or one too large for `usize`) are errors; `None`
/// where a tag escape of the text fails outright.
pub open spec fn spec_parse_line(t: Seq<char>) -> Option<Result<SingleView, Seq<char>>> {
    let i = first_line_match(t, 0);
    let e = hex_run_end(t, i);
    let id = hex_or_zero(t.subrange(i, e), usize::MAX as nat);
    let q = attr_start(t, i);
    let j = attr_close(t, q);
    let attribs = spec_attributes(t.subrange(q + 1, j));
    if t.len() == 0 {
        Some(Err("Line is empty"@))
    } else if i >= t.len() {
        Some(Err("Ill formed string"@))
    } else if id == 0 {
        Some(Err("Invalid ID"@))
    } else {
        match line_text(t, j) {
            None => Some(Ok(SingleView { text: Seq::empty(), attribs, id: id as usize })),
            Some(u) => match spec_text_parts(unescape_nl(u)) {
                None => None,
                Some(parts) => Some(Ok(SingleView { text: parts, attribs, id: id as usize })),
            },
        }
    }
}

/// The value of an outcome of reading a line.
pub open spec fn line_outcome(r: Option<Result<MessageSingleLang, &'static str>>) -> Option<
    Result<SingleView, Seq<char>>,
> {
    match r {
        None => None,
        Some(Ok(m)) => Some(Ok(m@)),
        Some(Err(e)) => Some(Err(e@)),
    }
}

pub proof fn lemma_hex_run_end(t: Seq<char>, k: int)
    requires
        0 <= k <= t.len(),
    ensures
        k <= hex_run_end(t, k) <= t.len(),
        forall|j: int| k <= j < hex_run_end(t, k) ==> is_hex_digit(#[trigger] t[j]),
    decreases t.len() - k,
{
    if k < t.len() && is_hex_digit(t[k]) {
        lemma_hex_run_end(t, k + 1);
    }
}

fn hex_run_end_exec(t: &[char], k: usize) -> (r: usize)
    requires
        k <= t@.len(),
    ensures
        r == hex_run_end(t@, k as int),
{
    let mut i = k;
    while i < t.len() && hex_digit_value(t[i]).is_some()
        invariant
            k <= i <= t@.len(),
            hex_run_end(t@, k as int) == hex_run_end(t@, i as int),
        decreases t@.len() - i,
    {
        i = i + 1;
    }
    i
}

fn is_hex_exec(c: char) -> (r: bool)
    ensures
        r == is_hex_digit(c),
{
    hex_digit_value(c).is_some()
}

/// Where the attributes opened at `q` close (see [`attr_close`]).
fn attr_close_exec(t: &[char], q: usize) -> (r: Option<usize>)
    requires
        q < t@.len(),
    ensures
        r matches Some(j) ==> j == attr_close(t@, q as int),
        r is None ==> attr_close(t@, q as int) == -1,
{
    assert(q < t.len());
    let nl = find_char_exec(t, q + 1, '\n');
    proof {
        lemma_find_char(t@, q + 1, '\n');
    }
    let mut j: usize = nl;
    while j > q && j - q >= 3
        invariant
            q < t@.len(),
            nl == find_char(t@, q + 1, '\n'),
            nl <= t@.len(),
            j <= nl,
            attr_close(t@, q as int) == attr_close_from(t@, q as int, j - 1),
        decreases j,
    {
        let c = j - 1;
        if t.len() - c >= 4 && t[c] == ']' && t[c + 1] == ' ' && t[c + 2] == '=' && t[c + 3] == ' ' {
            assert(attr_close_ok(t@, q as int, c as int));
            return Some(c);
        }
        assert(!attr_close_ok(t@, q as int, c as int));
        j = c;
    }
    None
}

/// Where the attributes of a line starting at `i` begin and close, if a
/// message line starts there.
fn line_match_exec(t: &[char], i: usize) -> (r: Option<(usize, usize, usize)>)
    requires
        i <= t@.len(),
    ensures
        r is Some <==> line_match_at(t@, i as int),
        r matches Some((e, q, j)) ==> e == hex_run_end(t@, i as int) && q == attr_start(t@, i as int)
            && j == attr_close(t@, q as int),
{
    if i >= t.len() || !is_hex_exec(t[i]) {
        return None;
    }
    let e = hex_run_end_exec(t, i);
    proof {
        lemma_hex_run_end(t@, i as int);
    }
    if e >= t.len() || t[e] != ' ' {
        return None;
    }
    let p = e + 1;
    let q = if t.len() - p >= 6 && t[p] == '@' && is_hex_exec(t[p + 1]) && is_hex_exec(t[p + 2])
        && is_hex_exec(t[p + 3]) && is_hex_exec(t[p + 4]) && t[p + 5] == ' ' {
        p + 6
    } else {
        p
    };
    assert(q == attr_start(t@, i as int));
    if q >= t.len() || t[q] != '[' {
        return None;
    }
    match attr_close_exec(t, q) {
        Some(j) => Some((e, q, j)),
        None => None,
    }
}

/// The leftmost message line of `t` at or after `k`.
fn first_line_match_exec(t: &[char], k: usize) -> (r: Option<(usize, usize, usize, usize)>)
    requires
        k <= t@.len(),
    ensures
        r is None ==> first_line_match(t@, k as int) == t@.len(),
        r matches Some((i, e, q, j)) ==> i == first_line_match(t@, k as int) && i < t@.len()
            && line_match_at(t@, i as int) && e == hex_run_end(t@, i as int) && q == attr_start(
            t@,
            i as int,
        ) && j == attr_close(t@, q as int),
{
    let mut i = k;
    while i < t.len()
        invariant
            k <= i <= t@.len(),
            first_line_match(t@, k as int) == first_line_match(t@, i as int),
        decreases t@.len() - i,
    {
        match line_match_exec(t, i) {
            Some((e, q, j)) => {
                return Some((i, e, q, j));
            },
            None => {},
        }
        i = i + 1;
    }
    None
}

fn parse_line_chars(t: &[char]) -> (r: Option<Result<MessageSingleLang, &'static str>>)
    ensures
        line_outcome(r) == spec_parse_line(t@),
{
    if t.len() == 0 {
        return Some(Err("Line is empty"));
    }
    let (i, e, q, j) = match first_line_match_exec(t, 0) {
        None => {
            return Some(Err("Ill formed string"));
        },
        Some(m) => m,
    };
    proof {
        lemma_hex_run_end(t@, i as int);
        lemma_attr_close_from(t@, q as int, find_char(t@, q + 1, '\n') - 1);
    }
    let id_text = crate::bmg_message::copy_chars(t, i, e);
    let id: usize = match parse_hex_chars(id_text.as_slice(), usize::MAX as u64) {
        Some(v) => v as usize,
        None => 0,
    };
    if id == 0 {
        return Some(Err("Invalid ID"));
    }
    let attribs = MessageAttributes { payload: attributes_exec(t, q + 1, j) };
    let b = j + 4;
    if b < t.len() && t[b] != '\n' {
        let end = find_char_exec(t, b, '\n');
        proof {
            lemma_find_char(t@, b as int, '\n');
        }
        let raw = crate::bmg_message::copy_chars(t, b, end);
        let u = unescape_newlines(raw.as_slice());
        match text_parts(u.as_slice()) {
            None => None,
            Some(text) => Some(Ok(MessageSingleLang { text, attribs, id })),
        }
    } else {
        let text: MessageText = Vec::new();
        assert(text_view(text@) =~= Seq::<PartView>::empty());
        Some(Ok(MessageSingleLang { text, attribs, id }))
    }
}

impl MessageSingleLang {
    /// Reads a line of the text format as a message (see [`spec_parse_line`]).
    pub fn parse_text(s: &str) -> (r: Option<Result<MessageSingleLang, &'static str>>)
        ensures
            line_outcome(r) == spec_parse_line(s@),
    {
        let t = chars_of(s);
        parse_line_chars(t.as_slice())
    }
}


// ---------------------------------------------------------------------------
// Whole files
// ---------------------------------------------------------------------------

pub open spec fn singles_view(v: Seq<MessageSingleLang>) -> Seq<SingleView> {
    v.map_values(|m: MessageSingleLang| m@)
}

pub open spec fn lines_view(v: Seq<String>) -> Seq<Seq<char>> {
    v.map_values(|l: String| l@)
}

/// The lines from the first that holds a message line on.
pub open spec fn skip_unmatched(lines: Seq<Seq<char>>) -> Seq<Seq<char>>
    decreases lines.len(),
{
    if lines.len() == 0 || holds_line(lines[0]) {
        lines
    } else {
        skip_unmatched(lines.drop_first())
    }
}

/// The messages that the lines read as, in order, leaving out the lines
/// that read as errors; `None` where a line fails outright.
pub open spec fn parse_lines(lines: Seq<Seq<char>>) -> Option<Seq<SingleView>>
    decreases lines.len(),
{
    if lines.len() == 0 {
        Some(Seq::empty())
    } else {
        match (spec_parse_line(lines[0]), parse_lines(lines.drop_first())) {
            (Some(Ok(m)), Some(rest)) => Some(seq![m] + rest),
            (Some(Err(_)), Some(rest)) => Some(rest),
            _ => None,
        }
    }
}

/// The messages of a file of the text format, given as its lines: the lines
/// before the first message line are left out, and so is every line that
/// does not read as a message.
pub open spec fn spec_text_file(lines: Seq<Seq<char>>) -> Option<Seq<SingleView>> {
    parse_lines(skip_unmatched(lines))
}

pub open spec fn prepend_singles(a: Seq<SingleView>, o: Option<Seq<SingleView>>) -> Option<Seq<SingleView>> {
    match o {
        Some(r) => Some(a + r),
        None => None,
    }
}

/// The messages of a file of the text format.
pub struct BMGTextParser {
    messages: Vec<MessageSingleLang>,
}

impl View for BMGTextParser {
    type V = Seq<SingleView>;

    closed spec fn view(&self) -> Seq<SingleView> {
        singles_view(self.messages@)
    }
}

impl BMGTextParser {
    /// Reads the messages of a file of the text format, given as its lines
    /// (see [`spec_text_file`]); `None` where a line fails outright.
    pub fn from_lines(lines: &Vec<String>) -> (r: Option<BMGTextParser>)
        ensures
            r matches Some(p) ==> spec_text_file(lines_view(lines@)) == Some(p@),
            r is None ==> spec_text_file(lines_view(lines@)) is None,
    {
        let ghost lv = lines_view(lines@);
        let mut k: usize = 0;
        assert(lv.skip(0) =~= lv);
        while k < lines.len()
            invariant
                lv == lines_view(lines@),
                k <= lv.len(),
                skip_unmatched(lv.skip(k as int)) == skip_unmatched(lv),
            ensures
                k <= lv.len(),
                lv == lines_view(lines@),
                skip_unmatched(lv.skip(k as int)) == skip_unmatched(lv),
                k == lv.len() || holds_line(lv[k as int]),
            decreases lv.len() - k,
        {
            let t = chars_of(lines[k].as_str());
            assert(lv.skip(k as int)[0] == t@);
            let m = first_line_match_exec(t.as_slice(), 0);
            if m.is_some() {
                assert(holds_line(lv[k as int]));
                break;
            }
            assert(lv.skip(k as int).drop_first() =~= lv.skip(k + 1));
            k = k + 1;
        }
        proof {
            if k == lv.len() {
                assert(lv.skip(k as int) =~= Seq::<Seq<char>>::empty());
            } else {
                assert(lv.skip(k as int)[0] == lv[k as int]);
            }
        }
        assert(skip_unmatched(lv) == lv.skip(k as int));
        let mut msgs: Vec<MessageSingleLang> = Vec::new();
        let mut i: usize = k;
        assert(singles_view(msgs@) =~= Seq::<SingleView>::empty());
        proof {
            if parse_lines(lv.skip(k as int)) is Some {
                assert(Seq::<SingleView>::empty() + parse_lines(lv.skip(k as int)).unwrap()
                    =~= parse_lines(lv.skip(k as int)).unwrap());
            }
        }
        while i < lines.len()
            invariant
                lv == lines_view(lines@),
                k <= i <= lv.len(),
                skip_unmatched(lv) == lv.skip(k as int),
                prepend_singles(singles_view(msgs@), parse_lines(lv.skip(i as int))) == parse_lines(
                    lv.skip(k as int),
                ),
            decreases lv.len() - i,
        {
            let t = chars_of(lines[i].as_str());
            let ghost rest = lv.skip(i as int);
            assert(rest[0] == t@);
            assert(rest.drop_first() =~= lv.skip(i + 1));
            match parse_line_chars(t.as_slice()) {
                None => {
                    return None;
                },
                Some(Err(_)) => {},
                Some(Ok(m)) => {
                    let ghost before = singles_view(msgs@);
                    msgs.push(m);
                    assert(singles_view(msgs@) =~= before.push(m@));
                    proof {
                        if parse_lines(lv.skip(i + 1)) is Some {
                            assert(before + (seq![m@] + parse_lines(lv.skip(i + 1)).unwrap())
                                =~= singles_view(msgs@) + parse_lines(lv.skip(i + 1)).unwrap());
                        }
                    }
                },
            }
            i = i + 1;
        }
        assert(lv.skip(i as int) =~= Seq::<Seq<char>>::empty());
        assert(singles_view(msgs@) + Seq::<SingleView>::empty() =~= singles_view(msgs@));
        Some(BMGTextParser { messages: msgs })
    }
}


// ---------------------------------------------------------------------------
// Laws of the text format
// ---------------------------------------------------------------------------

/// Attributes read from text always have sixteen bytes.
pub proof fn law_attributes_have_sixteen_bytes(s: Seq<char>)
    ensures
        spec_attributes(s).len() == 16,
{
}

/// A line that reads as a message gives a positive identifier and sixteen
/// attribute bytes.
pub proof fn law_read_line_is_complete(t: Seq<char>)
    ensures
        spec_parse_line(t) matches Some(Ok(m)) ==> m.id > 0 && m.attribs.len() == 16,
{
}

proof fn lemma_parse_lines_complete(lines: Seq<Seq<char>>)
    ensures
        parse_lines(lines) matches Some(ms) ==> forall|i: int|
            0 <= i < ms.len() ==> (#[trigger] ms[i]).id > 0 && ms[i].attribs.len() == 16,
    decreases lines.len(),
{
    if lines.len() > 0 {
        lemma_parse_lines_complete(lines.drop_first());
        if let Some(ms) = parse_lines(lines) {
            let rest = parse_lines(lines.drop_first()).unwrap();
            assert forall|i: int| 0 <= i < ms.len() implies (#[trigger] ms[i]).id > 0 && ms[i].attribs.len() == 16 by {
                if let Some(Ok(m)) = spec_parse_line(lines[0]) {
                    if i > 0 {
                        assert(ms[i] == rest[i - 1]);
                    }
                } else {
                    assert(ms[i] == rest[i]);
                }
            }
        }
    }
}

/// Every message read from a file of the text format has a positive
/// identifier and sixteen attribute bytes, and there are no more messages
/// than lines.
pub proof fn law_text_file_messages_are_complete(lines: Seq<Seq<char>>)
    ensures
        spec_text_file(lines) matches Some(ms) ==> ms.len() <= lines.len() && forall|i: int|
            0 <= i < ms.len() ==> (#[trigger] ms[i]).id > 0 && ms[i].attribs.len() == 16,
{
    lemma_parse_lines_complete(skip_unmatched(lines));
    lemma_parse_lines_len(skip_unmatched(lines));
    lemma_skip_unmatched_len(lines);
}

proof fn lemma_parse_lines_len(lines: Seq<Seq<char>>)
    ensures
        parse_lines(lines) matches Some(ms) ==> ms.len() <= lines.len(),
    decreases lines.len(),
{
    if lines.len() > 0 {
        lemma_parse_lines_len(lines.drop_first());
    }
}

proof fn lemma_skip_unmatched_len(lines: Seq<Seq<char>>)
    ensures
        skip_unmatched(lines).len() <= lines.len(),
    decreases lines.len(),
{
    if lines.len() > 0 && !holds_line(lines[0]) {
        lemma_skip_unmatched_len(lines.drop_first());
    }
}


proof fn lemma_split_counts(t: Seq<char>, k: int)
    ensures
        split_texts(t, k).len() == tag_spans(t, k).len() + 1,
    decreases t.len() - k,
{
    if !(k < 0 || next_tag(t, k) >= t.len()) {
        lemma_next_tag(t, k);
        lemma_split_counts(t, tag_end(t, next_tag(t, k)));
    }
}

/// Splitting a message text at its tag escapes gives one text piece more
/// than there are escapes, and the pieces and escapes, put back in turn,
/// give the text again.
pub proof fn law_split_rebuilds_text(t: Seq<char>)
    ensures
        split_texts(t, 0).len() == tag_spans(t, 0).len() + 1,
        rejoin(split_texts(t, 0), tag_spans(t, 0)) == t,
{
    lemma_split_counts(t, 0);
    lemma_rejoin(t, 0);
    assert(t.subrange(0, t.len() as int) =~= t);
}

/// The text pieces `texts` and escapes `spans` put back in turn, starting
/// with a text piece.
pub open spec fn rejoin(texts: Seq<Seq<char>>, spans: Seq<Seq<char>>) -> Seq<char>
    decreases texts.len(),
{
    if texts.len() == 0 {
        Seq::empty()
    } else if spans.len() == 0 {
        texts[0] + rejoin(texts.drop_first(), spans)
    } else {
        texts[0] + spans[0] + rejoin(texts.drop_first(), spans.drop_first())
    }
}

proof fn lemma_rejoin(t: Seq<char>, k: int)
    requires
        0 <= k <= t.len(),
    ensures
        rejoin(split_texts(t, k), tag_spans(t, k)) == t.subrange(k, t.len() as int),
    decreases t.len() - k,
{
    lemma_next_tag(t, k);
    if next_tag(t, k) >= t.len() {
        let texts = split_texts(t, k);
        assert(texts.drop_first() =~= Seq::<Seq<char>>::empty());
        assert(tag_spans(t, k) =~= Seq::<Seq<char>>::empty());
        assert(texts[0] + Seq::<char>::empty() =~= t.subrange(k, t.len() as int));
        assert(rejoin(texts.drop_first(), tag_spans(t, k)) == Seq::<char>::empty());
        assert(rejoin(texts, tag_spans(t, k)) == t.subrange(k, t.len() as int));
    } else {
        let n = next_tag(t, k);
        let e = tag_end(t, n);
        lemma_rejoin(t, e);
        let texts = split_texts(t, k);
        let spans = tag_spans(t, k);
        assert(texts.drop_first() =~= split_texts(t, e));
        assert(spans.drop_first() =~= tag_spans(t, e));
        assert(spans.len() > 0);
        assert(texts[0] == t.subrange(k, n));
        assert(spans[0] == t.subrange(n, e));
        assert(rejoin(texts, spans) == texts[0] + spans[0] + rejoin(texts.drop_first(), spans.drop_first()));
        assert(t.subrange(k, n) + t.subrange(n, e) + t.subrange(e, t.len() as int) =~= t.subrange(
            k,
            t.len() as int,
        ));
        assert(rejoin(texts, spans) == t.subrange(k, t.len() as int));
    }
}


impl crate::bmg_message::MessageParser for BMGTextParser {
    /// Listing the messages read never fails.
    open spec fn parser_ready(&self) -> bool {
        true
    }

    /// A copy of every message read, in order.
    fn get_all_messages(&self) -> (r: Vec<MessageSingleLang>)
        ensures
            singles_view(r@) == self@,
    {
        let mut r: Vec<MessageSingleLang> = Vec::new();
        let mut i: usize = 0;
        while i < self.messages.len()
            invariant
                i <= self.messages@.len(),
                r@.len() == i,
                forall|j: int| 0 <= j < i ==> (#[trigger] r@[j])@ == self.messages@[j]@,
            decreases self.messages@.len() - i,
        {
            r.push(self.messages[i].duplicate());
            i = i + 1;
        }
        assert(singles_view(r@) =~= singles_view(self.messages@));
        r
    }
}


// ---------------------------------------------------------------------------
// Laws of the line-break escape
// ---------------------------------------------------------------------------

/// Whether `s` holds a backslash directly followed by `n`.
pub open spec fn has_escape(s: Seq<char>) -> bool {
    exists|i: int| 0 <= i < s.len() - 1 && #[trigger] s[i] == '\\' && s[i + 1] == 'n'
}

/// Replacing the escapes works piece by piece from the left: an escape at
/// the start becomes a line break, any other first character stays, and
/// the rest is replaced in the same way.
pub proof fn law_unescape_left_to_right(t: Seq<char>, c: char)
    ensures
        unescape_nl(seq!['\\', 'n'] + t) == seq!['\n'] + unescape_nl(t),
        !(c == '\\' && t.len() > 0 && t[0] == 'n') ==> unescape_nl(seq![c] + t) == seq![c] + unescape_nl(t),
        unescape_nl(Seq::<char>::empty()) == Seq::<char>::empty(),
{
    assert((seq!['\\', 'n'] + t).skip(2) =~= t);
    assert((seq![c] + t).skip(1) =~= t);
}

proof fn lemma_unescape_first(s: Seq<char>)
    ensures
        unescape_nl(s).len() == 0 <==> s.len() == 0,
        s.len() > 0 ==> unescape_nl(s)[0] == (if s.len() >= 2 && s[0] == '\\' && s[1] == 'n' {
            '\n'
        } else {
            s[0]
        }),
{
}

/// No escape is left after the replacement: every backslash-`n` of the
/// text has become a line break, and none is made from what remains.
pub proof fn law_unescape_leaves_no_escape(s: Seq<char>)
    ensures
        !has_escape(unescape_nl(s)),
        unescape_nl(s).len() <= s.len(),
    decreases s.len(),
{
    if s.len() > 0 {
        let k: int = if s.len() >= 2 && s[0] == '\\' && s[1] == 'n' { 2 } else { 1 };
        let rest = s.skip(k);
        law_unescape_leaves_no_escape(rest);
        lemma_unescape_first(rest);
        let head: char = if k == 2 { '\n' } else { s[0] };
        let r = unescape_nl(s);
        assert(r == seq![head] + unescape_nl(rest));
        assert forall|i: int| 0 <= i < r.len() - 1 implies !(#[trigger] r[i] == '\\' && r[i + 1] == 'n') by {
            if i == 0 {
                if head == '\\' && r[1] == 'n' {
                    assert(k == 1);
                    assert(rest.len() > 0);
                    assert(rest[0] == s[1]);
                    if rest.len() >= 2 && rest[0] == '\\' && rest[1] == 'n' {
                    } else {
                        assert(s[1] == 'n');
                    }
                }
            } else {
                assert(r[i] == unescape_nl(rest)[i - 1]);
                assert(r[i + 1] == unescape_nl(rest)[i]);
            }
        }
    }
}

} // verus!
