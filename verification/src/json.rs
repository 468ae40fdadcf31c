//! The JSON wire format of the API: what each response body looks like,
//! character for character, and the parser for the comment-creation
//! request body.

use crate::models::{Comment, CommentResult, CommentsResult, GetTagsResult, Profile};
use crate::time::Timestamp;
use vstd::prelude::*;

verus! {

/// The lower-case hexadecimal digit of a value below 16.
pub open spec fn hex_char(d: int) -> char {
    if d == 0 {
        '0'
    } else if d == 1 {
        '1'
    } else if d == 2 {
        '2'
    } else if d == 3 {
        '3'
    } else if d == 4 {
        '4'
    } else if d == 5 {
        '5'
    } else if d == 6 {
        '6'
    } else if d == 7 {
        '7'
    } else if d == 8 {
        '8'
    } else if d == 9 {
        '9'
    } else if d == 10 {
        'a'
    } else if d == 11 {
        'b'
    } else if d == 12 {
        'c'
    } else if d == 13 {
        'd'
    } else if d == 14 {
        'e'
    } else {
        'f'
    }
}

/// The decimal digits of a non-negative number, most significant first.
pub open spec fn dec_of(n: int) -> Seq<char>
    recommends
        n >= 0,
    decreases n,
{
    if n < 10 {
        seq![hex_char(n)]
    } else {
        dec_of(n / 10).push(hex_char(n % 10))
    }
}

/// The decimal rendering of a signed number: a minus sign before the
/// digits of its magnitude when negative.
pub open spec fn dec_i32(n: int) -> Seq<char> {
    if n < 0 {
        seq!['-'] + dec_of(-n)
    } else {
        dec_of(n)
    }
}

fn hex_digit_str(d: u32) -> (r: &'static str)
    requires
        d < 16,
    ensures
        r@ == seq![hex_char(d as int)],
{
    let r: &'static str = if d == 0 {
        "0"
    } else if d == 1 {
        "1"
    } else if d == 2 {
        "2"
    } else if d == 3 {
        "3"
    } else if d == 4 {
        "4"
    } else if d == 5 {
        "5"
    } else if d == 6 {
        "6"
    } else if d == 7 {
        "7"
    } else if d == 8 {
        "8"
    } else if d == 9 {
        "9"
    } else if d == 10 {
        "a"
    } else if d == 11 {
        "b"
    } else if d == 12 {
        "c"
    } else if d == 13 {
        "d"
    } else if d == 14 {
        "e"
    } else {
        "f"
    };
    proof {
        reveal_strlit("0");
        reveal_strlit("1");
        reveal_strlit("2");
        reveal_strlit("3");
        reveal_strlit("4");
        reveal_strlit("5");
        reveal_strlit("6");
        reveal_strlit("7");
        reveal_strlit("8");
        reveal_strlit("9");
        reveal_strlit("a");
        reveal_strlit("b");
        reveal_strlit("c");
        reveal_strlit("d");
        reveal_strlit("e");
        reveal_strlit("f");
        assert(r@ =~= seq![hex_char(d as int)]);
    }
    r
}

/// Appends the decimal digits of `n` to `out`.
pub fn push_dec_u32(out: &mut String, n: u32)
    ensures
        final(out)@ == old(out)@ + dec_of(n as int),
    decreases n,
{
    if n < 10 {
        out.append(hex_digit_str(n));
    } else {
        push_dec_u32(out, n / 10);
        out.append(hex_digit_str(n % 10));
        proof {
            assert(dec_of(n as int) == dec_of(n as int / 10).push(hex_char(n as int % 10)));
            assert(out@ =~= old(out)@ + dec_of(n as int));
        }
    }
}

/// Appends the decimal rendering of `n`, sign included, to `out`.
pub fn push_dec_i32(out: &mut String, n: i32)
    ensures
        final(out)@ == old(out)@ + dec_i32(n as int),
{
    if n < 0 {
        proof {
            reveal_strlit("-");
        }
        out.append("-");
        let m: u32 = (-(n as i64)) as u32;
        push_dec_u32(out, m);
        proof {
            assert("-"@ =~= seq!['-']);
            assert(out@ =~= old(out)@ + dec_i32(n as int));
        }
    } else {
        push_dec_u32(out, n as u32);
    }
}

proof fn lemma_dec_of_digits(n: int)
    requires
        n >= 0,
    ensures
        dec_of(n).len() >= 1,
        crate::textutil::all_digits(dec_of(n)),
        crate::textutil::digits_val(dec_of(n)) == n,
    decreases n,
{
    assert(forall|d: int|
        0 <= d < 10 ==> crate::textutil::is_digit(#[trigger] hex_char(d))
            && crate::textutil::digit_val(hex_char(d)) == d);
    if n < 10 {
        let s = dec_of(n);
        assert(s =~= seq![hex_char(n)]);
        assert(s.len() == 1);
        assert(s.last() == hex_char(n));
        assert(s.drop_last() =~= Seq::<char>::empty());
        assert(crate::textutil::digits_val(Seq::<char>::empty()) == 0);
        assert(crate::textutil::digits_val(s) == crate::textutil::digit_val(hex_char(n)));
    } else {
        lemma_dec_of_digits(n / 10);
        let p = dec_of(n / 10);
        let s = dec_of(n);
        assert(s == p.push(hex_char(n % 10)));
        assert(s.drop_last() =~= p);
        assert(s.last() == hex_char(n % 10));
        assert(forall|j: int| 0 <= j < p.len() ==> s[j] == p[j]);
        assert(crate::textutil::all_digits(s));
        assert(crate::textutil::digits_val(s) == crate::textutil::digits_val(p) * 10 + n % 10);
    }
}

/// An identifier printed in a response parses back as the same number:
/// the decimal rendering of any `i32`, sign included, is exactly what
/// the path parser reads as that `i32`.
pub proof fn lemma_decimal_round_trip(n: i32)
    ensures
        crate::textutil::parsed_i32(dec_i32(n as int)) == Some(n),
{
    if n >= 0 {
        lemma_dec_of_digits(n as int);
        let s = dec_of(n as int);
        assert(crate::textutil::is_digit(s[0]));
        assert(s[0] != '-' && s[0] != '+');
        assert(crate::textutil::parsed_i32(s) == Some(n));
    } else {
        lemma_dec_of_digits(-(n as int));
        let d = dec_of(-(n as int));
        let s = seq!['-'] + d;
        assert(dec_i32(n as int) == s);
        assert(s[0] == '-');
        assert(s.skip(1) =~= d);
        assert(forall|j: int| 0 <= j < d.len() ==> s.skip(1)[j] == d[j]);
        assert(crate::textutil::digits_val(s.skip(1)) == -(n as int));
        assert(crate::textutil::parsed_i32(s) == Some(n));
    }
}

/// How one character appears inside a JSON string literal: quotes,
/// backslashes and the named control characters get a two-character
/// escape, other control characters a `\u00..` escape, and everything
/// else stands as itself.
pub open spec fn esc_char(c: char) -> Seq<char> {
    if c == '"' {
        seq!['\\', '"']
    } else if c == '\\' {
        seq!['\\', '\\']
    } else if c == '\n' {
        seq!['\\', 'n']
    } else if c == '\r' {
        seq!['\\', 'r']
    } else if c == '\t' {
        seq!['\\', 't']
    } else if c == '\u{8}' {
        seq!['\\', 'b']
    } else if c == '\u{c}' {
        seq!['\\', 'f']
    } else if (c as u32) < 32 {
        seq!['\\', 'u', '0', '0', hex_char(c as u32 as int / 16), hex_char(c as u32 as int % 16)]
    } else {
        seq![c]
    }
}

/// A text escaped for use inside a JSON string literal.
pub open spec fn json_escaped(s: Seq<char>) -> Seq<char>
    decreases s.len(),
{
    if s.len() == 0 {
        Seq::empty()
    } else {
        esc_char(s[0]) + json_escaped(s.skip(1))
    }
}

/// A JSON string literal: the escaped text between double quotes.
pub open spec fn json_string(s: Seq<char>) -> Seq<char> {
    seq!['"'] + json_escaped(s) + seq!['"']
}

/// Appends the escaped form of `s` (without the surrounding quotes) to
/// `out`.
fn push_escaped(out: &mut String, s: &str)
    ensures
        final(out)@ == old(out)@ + json_escaped(s@),
{
    let n = s.unicode_len();
    let mut i: usize = 0;
    proof {
        assert(s@.skip(0) =~= s@);
        assert(old(out)@ + json_escaped(s@) =~= old(out)@ + json_escaped(s@.skip(0)));
    }
    while i < n
        invariant
            i <= n,
            n == s@.len(),
            out@ + json_escaped(s@.skip(i as int)) == old(out)@ + json_escaped(s@),
        decreases n - i,
    {
        let ghost prev = out@;
        let ghost suf = s@.skip(i as int);
        let c = s.get_char(i);
        proof {
            assert(suf[0] == s@[i as int]);
            assert(suf.skip(1) =~= s@.skip(i + 1));
            assert(json_escaped(suf) == esc_char(c) + json_escaped(s@.skip(i + 1)));
        }
        if c == '"' {
            proof {
                reveal_strlit("\\\"");
            }
            out.append("\\\"");
            proof {
                assert("\\\""@ =~= esc_char(c));
            }
        } else if c == '\\' {
            proof {
                reveal_strlit("\\\\");
            }
            out.append("\\\\");
            proof {
                assert("\\\\"@ =~= esc_char(c));
            }
        } else if c == '\n' {
            proof {
                reveal_strlit("\\n");
            }
            out.append("\\n");
            proof {
                assert("\\n"@ =~= esc_char(c));
            }
        } else if c == '\r' {
            proof {
                reveal_strlit("\\r");
            }
            out.append("\\r");
            proof {
                assert("\\r"@ =~= esc_char(c));
            }
        } else if c == '\t' {
            proof {
                reveal_strlit("\\t");
            }
            out.append("\\t");
            proof {
                assert("\\t"@ =~= esc_char(c));
            }
        } else if c == '\u{8}' {
            proof {
                reveal_strlit("\\b");
            }
            out.append("\\b");
            proof {
                assert("\\b"@ =~= esc_char(c));
            }
        } else if c == '\u{c}' {
            proof {
                reveal_strlit("\\f");
            }
            out.append("\\f");
            proof {
                assert("\\f"@ =~= esc_char(c));
            }
        } else if (c as u32) < 32 {
            proof {
                reveal_strlit("\\u00");
            }
            out.append("\\u00");
            let code: u32 = c as u32;
            out.append(hex_digit_str(code / 16));
            out.append(hex_digit_str(code % 16));
            proof {
                assert("\\u00"@ =~= seq!['\\', 'u', '0', '0']);
                assert(out@ =~= prev + esc_char(c));
            }
        } else {
            let piece = s.substring_char(i, i + 1);
            out.append(piece);
            proof {
                assert(piece@ =~= esc_char(c));
            }
        }
        proof {
            assert(out@ + json_escaped(s@.skip(i + 1)) =~= prev + json_escaped(suf));
        }
        i = i + 1;
    }
    proof {
        assert(s@.skip(n as int) =~= Seq::<char>::empty());
        assert(out@ =~= old(out)@ + json_escaped(s@));
    }
}

/// A JSON boolean.
pub open spec fn json_bool(b: bool) -> Seq<char> {
    if b {
        "true"@
    } else {
        "false"@
    }
}

/// A nullable JSON string: `null` when absent.
pub open spec fn json_opt_string(o: Option<String>) -> Seq<char> {
    match o {
        Option::None => "null"@,
        Option::Some(t) => json_string(t@),
    }
}

/// A number padded with leading zeros to two digits.
pub open spec fn pad2(n: int) -> Seq<char> {
    if n < 10 {
        seq!['0'] + dec_of(n)
    } else {
        dec_of(n)
    }
}

/// A number padded with leading zeros to four digits.
pub open spec fn pad4(n: int) -> Seq<char> {
    if n < 10 {
        seq!['0', '0', '0'] + dec_of(n)
    } else if n < 100 {
        seq!['0', '0'] + dec_of(n)
    } else if n < 1000 {
        seq!['0'] + dec_of(n)
    } else {
        dec_of(n)
    }
}

/// A timestamp as the wire prints it: date and time joined by `T`, the
/// year four digits, every other field two.
pub open spec fn timestamp_chars(t: Timestamp) -> Seq<char> {
    pad4(t.year as int) + seq!['-'] + pad2(t.month as int) + seq!['-'] + pad2(t.day as int)
        + seq!['T'] + pad2(t.hour as int) + seq![':'] + pad2(t.minute as int) + seq![':'] + pad2(
        t.second as int,
    )
}

/// A timestamp as a JSON value: its rendering between double quotes.
pub open spec fn json_of_timestamp(t: Timestamp) -> Seq<char> {
    seq!['"'] + timestamp_chars(t) + seq!['"']
}

/// A profile as a JSON object, fields in wire order.
pub open spec fn json_of_profile(p: Profile) -> Seq<char> {
    "{\"username\":"@ + json_string(p.username@) + ",\"bio\":"@ + json_opt_string(p.bio)
        + ",\"image\":"@ + json_opt_string(p.image) + ",\"following\":"@ + json_bool(p.following)
        + "}"@
}

/// A comment as a JSON object, fields in wire order.
pub open spec fn json_of_comment(c: Comment) -> Seq<char> {
    "{\"id\":"@ + dec_i32(c.id as int) + ",\"createdAt\":"@ + json_of_timestamp(c.created_at)
        + ",\"updatedAt\":"@ + json_of_timestamp(c.updated_at) + ",\"body\":"@ + json_string(
        c.body@,
    ) + ",\"author\":"@ + json_of_profile(c.author) + "}"@
}

/// The comma-separated items of a JSON array of comments.
pub open spec fn json_comment_items(s: Seq<Comment>) -> Seq<char>
    decreases s.len(),
{
    if s.len() == 0 {
        Seq::empty()
    } else if s.len() == 1 {
        json_of_comment(s[0])
    } else {
        json_comment_items(s.drop_last()) + seq![','] + json_of_comment(s.last())
    }
}

/// The comma-separated items of a JSON array of strings.
pub open spec fn json_string_items(s: Seq<Seq<char>>) -> Seq<char>
    decreases s.len(),
{
    if s.len() == 0 {
        Seq::empty()
    } else if s.len() == 1 {
        json_string(s[0])
    } else {
        json_string_items(s.drop_last()) + seq![','] + json_string(s.last())
    }
}

/// The body of a single-comment response: `{"comment": ...}`.
pub open spec fn json_of_comment_result(r: CommentResult) -> Seq<char> {
    "{\"comment\":"@ + json_of_comment(r.comment) + "}"@
}

/// The body of a comment-list response: `{"comments": [...]}`.
pub open spec fn json_of_comments_result(r: CommentsResult) -> Seq<char> {
    "{\"comments\":["@ + json_comment_items(r.comments@) + "]}"@
}

/// The body of the tag-list response: `{"tags": [...]}`.
pub open spec fn json_of_tags_result(r: GetTagsResult) -> Seq<char> {
    "{\"tags\":["@ + json_string_items(r.tags@.map_values(|t: String| t@)) + "]}"@
}

/// Appends the JSON string literal for `s` to `out`.
fn push_json_string(out: &mut String, s: &str)
    ensures
        final(out)@ == old(out)@ + json_string(s@),
{
    proof {
        reveal_strlit("\"");
    }
    out.append("\"");
    push_escaped(out, s);
    out.append("\"");
    proof {
        assert("\""@ =~= seq!['"']);
        assert(out@ =~= old(out)@ + json_string(s@));
    }
}

/// Appends a nullable JSON string to `out`.
fn push_opt_string(out: &mut String, s: &Option<String>)
    ensures
        final(out)@ == old(out)@ + json_opt_string(*s),
{
    match s {
        Option::None => {
            out.append("null");
        },
        Option::Some(t) => {
            push_json_string(out, t.as_str());
        },
    }
}

/// Appends `n` as two zero-padded decimal digits to `out`.
fn push_pad2(out: &mut String, n: u8)
    ensures
        final(out)@ == old(out)@ + pad2(n as int),
{
    if n < 10 {
        proof {
            reveal_strlit("0");
        }
        out.append("0");
        push_dec_u32(out, n as u32);
        proof {
            assert("0"@ =~= seq!['0']);
            assert(out@ =~= old(out)@ + pad2(n as int));
        }
    } else {
        push_dec_u32(out, n as u32);
    }
}

/// Appends `n` as four zero-padded decimal digits to `out`.
fn push_pad4(out: &mut String, n: u16)
    ensures
        final(out)@ == old(out)@ + pad4(n as int),
{
    proof {
        reveal_strlit("0");
        reveal_strlit("00");
        reveal_strlit("000");
        assert("0"@ =~= seq!['0']);
        assert("00"@ =~= seq!['0', '0']);
        assert("000"@ =~= seq!['0', '0', '0']);
    }
    if n < 10 {
        out.append("000");
    } else if n < 100 {
        out.append("00");
    } else if n < 1000 {
        out.append("0");
    }
    push_dec_u32(out, n as u32);
    proof {
        assert(out@ =~= old(out)@ + pad4(n as int));
    }
}

/// Appends the quoted wire rendering of a timestamp to `out`.
fn push_timestamp(out: &mut String, t: &Timestamp)
    ensures
        final(out)@ == old(out)@ + json_of_timestamp(*t),
{
    proof {
        reveal_strlit("\"");
        reveal_strlit("-");
        reveal_strlit("T");
        reveal_strlit(":");
        assert("\""@ =~= seq!['"']);
        assert("-"@ =~= seq!['-']);
        assert("T"@ =~= seq!['T']);
        assert(":"@ =~= seq![':']);
    }
    out.append("\"");
    push_pad4(out, t.year);
    out.append("-");
    push_pad2(out, t.month);
    out.append("-");
    push_pad2(out, t.day);
    out.append("T");
    push_pad2(out, t.hour);
    out.append(":");
    push_pad2(out, t.minute);
    out.append(":");
    push_pad2(out, t.second);
    out.append("\"");
    proof {
        assert(out@ =~= old(out)@ + json_of_timestamp(*t));
    }
}

/// Appends a profile as a JSON object to `out`.
fn push_profile(out: &mut String, p: &Profile)
    ensures
        final(out)@ == old(out)@ + json_of_profile(*p),
{
    out.append("{\"username\":");
    push_json_string(out, p.username.as_str());
    out.append(",\"bio\":");
    push_opt_string(out, &p.bio);
    out.append(",\"image\":");
    push_opt_string(out, &p.image);
    out.append(",\"following\":");
    if p.following {
        out.append("true");
    } else {
        out.append("false");
    }
    out.append("}");
    proof {
        assert(out@ =~= old(out)@ + json_of_profile(*p));
    }
}

/// Appends a comment as a JSON object to `out`.
fn push_comment(out: &mut String, c: &Comment)
    ensures
        final(out)@ == old(out)@ + json_of_comment(*c),
{
    out.append("{\"id\":");
    push_dec_i32(out, c.id);
    out.append(",\"createdAt\":");
    push_timestamp(out, &c.created_at);
    out.append(",\"updatedAt\":");
    push_timestamp(out, &c.updated_at);
    out.append(",\"body\":");
    push_json_string(out, c.body.as_str());
    out.append(",\"author\":");
    push_profile(out, &c.author);
    out.append("}");
    proof {
        assert(out@ =~= old(out)@ + json_of_comment(*c));
    }
}

/// JSON whitespace.
pub open spec fn is_json_ws(c: char) -> bool {
    c == ' ' || c == '\t' || c == '\n' || c == '\r'
}

/// The first position at or after `i` that does not hold JSON
/// whitespace, or the end of the text.
pub open spec fn skip_ws(s: Seq<char>, i: int) -> int
    decreases s.len() - i,
{
    if i < 0 || i >= s.len() {
        i
    } else if is_json_ws(s[i]) {
        skip_ws(s, i + 1)
    } else {
        i
    }
}

/// `lit` occurs in `s` at position `i`.
pub open spec fn lit_at(s: Seq<char>, i: int, lit: Seq<char>) -> bool {
    0 <= i && i + lit.len() <= s.len() && s.subrange(i, i + lit.len()) == lit
}

/// The character a two-character JSON escape denotes, `None` for a
/// character that begins no such escape.
pub open spec fn unescape(c: char) -> Option<char> {
    if c == '"' {
        Some('"')
    } else if c == '\\' {
        Some('\\')
    } else if c == '/' {
        Some('/')
    } else if c == 'b' {
        Some('\u{8}')
    } else if c == 'f' {
        Some('\u{c}')
    } else if c == 'n' {
        Some('\n')
    } else if c == 'r' {
        Some('\r')
    } else if c == 't' {
        Some('\t')
    } else {
        None
    }
}

/// Parses the remainder of a JSON string literal starting at `i`, just
/// after the opening quote: the decoded characters and the position
/// after the closing quote. The escapes are JSON's, `\uXXXX` included,
/// with a high surrogate taking its low mate. `None` on an unterminated
/// literal, a raw control character, an unknown escape, or an unpaired
/// surrogate.
pub open spec fn parse_string_body(s: Seq<char>, i: int) -> Option<(Seq<char>, int)>
    decreases s.len() - i,
{
    if i < 0 || i >= s.len() {
        None
    } else if s[i] == '"' {
        Some((Seq::empty(), i + 1))
    } else if s[i] == '\\' {
        if i + 1 >= s.len() {
            None
        } else if s[i + 1] == 'u' {
            if !crate::textutil::hex4_at(s, i + 2) {
                None
            } else {
                let v = crate::textutil::hex4_val(s, i + 2);
                if v < 0xD800 || 0xE000 <= v {
                    match parse_string_body(s, i + 6) {
                        None => None,
                        Some(p) => Some((seq![(v as u32) as char] + p.0, p.1)),
                    }
                } else if v < 0xDC00 {
                    if i + 7 < s.len() && s[i + 6] == '\\' && s[i + 7] == 'u'
                        && crate::textutil::hex4_at(s, i + 8) {
                        let w = crate::textutil::hex4_val(s, i + 8);
                        if 0xDC00 <= w && w < 0xE000 {
                            match parse_string_body(s, i + 12) {
                                None => None,
                                Some(p) => Some(
                                    (
                                        seq![
                                            ((0x10000 + (v - 0xD800) * 0x400 + (w
                                                - 0xDC00)) as u32) as char,
                                        ] + p.0,
                                        p.1,
                                    ),
                                ),
                            }
                        } else {
                            None
                        }
                    } else {
                        None
                    }
                } else {
                    None
                }
            }
        } else {
            match unescape(s[i + 1]) {
                None => None,
                Some(d) => match parse_string_body(s, i + 2) {
                    None => None,
                    Some(p) => Some((seq![d] + p.0, p.1)),
                },
            }
        }
    } else if (s[i] as u32) < 32 {
        None
    } else {
        match parse_string_body(s, i + 1) {
            None => None,
            Some(p) => Some((seq![s[i]] + p.0, p.1)),
        }
    }
}

/// The comment text inside a comment-creation request body of the shape
/// `{"comment": {"body": <string>}}`, whitespace allowed between tokens.
/// The grammar is exact: each object holds its one member and nothing
/// else, so a request with extra members is rejected. `None` on any
/// other text.
pub open spec fn parsed_add_comment(s: Seq<char>) -> Option<Seq<char>> {
    let i0 = skip_ws(s, 0);
    if !(i0 < s.len() && s[i0] == '{') {
        None
    } else {
        let i1 = skip_ws(s, i0 + 1);
        if !lit_at(s, i1, "\"comment\""@) {
            None
        } else {
            let i2 = skip_ws(s, i1 + "\"comment\""@.len());
            if !(i2 < s.len() && s[i2] == ':') {
                None
            } else {
                let i3 = skip_ws(s, i2 + 1);
                if !(i3 < s.len() && s[i3] == '{') {
                    None
                } else {
                    let i4 = skip_ws(s, i3 + 1);
                    if !lit_at(s, i4, "\"body\""@) {
                        None
                    } else {
                        let i5 = skip_ws(s, i4 + "\"body\""@.len());
                        if !(i5 < s.len() && s[i5] == ':') {
                            None
                        } else {
                            let i6 = skip_ws(s, i5 + 1);
                            if !(i6 < s.len() && s[i6] == '"') {
                                None
                            } else {
                                parsed_add_comment_tail(s, i6)
                            }
                        }
                    }
                }
            }
        }
    }
}

/// The tail of the comment-creation grammar: the body string starting at
/// its opening quote `i`, then the two closing braces and the end of the
/// text.
pub open spec fn parsed_add_comment_tail(s: Seq<char>, i: int) -> Option<Seq<char>> {
    match parse_string_body(s, i + 1) {
        None => None,
        Some(p) => {
            let i7 = skip_ws(s, p.1);
            if !(i7 < s.len() && s[i7] == '}') {
                None
            } else {
                let i8 = skip_ws(s, i7 + 1);
                if !(i8 < s.len() && s[i8] == '}') {
                    None
                } else {
                    if skip_ws(s, i8 + 1) == s.len() {
                        Some(p.0)
                    } else {
                        None
                    }
                }
            }
        },
    }
}

#[verifier::rlimit(60)]
proof fn lemma_parse_suffix(s: Seq<char>, i: int, t: Seq<char>, j: int)
    requires
        0 <= i <= s.len(),
        0 <= j <= t.len(),
        s.skip(i) == t.skip(j),
    ensures
        match parse_string_body(t, j) {
            None => parse_string_body(s, i) is None,
            Some(p) => parse_string_body(s, i) == Some((p.0, p.1 - j + i)),
        },
    decreases s.len() - i,
{
    assert(s.skip(i).len() == t.skip(j).len());
    assert(s.skip(i).len() == s.len() - i);
    assert(t.skip(j).len() == t.len() - j);
    assert forall|k: int| 0 <= k < s.len() - i implies #[trigger] s[i + k] == t[j + k] by {
        assert(s.skip(i)[k] == s[i + k]);
        assert(t.skip(j)[k] == t[j + k]);
    }
    if i < s.len() {
        assert(j < t.len());
        assert(s.skip(i)[0] == s[i]);
        assert(t.skip(j)[0] == t[j]);
        assert(s[i] == t[j]);
        if s[i] == '"' {
        } else if s[i] == '\\' {
            if i + 1 < s.len() {
                assert(s[i + 1] == t[j + 1]);
                if s[i + 1] == 'u' {
                    assert(i + 2 < s.len() ==> s[i + 2] == t[j + 2]);
                    assert(i + 3 < s.len() ==> s[i + 3] == t[j + 3]);
                    assert(i + 4 < s.len() ==> s[i + 4] == t[j + 4]);
                    assert(i + 5 < s.len() ==> s[i + 5] == t[j + 5]);
                    assert(crate::textutil::hex4_at(s, i + 2) == crate::textutil::hex4_at(
                        t,
                        j + 2,
                    ));
                    if crate::textutil::hex4_at(s, i + 2) {
                        assert(crate::textutil::hex4_val(s, i + 2) == crate::textutil::hex4_val(
                            t,
                            j + 2,
                        ));
                        let v = crate::textutil::hex4_val(s, i + 2);
                        if v < 0xD800 || 0xE000 <= v {
                            assert(s.skip(i + 6) =~= t.skip(j + 6)) by {
                                assert(s.skip(i).skip(6) =~= s.skip(i + 6));
                                assert(t.skip(j).skip(6) =~= t.skip(j + 6));
                            }
                            lemma_parse_suffix(s, i + 6, t, j + 6);
                        } else if v < 0xDC00 {
                            assert(i + 6 < s.len() ==> s[i + 6] == t[j + 6]);
                            assert(i + 7 < s.len() ==> s[i + 7] == t[j + 7]);
                            assert(i + 8 < s.len() ==> s[i + 8] == t[j + 8]);
                            assert(i + 9 < s.len() ==> s[i + 9] == t[j + 9]);
                            assert(i + 10 < s.len() ==> s[i + 10] == t[j + 10]);
                            assert(i + 11 < s.len() ==> s[i + 11] == t[j + 11]);
                            assert((i + 7 < s.len() && s[i + 6] == '\\' && s[i + 7] == 'u'
                                && crate::textutil::hex4_at(s, i + 8)) == (j + 7 < t.len() && t[j
                                + 6] == '\\' && t[j + 7] == 'u' && crate::textutil::hex4_at(
                                t,
                                j + 8,
                            )));
                            if i + 7 < s.len() && s[i + 6] == '\\' && s[i + 7] == 'u'
                                && crate::textutil::hex4_at(s, i + 8) {
                                assert(crate::textutil::hex4_val(s, i + 8)
                                    == crate::textutil::hex4_val(t, j + 8));
                                let w = crate::textutil::hex4_val(s, i + 8);
                                if 0xDC00 <= w && w < 0xE000 {
                                    assert(s.skip(i + 12) =~= t.skip(j + 12)) by {
                                        assert(s.skip(i).skip(12) =~= s.skip(i + 12));
                                        assert(t.skip(j).skip(12) =~= t.skip(j + 12));
                                    }
                                    lemma_parse_suffix(s, i + 12, t, j + 12);
                                }
                            }
                        }
                    }
                } else if unescape(s[i + 1]) is Some {
                    assert(s.skip(i + 2) =~= t.skip(j + 2)) by {
                        assert(s.skip(i).skip(2) =~= s.skip(i + 2));
                        assert(t.skip(j).skip(2) =~= t.skip(j + 2));
                    }
                    lemma_parse_suffix(s, i + 2, t, j + 2);
                }
            }
        } else if (s[i] as u32) < 32 {
        } else {
            assert(s.skip(i + 1) =~= t.skip(j + 1)) by {
                assert(s.skip(i).skip(1) =~= s.skip(i + 1));
                assert(t.skip(j).skip(1) =~= t.skip(j + 1));
            }
            lemma_parse_suffix(s, i + 1, t, j + 1);
        }
    }
}

#[verifier::rlimit(100)]
proof fn lemma_escaped_parses_back(s: Seq<char>, tail: Seq<char>)
    ensures
        parse_string_body(json_escaped(s) + seq!['"'] + tail, 0) == Some(
            (s, json_escaped(s).len() + 1int),
        ),
    decreases s.len(),
{
    let f = json_escaped(s) + seq!['"'] + tail;
    if s.len() == 0 {
        assert(json_escaped(s) =~= Seq::<char>::empty());
        assert(f[0] == '"');
        assert(parse_string_body(f, 0) == Some((Seq::<char>::empty(), 1int)));
        assert(s =~= Seq::<char>::empty());
    } else {
        let c = s[0];
        let e = esc_char(c);
        let rest = json_escaped(s.skip(1));
        assert(json_escaped(s) == e + rest);
        let g = rest + seq!['"'] + tail;
        lemma_escaped_parses_back(s.skip(1), tail);
        if c == '"' || c == '\\' || c == '\n' || c == '\r' || c == '\t' || c == '\u{8}' || c
            == '\u{c}' {
            assert(e.len() == 2 && e[0] == '\\' && e[1] != 'u' && unescape(e[1]) == Some(c));
            assert(f[0] == '\\');
            assert(f[1] == e[1]);
            assert(f.skip(2) =~= g);
            assert(g.skip(0) =~= g);
            lemma_parse_suffix(f, 2, g, 0);
            assert(parse_string_body(f, 0) == Some((seq![c] + s.skip(1), rest.len() + 3int)));
            assert(seq![c] + s.skip(1) =~= s);
            assert(json_escaped(s).len() == 2 + rest.len());
        } else if (c as u32) < 32 {
            let code = c as u32 as int;
            assert(forall|d: int|
                0 <= d < 16 ==> crate::textutil::is_hex_digit(#[trigger] hex_char(d))
                    && crate::textutil::hex_digit_val(hex_char(d)) == d);
            assert(e == seq!['\\', 'u', '0', '0', hex_char(code / 16), hex_char(code % 16)]);
            assert(f[0] == '\\');
            assert(f[1] == 'u');
            assert(f[2] == '0' && f[3] == '0' && f[4] == hex_char(code / 16) && f[5] == hex_char(
                code % 16,
            ));
            assert(crate::textutil::hex4_at(f, 2));
            assert(crate::textutil::hex4_val(f, 2) == (code / 16) * 16 + code % 16);
            assert(crate::textutil::hex4_val(f, 2) == code);
            vstd::utf8::char_u32_cast(c, c as u32);
            assert((crate::textutil::hex4_val(f, 2) as u32) as char == c);
            assert(f.skip(6) =~= g);
            assert(g.skip(0) =~= g);
            lemma_parse_suffix(f, 6, g, 0);
            assert(parse_string_body(f, 0) == Some((seq![c] + s.skip(1), rest.len() + 7int)));
            assert(seq![c] + s.skip(1) =~= s);
            assert(json_escaped(s).len() == 6 + rest.len());
        } else {
            assert(e =~= seq![c]);
            assert(f[0] == c);
            assert(c != '"' && c != '\\' && c as u32 >= 32);
            assert(f.skip(1) =~= g);
            assert(g.skip(0) =~= g);
            lemma_parse_suffix(f, 1, g, 0);
            assert(parse_string_body(f, 0) == Some((seq![c] + s.skip(1), rest.len() + 2int)));
            assert(seq![c] + s.skip(1) =~= s);
            assert(json_escaped(s).len() == 1 + rest.len());
        }
    }
}

/// What the serializer writes between quotes, the request parser reads
/// back: for every text, parsing just after the opening quote of the
/// JSON string literal for `s` yields `s` itself and stops at the
/// literal's end.
pub proof fn lemma_json_string_round_trip(s: Seq<char>)
    ensures
        parse_string_body(json_string(s), 1) == Some((s, json_string(s).len() as int)),
{
    let f = json_string(s);
    let g = json_escaped(s) + seq!['"'] + Seq::<char>::empty();
    lemma_escaped_parses_back(s, Seq::empty());
    assert(f.skip(1) =~= g);
    assert(g.skip(0) =~= g);
    lemma_parse_suffix(f, 1, g, 0);
    assert(f.len() == json_escaped(s).len() + 2);
}

/// Advances past JSON whitespace.
fn skip_ws_exec(s: &str, i: usize) -> (r: usize)
    requires
        i <= s@.len(),
    ensures
        r == skip_ws(s@, i as int),
        i <= r <= s@.len(),
{
    let n = s.unicode_len();
    let mut j = i;
    while j < n
        invariant
            i <= j <= n,
            n == s@.len(),
            skip_ws(s@, i as int) == skip_ws(s@, j as int),
        decreases n - j,
    {
        let c = s.get_char(j);
        if !(c == ' ' || c == '\t' || c == '\n' || c == '\r') {
            proof {
                assert(skip_ws(s@, j as int) == j);
            }
            return j;
        }
        j = j + 1;
    }
    j
}

/// How an executable string-body parse relates to the grammar: the same
/// acceptance, the same decoded text, the same resume position.
pub open spec fn string_body_rel(r: Option<(String, usize)>, m: Option<(Seq<char>, int)>) -> bool {
    match r {
        None => m is None,
        Some(p) => m == Some((p.0@, p.1 as int)),
    }
}

pub(crate) proof fn lemma_string_body_bounds(s: Seq<char>, i: int)
    requires
        0 <= i,
    ensures
        match parse_string_body(s, i) {
            None => true,
            Some(p) => i < p.1 <= s.len(),
        },
    decreases s.len() - i,
{
    if i < s.len() {
        if s[i] == '\\' && i + 1 < s.len() {
            if s[i + 1] == 'u' {
                if i + 6 <= s.len() {
                    lemma_string_body_bounds(s, i + 6);
                }
                if i + 12 <= s.len() {
                    lemma_string_body_bounds(s, i + 12);
                }
            } else {
                lemma_string_body_bounds(s, i + 2);
            }
        } else {
            lemma_string_body_bounds(s, i + 1);
        }
    }
}

/// Parses the remainder of a JSON string literal, as the grammar reads
/// it.
pub(crate) fn parse_string_body_exec(s: &str, i: usize) -> (r: Option<(String, usize)>)
    requires
        i <= s@.len(),
    ensures
        string_body_rel(r, parse_string_body(s@, i as int)),
    decreases s@.len() - i,
{
    let n = s.unicode_len();
    if i >= n {
        return None;
    }
    let c = s.get_char(i);
    if c == '"' {
        let empty = String::new();
        proof {
            assert(empty@ =~= Seq::<char>::empty());
        }
        return Some((empty, i + 1));
    }
    if c == '\\' {
        if i + 1 >= n {
            return None;
        }
        let e = s.get_char(i + 1);
        if e == 'u' {
            let v = match crate::textutil::read_hex4(s, i + 2) {
                Some(v) => v,
                None => {
                    return None;
                },
            };
            if v < 0xD800 || 0xE000 <= v {
                let c2 = match char::from_u32(v) {
                    Some(c2) => c2,
                    None => {
                        proof {
                            assert(false);
                        }
                        return None;
                    },
                };
                proof {
                    vstd::utf8::char_u32_cast(c2, v);
                }
                match parse_string_body_exec(s, i + 6) {
                    None => {
                        return None;
                    },
                    Some(p) => {
                        let combined = crate::textutil::char_string(c2).concat(p.0.as_str());
                        proof {
                            assert(combined@ =~= seq![
                                (crate::textutil::hex4_val(s@, i + 2) as u32) as char,
                            ] + p.0@);
                        }
                        return Some((combined, p.1));
                    },
                }
            } else if v < 0xDC00 {
                if !(n - i > 7 && s.get_char(i + 6) == '\\' && s.get_char(i + 7) == 'u') {
                    return None;
                }
                let w = match crate::textutil::read_hex4(s, i + 8) {
                    Some(w) => w,
                    None => {
                        return None;
                    },
                };
                if !(0xDC00 <= w && w < 0xE000) {
                    return None;
                }
                let code: u32 = 0x10000 + (v - 0xD800) * 0x400 + (w - 0xDC00);
                let c2 = match char::from_u32(code) {
                    Some(c2) => c2,
                    None => {
                        proof {
                            assert(false);
                        }
                        return None;
                    },
                };
                proof {
                    vstd::utf8::char_u32_cast(c2, code);
                }
                match parse_string_body_exec(s, i + 12) {
                    None => {
                        return None;
                    },
                    Some(p) => {
                        let combined = crate::textutil::char_string(c2).concat(p.0.as_str());
                        proof {
                            let hv = crate::textutil::hex4_val(s@, i + 2);
                            let hw = crate::textutil::hex4_val(s@, i + 8);
                            assert(combined@ =~= seq![
                                ((0x10000 + (hv - 0xD800) * 0x400 + (hw - 0xDC00)) as u32) as char,
                            ] + p.0@);
                        }
                        return Some((combined, p.1));
                    },
                }
            } else {
                return None;
            }
        }
        let decoded: &'static str = if e == '"' {
            "\""
        } else if e == '\\' {
            "\\"
        } else if e == '/' {
            "/"
        } else if e == 'b' {
            "\u{8}"
        } else if e == 'f' {
            "\u{c}"
        } else if e == 'n' {
            "\n"
        } else if e == 'r' {
            "\r"
        } else if e == 't' {
            "\t"
        } else {
            return None;
        };
        proof {
            reveal_strlit("\"");
            reveal_strlit("\\");
            reveal_strlit("/");
            reveal_strlit("\u{8}");
            reveal_strlit("\u{c}");
            reveal_strlit("\n");
            reveal_strlit("\r");
            reveal_strlit("\t");
            assert(decoded@ =~= seq![unescape(e)->0]);
        }
        match parse_string_body_exec(s, i + 2) {
            None => {
                return None;
            },
            Some(p) => {
                let combined = String::from_str(decoded).concat(p.0.as_str());
                proof {
                    assert(combined@ =~= seq![unescape(e)->0] + p.0@);
                }
                return Some((combined, p.1));
            },
        }
    }
    if (c as u32) < 32 {
        return None;
    }
    let head = s.substring_char(i, i + 1);
    match parse_string_body_exec(s, i + 1) {
        None => None,
        Some(p) => {
            let combined = String::from_str(head).concat(p.0.as_str());
            proof {
                assert(head@ =~= seq![s@[i as int]]);
                assert(combined@ =~= seq![s@[i as int]] + p.0@);
            }
            Some((combined, p.1))
        },
    }
}

/// Parses a comment-creation request body of the shape
/// `{"comment": {"body": <string>}}` and returns the decoded comment
/// text; `None` on any text outside that grammar. The string escapes
/// are JSON's; each object holds exactly its one member.
pub fn parse_add_comment(s: &str) -> (r: Option<String>)
    ensures
        match r {
            None => parsed_add_comment(s@) is None,
            Some(b) => parsed_add_comment(s@) == Some(b@),
        },
{
    let n = s.unicode_len();
    let comment_key = "\"comment\"";
    let body_key = "\"body\"";
    let i0 = skip_ws_exec(s, 0);
    if !(i0 < n && s.get_char(i0) == '{') {
        return None;
    }
    let i1 = skip_ws_exec(s, i0 + 1);
    if !matches_at_key(s, i1, comment_key) {
        return None;
    }
    proof {
        reveal_strlit("\"comment\"");
    }
    let i2 = skip_ws_exec(s, i1 + comment_key.unicode_len());
    if !(i2 < n && s.get_char(i2) == ':') {
        return None;
    }
    let i3 = skip_ws_exec(s, i2 + 1);
    if !(i3 < n && s.get_char(i3) == '{') {
        return None;
    }
    let i4 = skip_ws_exec(s, i3 + 1);
    if !matches_at_key(s, i4, body_key) {
        return None;
    }
    proof {
        reveal_strlit("\"body\"");
    }
    let i5 = skip_ws_exec(s, i4 + body_key.unicode_len());
    if !(i5 < n && s.get_char(i5) == ':') {
        return None;
    }
    let i6 = skip_ws_exec(s, i5 + 1);
    if !(i6 < n && s.get_char(i6) == '"') {
        return None;
    }
    proof {
        lemma_string_body_bounds(s@, i6 + 1);
    }
    match parse_string_body_exec(s, i6 + 1) {
        None => None,
        Some(p) => {
            let i7 = skip_ws_exec(s, p.1);
            if !(i7 < n && s.get_char(i7) == '}') {
                return None;
            }
            let i8 = skip_ws_exec(s, i7 + 1);
            if !(i8 < n && s.get_char(i8) == '}') {
                return None;
            }
            let i9 = skip_ws_exec(s, i8 + 1);
            if i9 == n {
                Some(p.0)
            } else {
                None
            }
        },
    }
}

/// Whether the key literal occurs at position `i`, stated as `lit_at`.
fn matches_at_key(s: &str, i: usize, key: &str) -> (r: bool)
    requires
        i <= s@.len(),
    ensures
        r == lit_at(s@, i as int, key@),
{
    let r = crate::textutil::matches_at(s, i, key);
    proof {
        if crate::textutil::begins_with(s@.skip(i as int), key@) {
            assert(s@.skip(i as int).subrange(0, key@.len() as int) =~= s@.subrange(
                i as int,
                i + key@.len(),
            ));
        }
        if lit_at(s@, i as int, key@) {
            assert(s@.skip(i as int).subrange(0, key@.len() as int) =~= s@.subrange(
                i as int,
                i + key@.len(),
            ));
        }
    }
    r
}

/// The response body for one comment, exactly as the wire carries it.
pub fn comment_result_json(r: &CommentResult) -> (s: String)
    ensures
        s@ == json_of_comment_result(*r),
{
    let mut out = String::new();
    out.append("{\"comment\":");
    push_comment(&mut out, &r.comment);
    out.append("}");
    proof {
        assert(out@ =~= json_of_comment_result(*r));
    }
    out
}

/// The response body for a list of comments, exactly as the wire
/// carries it.
pub fn comments_result_json(r: &CommentsResult) -> (s: String)
    ensures
        s@ == json_of_comments_result(*r),
{
    let mut out = String::new();
    out.append("{\"comments\":[");
    let n = r.comments.len();
    let mut i: usize = 0;
    proof {
        assert(r.comments@.subrange(0, 0) =~= Seq::<Comment>::empty());
        assert(out@ =~= "{\"comments\":["@ + json_comment_items(r.comments@.subrange(0, 0)));
    }
    while i < n
        invariant
            i <= n,
            n == r.comments@.len(),
            out@ == "{\"comments\":["@ + json_comment_items(r.comments@.subrange(0, i as int)),
        decreases n - i,
    {
        let ghost prev = out@;
        if i > 0 {
            proof {
                reveal_strlit(",");
            }
            out.append(",");
        }
        push_comment(&mut out, &r.comments[i]);
        proof {
            let pre = r.comments@.subrange(0, i as int);
            let cur = r.comments@.subrange(0, i + 1);
            assert(cur.drop_last() =~= pre);
            assert(cur.last() == r.comments@[i as int]);
            if i == 0 {
                assert(cur.len() == 1);
                assert(json_comment_items(cur) == json_of_comment(r.comments@[0]));
            } else {
                assert(","@ =~= seq![',']);
            }
            assert(out@ =~= "{\"comments\":["@ + json_comment_items(cur));
        }
        i = i + 1;
    }
    out.append("]}");
    proof {
        assert(r.comments@.subrange(0, n as int) =~= r.comments@);
        assert(out@ =~= json_of_comments_result(*r));
    }
    out
}

/// The response body for the tag list, exactly as the wire carries it.
pub fn tags_result_json(r: &GetTagsResult) -> (s: String)
    ensures
        s@ == json_of_tags_result(*r),
{
    let ghost tags = r.tags@.map_values(|t: String| t@);
    let mut out = String::new();
    out.append("{\"tags\":[");
    let n = r.tags.len();
    let mut i: usize = 0;
    proof {
        assert(tags.subrange(0, 0) =~= Seq::<Seq<char>>::empty());
        assert(out@ =~= "{\"tags\":["@ + json_string_items(tags.subrange(0, 0)));
    }
    while i < n
        invariant
            i <= n,
            n == r.tags@.len(),
            tags == r.tags@.map_values(|t: String| t@),
            out@ == "{\"tags\":["@ + json_string_items(tags.subrange(0, i as int)),
        decreases n - i,
    {
        let ghost prev = out@;
        if i > 0 {
            proof {
                reveal_strlit(",");
            }
            out.append(",");
        }
        push_json_string(&mut out, r.tags[i].as_str());
        proof {
            let pre = tags.subrange(0, i as int);
            let cur = tags.subrange(0, i + 1);
            assert(cur.drop_last() =~= pre);
            assert(cur.last() == tags[i as int]);
            assert(tags[i as int] == r.tags@[i as int]@);
            if i == 0 {
                assert(cur.len() == 1);
                assert(json_string_items(cur) == json_string(tags[0]));
            } else {
                assert(","@ =~= seq![',']);
            }
            assert(out@ =~= "{\"tags\":["@ + json_string_items(cur));
        }
        i = i + 1;
    }
    out.append("]}");
    proof {
        assert(tags.subrange(0, n as int) =~= tags);
        assert(out@ =~= json_of_tags_result(*r));
    }
    out
}

} // verus!
