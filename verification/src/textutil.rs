//! Text transformations the endpoints rely on: occurrence replacement,
//! the last segment of a path, comma-separated splitting, and decimal
//! parsing of identifiers.

use vstd::prelude::*;

verus! {

/// `p` is a prefix of `s`.
pub open spec fn begins_with(s: Seq<char>, p: Seq<char>) -> bool {
    p.len() <= s.len() && s.subrange(0, p.len() as int) == p
}

/// The text with every occurrence of `pat` replaced by `rep`, scanning
/// left to right without overlap, as `str::replace` does.
pub open spec fn replace_seq(s: Seq<char>, pat: Seq<char>, rep: Seq<char>) -> Seq<char>
    recommends
        pat.len() > 0,
    decreases s.len(),
{
    if s.len() == 0 {
        Seq::empty()
    } else if pat.len() > 0 && begins_with(s, pat) {
        rep + replace_seq(s.skip(pat.len() as int), pat, rep)
    } else {
        seq![s[0]] + replace_seq(s.skip(1), pat, rep)
    }
}

/// Whether `pat` occurs in `s` at position `i`.
pub fn matches_at(s: &str, i: usize, pat: &str) -> (r: bool)
    requires
        i <= s@.len(),
    ensures
        r == begins_with(s@.skip(i as int), pat@),
{
    let n = s.unicode_len();
    let m = pat.unicode_len();
    if m > n - i {
        assert(!begins_with(s@.skip(i as int), pat@));
        return false;
    }
    let mut j: usize = 0;
    while j < m
        invariant
            i <= n,
            m <= n - i,
            n == s@.len(),
            m == pat@.len(),
            j <= m,
            forall|k: int| 0 <= k < j ==> s@[i + k] == pat@[k],
        decreases m - j,
    {
        if s.get_char(i + j) != pat.get_char(j) {
            proof {
                let suf = s@.skip(i as int);
                assert(suf.subrange(0, m as int)[j as int] == s@[i + j]);
                assert(suf.subrange(0, m as int) != pat@);
            }
            return false;
        }
        j = j + 1;
    }
    proof {
        let suf = s@.skip(i as int);
        assert(suf.subrange(0, m as int) =~= pat@);
    }
    true
}

/// Replaces every occurrence of `pat` in `s` by `rep`, scanning left to
/// right without overlap.
pub fn replace_all(s: &str, pat: &str, rep: &str) -> (r: String)
    requires
        pat@.len() > 0,
    ensures
        r@ == replace_seq(s@, pat@, rep@),
{
    let n = s.unicode_len();
    let m = pat.unicode_len();
    let mut out = String::new();
    let mut i: usize = 0;
    proof {
        assert(s@.skip(0) =~= s@);
        assert(out@ + replace_seq(s@, pat@, rep@) =~= replace_seq(s@, pat@, rep@));
    }
    while i < n
        invariant
            i <= n,
            n == s@.len(),
            m == pat@.len(),
            m > 0,
            out@ + replace_seq(s@.skip(i as int), pat@, rep@) == replace_seq(s@, pat@, rep@),
        decreases n - i,
    {
        let ghost prev_out = out@;
        let ghost suf = s@.skip(i as int);
        if matches_at(s, i, pat) {
            out.append(rep);
            proof {
                assert(suf.skip(m as int) =~= s@.skip(i + m));
                assert(replace_seq(suf, pat@, rep@) == rep@ + replace_seq(s@.skip(i + m), pat@, rep@));
                assert(out@ + replace_seq(s@.skip(i + m), pat@, rep@) =~= prev_out + replace_seq(suf, pat@, rep@));
            }
            i = i + m;
        } else {
            let piece = s.substring_char(i, i + 1);
            out.append(piece);
            proof {
                assert(suf[0] == s@[i as int]);
                assert(suf.skip(1) =~= s@.skip(i + 1));
                assert(piece@ =~= seq![suf[0]]);
                assert(replace_seq(suf, pat@, rep@) == seq![suf[0]] + replace_seq(s@.skip(i + 1), pat@, rep@));
                assert(out@ + replace_seq(s@.skip(i + 1), pat@, rep@) =~= prev_out + replace_seq(suf, pat@, rep@));
            }
            i = i + 1;
        }
    }
    proof {
        assert(s@.skip(n as int) =~= Seq::<char>::empty());
        assert(out@ =~= replace_seq(s@, pat@, rep@));
    }
    out
}

/// The characters after the last `/` of the text; the whole text when it
/// holds no `/`, and empty when it ends in `/`.
pub open spec fn after_last_slash(s: Seq<char>) -> Seq<char>
    decreases s.len(),
{
    if s.len() == 0 {
        s
    } else if s.last() == '/' {
        Seq::empty()
    } else {
        after_last_slash(s.drop_last()).push(s.last())
    }
}

proof fn lemma_after_last_slash(s: Seq<char>, k: int)
    requires
        0 <= k <= s.len(),
        forall|j: int| k <= j < s.len() ==> s[j] != '/',
        k == 0 || s[k - 1] == '/',
    ensures
        after_last_slash(s) == s.skip(k),
    decreases s.len(),
{
    if s.len() == 0 {
        assert(after_last_slash(s) =~= s.skip(0));
    } else if s.last() == '/' {
        assert(k == s.len());
        assert(after_last_slash(s) =~= s.skip(k));
    } else {
        assert(k < s.len());
        lemma_after_last_slash(s.drop_last(), k);
        assert(after_last_slash(s.drop_last()).push(s.last()) =~= s.skip(k));
    }
}

/// The last `/`-separated segment of a path: the characters after the
/// final `/`, or the whole path when it holds none.
pub fn last_path_segment(s: &str) -> (r: String)
    ensures
        r@ == after_last_slash(s@),
{
    let n = s.unicode_len();
    let mut k: usize = n;
    while k > 0 && s.get_char(k - 1) != '/'
        invariant
            k <= n,
            n == s@.len(),
            forall|j: int| k <= j < n ==> s@[j] != '/',
        decreases k,
    {
        k = k - 1;
    }
    let seg = s.substring_char(k, n);
    proof {
        lemma_after_last_slash(s@, k as int);
        assert(seg@ =~= s@.skip(k as int));
    }
    String::from_str(seg)
}

/// The `,`-separated pieces of the text, in order; the empty text yields
/// one empty piece, as `str::split(',')` does.
pub open spec fn split_commas(s: Seq<char>) -> Seq<Seq<char>>
    decreases s.len(),
{
    if s.len() == 0 {
        seq![s]
    } else if s[0] == ',' {
        seq![Seq::<char>::empty()] + split_commas(s.skip(1))
    } else {
        let rest = split_commas(s.skip(1));
        rest.update(0, seq![s[0]] + rest[0])
    }
}

proof fn lemma_split_commas_len(s: Seq<char>)
    ensures
        split_commas(s).len() >= 1,
    decreases s.len(),
{
    if s.len() != 0 {
        lemma_split_commas_len(s.skip(1));
    }
}

proof fn lemma_split_commas_no_comma(s: Seq<char>)
    requires
        forall|j: int| 0 <= j < s.len() ==> s[j] != ',',
    ensures
        split_commas(s) == seq![s],
    decreases s.len(),
{
    if s.len() == 0 {
    } else {
        lemma_split_commas_no_comma(s.skip(1));
        lemma_split_commas_len(s.skip(1));
        assert(split_commas(s)[0] =~= s);
        assert(split_commas(s) =~= seq![s]);
    }
}

proof fn lemma_split_commas_first(s: Seq<char>, k: int)
    requires
        0 <= k < s.len(),
        s[k] == ',',
        forall|j: int| 0 <= j < k ==> s[j] != ',',
    ensures
        split_commas(s) == seq![s.subrange(0, k)] + split_commas(s.skip(k + 1)),
    decreases s.len(),
{
    if k == 0 {
        assert(s.subrange(0, 0) =~= Seq::<char>::empty());
        assert(split_commas(s) =~= seq![s.subrange(0, k)] + split_commas(s.skip(k + 1)));
    } else {
        lemma_split_commas_first(s.skip(1), k - 1);
        lemma_split_commas_len(s.skip(1).skip(k));
        assert(s.skip(1).skip(k) =~= s.skip(k + 1));
        assert(s.skip(1).subrange(0, k - 1) =~= s.subrange(1, k));
        let rest = split_commas(s.skip(1));
        assert(rest[0] == s.subrange(1, k));
        assert(seq![s[0]] + rest[0] =~= s.subrange(0, k));
        assert(split_commas(s) =~= seq![s.subrange(0, k)] + split_commas(s.skip(k + 1)));
    }
}

/// Splits the text on `,`, returning the pieces in order; the empty text
/// yields one empty piece.
pub fn split_on_commas(s: &str) -> (r: Vec<String>)
    ensures
        r@.map_values(|t: String| t@) == split_commas(s@),
{
    let n = s.unicode_len();
    let mut out: Vec<String> = Vec::new();
    let mut start: usize = 0;
    proof {
        assert(s@.skip(0) =~= s@);
        assert(out@.map_values(|t: String| t@) + split_commas(s@) =~= split_commas(s@));
    }
    loop
        invariant
            start <= n,
            n == s@.len(),
            split_commas(s@) == out@.map_values(|t: String| t@) + split_commas(s@.skip(start as int)),
        decreases n - start,
    {
        let ghost prev = out@;
        let mut j: usize = start;
        while j < n && s.get_char(j) != ','
            invariant
                start <= j <= n,
                n == s@.len(),
                forall|t: int| start <= t < j ==> s@[t] != ',',
            decreases n - j,
        {
            j = j + 1;
        }
        let piece = s.substring_char(start, j);
        out.push(String::from_str(piece));
        proof {
            let suf = s@.skip(start as int);
            assert(piece@ =~= suf.subrange(0, j - start));
            assert(out@.map_values(|t: String| t@) =~= prev.map_values(|t: String| t@) + seq![piece@]);
        }
        if j == n {
            proof {
                let suf = s@.skip(start as int);
                assert(forall|t: int| 0 <= t < suf.len() ==> suf[t] == s@[start + t] && s@[start + t] != ',');
                lemma_split_commas_no_comma(suf);
                assert(piece@ =~= suf);
                assert(out@.map_values(|t: String| t@) =~= split_commas(s@));
            }
            return out;
        }
        proof {
            let suf = s@.skip(start as int);
            assert(suf[j - start] == s@[j as int]);
            assert(forall|t: int| 0 <= t < j - start ==> suf[t] == s@[start + t] && s@[start + t] != ',');
            lemma_split_commas_first(suf, j - start);
            assert(suf.skip(j - start + 1) =~= s@.skip(j + 1));
            assert(out@.map_values(|t: String| t@) + split_commas(s@.skip(j + 1)) =~= prev.map_values(
                |t: String| t@,
            ) + split_commas(suf));
        }
        start = j + 1;
    }
}

/// Whether two texts hold the same characters.
pub fn str_eq(a: &str, b: &str) -> (r: bool)
    ensures
        r == (a@ == b@),
{
    let n = a.unicode_len();
    if n != b.unicode_len() {
        assert(a@ != b@);
        return false;
    }
    let mut i: usize = 0;
    while i < n
        invariant
            n == a@.len(),
            n == b@.len(),
            i <= n,
            forall|j: int| 0 <= j < i ==> a@[j] == b@[j],
        decreases n - i,
    {
        if a.get_char(i) != b.get_char(i) {
            assert(a@ != b@);
            return false;
        }
        i = i + 1;
    }
    assert(a@ =~= b@);
    true
}

/// The character is a hexadecimal digit, of either case.
pub open spec fn is_hex_digit(c: char) -> bool {
    48 <= c as u32 <= 57 || 97 <= c as u32 <= 102 || 65 <= c as u32 <= 70
}

/// The value of a hexadecimal digit character.
pub open spec fn hex_digit_val(c: char) -> int {
    if 48 <= c as u32 <= 57 {
        c as u32 - 48
    } else if 97 <= c as u32 <= 102 {
        c as u32 - 87
    } else {
        c as u32 - 55
    }
}

/// Four hexadecimal digits stand at position `i`.
pub open spec fn hex4_at(s: Seq<char>, i: int) -> bool {
    0 <= i && i + 4 <= s.len() && is_hex_digit(s[i]) && is_hex_digit(s[i + 1]) && is_hex_digit(
        s[i + 2],
    ) && is_hex_digit(s[i + 3])
}

/// The value of the four hexadecimal digits at position `i`.
pub open spec fn hex4_val(s: Seq<char>, i: int) -> int {
    ((hex_digit_val(s[i]) * 16 + hex_digit_val(s[i + 1])) * 16 + hex_digit_val(s[i + 2])) * 16
        + hex_digit_val(s[i + 3])
}

/// Eight hexadecimal digits stand at position `i`.
pub open spec fn hex8_at(s: Seq<char>, i: int) -> bool {
    hex4_at(s, i) && hex4_at(s, i + 4)
}

/// The value of the eight hexadecimal digits at position `i`.
pub open spec fn hex8_val(s: Seq<char>, i: int) -> int {
    hex4_val(s, i) * 0x10000 + hex4_val(s, i + 4)
}

/// Reads the hexadecimal digit at position `i`, if one stands there.
fn read_hex_digit(s: &str, i: usize) -> (r: Option<u32>)
    requires
        i <= s@.len(),
    ensures
        match r {
            None => i >= s@.len() || !is_hex_digit(s@[i as int]),
            Some(v) => i < s@.len() && is_hex_digit(s@[i as int]) && v == hex_digit_val(
                s@[i as int],
            ) && v < 16,
        },
{
    let n = s.unicode_len();
    if i >= n {
        return None;
    }
    let c = s.get_char(i);
    let v = c as u32;
    if 48 <= v && v <= 57 {
        Some(v - 48)
    } else if 97 <= v && v <= 102 {
        Some(v - 87)
    } else if 65 <= v && v <= 70 {
        Some(v - 55)
    } else {
        None
    }
}

/// Reads the value of the four hexadecimal digits at position `i`, if
/// four stand there.
pub fn read_hex4(s: &str, i: usize) -> (r: Option<u32>)
    requires
        i <= s@.len(),
    ensures
        match r {
            None => !hex4_at(s@, i as int),
            Some(v) => hex4_at(s@, i as int) && v == hex4_val(s@, i as int) && v <= 0xFFFF,
        },
{
    let n = s.unicode_len();
    if n - i < 4 {
        return None;
    }
    let d0 = match read_hex_digit(s, i) {
        Some(d) => d,
        None => {
            return None;
        },
    };
    let d1 = match read_hex_digit(s, i + 1) {
        Some(d) => d,
        None => {
            return None;
        },
    };
    let d2 = match read_hex_digit(s, i + 2) {
        Some(d) => d,
        None => {
            return None;
        },
    };
    let d3 = match read_hex_digit(s, i + 3) {
        Some(d) => d,
        None => {
            return None;
        },
    };
    Some(((d0 * 16 + d1) * 16 + d2) * 16 + d3)
}

/// Reads the value of the eight hexadecimal digits at position `i`, if
/// eight stand there.
pub fn read_hex8(s: &str, i: usize) -> (r: Option<u32>)
    requires
        i <= s@.len(),
    ensures
        match r {
            None => !hex8_at(s@, i as int),
            Some(v) => hex8_at(s@, i as int) && v == hex8_val(s@, i as int),
        },
{
    let n = s.unicode_len();
    if n - i < 8 {
        return None;
    }
    let hi = match read_hex4(s, i) {
        Some(v) => v,
        None => {
            return None;
        },
    };
    let lo = match read_hex4(s, i + 4) {
        Some(v) => v,
        None => {
            return None;
        },
    };
    Some(hi * 0x10000 + lo)
}

/// Relies on char::from_u32: a code below the surrogate range, or past
/// it and at most the last code point, converts to the character with
/// that code; a surrogate or larger code converts to nothing.
pub assume_specification[ char::from_u32 ](v: u32) -> (r: Option<char>)
    ensures
        r is Some <==> (v < 0xD800 || (0xE000 <= v && v <= 0x10FFFF)),
        r is Some ==> r->0 as u32 == v,
;

/// Relies on String::from for a character: the string holding exactly
/// that character.
#[verifier::external_body]
pub(crate) fn char_string(c: char) -> (r: String)
    ensures
        r@ == seq![c],
{
    String::from(c)
}

/// The character is a decimal digit.
pub open spec fn is_digit(c: char) -> bool {
    48 <= c as u32 <= 57
}

/// The value of a decimal digit character.
pub open spec fn digit_val(c: char) -> int {
    c as u32 - 48
}

/// Every character of the text is a decimal digit.
pub open spec fn all_digits(s: Seq<char>) -> bool {
    forall|j: int| 0 <= j < s.len() ==> is_digit(s[j])
}

/// The value of a text of decimal digits, most significant first.
pub open spec fn digits_val(s: Seq<char>) -> int
    decreases s.len(),
{
    if s.len() == 0 {
        0
    } else {
        digits_val(s.drop_last()) * 10 + digit_val(s.last())
    }
}

/// The number a text denotes under `i32::from_str`: an optional sign,
/// then at least one digit, and a value within the `i32` range; `None`
/// on any other text.
pub open spec fn parsed_i32(s: Seq<char>) -> Option<i32> {
    if s.len() == 0 {
        None
    } else {
        let ds = if s[0] == '-' || s[0] == '+' {
            s.skip(1)
        } else {
            s
        };
        let v = if s[0] == '-' {
            -digits_val(ds)
        } else {
            digits_val(ds)
        };
        if ds.len() == 0 || !all_digits(ds) {
            None
        } else if -2147483648 <= v <= 2147483647 {
            Some(v as i32)
        } else {
            None
        }
    }
}

proof fn lemma_digits_val_nonneg(s: Seq<char>)
    requires
        all_digits(s),
    ensures
        digits_val(s) >= 0,
    decreases s.len(),
{
    if s.len() != 0 {
        assert(all_digits(s.drop_last()));
        lemma_digits_val_nonneg(s.drop_last());
    }
}

proof fn lemma_digits_val_prefix_le(s: Seq<char>, k: int)
    requires
        all_digits(s),
        0 <= k <= s.len(),
    ensures
        digits_val(s.subrange(0, k)) <= digits_val(s),
    decreases s.len() - k,
{
    if k == s.len() {
        assert(s.subrange(0, k) =~= s);
    } else {
        lemma_digits_val_prefix_le(s, k + 1);
        let p = s.subrange(0, k + 1);
        assert(all_digits(p));
        assert(p.drop_last() =~= s.subrange(0, k));
        lemma_digits_val_nonneg(s.subrange(0, k));
        assert(digits_val(s.subrange(0, k)) <= digits_val(p));
    }
}

/// Parses the text as `i32::from_str` does: an optional sign, then at
/// least one digit; `None` on an empty text, a stray character, or a
/// value outside the `i32` range.
pub fn parse_i32(s: &str) -> (r: Option<i32>)
    ensures
        r == parsed_i32(s@),
{
    let n = s.unicode_len();
    if n == 0 {
        return None;
    }
    let c0 = s.get_char(0);
    let neg = c0 == '-';
    let start: usize = if c0 == '-' || c0 == '+' {
        1
    } else {
        0
    };
    let ghost ds = if c0 == '-' || c0 == '+' {
        s@.skip(1)
    } else {
        s@
    };
    if n == start {
        return None;
    }
    let mut acc: u64 = 0;
    let mut i: usize = start;
    while i < n
        invariant
            start <= i <= n,
            1 <= n == s@.len(),
            start <= 1,
            neg == (s@[0] == '-'),
            ds == (if s@[0] == '-' || s@[0] == '+' {
                s@.skip(1)
            } else {
                s@
            }),
            ds == s@.skip(start as int),
            ds.len() == n - start,
            acc == digits_val(ds.subrange(0, i - start)),
            acc <= 0x8000_0000,
            all_digits(ds.subrange(0, i - start)),
        decreases n - i,
    {
        let c = s.get_char(i);
        let cv: u32 = c as u32;
        proof {
            assert(ds[i - start] == s@[i as int]);
        }
        if cv < 48 || cv > 57 {
            proof {
                assert(!is_digit(ds[i - start]));
                assert(!all_digits(ds));
            }
            return None;
        }
        let d: u64 = (cv - 48) as u64;
        let ghost p = ds.subrange(0, i - start + 1);
        proof {
            assert(p.drop_last() =~= ds.subrange(0, i - start));
            assert(p.last() == ds[i - start]);
            assert(digits_val(p) == acc * 10 + d);
        }
        acc = acc * 10 + d;
        i = i + 1;
        if acc > 0x8000_0000 {
            proof {
                if all_digits(ds) {
                    lemma_digits_val_prefix_le(ds, i - start);
                    assert(digits_val(ds) > 2147483648);
                }
            }
            return None;
        }
    }
    proof {
        assert(ds.subrange(0, n - start) =~= ds);
    }
    if neg {
        let v: i64 = -(acc as i64);
        proof {
            assert(parsed_i32(s@) == Some(v as i32));
        }
        Some(v as i32)
    } else {
        if acc > 0x7fff_ffff {
            proof {
                assert(digits_val(ds) == 2147483648);
            }
            return None;
        }
        Some(acc as i32)
    }
}

} // verus!
