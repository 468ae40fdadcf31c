//! The configuration text the server reads at startup: a table-based
//! format of `[section]` headers and `key = value` lines, with `#`
//! comments, and the environment override that stands `&&&` for a line
//! break. A value is a basic quoted string, with the format's escapes,
//! or any other single-line value, which is carried unread. The
//! database settings come from the `[database]` sections of the
//! override and the file, the override winning per key.

use crate::models::opt_string_view;
use crate::textutil::{
    hex4_at, hex4_val, hex8_at, hex8_val, read_hex4, read_hex8, char_string, replace_all,
    replace_seq, str_eq,
};
use vstd::prelude::*;

verus! {

/// The parsed configuration: each section's name with its entries in
/// order, an entry being a key, whether its value is a quoted string,
/// and the value's characters (decoded for a string, raw otherwise).
pub type DocModel = Seq<(Seq<char>, Seq<(Seq<char>, bool, Seq<char>)>)>;

/// Why a configuration text or its database section is rejected.
#[derive(Clone, Copy, Debug, PartialEq, Eq, Structural)]
pub enum ConfigError {
    /// A line is neither blank, a comment, a section header, nor a
    /// key-value pair.
    InvalidLine,
    /// A section header names a section that already exists in the same
    /// text.
    SectionRepeated,
    /// A key appears twice in one section of one text.
    KeyRepeated,
    /// Neither text has a `[database]` section.
    DatabaseMissing,
    /// A database setting the loader reads is not a quoted string.
    SettingNotText,
}

/// Whitespace inside a configuration line.
pub open spec fn is_cfg_ws(c: char) -> bool {
    c == ' ' || c == '\t' || c == '\r'
}

/// A character allowed in a section name or a key.
pub open spec fn is_key_char(c: char) -> bool {
    97 <= c as u32 <= 122 || 65 <= c as u32 <= 90 || 48 <= c as u32 <= 57 || c == '_' || c == '-'
}

/// The first position at or after `i` that holds no line whitespace.
pub open spec fn cfg_skip_ws(s: Seq<char>, i: int) -> int
    decreases s.len() - i,
{
    if i < 0 || i >= s.len() {
        i
    } else if is_cfg_ws(s[i]) {
        cfg_skip_ws(s, i + 1)
    } else {
        i
    }
}

/// The first position at or after `i` that holds no key character.
pub open spec fn scan_key(s: Seq<char>, i: int) -> int
    decreases s.len() - i,
{
    if i < 0 || i >= s.len() {
        i
    } else if is_key_char(s[i]) {
        scan_key(s, i + 1)
    } else {
        i
    }
}

/// The position of the next line break at or after `i`, or the end of
/// the text.
pub open spec fn line_end(s: Seq<char>, i: int) -> int
    decreases s.len() - i,
{
    if i < 0 || i >= s.len() {
        i
    } else if s[i] == '\n' {
        i
    } else {
        line_end(s, i + 1)
    }
}

/// The end of an unquoted value: the next comment mark, line break, or
/// the end of the text.
pub open spec fn val_end(s: Seq<char>, i: int) -> int
    decreases s.len() - i,
{
    if i < 0 || i >= s.len() {
        i
    } else if s[i] == '\n' || s[i] == '#' {
        i
    } else {
        val_end(s, i + 1)
    }
}

/// The end of `s[q..h]` with its trailing whitespace dropped.
pub open spec fn trim_ws_end(s: Seq<char>, q: int, h: int) -> int
    decreases h - q,
{
    if h <= q {
        q
    } else if 0 <= h - 1 < s.len() && is_cfg_ws(s[h - 1]) {
        trim_ws_end(s, q, h - 1)
    } else {
        h
    }
}

proof fn lemma_cfg_skip_ws_bounds(s: Seq<char>, i: int)
    requires
        0 <= i,
    ensures
        i <= cfg_skip_ws(s, i),
        i <= s.len() ==> cfg_skip_ws(s, i) <= s.len(),
    decreases s.len() - i,
{
    if i < s.len() && is_cfg_ws(s[i]) {
        lemma_cfg_skip_ws_bounds(s, i + 1);
    }
}

proof fn lemma_scan_key_bounds(s: Seq<char>, i: int)
    requires
        0 <= i,
    ensures
        i <= scan_key(s, i),
        i <= s.len() ==> scan_key(s, i) <= s.len(),
    decreases s.len() - i,
{
    if i < s.len() && is_key_char(s[i]) {
        lemma_scan_key_bounds(s, i + 1);
    }
}

proof fn lemma_line_end_bounds(s: Seq<char>, i: int)
    requires
        0 <= i,
    ensures
        i <= line_end(s, i),
        i <= s.len() ==> line_end(s, i) <= s.len(),
    decreases s.len() - i,
{
    if i < s.len() && s[i] != '\n' {
        lemma_line_end_bounds(s, i + 1);
    }
}

proof fn lemma_val_end_bounds(s: Seq<char>, i: int)
    requires
        0 <= i,
    ensures
        i <= val_end(s, i),
        i <= s.len() ==> val_end(s, i) <= s.len(),
    decreases s.len() - i,
{
    if i < s.len() && s[i] != '\n' && s[i] != '#' {
        lemma_val_end_bounds(s, i + 1);
    }
}

/// The character a two-character escape denotes inside a basic quoted
/// string of the format.
pub open spec fn toml_unescape(c: char) -> Option<char> {
    if c == '"' {
        Some('"')
    } else if c == '\\' {
        Some('\\')
    } else if c == 'b' {
        Some('\u{8}')
    } else if c == 'f' {
        Some('\u{c}')
    } else if c == 'n' {
        Some('\n')
    } else if c == 'r' {
        Some('\r')
    } else if c == 't' {
        Some('\t')
    } else {
        None
    }
}

/// Parses the remainder of a basic quoted string starting just after
/// the opening quote: the decoded characters and the position after the
/// closing quote. The escapes are the format's, `\uXXXX` and
/// `\UXXXXXXXX` included, each naming a Unicode scalar value; a raw tab
/// may stand, other control characters may not.
pub open spec fn parse_toml_string_body(s: Seq<char>, i: int) -> Option<(Seq<char>, int)>
    decreases s.len() - i,
{
    if i < 0 || i >= s.len() {
        None
    } else if s[i] == '"' {
        Some((Seq::empty(), i + 1))
    } else if s[i] == '\\' {
        if i + 1 >= s.len() {
            None
        } else if s[i + 1] == 'u' {
            if !hex4_at(s, i + 2) {
                None
            } else {
                let v = hex4_val(s, i + 2);
                if v < 0xD800 || 0xE000 <= v {
                    match parse_toml_string_body(s, i + 6) {
                        None => None,
                        Some(p) => Some((seq![(v as u32) as char] + p.0, p.1)),
                    }
                } else {
                    None
                }
            }
        } else if s[i + 1] == 'U' {
            if !hex8_at(s, i + 2) {
                None
            } else {
                let v = hex8_val(s, i + 2);
                if v < 0xD800 || (0xE000 <= v && v <= 0x10FFFF) {
                    match parse_toml_string_body(s, i + 10) {
                        None => None,
                        Some(p) => Some((seq![(v as u32) as char] + p.0, p.1)),
                    }
                } else {
                    None
                }
            }
        } else {
            match toml_unescape(s[i + 1]) {
                None => None,
                Some(d) => match parse_toml_string_body(s, i + 2) {
                    None => None,
                    Some(p) => Some((seq![d] + p.0, p.1)),
                },
            }
        }
    } else if s[i] != '\t' && ((s[i] as u32) < 32 || s[i] as u32 == 0x7F) {
        None
    } else {
        match parse_toml_string_body(s, i + 1) {
            None => None,
            Some(p) => Some((seq![s[i]] + p.0, p.1)),
        }
    }
}

proof fn lemma_toml_string_bounds(s: Seq<char>, i: int)
    requires
        0 <= i,
    ensures
        match parse_toml_string_body(s, i) {
            None => true,
            Some(p) => i < p.1 <= s.len(),
        },
    decreases s.len() - i,
{
    if i < s.len() {
        if s[i] == '\\' && i + 1 < s.len() {
            if s[i + 1] == 'u' {
                if i + 6 <= s.len() {
                    lemma_toml_string_bounds(s, i + 6);
                }
            } else if s[i + 1] == 'U' {
                if i + 10 <= s.len() {
                    lemma_toml_string_bounds(s, i + 10);
                }
            } else {
                lemma_toml_string_bounds(s, i + 2);
            }
        } else {
            lemma_toml_string_bounds(s, i + 1);
        }
    }
}

/// The rest of the line after position `x` holds only whitespace and,
/// possibly, a comment.
pub open spec fn line_tail_ok(s: Seq<char>, x: int) -> bool {
    let m = cfg_skip_ws(s, x);
    m >= s.len() || s[m] == '\n' || s[m] == '#'
}

/// Where reading continues after the construct that ends at `x`: at the
/// line's break, or the end of the text.
pub open spec fn line_tail_next(s: Seq<char>, x: int) -> int {
    line_end(s, cfg_skip_ws(s, x))
}

/// A section of this name exists.
pub open spec fn model_has_section(doc: DocModel, name: Seq<char>) -> bool {
    exists|k: int| 0 <= k < doc.len() && doc[k].0 == name
}

/// The entries hold this key.
pub open spec fn entries_has_key(es: Seq<(Seq<char>, bool, Seq<char>)>, key: Seq<char>) -> bool {
    exists|k: int| 0 <= k < es.len() && es[k].0 == key
}

/// Reads the configuration text from position `i` with the sections
/// read so far: every line is blank, a comment, a new section header,
/// or a fresh key under the current section (keys before any header
/// fall into a nameless leading section), each with room for a trailing
/// comment; the first offending line decides the error.
pub open spec fn parse_cfg_rec(s: Seq<char>, i: int, doc: DocModel) -> Result<
    DocModel,
    ConfigError,
>
    decreases s.len() - i,
        via parse_cfg_rec_dec
{
    if i < 0 {
        Err(ConfigError::InvalidLine)
    } else if i >= s.len() {
        Ok(doc)
    } else {
        let j = cfg_skip_ws(s, i);
        if j >= s.len() {
            Ok(doc)
        } else if s[j] == '\n' {
            parse_cfg_rec(s, j + 1, doc)
        } else if s[j] == '#' {
            parse_cfg_rec(s, line_end(s, j), doc)
        } else if s[j] == '[' {
            let k = scan_key(s, j + 1);
            if k == j + 1 || k >= s.len() || s[k] != ']' {
                Err(ConfigError::InvalidLine)
            } else {
                let name = s.subrange(j + 1, k);
                if !line_tail_ok(s, k + 1) {
                    Err(ConfigError::InvalidLine)
                } else if model_has_section(doc, name) {
                    Err(ConfigError::SectionRepeated)
                } else {
                    parse_cfg_rec(s, line_tail_next(s, k + 1), doc.push((name, Seq::empty())))
                }
            }
        } else if is_key_char(s[j]) {
            let k = scan_key(s, j);
            let key = s.subrange(j, k);
            let e = cfg_skip_ws(s, k);
            if !(e < s.len() && s[e] == '=') {
                Err(ConfigError::InvalidLine)
            } else {
                let q = cfg_skip_ws(s, e + 1);
                if q >= s.len() || s[q] == '\n' || s[q] == '#' {
                    Err(ConfigError::InvalidLine)
                } else if s[q] == '"' {
                    match parse_toml_string_body(s, q + 1) {
                        None => Err(ConfigError::InvalidLine),
                        Some(p) => {
                            if !line_tail_ok(s, p.1) {
                                Err(ConfigError::InvalidLine)
                            } else {
                                let doc2 = if doc.len() == 0 {
                                    doc.push(
                                        (
                                            Seq::<char>::empty(),
                                            Seq::<(Seq<char>, bool, Seq<char>)>::empty(),
                                        ),
                                    )
                                } else {
                                    doc
                                };
                                if entries_has_key(doc2.last().1, key) {
                                    Err(ConfigError::KeyRepeated)
                                } else {
                                    parse_cfg_rec(
                                        s,
                                        line_tail_next(s, p.1),
                                        doc2.update(
                                            doc2.len() - 1,
                                            (doc2.last().0, doc2.last().1.push((key, true, p.0))),
                                        ),
                                    )
                                }
                            }
                        },
                    }
                } else {
                    let h = val_end(s, q);
                    let raw = s.subrange(q, trim_ws_end(s, q, h));
                    let doc2 = if doc.len() == 0 {
                        doc.push(
                            (Seq::<char>::empty(), Seq::<(Seq<char>, bool, Seq<char>)>::empty()),
                        )
                    } else {
                        doc
                    };
                    if entries_has_key(doc2.last().1, key) {
                        Err(ConfigError::KeyRepeated)
                    } else {
                        parse_cfg_rec(
                            s,
                            line_end(s, h),
                            doc2.update(
                                doc2.len() - 1,
                                (doc2.last().0, doc2.last().1.push((key, false, raw))),
                            ),
                        )
                    }
                }
            }
        } else {
            Err(ConfigError::InvalidLine)
        }
    }
}

#[via_fn]
proof fn parse_cfg_rec_dec(s: Seq<char>, i: int, doc: DocModel) {
    if 0 <= i < s.len() {
        lemma_cfg_skip_ws_bounds(s, i);
        let j = cfg_skip_ws(s, i);
        if j < s.len() {
            if s[j] == '#' {
                lemma_line_end_bounds(s, j + 1);
            } else if s[j] == '[' {
                lemma_scan_key_bounds(s, j + 1);
                let k = scan_key(s, j + 1);
                if k < s.len() {
                    lemma_cfg_skip_ws_bounds(s, k + 1);
                    lemma_line_end_bounds(s, cfg_skip_ws(s, k + 1));
                }
            } else if is_key_char(s[j]) {
                lemma_scan_key_bounds(s, j);
                let k = scan_key(s, j);
                lemma_cfg_skip_ws_bounds(s, k);
                let e = cfg_skip_ws(s, k);
                if e < s.len() {
                    lemma_cfg_skip_ws_bounds(s, e + 1);
                    let q = cfg_skip_ws(s, e + 1);
                    if q < s.len() {
                        lemma_toml_string_bounds(s, q + 1);
                        if parse_toml_string_body(s, q + 1) is Some {
                            let p = parse_toml_string_body(s, q + 1)->0;
                            lemma_cfg_skip_ws_bounds(s, p.1);
                            lemma_line_end_bounds(s, cfg_skip_ws(s, p.1));
                        }
                        lemma_val_end_bounds(s, q + 1);
                        lemma_line_end_bounds(s, val_end(s, q));
                    }
                }
            }
        }
    }
}

/// What a configuration text parses to: the sections in order, or the
/// error of its first offending line.
pub open spec fn spec_parse_config(s: Seq<char>) -> Result<DocModel, ConfigError> {
    parse_cfg_rec(s, 0, Seq::empty())
}

/// One `key = value` pair: `is_text` says whether the value was a
/// quoted string (then `value` holds its decoded characters) or some
/// other value carried raw.
#[derive(Debug, PartialEq, Eq)]
pub struct ConfigEntry {
    pub key: String,
    pub is_text: bool,
    pub value: String,
}

/// One `[name]` section with its pairs in order.
#[derive(Debug, PartialEq, Eq)]
pub struct ConfigSection {
    pub name: String,
    pub entries: Vec<ConfigEntry>,
}

/// A parsed configuration text.
#[derive(Debug, PartialEq, Eq)]
pub struct ConfigDoc {
    pub sections: Vec<ConfigSection>,
}

/// The pair as the grammar describes it.
pub open spec fn entry_model(e: ConfigEntry) -> (Seq<char>, bool, Seq<char>) {
    (e.key@, e.is_text, e.value@)
}

/// The section as the grammar describes it.
pub open spec fn section_model(s: ConfigSection) -> (
    Seq<char>,
    Seq<(Seq<char>, bool, Seq<char>)>,
) {
    (s.name@, s.entries@.map_values(|e: ConfigEntry| entry_model(e)))
}

/// The document as the grammar describes it.
pub open spec fn doc_model(d: ConfigDoc) -> DocModel {
    d.sections@.map_values(|s: ConfigSection| section_model(s))
}

fn cfg_skip_ws_exec(s: &str, i: usize) -> (r: usize)
    requires
        i <= s@.len(),
    ensures
        r == cfg_skip_ws(s@, i as int),
        i <= r <= s@.len(),
{
    let n = s.unicode_len();
    let mut j = i;
    while j < n
        invariant
            i <= j <= n,
            n == s@.len(),
            cfg_skip_ws(s@, i as int) == cfg_skip_ws(s@, j as int),
        decreases n - j,
    {
        let c = s.get_char(j);
        if !(c == ' ' || c == '\t' || c == '\r') {
            proof {
                assert(cfg_skip_ws(s@, j as int) == j);
            }
            return j;
        }
        j = j + 1;
    }
    j
}

fn scan_key_exec(s: &str, i: usize) -> (r: usize)
    requires
        i <= s@.len(),
    ensures
        r == scan_key(s@, i as int),
        i <= r <= s@.len(),
{
    let n = s.unicode_len();
    let mut j = i;
    while j < n
        invariant
            i <= j <= n,
            n == s@.len(),
            scan_key(s@, i as int) == scan_key(s@, j as int),
        decreases n - j,
    {
        let c = s.get_char(j);
        let v = c as u32;
        if !(97 <= v && v <= 122 || 65 <= v && v <= 90 || 48 <= v && v <= 57 || c == '_' || c
            == '-') {
            proof {
                assert(scan_key(s@, j as int) == j);
            }
            return j;
        }
        j = j + 1;
    }
    j
}

fn line_end_exec(s: &str, i: usize) -> (r: usize)
    requires
        i <= s@.len(),
    ensures
        r == line_end(s@, i as int),
        i <= r <= s@.len(),
{
    let n = s.unicode_len();
    let mut j = i;
    while j < n
        invariant
            i <= j <= n,
            n == s@.len(),
            line_end(s@, i as int) == line_end(s@, j as int),
        decreases n - j,
    {
        if s.get_char(j) == '\n' {
            proof {
                assert(line_end(s@, j as int) == j);
            }
            return j;
        }
        j = j + 1;
    }
    j
}

fn val_end_exec(s: &str, i: usize) -> (r: usize)
    requires
        i <= s@.len(),
    ensures
        r == val_end(s@, i as int),
        i <= r <= s@.len(),
{
    let n = s.unicode_len();
    let mut j = i;
    while j < n
        invariant
            i <= j <= n,
            n == s@.len(),
            val_end(s@, i as int) == val_end(s@, j as int),
        decreases n - j,
    {
        let c = s.get_char(j);
        if c == '\n' || c == '#' {
            proof {
                assert(val_end(s@, j as int) == j);
            }
            return j;
        }
        j = j + 1;
    }
    j
}

/// Parses the remainder of a basic quoted string, as the grammar reads
/// it.
fn parse_toml_string_body_exec(s: &str, i: usize) -> (r: Option<(String, usize)>)
    requires
        i <= s@.len(),
    ensures
        match r {
            None => parse_toml_string_body(s@, i as int) is None,
            Some(p) => parse_toml_string_body(s@, i as int) == Some((p.0@, p.1 as int)),
        },
    decreases s@.len() - i,
{
    let n = s.unicode_len();
    if i >= n {
        return None;
    }
    let c = s.get_char(i);
    if c == '"' {
        let empty = String::new();
        proof {
            assert(empty@ =~= Seq::<char>::empty());
        }
        return Some((empty, i + 1));
    }
    if c == '\\' {
        if i + 1 >= n {
            return None;
        }
        let e = s.get_char(i + 1);
        if e == 'u' {
            let v = match read_hex4(s, i + 2) {
                Some(v) => v,
                None => {
                    return None;
                },
            };
            if !(v < 0xD800 || 0xE000 <= v) {
                return None;
            }
            let c2 = match char::from_u32(v) {
                Some(c2) => c2,
                None => {
                    proof {
                        assert(false);
                    }
                    return None;
                },
            };
            proof {
                vstd::utf8::char_u32_cast(c2, v);
            }
            match parse_toml_string_body_exec(s, i + 6) {
                None => {
                    return None;
                },
                Some(p) => {
                    let combined = char_string(c2).concat(p.0.as_str());
                    proof {
                        assert(combined@ =~= seq![(hex4_val(s@, i + 2) as u32) as char] + p.0@);
                    }
                    return Some((combined, p.1));
                },
            }
        }
        if e == 'U' {
            let v = match read_hex8(s, i + 2) {
                Some(v) => v,
                None => {
                    return None;
                },
            };
            if !(v < 0xD800 || (0xE000 <= v && v <= 0x10FFFF)) {
                return None;
            }
            let c2 = match char::from_u32(v) {
                Some(c2) => c2,
                None => {
                    proof {
                        assert(false);
                    }
                    return None;
                },
            };
            proof {
                vstd::utf8::char_u32_cast(c2, v);
            }
            match parse_toml_string_body_exec(s, i + 10) {
                None => {
                    return None;
                },
                Some(p) => {
                    let combined = char_string(c2).concat(p.0.as_str());
                    proof {
                        assert(combined@ =~= seq![(hex8_val(s@, i + 2) as u32) as char] + p.0@);
                    }
                    return Some((combined, p.1));
                },
            }
        }
        let decoded: &'static str = if e == '"' {
            "\""
        } else if e == '\\' {
            "\\"
        } else if e == 'b' {
            "\u{8}"
        } else if e == 'f' {
            "\u{c}"
        } else if e == 'n' {
            "\n"
        } else if e == 'r' {
            "\r"
        } else if e == 't' {
            "\t"
        } else {
            return None;
        };
        proof {
            reveal_strlit("\"");
            reveal_strlit("\\");
            reveal_strlit("\u{8}");
            reveal_strlit("\u{c}");
            reveal_strlit("\n");
            reveal_strlit("\r");
            reveal_strlit("\t");
            assert(decoded@ =~= seq![toml_unescape(e)->0]);
        }
        match parse_toml_string_body_exec(s, i + 2) {
            None => {
                return None;
            },
            Some(p) => {
                let combined = String::from_str(decoded).concat(p.0.as_str());
                proof {
                    assert(combined@ =~= seq![toml_unescape(e)->0] + p.0@);
                }
                return Some((combined, p.1));
            },
        }
    }
    if c != '\t' && ((c as u32) < 32 || c as u32 == 0x7F) {
        return None;
    }
    let head = s.substring_char(i, i + 1);
    match parse_toml_string_body_exec(s, i + 1) {
        None => None,
        Some(p) => {
            let combined = String::from_str(head).concat(p.0.as_str());
            proof {
                assert(head@ =~= seq![s@[i as int]]);
                assert(combined@ =~= seq![s@[i as int]] + p.0@);
            }
            Some((combined, p.1))
        },
    }
}

fn has_section_exec(sections: &Vec<ConfigSection>, name: &str) -> (r: bool)
    ensures
        r == model_has_section(
            sections@.map_values(|s: ConfigSection| section_model(s)),
            name@,
        ),
{
    let ghost doc = sections@.map_values(|s: ConfigSection| section_model(s));
    let n = sections.len();
    let mut i: usize = 0;
    while i < n
        invariant
            i <= n,
            n == sections@.len(),
            doc == sections@.map_values(|s: ConfigSection| section_model(s)),
            forall|k: int| 0 <= k < i ==> doc[k].0 != name@,
        decreases n - i,
    {
        if str_eq(sections[i].name.as_str(), name) {
            proof {
                assert(doc[i as int].0 == name@);
            }
            return true;
        }
        i = i + 1;
    }
    false
}

fn entries_has_key_exec(entries: &Vec<ConfigEntry>, key: &str) -> (r: bool)
    ensures
        r == entries_has_key(entries@.map_values(|e: ConfigEntry| entry_model(e)), key@),
{
    let ghost es = entries@.map_values(|e: ConfigEntry| entry_model(e));
    let n = entries.len();
    let mut i: usize = 0;
    while i < n
        invariant
            i <= n,
            n == entries@.len(),
            es == entries@.map_values(|e: ConfigEntry| entry_model(e)),
            forall|k: int| 0 <= k < i ==> es[k].0 != key@,
        decreases n - i,
    {
        if str_eq(entries[i].key.as_str(), key) {
            proof {
                assert(es[i as int].0 == key@);
            }
            return true;
        }
        i = i + 1;
    }
    false
}

fn trim_ws_end_exec(s: &str, q: usize, h: usize) -> (r: usize)
    requires
        q <= h <= s@.len(),
    ensures
        r == trim_ws_end(s@, q as int, h as int),
        q <= r <= h,
{
    let mut t = h;
    while t > q
        invariant
            q <= t <= h,
            h <= s@.len(),
            trim_ws_end(s@, q as int, h as int) == trim_ws_end(s@, q as int, t as int),
        decreases t,
    {
        let wc = s.get_char(t - 1);
        if !(wc == ' ' || wc == '\t' || wc == '\r') {
            proof {
                assert(trim_ws_end(s@, q as int, t as int) == t);
            }
            return t;
        }
        t = t - 1;
    }
    t
}

/// Reads the line tail after position `x`: whether only whitespace and
/// a possible comment remain, and where the line ends.
fn line_tail_exec(s: &str, x: usize) -> (r: (bool, usize))
    requires
        x <= s@.len(),
    ensures
        r.0 == line_tail_ok(s@, x as int),
        r.0 ==> r.1 == line_tail_next(s@, x as int) && x <= r.1 <= s@.len(),
{
    let n = s.unicode_len();
    let m = cfg_skip_ws_exec(s, x);
    if m < n {
        let c = s.get_char(m);
        if !(c == '\n' || c == '#') {
            return (false, m);
        }
    }
    let cont = line_end_exec(s, m);
    (true, cont)
}

/// Parses a configuration text: every line blank, a comment, a fresh
/// section header, or a fresh key under the current section, with room
/// for a trailing comment. The error names the first offending line's
/// fault.
pub fn parse_config(s: &str) -> (r: Result<ConfigDoc, ConfigError>)
    ensures
        match r {
            Ok(d) => spec_parse_config(s@) == Ok::<DocModel, ConfigError>(doc_model(d)),
            Err(e) => spec_parse_config(s@) == Err::<DocModel, ConfigError>(e),
        },
{
    let n = s.unicode_len();
    let mut sections: Vec<ConfigSection> = Vec::new();
    let mut i: usize = 0;
    proof {
        assert(doc_model(ConfigDoc { sections: sections }) =~= Seq::<(
            Seq<char>,
            Seq<(Seq<char>, bool, Seq<char>)>,
        )>::empty());
    }
    while i < n
        invariant
            i <= n,
            n == s@.len(),
            spec_parse_config(s@) == parse_cfg_rec(
                s@,
                i as int,
                sections@.map_values(|sec: ConfigSection| section_model(sec)),
            ),
        decreases n - i,
    {
        let ghost doc = sections@.map_values(|sec: ConfigSection| section_model(sec));
        let j = cfg_skip_ws_exec(s, i);
        if j >= n {
            proof {
                assert(parse_cfg_rec(s@, i as int, doc) == Ok::<DocModel, ConfigError>(doc));
            }
            return Ok(ConfigDoc { sections });
        }
        let c = s.get_char(j);
        if c == '\n' {
            i = j + 1;
        } else if c == '#' {
            i = line_end_exec(s, j);
            proof {
                lemma_line_end_bounds(s@, j + 1);
                assert(line_end(s@, j as int) == line_end(s@, j + 1));
            }
        } else if c == '[' {
            let k = scan_key_exec(s, j + 1);
            if k == j + 1 || k >= n || s.get_char(k) != ']' {
                return Err(ConfigError::InvalidLine);
            }
            let name = s.substring_char(j + 1, k);
            let (tail_ok, cont) = line_tail_exec(s, k + 1);
            if !tail_ok {
                return Err(ConfigError::InvalidLine);
            }
            if has_section_exec(&sections, name) {
                return Err(ConfigError::SectionRepeated);
            }
            let sec = ConfigSection { name: String::from_str(name), entries: Vec::new() };
            proof {
                assert(section_model(sec) == (s@.subrange(j + 1, k as int), Seq::<(
                    Seq<char>,
                    bool,
                    Seq<char>,
                )>::empty())) by {
                    assert(sec.entries@.map_values(|e: ConfigEntry| entry_model(e)) =~= Seq::<(
                        Seq<char>,
                        bool,
                        Seq<char>,
                    )>::empty());
                }
            }
            sections.push(sec);
            proof {
                assert(sections@.map_values(|sec2: ConfigSection| section_model(sec2)) =~= doc.push(
                    (s@.subrange(j + 1, k as int), Seq::<(Seq<char>, bool, Seq<char>)>::empty()),
                ));
            }
            i = cont;
        } else {
            let v = c as u32;
            let is_key = 97 <= v && v <= 122 || 65 <= v && v <= 90 || 48 <= v && v <= 57 || c
                == '_' || c == '-';
            if !is_key {
                return Err(ConfigError::InvalidLine);
            }
            let k = scan_key_exec(s, j);
            let key = s.substring_char(j, k);
            let e = cfg_skip_ws_exec(s, k);
            if !(e < n && s.get_char(e) == '=') {
                return Err(ConfigError::InvalidLine);
            }
            let q = cfg_skip_ws_exec(s, e + 1);
            if q >= n {
                return Err(ConfigError::InvalidLine);
            }
            let qc = s.get_char(q);
            if qc == '\n' || qc == '#' {
                return Err(ConfigError::InvalidLine);
            }
            let is_text: bool;
            let value: String;
            let cont: usize;
            let ghost val_chars: Seq<char>;
            if qc == '"' {
                proof {
                    lemma_toml_string_bounds(s@, q + 1);
                }
                let p = match parse_toml_string_body_exec(s, q + 1) {
                    None => {
                        return Err(ConfigError::InvalidLine);
                    },
                    Some(p) => p,
                };
                let (tail_ok, tail_cont) = line_tail_exec(s, p.1);
                if !tail_ok {
                    return Err(ConfigError::InvalidLine);
                }
                proof {
                    let ghost pm = parse_toml_string_body(s@, q + 1)->0;
                    val_chars = pm.0;
                }
                is_text = true;
                value = p.0;
                cont = tail_cont;
            } else {
                let h = val_end_exec(s, q);
                let t = trim_ws_end_exec(s, q, h);
                let raw = s.substring_char(q, t);
                proof {
                    val_chars = s@.subrange(q as int, trim_ws_end(s@, q as int, h as int));
                    assert(raw@ =~= val_chars);
                }
                is_text = false;
                value = String::from_str(raw);
                cont = line_end_exec(s, h);
                proof {
                    lemma_line_end_bounds(s@, h as int);
                }
            }
            if sections.len() == 0 {
                let pre = ConfigSection { name: String::new(), entries: Vec::new() };
                proof {
                    assert(section_model(pre) == (Seq::<char>::empty(), Seq::<(
                        Seq<char>,
                        bool,
                        Seq<char>,
                    )>::empty())) by {
                        assert(pre.entries@.map_values(|e: ConfigEntry| entry_model(e)) =~= Seq::<(
                            Seq<char>,
                            bool,
                            Seq<char>,
                        )>::empty());
                    }
                }
                sections.push(pre);
                proof {
                    assert(sections@.map_values(|sec2: ConfigSection| section_model(sec2))
                        =~= doc.push(
                        (Seq::<char>::empty(), Seq::<(Seq<char>, bool, Seq<char>)>::empty()),
                    ));
                }
            }
            let ghost doc2 = sections@.map_values(|sec: ConfigSection| section_model(sec));
            let last_idx = sections.len() - 1;
            if entries_has_key_exec(&sections[last_idx].entries, key) {
                proof {
                    assert(doc2.last() == section_model(sections@[last_idx as int]));
                }
                return Err(ConfigError::KeyRepeated);
            }
            proof {
                assert(doc2.last() == section_model(sections@[last_idx as int]));
            }
            let mut sec = match sections.pop() {
                Some(sec) => sec,
                None => {
                    proof {
                        assert(false);
                    }
                    return Err(ConfigError::InvalidLine);
                },
            };
            let ghost prev_entries = sec.entries@;
            sec.entries.push(ConfigEntry { key: String::from_str(key), is_text, value });
            proof {
                assert(sec.entries@.map_values(|en: ConfigEntry| entry_model(en))
                    =~= prev_entries.map_values(|en: ConfigEntry| entry_model(en)).push(
                    (s@.subrange(j as int, k as int), is_text, val_chars),
                ));
            }
            sections.push(sec);
            proof {
                assert(sections@.map_values(|sec2: ConfigSection| section_model(sec2))
                    =~= doc2.update(
                    doc2.len() - 1,
                    (
                        doc2.last().0,
                        doc2.last().1.push((s@.subrange(j as int, k as int), is_text, val_chars)),
                    ),
                ));
            }
            i = cont;
        }
    }
    proof {
        assert(parse_cfg_rec(
            s@,
            i as int,
            sections@.map_values(|sec: ConfigSection| section_model(sec)),
        ) == Ok::<DocModel, ConfigError>(
            sections@.map_values(|sec: ConfigSection| section_model(sec)),
        ));
    }
    Ok(ConfigDoc { sections })
}

/// The entries of the first section of this name, or none for a name no
/// section carries.
pub open spec fn model_section_entries(doc: DocModel, name: Seq<char>) -> Seq<
    (Seq<char>, bool, Seq<char>),
>
    decreases doc.len(),
{
    if doc.len() == 0 {
        Seq::empty()
    } else if doc[0].0 == name {
        doc[0].1
    } else {
        model_section_entries(doc.skip(1), name)
    }
}

/// The first entry with this key: whether its value was a quoted
/// string, and the value's characters.
pub open spec fn entries_lookup(es: Seq<(Seq<char>, bool, Seq<char>)>, key: Seq<char>) -> Option<
    (bool, Seq<char>),
>
    decreases es.len(),
{
    if es.len() == 0 {
        None
    } else if es[0].0 == key {
        Some((es[0].1, es[0].2))
    } else {
        entries_lookup(es.skip(1), key)
    }
}

/// The database settings of a configuration, each one absent when its
/// key is set in neither text.
#[derive(Debug, PartialEq, Eq)]
pub struct DatabaseConfig {
    pub connection_string: Option<String>,
    pub database_name: Option<String>,
    pub create_database_secret: Option<String>,
    pub database_url: Option<String>,
}

/// The database settings as the grammar describes them: connection
/// string, database name, creation secret, database URL.
pub open spec fn db_model(c: DatabaseConfig) -> (
    Option<Seq<char>>,
    Option<Seq<char>>,
    Option<Seq<char>>,
    Option<Seq<char>>,
) {
    (
        opt_string_view(c.connection_string),
        opt_string_view(c.database_name),
        opt_string_view(c.create_database_secret),
        opt_string_view(c.database_url),
    )
}

/// The value of one database setting: the environment override's entry
/// wins over the file's; an entry whose value is not a quoted string is
/// refused, since the loader reads these settings as text.
pub open spec fn spec_setting(
    env_es: Seq<(Seq<char>, bool, Seq<char>)>,
    file_es: Seq<(Seq<char>, bool, Seq<char>)>,
    key: Seq<char>,
) -> Result<Option<Seq<char>>, ConfigError> {
    match entries_lookup(env_es, key) {
        Some(p) => if p.0 {
            Ok(Some(p.1))
        } else {
            Err(ConfigError::SettingNotText)
        },
        None => match entries_lookup(file_es, key) {
            Some(p) => if p.0 {
                Ok(Some(p.1))
            } else {
                Err(ConfigError::SettingNotText)
            },
            None => Ok(None),
        },
    }
}

/// What the `[database]` sections of the override and the file yield:
/// the four settings looked up by key, the override winning per key, or
/// an error when neither text has the section or a read setting is not
/// a quoted string.
pub open spec fn spec_database_config(envm: DocModel, filem: DocModel) -> Result<
    (Option<Seq<char>>, Option<Seq<char>>, Option<Seq<char>>, Option<Seq<char>>),
    ConfigError,
> {
    if !(model_has_section(envm, "database"@) || model_has_section(filem, "database"@)) {
        Err(ConfigError::DatabaseMissing)
    } else {
        let ee = model_section_entries(envm, "database"@);
        let fe = model_section_entries(filem, "database"@);
        match spec_setting(ee, fe, "connection_string"@) {
            Err(e) => Err(e),
            Ok(cs) => match spec_setting(ee, fe, "database_name"@) {
                Err(e) => Err(e),
                Ok(dn) => match spec_setting(ee, fe, "create_database_secret"@) {
                    Err(e) => Err(e),
                    Ok(sec) => match spec_setting(ee, fe, "DATABASE_URL"@) {
                        Err(e) => Err(e),
                        Ok(du) => Ok((cs, dn, sec, du)),
                    },
                },
            },
        }
    }
}

proof fn lemma_no_section_entries(doc: DocModel, name: Seq<char>)
    requires
        !model_has_section(doc, name),
    ensures
        model_section_entries(doc, name) == Seq::<(Seq<char>, bool, Seq<char>)>::empty(),
    decreases doc.len(),
{
    if doc.len() != 0 {
        assert(doc[0].0 != name);
        assert(forall|k: int| 0 <= k < doc.skip(1).len() ==> #[trigger] doc.skip(1)[k] == doc[k
            + 1]);
        lemma_no_section_entries(doc.skip(1), name);
    }
}

/// The entries the lookups read, given a possibly found section.
pub open spec fn opt_entries_model(es: Option<&Vec<ConfigEntry>>) -> Seq<
    (Seq<char>, bool, Seq<char>),
> {
    match es {
        Option::None => Seq::empty(),
        Option::Some(v) => v@.map_values(|e: ConfigEntry| entry_model(e)),
    }
}

fn section_entries<'a>(doc: &'a ConfigDoc, name: &str) -> (r: Option<&'a Vec<ConfigEntry>>)
    ensures
        (r is Some) == model_has_section(doc_model(*doc), name@),
        opt_entries_model(r) == model_section_entries(doc_model(*doc), name@),
{
    let ghost model = doc_model(*doc);
    let n = doc.sections.len();
    let mut i: usize = 0;
    proof {
        assert(model.skip(0) =~= model);
    }
    while i < n
        invariant
            i <= n,
            n == doc.sections@.len(),
            model == doc_model(*doc),
            forall|k: int| 0 <= k < i ==> model[k].0 != name@,
            model_section_entries(model, name@) == model_section_entries(
                model.skip(i as int),
                name@,
            ),
        decreases n - i,
    {
        let ghost suf = model.skip(i as int);
        proof {
            assert(suf[0] == model[i as int]);
            assert(suf.skip(1) =~= model.skip(i + 1));
        }
        if str_eq(doc.sections[i].name.as_str(), name) {
            proof {
                assert(model[i as int].0 == name@);
                assert(model_section_entries(model, name@) == model[i as int].1);
            }
            return Some(&doc.sections[i].entries);
        }
        i = i + 1;
    }
    proof {
        assert(!model_has_section(model, name@));
        lemma_no_section_entries(model, name@);
    }
    None
}

fn lookup_entry<'a>(es: Option<&'a Vec<ConfigEntry>>, key: &str) -> (r: Option<&'a ConfigEntry>)
    ensures
        match r {
            None => entries_lookup(opt_entries_model(es), key@) is None,
            Some(en) => entries_lookup(opt_entries_model(es), key@) == Some(
                (en.is_text, en.value@),
            ),
        },
{
    let entries = match es {
        None => {
            return None;
        },
        Some(v) => v,
    };
    let ghost model = entries@.map_values(|e: ConfigEntry| entry_model(e));
    let n = entries.len();
    let mut i: usize = 0;
    proof {
        assert(model.skip(0) =~= model);
    }
    while i < n
        invariant
            i <= n,
            n == entries@.len(),
            model == entries@.map_values(|e: ConfigEntry| entry_model(e)),
            opt_entries_model(es) == model,
            forall|k: int| 0 <= k < i ==> model[k].0 != key@,
            entries_lookup(model, key@) == entries_lookup(model.skip(i as int), key@),
        decreases n - i,
    {
        let ghost suf = model.skip(i as int);
        proof {
            assert(suf[0] == model[i as int]);
            assert(suf.skip(1) =~= model.skip(i + 1));
        }
        if str_eq(entries[i].key.as_str(), key) {
            proof {
                assert(opt_entries_model(es) == model);
                assert(model[i as int] == entry_model(entries@[i as int]));
                assert(model[i as int].0 == key@);
                assert(entries_lookup(model, key@) == Some((model[i as int].1, model[i as int].2)));
                assert(entries_lookup(opt_entries_model(es), key@) == Some(
                    (entries@[i as int].is_text, entries@[i as int].value@),
                ));
            }
            return Some(&entries[i]);
        }
        i = i + 1;
    }
    proof {
        assert(model.skip(n as int).len() == 0);
    }
    None
}

fn setting(
    env_es: Option<&Vec<ConfigEntry>>,
    file_es: Option<&Vec<ConfigEntry>>,
    key: &str,
) -> (r: Result<Option<String>, ConfigError>)
    ensures
        match r {
            Ok(v) => spec_setting(opt_entries_model(env_es), opt_entries_model(file_es), key@)
                == Ok::<Option<Seq<char>>, ConfigError>(opt_string_view(v)),
            Err(e) => spec_setting(opt_entries_model(env_es), opt_entries_model(file_es), key@)
                == Err::<Option<Seq<char>>, ConfigError>(e),
        },
{
    match lookup_entry(env_es, key) {
        Some(en) => {
            if en.is_text {
                Ok(Some(en.value.clone()))
            } else {
                Err(ConfigError::SettingNotText)
            }
        },
        None => match lookup_entry(file_es, key) {
            Some(en) => {
                if en.is_text {
                    Ok(Some(en.value.clone()))
                } else {
                    Err(ConfigError::SettingNotText)
                }
            },
            None => Ok(None),
        },
    }
}

/// The database settings of the two parsed texts: the four keys of
/// their `[database]` sections, the override's text winning per key.
pub fn database_config(env_doc: &ConfigDoc, file_doc: &ConfigDoc) -> (r: Result<
    DatabaseConfig,
    ConfigError,
>)
    ensures
        match r {
            Ok(c) => spec_database_config(doc_model(*env_doc), doc_model(*file_doc)) == Ok::<
                (Option<Seq<char>>, Option<Seq<char>>, Option<Seq<char>>, Option<Seq<char>>),
                ConfigError,
            >(db_model(c)),
            Err(e) => spec_database_config(doc_model(*env_doc), doc_model(*file_doc)) == Err::<
                (Option<Seq<char>>, Option<Seq<char>>, Option<Seq<char>>, Option<Seq<char>>),
                ConfigError,
            >(e),
        },
{
    let env_es = section_entries(env_doc, "database");
    let file_es = section_entries(file_doc, "database");
    if env_es.is_none() && file_es.is_none() {
        return Err(ConfigError::DatabaseMissing);
    }
    let connection_string = match setting(env_es, file_es, "connection_string") {
        Ok(v) => v,
        Err(e) => {
            return Err(e);
        },
    };
    let database_name = match setting(env_es, file_es, "database_name") {
        Ok(v) => v,
        Err(e) => {
            return Err(e);
        },
    };
    let create_database_secret = match setting(env_es, file_es, "create_database_secret") {
        Ok(v) => v,
        Err(e) => {
            return Err(e);
        },
    };
    let database_url = match setting(env_es, file_es, "DATABASE_URL") {
        Ok(v) => v,
        Err(e) => {
            return Err(e);
        },
    };
    Ok(
        DatabaseConfig {
            connection_string,
            database_name,
            create_database_secret,
            database_url,
        },
    )
}

/// Expands the environment override convention: each `&&&` stands for a
/// line break.
pub fn expand_env_overrides(s: &str) -> (r: String)
    ensures
        r@ == replace_seq(s@, "&&&"@, "\n"@),
{
    proof {
        reveal_strlit("&&&");
    }
    replace_all(s, "&&&", "\n")
}

/// The characters of an optional borrowed text.
pub open spec fn opt_str_view(o: Option<&str>) -> Option<Seq<char>> {
    match o {
        Option::None => None,
        Option::Some(t) => Some(t@),
    }
}

/// What loading the database settings from an environment override and
/// an optional file text yields: each text parsed on its own, then the
/// `[database]` settings with the override winning per key.
pub open spec fn spec_load_database(e: Seq<char>, f: Option<Seq<char>>) -> Result<
    (Option<Seq<char>>, Option<Seq<char>>, Option<Seq<char>>, Option<Seq<char>>),
    ConfigError,
> {
    match spec_parse_config(replace_seq(e, "&&&"@, "\n"@)) {
        Err(er) => Err(er),
        Ok(envm) => match spec_parse_config(
            match f {
                Option::None => Seq::empty(),
                Option::Some(t) => t,
            },
        ) {
            Err(er) => Err(er),
            Ok(filem) => spec_database_config(envm, filem),
        },
    }
}

/// Loads the database settings: expands the environment override,
/// parses it and the configuration file's text each on their own, and
/// reads the `[database]` settings, the override winning per key.
pub fn load_database_config(env_text: &str, file_text: Option<&str>) -> (r: Result<
    DatabaseConfig,
    ConfigError,
>)
    ensures
        match r {
            Ok(c) => spec_load_database(env_text@, opt_str_view(file_text)) == Ok::<
                (Option<Seq<char>>, Option<Seq<char>>, Option<Seq<char>>, Option<Seq<char>>),
                ConfigError,
            >(db_model(c)),
            Err(e) => spec_load_database(env_text@, opt_str_view(file_text)) == Err::<
                (Option<Seq<char>>, Option<Seq<char>>, Option<Seq<char>>, Option<Seq<char>>),
                ConfigError,
            >(e),
        },
{
    let expanded = expand_env_overrides(env_text);
    let env_doc = match parse_config(expanded.as_str()) {
        Ok(d) => d,
        Err(e) => {
            return Err(e);
        },
    };
    let file_doc = match file_text {
        Some(f) => match parse_config(f) {
            Ok(d) => d,
            Err(e) => {
                return Err(e);
            },
        },
        None => {
            let d = ConfigDoc { sections: Vec::new() };
            proof {
                assert(doc_model(d) =~= Seq::<(
                    Seq<char>,
                    Seq<(Seq<char>, bool, Seq<char>)>,
                )>::empty());
                assert(spec_parse_config(Seq::<char>::empty()) == Ok::<DocModel, ConfigError>(
                    doc_model(d),
                ));
            }
            d
        },
    };
    database_config(&env_doc, &file_doc)
}

} // verus!
