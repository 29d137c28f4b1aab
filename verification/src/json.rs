//! The ledger's document format: one JSON object mapping backup
//! identifiers to arrays of project names. The writer emits a compact
//! document; the parser is total — any document it does not recognize is
//! simply no ledger, never an error.

use vstd::prelude::*;

use crate::strutil::{replace_all, replace_all_str};

verus! {

// --- writing ---

/// A string body with the five escaped characters written as two-character
/// escapes, backslash first so later steps cannot double-escape.
pub open spec fn esc_spec(s: Seq<char>) -> Seq<char> {
    replace_all(
        replace_all(
            replace_all(replace_all(replace_all(s, "\\"@, "\\\\"@), "\""@, "\\\""@), "\n"@, "\\n"@),
            "\r"@,
            "\\r"@,
        ),
        "\t"@,
        "\\t"@,
    )
}

/// A quoted, escaped JSON string.
pub open spec fn json_string_spec(s: Seq<char>) -> Seq<char> {
    seq!['"'] + esc_spec(s) + seq!['"']
}

/// The `,"..."` continuation of an array body from item `i` on.
pub open spec fn json_items_tail(items: Seq<Seq<char>>, i: int) -> Seq<char>
    decreases items.len() - i,
{
    if i < 1 || i >= items.len() {
        Seq::empty()
    } else {
        seq![','] + json_string_spec(items[i]) + json_items_tail(items, i + 1)
    }
}

/// A JSON array of strings.
pub open spec fn json_array_spec(items: Seq<Seq<char>>) -> Seq<char> {
    if items.len() == 0 {
        "[]"@
    } else {
        seq!['['] + json_string_spec(items[0]) + json_items_tail(items, 1) + seq![']']
    }
}

/// One ledger entry: a key and its array of project names.
pub open spec fn json_entry_spec(e: (Seq<char>, Seq<Seq<char>>)) -> Seq<char> {
    json_string_spec(e.0) + seq![':'] + json_array_spec(e.1)
}

/// The `,"...":[...]` continuation of the object body from entry `i` on.
pub open spec fn json_entries_tail(es: Seq<(Seq<char>, Seq<Seq<char>>)>, i: int) -> Seq<char>
    decreases es.len() - i,
{
    if i < 1 || i >= es.len() {
        Seq::empty()
    } else {
        seq![','] + json_entry_spec(es[i]) + json_entries_tail(es, i + 1)
    }
}

/// The whole ledger document.
pub open spec fn ledger_json_spec(es: Seq<(Seq<char>, Seq<Seq<char>>)>) -> Seq<char> {
    if es.len() == 0 {
        "{}"@
    } else {
        seq!['{'] + json_entry_spec(es[0]) + json_entries_tail(es, 1) + seq!['}']
    }
}

/// Writes one quoted, escaped JSON string.
pub fn write_json_string(s: &str) -> (r: String)
    ensures
        r@ == json_string_spec(s@),
{
    proof {
        reveal_strlit("\\");
        reveal_strlit("\\\\");
        reveal_strlit("\"");
        reveal_strlit("\\\"");
        reveal_strlit("\n");
        reveal_strlit("\\n");
        reveal_strlit("\r");
        reveal_strlit("\\r");
        reveal_strlit("\t");
        reveal_strlit("\\t");
    }
    let e1 = replace_all_str(s, "\\", "\\\\");
    let e2 = replace_all_str(e1.as_str(), "\"", "\\\"");
    let e3 = replace_all_str(e2.as_str(), "\n", "\\n");
    let e4 = replace_all_str(e3.as_str(), "\r", "\\r");
    let e5 = replace_all_str(e4.as_str(), "\t", "\\t");
    let mut out = String::from_str("\"");
    out.append(e5.as_str());
    out.append("\"");
    proof {
        assert(out@ =~= json_string_spec(s@));
    }
    out
}

/// Writes a JSON array of strings.
pub fn write_json_array(items: &Vec<String>) -> (r: String)
    ensures
        r@ == json_array_spec(crate::strutil::views_of(items@)),
{
    let ghost vit = crate::strutil::views_of(items@);
    if items.len() == 0 {
        let r = String::from_str("[]");
        return r;
    }
    let mut out = String::from_str("[");
    let first = write_json_string(items[0].as_str());
    out.append(first.as_str());
    proof {
        reveal_strlit("[");
        assert(items@[0]@ == vit[0]);
        assert(out@ =~= seq!['['] + json_string_spec(vit[0]));
    }
    let mut i: usize = 1;
    while i < items.len()
        invariant
            1 <= i <= items.len(),
            vit == crate::strutil::views_of(items@),
            vit.len() == items@.len(),
            out@ + json_items_tail(vit, i as int) == seq!['['] + json_string_spec(vit[0])
                + json_items_tail(vit, 1),
        decreases items.len() - i,
    {
        let ghost out_pre = out@;
        out.append(",");
        let piece = write_json_string(items[i].as_str());
        out.append(piece.as_str());
        proof {
            reveal_strlit(",");
            assert(items@[i as int]@ == vit[i as int]);
            assert(out@ =~= out_pre + seq![','] + json_string_spec(vit[i as int]));
            assert(json_items_tail(vit, i as int) == seq![','] + json_string_spec(vit[i as int])
                + json_items_tail(vit, i + 1));
            assert(out@ + json_items_tail(vit, i + 1) =~= out_pre + json_items_tail(
                vit,
                i as int,
            ));
        }
        i += 1;
    }
    out.append("]");
    proof {
        reveal_strlit("]");
        assert(out@ =~= json_array_spec(vit));
    }
    out
}

// --- parsing ---

/// The character an escape letter stands for, if it is one of the
/// recognized escapes.
pub open spec fn esc_decode(c: char) -> Option<char> {
    if c == '"' {
        Some('"')
    } else if c == '\\' {
        Some('\\')
    } else if c == '/' {
        Some('/')
    } else if c == 'n' {
        Some('\n')
    } else if c == 'r' {
        Some('\r')
    } else if c == 't' {
        Some('\t')
    } else {
        None
    }
}

/// The body of a quoted string starting at `i` (just past the opening
/// quote): its decoded characters and the index past the closing quote;
/// nothing on an unterminated string or an unrecognized escape.
pub open spec fn p_chars(s: Seq<char>, i: int) -> Option<(Seq<char>, int)>
    decreases s.len() - i,
{
    if i < 0 || i >= s.len() {
        None
    } else if s[i] == '"' {
        Some((Seq::empty(), i + 1))
    } else if s[i] == '\\' {
        if i + 1 < s.len() && esc_decode(s[i + 1]) is Some {
            match p_chars(s, i + 2) {
                Some(t) => Some((seq![esc_decode(s[i + 1])->Some_0] + t.0, t.1)),
                None => None,
            }
        } else {
            None
        }
    } else {
        match p_chars(s, i + 1) {
            Some(t) => Some((seq![s[i]] + t.0, t.1)),
            None => None,
        }
    }
}

/// A successful string-body parse always advances.
pub proof fn lemma_p_chars_bounds(s: Seq<char>, i: int)
    ensures
        p_chars(s, i) matches Some(t) ==> i < t.1 <= s.len(),
    decreases s.len() - i,
{
    if 0 <= i && i < s.len() {
        lemma_p_chars_bounds(s, i + 1);
        if i + 1 < s.len() {
            lemma_p_chars_bounds(s, i + 2);
        }
    }
}

/// A quoted string starting at `i`.
pub open spec fn p_string(s: Seq<char>, i: int) -> Option<(Seq<char>, int)> {
    if 0 <= i && i < s.len() && s[i] == '"' {
        p_chars(s, i + 1)
    } else {
        None
    }
}

/// A successful string parse always advances.
pub proof fn lemma_p_string_bounds(s: Seq<char>, i: int)
    ensures
        p_string(s, i) matches Some(t) ==> i < t.1 <= s.len(),
{
    lemma_p_chars_bounds(s, i + 1);
}

/// The items of an array body starting at `i` (just past `[` or a
/// comma): the parsed strings and the index past the closing bracket.
pub open spec fn p_arr_items(s: Seq<char>, i: int) -> Option<(Seq<Seq<char>>, int)>
    decreases s.len() - i,
    via p_arr_items_dec
{
    match p_string(s, i) {
        None => None,
        Some(v) => {
            if v.1 < s.len() && s[v.1] == ',' {
                match p_arr_items(s, v.1 + 1) {
                    Some(vs) => Some((seq![v.0] + vs.0, vs.1)),
                    None => None,
                }
            } else if v.1 < s.len() && s[v.1] == ']' {
                Some((seq![v.0], v.1 + 1))
            } else {
                None
            }
        },
    }
}

#[via_fn]
proof fn p_arr_items_dec(s: Seq<char>, i: int) {
    lemma_p_string_bounds(s, i);
}

/// A successful array-items parse always advances.
pub proof fn lemma_p_arr_items_bounds(s: Seq<char>, i: int)
    ensures
        p_arr_items(s, i) matches Some(t) ==> i < t.1 <= s.len(),
    decreases s.len() - i,
{
    lemma_p_string_bounds(s, i);
    match p_string(s, i) {
        None => {},
        Some(v) => {
            if v.1 < s.len() && s[v.1] == ',' {
                lemma_p_arr_items_bounds(s, v.1 + 1);
            }
        },
    }
}

/// A JSON array of strings starting at `i`.
pub open spec fn p_array(s: Seq<char>, i: int) -> Option<(Seq<Seq<char>>, int)> {
    if 0 <= i && i < s.len() && s[i] == '[' {
        if i + 1 < s.len() && s[i + 1] == ']' {
            Some((Seq::empty(), i + 2))
        } else {
            p_arr_items(s, i + 1)
        }
    } else {
        None
    }
}

/// A successful array parse always advances.
pub proof fn lemma_p_array_bounds(s: Seq<char>, i: int)
    ensures
        p_array(s, i) matches Some(t) ==> i < t.1 <= s.len(),
{
    lemma_p_arr_items_bounds(s, i + 1);
}

/// One `"key":[...]` entry starting at `i`.
pub open spec fn p_entry(s: Seq<char>, i: int) -> Option<((Seq<char>, Seq<Seq<char>>), int)> {
    match p_string(s, i) {
        None => None,
        Some(k) => {
            if k.1 < s.len() && s[k.1] == ':' {
                match p_array(s, k.1 + 1) {
                    Some(a) => Some(((k.0, a.0), a.1)),
                    None => None,
                }
            } else {
                None
            }
        },
    }
}

/// A successful entry parse always advances.
pub proof fn lemma_p_entry_bounds(s: Seq<char>, i: int)
    ensures
        p_entry(s, i) matches Some(t) ==> i < t.1 <= s.len(),
{
    lemma_p_string_bounds(s, i);
    match p_string(s, i) {
        None => {},
        Some(k) => {
            lemma_p_array_bounds(s, k.1 + 1);
        },
    }
}

/// The entries of an object body starting at `i` (just past `{` or a
/// comma): the parsed entries and the index past the closing brace.
pub open spec fn p_entries(s: Seq<char>, i: int) -> Option<(Seq<(Seq<char>, Seq<Seq<char>>)>, int)>
    decreases s.len() - i,
    via p_entries_dec
{
    match p_entry(s, i) {
        None => None,
        Some(e) => {
            if e.1 < s.len() && s[e.1] == ',' {
                match p_entries(s, e.1 + 1) {
                    Some(es) => Some((seq![e.0] + es.0, es.1)),
                    None => None,
                }
            } else if e.1 < s.len() && s[e.1] == '}' {
                Some((seq![e.0], e.1 + 1))
            } else {
                None
            }
        },
    }
}

#[via_fn]
proof fn p_entries_dec(s: Seq<char>, i: int) {
    lemma_p_entry_bounds(s, i);
}

/// What parsing a ledger document yields: the entries of a compact JSON
/// object of string keys and string-array values spanning the whole
/// document; nothing for any other document.
pub open spec fn parse_ledger_doc(s: Seq<char>) -> Option<Seq<(Seq<char>, Seq<Seq<char>>)>> {
    if s.len() >= 2 && s[0] == '{' {
        if s.len() == 2 && s[1] == '}' {
            Some(Seq::empty())
        } else {
            match p_entries(s, 1) {
                Some(es) => if es.1 == s.len() {
                    Some(es.0)
                } else {
                    None
                },
                None => None,
            }
        }
    } else {
        None
    }
}

/// Scans a string body, decoding escapes.
fn scan_chars(s: &str, i: usize) -> (r: Option<(String, usize)>)
    ensures
        match r {
            Some(t) => p_chars(s@, i as int) == Some((t.0@, t.1 as int)),
            None => p_chars(s@, i as int) is None,
        },
    decreases s@.len() - i,
{
    let n = s.unicode_len();
    if i >= n {
        return None;
    }
    let c = s.get_char(i);
    if c == '"' {
        return Some((String::new(), i + 1));
    }
    if c == '\\' {
        if i + 1 < n {
            let e = s.get_char(i + 1);
            let dec: Option<&str> = if e == '"' {
                Some("\"")
            } else if e == '\\' {
                Some("\\")
            } else if e == '/' {
                Some("/")
            } else if e == 'n' {
                Some("\n")
            } else if e == 'r' {
                Some("\r")
            } else if e == 't' {
                Some("\t")
            } else {
                None
            };
            match dec {
                Some(d) => match scan_chars(s, i + 2) {
                    Some(t) => {
                        let mut out = String::from_str(d);
                        out.append(t.0.as_str());
                        proof {
                            reveal_strlit("\"");
                            reveal_strlit("\\");
                            reveal_strlit("/");
                            reveal_strlit("\n");
                            reveal_strlit("\r");
                            reveal_strlit("\t");
                            assert(out@ =~= seq![esc_decode(s@[i + 1])->Some_0] + t.0@);
                        }
                        Some((out, t.1))
                    },
                    None => None,
                },
                None => None,
            }
        } else {
            None
        }
    } else {
        match scan_chars(s, i + 1) {
            Some(t) => {
                let mut out = String::from_str(s.substring_char(i, i + 1));
                out.append(t.0.as_str());
                proof {
                    assert(s@.subrange(i as int, i + 1) =~= seq![s@[i as int]]);
                    assert(out@ =~= seq![s@[i as int]] + t.0@);
                }
                Some((out, t.1))
            },
            None => None,
        }
    }
}

/// Scans a quoted string.
fn scan_string(s: &str, i: usize) -> (r: Option<(String, usize)>)
    ensures
        match r {
            Some(t) => p_string(s@, i as int) == Some((t.0@, t.1 as int)),
            None => p_string(s@, i as int) is None,
        },
{
    let n = s.unicode_len();
    if i < n && s.get_char(i) == '"' {
        scan_chars(s, i + 1)
    } else {
        None
    }
}

/// Scans the items of an array body.
fn scan_arr_items(s: &str, i: usize) -> (r: Option<(Vec<String>, usize)>)
    ensures
        match r {
            Some(t) => p_arr_items(s@, i as int) == Some(
                (crate::strutil::views_of(t.0@), t.1 as int),
            ),
            None => p_arr_items(s@, i as int) is None,
        },
    decreases s@.len() - i,
{
    let n = s.unicode_len();
    match scan_string(s, i) {
        None => None,
        Some(v) => {
            proof {
                lemma_p_string_bounds(s@, i as int);
            }
            if v.1 < n && s.get_char(v.1) == ',' {
                match scan_arr_items(s, v.1 + 1) {
                    Some(vs) => {
                        let mut items = vs.0;
                        items.insert(0, v.0);
                        proof {
                            assert(crate::strutil::views_of(items@) =~= seq![v.0@]
                                + crate::strutil::views_of(vs.0@));
                        }
                        Some((items, vs.1))
                    },
                    None => None,
                }
            } else if v.1 < n && s.get_char(v.1) == ']' {
                let mut items: Vec<String> = Vec::new();
                items.push(v.0);
                proof {
                    assert(crate::strutil::views_of(items@) =~= seq![items@[0]@]);
                }
                Some((items, v.1 + 1))
            } else {
                None
            }
        },
    }
}

/// Scans a JSON array of strings.
fn scan_array(s: &str, i: usize) -> (r: Option<(Vec<String>, usize)>)
    ensures
        match r {
            Some(t) => p_array(s@, i as int) == Some(
                (crate::strutil::views_of(t.0@), t.1 as int),
            ),
            None => p_array(s@, i as int) is None,
        },
{
    let n = s.unicode_len();
    if i < n && s.get_char(i) == '[' {
        if i + 1 < n && s.get_char(i + 1) == ']' {
            let items: Vec<String> = Vec::new();
            proof {
                assert(crate::strutil::views_of(items@) =~= Seq::<Seq<char>>::empty());
            }
            Some((items, i + 2))
        } else {
            scan_arr_items(s, i + 1)
        }
    } else {
        None
    }
}

/// One parsed entry: a key and its project names.
pub struct ParsedEntry {
    pub id: String,
    pub projects: Vec<String>,
}

impl View for ParsedEntry {
    type V = (Seq<char>, Seq<Seq<char>>);

    open spec fn view(&self) -> (Seq<char>, Seq<Seq<char>>) {
        (self.id@, crate::strutil::views_of(self.projects@))
    }
}

/// The views of a sequence of parsed entries.
pub open spec fn entries_view(s: Seq<ParsedEntry>) -> Seq<(Seq<char>, Seq<Seq<char>>)> {
    Seq::new(s.len(), |i: int| s[i]@)
}

/// Scans one `"key":[...]` entry.
fn scan_entry(s: &str, i: usize) -> (r: Option<(ParsedEntry, usize)>)
    ensures
        match r {
            Some(t) => p_entry(s@, i as int) == Some((t.0@, t.1 as int)),
            None => p_entry(s@, i as int) is None,
        },
{
    let n = s.unicode_len();
    match scan_string(s, i) {
        None => None,
        Some(k) => {
            proof {
                lemma_p_string_bounds(s@, i as int);
            }
            if k.1 < n && s.get_char(k.1) == ':' {
                match scan_array(s, k.1 + 1) {
                    Some(a) => Some((ParsedEntry { id: k.0, projects: a.0 }, a.1)),
                    None => None,
                }
            } else {
                None
            }
        },
    }
}

/// Scans the entries of the object body.
fn scan_entries(s: &str, i: usize) -> (r: Option<(Vec<ParsedEntry>, usize)>)
    ensures
        match r {
            Some(t) => p_entries(s@, i as int) == Some((entries_view(t.0@), t.1 as int)),
            None => p_entries(s@, i as int) is None,
        },
    decreases s@.len() - i,
{
    let n = s.unicode_len();
    match scan_entry(s, i) {
        None => None,
        Some(e) => {
            proof {
                lemma_p_entry_bounds(s@, i as int);
            }
            if e.1 < n && s.get_char(e.1) == ',' {
                match scan_entries(s, e.1 + 1) {
                    Some(es) => {
                        let mut entries = es.0;
                        entries.insert(0, e.0);
                        proof {
                            assert(entries_view(entries@) =~= seq![e.0@] + entries_view(es.0@));
                        }
                        Some((entries, es.1))
                    },
                    None => None,
                }
            } else if e.1 < n && s.get_char(e.1) == '}' {
                let mut entries: Vec<ParsedEntry> = Vec::new();
                entries.push(e.0);
                proof {
                    assert(entries_view(entries@) =~= seq![entries@[0]@]);
                }
                Some((entries, e.1 + 1))
            } else {
                None
            }
        },
    }
}

/// Parses a whole ledger document; `None` for any document that is not
/// one compact object of string keys and string-array values.
pub fn parse_ledger_text(s: &str) -> (r: Option<Vec<ParsedEntry>>)
    ensures
        match r {
            Some(es) => parse_ledger_doc(s@) == Some(entries_view(es@)),
            None => parse_ledger_doc(s@) is None,
        },
{
    let n = s.unicode_len();
    if n >= 2 && s.get_char(0) == '{' {
        if n == 2 && s.get_char(1) == '}' {
            let es: Vec<ParsedEntry> = Vec::new();
            proof {
                assert(entries_view(es@) =~= Seq::<(Seq<char>, Seq<Seq<char>>)>::empty());
            }
            Some(es)
        } else {
            match scan_entries(s, 1) {
                Some(t) => {
                    if t.1 == n {
                        Some(t.0)
                    } else {
                        None
                    }
                },
                None => None,
            }
        }
    } else {
        None
    }
}

} // verus!
