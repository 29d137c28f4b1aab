//! The attribute extractor: finds a quoted attribute value in a markup
//! fragment regardless of quote style. Every dialect parser is built on
//! this primitive.

use vstd::prelude::*;

use crate::strutil::{find_from, find_sub, find_str, lemma_find_from};

verus! {

/// The view of an optional string.
pub open spec fn opt_view(o: Option<String>) -> Option<Seq<char>> {
    match o {
        Option::Some(s) => Option::Some(s@),
        Option::None => Option::None,
    }
}

/// The value delimited by `quote` after the first occurrence of `pat` in
/// `chunk`: `None` when `pat` is absent or the opening quote is never
/// closed.
pub open spec fn value_after(chunk: Seq<char>, pat: Seq<char>, quote: char) -> Option<Seq<char>> {
    match find_sub(chunk, pat) {
        Option::None => Option::None,
        Option::Some(i) => {
            let start = i + pat.len();
            match find_from(chunk, seq![quote], start as int) {
                Option::None => Option::None,
                Option::Some(end) => Option::Some(chunk.subrange(start as int, end)),
            }
        },
    }
}

/// What the attribute extractor returns: the first `attr="..."` value,
/// else the first `attr='...'` value, else nothing. Absence of a match is
/// a normal result, never an error.
pub open spec fn attr_value(chunk: Seq<char>, attr: Seq<char>) -> Option<Seq<char>> {
    let dq = value_after(chunk, attr + seq!['=', '"'], '"');
    if dq is Some {
        dq
    } else {
        value_after(chunk, attr + seq!['=', '\''], '\'')
    }
}

/// Looks for `attr="` first, then `attr='`, and returns the substring up
/// to the next matching quote character; `None` when the attribute is
/// absent or its opening quote is unterminated.
pub fn extract_attr_value(chunk: &str, attr: &str) -> (r: Option<String>)
    ensures
        opt_view(r) == attr_value(chunk@, attr@),
{
    proof {
        reveal_strlit("=\"");
        reveal_strlit("='");
        reveal_strlit("\"");
        reveal_strlit("'");
    }
    let n = chunk.unicode_len();
    let mut pat_dq = String::from_str(attr);
    pat_dq.append("=\"");
    proof {
        assert(pat_dq@ =~= attr@ + seq!['=', '"']);
        assert("\""@ =~= seq!['"']);
    }
    match find_str(chunk, pat_dq.as_str(), 0) {
        Some(i) => {
            proof {
                lemma_find_from(chunk@, pat_dq@, 0);
            }
            let start = i + pat_dq.as_str().unicode_len();
            match find_str(chunk, "\"", start) {
                Some(end) => {
                    proof {
                        lemma_find_from(chunk@, seq!['"'], start as int);
                    }
                    return Some(String::from_str(chunk.substring_char(start, end)));
                },
                None => {},
            }
        },
        None => {},
    }
    let mut pat_sq = String::from_str(attr);
    pat_sq.append("='");
    proof {
        assert(pat_sq@ =~= attr@ + seq!['=', '\'']);
        assert("'"@ =~= seq!['\'']);
    }
    match find_str(chunk, pat_sq.as_str(), 0) {
        Some(i) => {
            proof {
                lemma_find_from(chunk@, pat_sq@, 0);
            }
            let start = i + pat_sq.as_str().unicode_len();
            match find_str(chunk, "'", start) {
                Some(end) => {
                    proof {
                        lemma_find_from(chunk@, seq!['\''], start as int);
                    }
                    return Some(String::from_str(chunk.substring_char(start, end)));
                },
                None => {},
            }
        },
        None => {},
    }
    None
}

} // verus!
