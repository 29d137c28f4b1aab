//! The dialect parsers: legacy per-project bookmarks, the workspace-XML
//! fallback (same tag shape), and the current global-workspace format
//! with group blocks. Each consumes raw file text and produces normalized
//! bookmark records; zero matches is a normal, empty result.

use vstd::prelude::*;

use crate::attr::{attr_value, extract_attr_value};
use crate::paths::{clean_bookmark_path, file_name_of, file_name_spec, normalize_spec, opt_str_view};
use crate::records::{BookmarkKind, BookmarkV, ParsedBookmark, bookmarks_view};
use crate::strutil::{
    contains_seq, contains_str, find_str, find_sub, parse_i32, parse_i32_spec, prefix_before,
    prefix_before_str, replace_all, replace_all_str, split_seq, split_str, views_of,
};

verus! {

/// The fixed entity unescape sequence applied to user-visible text
/// extracted from markup, in this order: `&quot;`, `&lt;`, `&gt;`,
/// `&amp;`.
pub open spec fn unescape_spec(s: Seq<char>) -> Seq<char> {
    replace_all(
        replace_all(replace_all(replace_all(s, "&quot;"@, "\""@), "&lt;"@, "<"@), "&gt;"@, ">"@),
        "&amp;"@,
        "&"@,
    )
}

/// Applies the fixed entity unescape sequence.
pub fn unescape_text(s: &str) -> (r: String)
    ensures
        r@ == unescape_spec(s@),
{
    proof {
        reveal_strlit("&quot;");
        reveal_strlit("&lt;");
        reveal_strlit("&gt;");
        reveal_strlit("&amp;");
    }
    let a = replace_all_str(s, "&quot;", "\"");
    let b = replace_all_str(a.as_str(), "&lt;", "<");
    let c = replace_all_str(b.as_str(), "&gt;", ">");
    replace_all_str(c.as_str(), "&amp;", "&")
}

/// The 1-indexed line reported for a stored 0-indexed line value:
/// `stored + 1`, and 1 whenever the stored value is absent, unparsable,
/// or too large to increment.
pub open spec fn report_line(v: Option<i32>) -> int {
    match v {
        Option::Some(l) => if l < 2147483647 {
            l + 1
        } else {
            1
        },
        Option::None => 1,
    }
}

/// Line-reporting law: a stored, 0-indexed line value is reported
/// 1-indexed — the stored value plus one. The conversion happens
/// exactly here, at extraction time.
pub proof fn lemma_line_reporting(stored: i32)
    requires
        0 <= stored < 2147483647,
    ensures
        report_line(Some(stored)) == stored + 1,
{
}

/// A record assembled from extracted fields. The mnemonic is already
/// filtered to be non-empty when present; a record with one is tagged
/// `Mnemonic`, all others `Anonymous`.
pub open spec fn make_bookmark(
    pname: Seq<char>,
    path: Seq<char>,
    line_val: Option<i32>,
    desc: Seq<char>,
    mnem: Option<Seq<char>>,
) -> BookmarkV {
    let fname = if file_name_spec(path).len() == 0 {
        "Unknown File"@
    } else {
        file_name_spec(path)
    };
    BookmarkV {
        project_name: pname,
        file_name: fname,
        file_path: path,
        line_number: report_line(line_val),
        description: desc,
        mnemonic: mnem,
        kind: if mnem is Some {
            BookmarkKind::Mnemonic
        } else {
            BookmarkKind::Anonymous
        },
    }
}

/// The value of a `value="..."` attribute found after the first
/// occurrence of `key` in `c`.
pub open spec fn keyed_value_of(c: Seq<char>, key: Seq<char>) -> Option<Seq<char>> {
    match find_sub(c, key) {
        Option::None => Option::None,
        Option::Some(i) => attr_value(c.skip(i), "value"@),
    }
}

/// An extracted mnemonic counts only when present and non-empty.
pub open spec fn nonempty_opt(v: Option<Seq<char>>) -> Option<Seq<char>> {
    match v {
        Option::Some(m) => if m.len() > 0 {
            Option::Some(m)
        } else {
            Option::None
        },
        Option::None => Option::None,
    }
}

/// The records (zero or one) of one global-workspace bookmark block: the
/// chunk is cut at the block's closing tag, its fields are key/value
/// entry pairs plus a `description` option.
pub open spec fn global_bookmark_of(chunk: Seq<char>, pname: Seq<char>) -> Seq<BookmarkV> {
    let c = prefix_before(chunk, "</BookmarkState>"@);
    match keyed_value_of(c, "key=\"url\""@) {
        Option::None => Seq::empty(),
        Option::Some(raw) => {
            let line_val = match keyed_value_of(c, "key=\"line\""@) {
                Option::Some(t) => parse_i32_spec(t),
                Option::None => Option::None,
            };
            let desc = match keyed_value_of(c, "name=\"description\""@) {
                Option::Some(d) => unescape_spec(d),
                Option::None => Seq::empty(),
            };
            let mnem = nonempty_opt(keyed_value_of(c, "key=\"mnemonic\""@));
            seq![make_bookmark(pname, normalize_spec(raw, Option::None), line_val, desc, mnem)]
        },
    }
}

/// The group's project name: the `value` of its `name` option, with a
/// readable fallback when absent.
pub open spec fn group_name_of(g: Seq<char>) -> Seq<char> {
    match keyed_value_of(g, "<option name=\"name\""@) {
        Option::Some(v) => v,
        Option::None => "Unknown Project"@,
    }
}

/// Finds `key` in `c` and extracts the `value` attribute that follows
/// it.
pub fn keyed_value(c: &str, key: &str) -> (r: Option<String>)
    ensures
        crate::attr::opt_view(r) == keyed_value_of(c@, key@),
{
    let n = c.unicode_len();
    match find_str(c, key, 0) {
        Some(i) => {
            let sub = c.substring_char(i, n);
            proof {
                assert(sub@ =~= c@.skip(i as int));
            }
            extract_attr_value(sub, "value")
        },
        None => None,
    }
}

/// Parses one global-workspace bookmark block.
fn parse_global_chunk(chunk: &str, pname: &str) -> (r: Option<ParsedBookmark>)
    ensures
        match r {
            Option::Some(b) => seq![b@] == global_bookmark_of(chunk@, pname@),
            Option::None => global_bookmark_of(chunk@, pname@) == Seq::<BookmarkV>::empty(),
        },
{
    let c_str = prefix_before_str(chunk, "</BookmarkState>");
    let c = c_str.as_str();
    match keyed_value(c, "key=\"url\"") {
        None => None,
        Some(raw) => {
            let line_number: i32 = match keyed_value(c, "key=\"line\"") {
                Some(t) => match parse_i32(t.as_str()) {
                    Some(l) => if l < 2147483647 {
                        l + 1
                    } else {
                        1
                    },
                    None => 1,
                },
                None => 1,
            };
            let description: String = match keyed_value(c, "name=\"description\"") {
                Some(d) => unescape_text(d.as_str()),
                None => String::new(),
            };
            let mnemonic: Option<String> = match keyed_value(c, "key=\"mnemonic\"") {
                Some(m) => if m.as_str().unicode_len() > 0 {
                    Some(m)
                } else {
                    None
                },
                None => None,
            };
            let kind = match mnemonic {
                Some(_) => BookmarkKind::Mnemonic,
                None => BookmarkKind::Anonymous,
            };
            let file_path = clean_bookmark_path(raw.as_str(), None);
            let fname0 = file_name_of(file_path.as_str());
            let file_name = if fname0.as_str().unicode_len() == 0 {
                String::from_str("Unknown File")
            } else {
                fname0
            };
            let b = ParsedBookmark {
                project_name: String::from_str(pname),
                file_name,
                file_path,
                line_number,
                description,
                mnemonic,
                kind,
            };
            Some(b)
        },
    }
}

/// The records (zero or one) of one legacy bookmark chunk: the fields
/// are direct attributes of the opening tag.
pub open spec fn legacy_bookmark_of(
    chunk: Seq<char>,
    pname: Seq<char>,
    root: Option<Seq<char>>,
) -> Seq<BookmarkV> {
    match attr_value(chunk, "url"@) {
        Option::None => Seq::empty(),
        Option::Some(raw) => {
            let line_val = match attr_value(chunk, "line"@) {
                Option::Some(t) => parse_i32_spec(t),
                Option::None => Option::None,
            };
            let desc = unescape_spec(
                match attr_value(chunk, "description"@) {
                    Option::Some(d) => d,
                    Option::None => Seq::empty(),
                },
            );
            let mnem = nonempty_opt(attr_value(chunk, "mnemonic"@));
            seq![make_bookmark(pname, normalize_spec(raw, root), line_val, desc, mnem)]
        },
    }
}

/// Parses one legacy bookmark chunk.
fn parse_legacy_chunk(chunk: &str, pname: &str, root: Option<&str>) -> (r: Option<ParsedBookmark>)
    ensures
        match r {
            Option::Some(b) => seq![b@] == legacy_bookmark_of(chunk@, pname@, opt_str_view(root)),
            Option::None => legacy_bookmark_of(chunk@, pname@, opt_str_view(root))
                == Seq::<BookmarkV>::empty(),
        },
{
    match extract_attr_value(chunk, "url") {
        None => None,
        Some(raw) => {
            let line_number: i32 = match extract_attr_value(chunk, "line") {
                Some(t) => match parse_i32(t.as_str()) {
                    Some(l) => if l < 2147483647 {
                        l + 1
                    } else {
                        1
                    },
                    None => 1,
                },
                None => 1,
            };
            let description: String = match extract_attr_value(chunk, "description") {
                Some(d) => unescape_text(d.as_str()),
                None => unescape_text(""),
            };
            proof {
                reveal_strlit("");
                assert(""@ =~= Seq::<char>::empty());
            }
            let mnemonic: Option<String> = match extract_attr_value(chunk, "mnemonic") {
                Some(m) => if m.as_str().unicode_len() > 0 {
                    Some(m)
                } else {
                    None
                },
                None => None,
            };
            let kind = match mnemonic {
                Some(_) => BookmarkKind::Mnemonic,
                None => BookmarkKind::Anonymous,
            };
            let file_path = clean_bookmark_path(raw.as_str(), root);
            let fname0 = file_name_of(file_path.as_str());
            let file_name = if fname0.as_str().unicode_len() == 0 {
                String::from_str("Unknown File")
            } else {
                fname0
            };
            let b = ParsedBookmark {
                project_name: String::from_str(pname),
                file_name,
                file_path,
                line_number,
                description,
                mnemonic,
                kind,
            };
            Some(b)
        },
    }
}

/// The records of a sequence of global-workspace bookmark chunks, in
/// order.
pub open spec fn cat_global_chunks(cs: Seq<Seq<char>>, pname: Seq<char>) -> Seq<BookmarkV>
    decreases cs.len(),
{
    if cs.len() == 0 {
        Seq::empty()
    } else {
        global_bookmark_of(cs[0], pname) + cat_global_chunks(cs.skip(1), pname)
    }
}

/// The records of one group block: the block's name option supplies the
/// project name of every bookmark block within it.
pub open spec fn global_group_bookmarks(g: Seq<char>) -> Seq<BookmarkV> {
    cat_global_chunks(split_seq(g, "<BookmarkState>"@).skip(1), group_name_of(g))
}

/// The records of a sequence of group blocks, in order.
pub open spec fn cat_groups(gs: Seq<Seq<char>>) -> Seq<BookmarkV>
    decreases gs.len(),
{
    if gs.len() == 0 {
        Seq::empty()
    } else {
        global_group_bookmarks(gs[0]) + cat_groups(gs.skip(1))
    }
}

/// What global-workspace extraction returns: nothing when the document
/// has no manager component marker, else every record of every group
/// block, in document order.
pub open spec fn parse_global_spec(content: Seq<char>) -> Seq<BookmarkV> {
    if contains_seq(content, "BookmarksManager"@) {
        cat_groups(split_seq(content, "<GroupState>"@).skip(1))
    } else {
        Seq::empty()
    }
}

/// Extracts bookmark records from a global-workspace document
/// (two-level split: group blocks, then bookmark blocks). A document
/// with no recognized component marker yields an empty sequence, never
/// an error.
pub fn parse_bookmarks_from_global_workspace(content: &str) -> (r: Vec<ParsedBookmark>)
    ensures
        bookmarks_view(r@) == parse_global_spec(content@),
{
    let mut out: Vec<ParsedBookmark> = Vec::new();
    if !contains_str(content, "BookmarksManager") {
        proof {
            assert(bookmarks_view(out@) =~= Seq::<BookmarkV>::empty());
        }
        return out;
    }
    proof {
        reveal_strlit("<GroupState>");
        reveal_strlit("<BookmarkState>");
    }
    let groups = split_str(content, "<GroupState>");
    let ghost vg = views_of(groups@);
    proof {
        assert(vg.len() >= 1);
        assert(bookmarks_view(out@) + cat_groups(vg.skip(1)) =~= cat_groups(vg.skip(1)));
    }
    let mut gi: usize = 1;
    while gi < groups.len()
        invariant
            1 <= gi <= groups.len(),
            vg == views_of(groups@),
            vg == split_seq(content@, "<GroupState>"@),
            vg.len() == groups.len(),
            contains_seq(content@, "BookmarksManager"@),
            bookmarks_view(out@) + cat_groups(vg.skip(gi as int)) == cat_groups(vg.skip(1)),
        decreases groups.len() - gi,
    {
        proof {
            reveal_strlit("<BookmarkState>");
        }
        let pname: String = match keyed_value(groups[gi].as_str(), "<option name=\"name\"") {
            Some(v) => v,
            None => String::from_str("Unknown Project"),
        };
        proof {
            assert(groups@[gi as int]@ == vg[gi as int]);
            assert(pname@ == group_name_of(vg[gi as int]));
        }
        let bms = split_str(groups[gi].as_str(), "<BookmarkState>");
        let ghost vb = views_of(bms@);
        let ghost out0 = bookmarks_view(out@);
        proof {
            assert(vb.len() >= 1);
        }
        let mut bi: usize = 1;
        while bi < bms.len()
            invariant
                1 <= bi <= bms.len(),
                vb == views_of(bms@),
                vb.len() == bms.len(),
                pname@ == group_name_of(vg[gi as int]),
                vb == split_seq(vg[gi as int], "<BookmarkState>"@),
                bookmarks_view(out@) + cat_global_chunks(vb.skip(bi as int), pname@) == out0
                    + cat_global_chunks(vb.skip(1), pname@),
            decreases bms.len() - bi,
        {
            let ghost out_pre = bookmarks_view(out@);
            match parse_global_chunk(bms[bi].as_str(), pname.as_str()) {
                Some(b) => {
                    out.push(b);
                    proof {
                        assert(bookmarks_view(out@) =~= out_pre + seq![b@]);
                    }
                },
                None => {},
            }
            proof {
                assert(bms@[bi as int]@ == vb[bi as int]);
                assert(vb.skip(bi as int).skip(1) =~= vb.skip(bi + 1));
                assert(vb.skip(bi as int)[0] == vb[bi as int]);
                assert(cat_global_chunks(vb.skip(bi as int), pname@) == global_bookmark_of(
                    vb[bi as int],
                    pname@,
                ) + cat_global_chunks(vb.skip(bi + 1), pname@));
                assert(bookmarks_view(out@) + cat_global_chunks(vb.skip(bi + 1), pname@) =~= out_pre
                    + cat_global_chunks(vb.skip(bi as int), pname@));
            }
            bi += 1;
        }
        proof {
            assert(vb.skip(bms@.len() as int) =~= Seq::<Seq<char>>::empty());
            assert(cat_global_chunks(vb.skip(bms@.len() as int), pname@) =~= Seq::<
                BookmarkV,
            >::empty());
            assert(bookmarks_view(out@) =~= out0 + global_group_bookmarks(vg[gi as int]));
            assert(vg.skip(gi as int).skip(1) =~= vg.skip(gi + 1));
            assert(vg.skip(gi as int)[0] == vg[gi as int]);
            assert(cat_groups(vg.skip(gi as int)) == global_group_bookmarks(vg[gi as int])
                + cat_groups(vg.skip(gi + 1)));
            assert(bookmarks_view(out@) + cat_groups(vg.skip(gi + 1)) =~= out0 + cat_groups(
                vg.skip(gi as int),
            ));
        }
        gi += 1;
    }
    proof {
        assert(vg.skip(groups@.len() as int) =~= Seq::<Seq<char>>::empty());
        assert(cat_groups(vg.skip(groups@.len() as int)) =~= Seq::<BookmarkV>::empty());
        assert(bookmarks_view(out@) =~= cat_groups(vg.skip(1)));
    }
    out
}

/// The records of a sequence of legacy bookmark chunks, in order.
pub open spec fn cat_legacy_chunks(
    cs: Seq<Seq<char>>,
    pname: Seq<char>,
    root: Option<Seq<char>>,
) -> Seq<BookmarkV>
    decreases cs.len(),
{
    if cs.len() == 0 {
        Seq::empty()
    } else {
        legacy_bookmark_of(cs[0], pname, root) + cat_legacy_chunks(cs.skip(1), pname, root)
    }
}

/// What legacy extraction returns: nothing when the document has no
/// bookmark opening tag, else one record per tagged chunk that carries a
/// `url` attribute, in document order.
pub open spec fn parse_legacy_spec(
    content: Seq<char>,
    pname: Seq<char>,
    root: Option<Seq<char>>,
) -> Seq<BookmarkV> {
    if contains_seq(content, "<bookmark"@) {
        cat_legacy_chunks(split_seq(content, "<bookmark"@).skip(1), pname, root)
    } else {
        Seq::empty()
    }
}

/// Extracts bookmark records from a legacy per-project document (also
/// the shape of old workspace-XML project files). Fields are direct
/// attributes of the bookmark tag; `project_root`, when supplied,
/// replaces the `$PROJECT_DIR$` placeholder in paths.
pub fn parse_bookmarks_from_project_idea(
    content: &str,
    project_name: &str,
    project_root: Option<&str>,
) -> (r: Vec<ParsedBookmark>)
    ensures
        bookmarks_view(r@) == parse_legacy_spec(content@, project_name@, opt_str_view(
            project_root,
        )),
{
    let mut out: Vec<ParsedBookmark> = Vec::new();
    if !contains_str(content, "<bookmark") {
        proof {
            assert(bookmarks_view(out@) =~= Seq::<BookmarkV>::empty());
        }
        return out;
    }
    proof {
        reveal_strlit("<bookmark");
    }
    let ghost rootv = opt_str_view(project_root);
    let chunks = split_str(content, "<bookmark");
    let ghost vc = views_of(chunks@);
    proof {
        assert(vc.len() >= 1);
        assert(bookmarks_view(out@) + cat_legacy_chunks(vc.skip(1), project_name@, rootv)
            =~= cat_legacy_chunks(vc.skip(1), project_name@, rootv));
    }
    let mut ci: usize = 1;
    while ci < chunks.len()
        invariant
            1 <= ci <= chunks.len(),
            vc == views_of(chunks@),
            vc.len() == chunks.len(),
            rootv == opt_str_view(project_root),
            vc == split_seq(content@, "<bookmark"@),
            contains_seq(content@, "<bookmark"@),
            bookmarks_view(out@) + cat_legacy_chunks(vc.skip(ci as int), project_name@, rootv)
                == cat_legacy_chunks(vc.skip(1), project_name@, rootv),
        decreases chunks.len() - ci,
    {
        let ghost out_pre = bookmarks_view(out@);
        match parse_legacy_chunk(chunks[ci].as_str(), project_name, project_root) {
            Some(b) => {
                out.push(b);
                proof {
                    assert(bookmarks_view(out@) =~= out_pre + seq![b@]);
                }
            },
            None => {},
        }
        proof {
            assert(chunks@[ci as int]@ == vc[ci as int]);
            assert(vc.skip(ci as int).skip(1) =~= vc.skip(ci + 1));
            assert(vc.skip(ci as int)[0] == vc[ci as int]);
            assert(cat_legacy_chunks(vc.skip(ci as int), project_name@, rootv)
                == legacy_bookmark_of(vc[ci as int], project_name@, rootv) + cat_legacy_chunks(
                vc.skip(ci + 1),
                project_name@,
                rootv,
            ));
            assert(bookmarks_view(out@) + cat_legacy_chunks(vc.skip(ci + 1), project_name@, rootv)
                =~= out_pre + cat_legacy_chunks(vc.skip(ci as int), project_name@, rootv));
        }
        ci += 1;
    }
    proof {
        assert(vc.skip(chunks@.len() as int) =~= Seq::<Seq<char>>::empty());
        assert(cat_legacy_chunks(vc.skip(chunks@.len() as int), project_name@, rootv) =~= Seq::<
            BookmarkV,
        >::empty());
        assert(bookmarks_view(out@) =~= cat_legacy_chunks(vc.skip(1), project_name@, rootv));
    }
    out
}

} // verus!
