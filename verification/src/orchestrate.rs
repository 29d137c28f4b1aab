//! The extraction orchestrator: global-workspace sources first; on an
//! empty result, fall back to per-project sources, merging with
//! deduplication by `(file_path, line_number)`; sort the final sequence
//! by project name, stably.

use vstd::prelude::*;

use crate::parse::{
    parse_bookmarks_from_global_workspace, parse_bookmarks_from_project_idea, parse_global_spec,
    parse_legacy_spec,
};
use crate::records::{BookmarkV, ParsedBookmark, bookmarks_view};
use crate::sorting::{
    lemma_insert_ordered_at, lemma_sort_by_spec, sort_by_spec, sorted_by, total_leq, trans_leq,
};
use crate::strutil::{str_le, str_le_exec, lemma_str_le_total, lemma_str_le_trans, views_of};

verus! {

/// The order the orchestrator sorts by: project name, lexicographically.
pub open spec fn record_le_spec(a: BookmarkV, b: BookmarkV) -> bool {
    str_le(a.project_name, b.project_name)
}

/// `record_le_spec` as a comparison value.
pub open spec fn record_le() -> spec_fn(BookmarkV, BookmarkV) -> bool {
    |a: BookmarkV, b: BookmarkV| record_le_spec(a, b)
}

/// The record comparison is a total preorder.
pub proof fn lemma_record_le_total_trans()
    ensures
        total_leq(record_le()),
        trans_leq(record_le()),
{
    let leq = record_le();
    assert forall|a: BookmarkV, b: BookmarkV| #[trigger] leq(a, b) || #[trigger] leq(b, a) by {
        lemma_str_le_total(a.project_name, b.project_name);
    }
    assert forall|a: BookmarkV, b: BookmarkV, c: BookmarkV|
        #[trigger] leq(a, b) && #[trigger] leq(b, c) implies leq(a, c) by {
        lemma_str_le_trans(a.project_name, b.project_name, c.project_name);
    }
}

/// Sorting law: the extraction result is sorted by project name
/// ascending and the sort is stable — for every project name, the
/// records of that project appear in their original relative order.
pub proof fn lemma_sort_stable_per_project(s: Seq<BookmarkV>, name: Seq<char>)
    ensures
        sorted_by(sort_by_spec(s, record_le()), record_le()),
        sort_by_spec(s, record_le()).filter(|b: BookmarkV| b.project_name == name) == s.filter(
            (|b: BookmarkV| b.project_name == name),
        ),
{
    lemma_record_le_total_trans();
    let p = |b: BookmarkV| b.project_name == name;
    let leq = record_le();
    assert forall|y: BookmarkV, z: BookmarkV| #[trigger] p(y) && #[trigger] p(z) implies leq(
        y,
        z,
    ) by {
        lemma_str_le_total(name, name);
    }
    lemma_sort_by_spec(s, leq, p);
}

/// Executable form of the record comparison.
fn record_le_exec(a: &ParsedBookmark, b: &ParsedBookmark) -> (r: bool)
    ensures
        r == record_le_spec(a@, b@),
{
    str_le_exec(a.project_name.as_str(), b.project_name.as_str())
}

/// Stable sort of bookmark records by project name ascending; ties keep
/// their original relative order.
pub fn sort_bookmarks(v: Vec<ParsedBookmark>) -> (r: Vec<ParsedBookmark>)
    ensures
        bookmarks_view(r@) == sort_by_spec(bookmarks_view(v@), record_le()),
{
    let ghost sv = bookmarks_view(v@);
    let mut input = v;
    let mut out: Vec<ParsedBookmark> = Vec::new();
    proof {
        assert(sv.take(0) =~= Seq::<BookmarkV>::empty());
        assert(bookmarks_view(out@) =~= sort_by_spec(sv.take(0), record_le()));
        assert(bookmarks_view(input@) =~= sv.skip(0));
    }
    while input.len() > 0
        invariant
            input@.len() <= sv.len(),
            bookmarks_view(input@) == sv.skip(sv.len() - input@.len()),
            bookmarks_view(out@) == sort_by_spec(sv.take(sv.len() - input@.len()), record_le()),
        decreases input.len(),
    {
        let ghost k = sv.len() - input@.len();
        let ghost out_pre = bookmarks_view(out@);
        let ghost inp_pre = input@;
        let x = input.remove(0);
        proof {
            assert(x == inp_pre[0]);
            assert(bookmarks_view(inp_pre)[0] == inp_pre[0]@);
            assert(x@ == sv.skip(k as int)[0]);
            assert(input@ =~= inp_pre.skip(1));
            assert forall|i: int| 0 <= i < input@.len() implies bookmarks_view(input@)[i]
                == sv.skip(k as int + 1)[i] by {
                assert(bookmarks_view(input@)[i] == input@[i]@);
                assert(input@[i] == inp_pre[i + 1]);
                assert(bookmarks_view(inp_pre)[i + 1] == inp_pre[i + 1]@);
                assert(bookmarks_view(inp_pre)[i + 1] == sv.skip(k as int)[i + 1]);
            }
            assert(bookmarks_view(input@) =~= sv.skip(k as int + 1));
        }
        let mut pos: usize = 0;
        while pos < out.len() && record_le_exec(&out[pos], &x)
            invariant
                pos <= out.len(),
                forall|i: int| 0 <= i < pos ==> record_le_spec(
                    #[trigger] bookmarks_view(out@)[i],
                    x@,
                ),
            decreases out.len() - pos,
        {
            pos += 1;
        }
        proof {
            let leq = record_le();
            assert forall|i: int| 0 <= i < pos implies leq(#[trigger] out_pre[i], x@) by {
                assert(record_le_spec(bookmarks_view(out@)[i], x@));
            }
            if (pos as int) < out_pre.len() {
                assert(!leq(out_pre[pos as int], x@));
            }
            lemma_insert_ordered_at(out_pre, x@, record_le(), pos as int);
        }
        out.insert(pos, x);
        proof {
            assert(bookmarks_view(out@) =~= out_pre.take(pos as int) + seq![x@] + out_pre.skip(
                pos as int,
            ));
            assert(sv.take(k + 1).drop_last() =~= sv.take(k as int));
            assert(sv.take(k + 1).last() == sv[k as int]);
            assert(bookmarks_view(out@) == sort_by_spec(sv.take(k + 1), record_le()));
        }
    }
    proof {
        assert(sv.take(sv.len() as int) =~= sv);
    }
    out
}

/// Some already-accumulated record shares this `(file_path,
/// line_number)` key.
pub open spec fn has_key(s: Seq<BookmarkV>, fp: Seq<char>, ln: int) -> bool {
    exists|i: int|
        #![trigger s[i]]
        0 <= i < s.len() && s[i].file_path == fp && s[i].line_number == ln
}

/// No two records share a `(file_path, line_number)` key.
pub open spec fn unique_keys(s: Seq<BookmarkV>) -> bool {
    forall|i: int, j: int|
        #![trigger s[i], s[j]]
        0 <= i < j < s.len() ==> !(s[i].file_path == s[j].file_path && s[i].line_number
            == s[j].line_number)
}

/// What merging yields: each candidate is appended unless an
/// already-accumulated record shares its key.
pub open spec fn merge_dedup_spec(acc: Seq<BookmarkV>, add: Seq<BookmarkV>) -> Seq<BookmarkV>
    decreases add.len(),
{
    if add.len() == 0 {
        acc
    } else {
        let acc2 = if has_key(acc, add[0].file_path, add[0].line_number) {
            acc
        } else {
            acc.push(add[0])
        };
        merge_dedup_spec(acc2, add.skip(1))
    }
}

/// Deduplication law: when the accumulated records have pairwise
/// distinct `(file_path, line_number)` keys, they still do after any
/// merge — candidates that repeat a key collapse into the record already
/// present.
pub proof fn lemma_merge_dedup_unique(acc: Seq<BookmarkV>, add: Seq<BookmarkV>)
    requires
        unique_keys(acc),
    ensures
        unique_keys(merge_dedup_spec(acc, add)),
    decreases add.len(),
{
    if add.len() > 0 {
        if has_key(acc, add[0].file_path, add[0].line_number) {
            lemma_merge_dedup_unique(acc, add.skip(1));
        } else {
            let acc2 = acc.push(add[0]);
            assert forall|i: int, j: int|
                #![trigger acc2[i], acc2[j]]
                0 <= i < j < acc2.len() implies !(acc2[i].file_path == acc2[j].file_path
                && acc2[i].line_number == acc2[j].line_number) by {
                if j == acc2.len() - 1 {
                    assert(acc2[i] == acc[i]);
                }
            }
            lemma_merge_dedup_unique(acc2, add.skip(1));
        }
    }
}

/// Whether `acc` already holds a record with this key.
fn contains_key(acc: &Vec<ParsedBookmark>, fp: &String, ln: i32) -> (r: bool)
    ensures
        r == has_key(bookmarks_view(acc@), fp@, ln as int),
{
    let mut i: usize = 0;
    while i < acc.len()
        invariant
            i <= acc.len(),
            forall|k: int|
                #![trigger bookmarks_view(acc@)[k]]
                0 <= k < i ==> !(bookmarks_view(acc@)[k].file_path == fp@ && bookmarks_view(
                    acc@,
                )[k].line_number == ln as int),
        decreases acc.len() - i,
    {
        if acc[i].file_path == *fp && acc[i].line_number == ln {
            proof {
                assert(bookmarks_view(acc@)[i as int].file_path == fp@);
            }
            return true;
        }
        i += 1;
    }
    false
}

/// Appends the candidates of `add` to `acc`, discarding any candidate
/// whose `(file_path, line_number)` key an already-accumulated record
/// carries.
pub fn merge_dedup(acc: &mut Vec<ParsedBookmark>, add: Vec<ParsedBookmark>)
    ensures
        bookmarks_view(final(acc)@) == merge_dedup_spec(
            bookmarks_view(old(acc)@),
            bookmarks_view(add@),
        ),
{
    let ghost add0 = bookmarks_view(add@);
    let ghost acc0 = bookmarks_view(old(acc)@);
    let mut add = add;
    proof {
        assert(bookmarks_view(add@) =~= add0.skip(0));
    }
    while add.len() > 0
        invariant
            merge_dedup_spec(bookmarks_view(acc@), bookmarks_view(add@)) == merge_dedup_spec(
                acc0,
                add0,
            ),
        decreases add.len(),
    {
        let ghost acc_pre = bookmarks_view(acc@);
        let ghost add_pre = bookmarks_view(add@);
        let ghost addv_pre = add@;
        let x = add.remove(0);
        proof {
            assert(x == addv_pre[0]);
            assert(bookmarks_view(addv_pre)[0] == addv_pre[0]@);
            assert(add@ =~= addv_pre.skip(1));
            assert forall|i: int| 0 <= i < add@.len() implies bookmarks_view(add@)[i]
                == add_pre.skip(1)[i] by {
                assert(bookmarks_view(add@)[i] == add@[i]@);
                assert(add@[i] == addv_pre[i + 1]);
                assert(bookmarks_view(addv_pre)[i + 1] == addv_pre[i + 1]@);
            }
            assert(bookmarks_view(add@) =~= add_pre.skip(1));
        }
        let dup = contains_key(acc, &x.file_path, x.line_number);
        if !dup {
            acc.push(x);
            proof {
                assert(bookmarks_view(acc@) =~= acc_pre.push(add_pre[0]));
            }
        }
    }
    proof {
        assert(bookmarks_view(add@) =~= Seq::<BookmarkV>::empty());
    }
}

/// Mathematical view of a `ProjectSource`.
pub struct ProjectSourceV {
    pub project_name: Seq<char>,
    pub documents: Seq<Seq<char>>,
}

/// One fallback source: a candidate project and the contents of its
/// known state files, handed in by whatever discovered them.
pub struct ProjectSource {
    pub project_name: String,
    pub documents: Vec<String>,
}

impl View for ProjectSource {
    type V = ProjectSourceV;

    open spec fn view(&self) -> ProjectSourceV {
        ProjectSourceV { project_name: self.project_name@, documents: views_of(self.documents@) }
    }
}

/// The views of a sequence of fallback sources.
pub open spec fn sources_view(s: Seq<ProjectSource>) -> Seq<ProjectSourceV> {
    Seq::new(s.len(), |i: int| s[i]@)
}

/// All records of the global-workspace documents, in order.
pub open spec fn cat_global_docs(docs: Seq<Seq<char>>) -> Seq<BookmarkV>
    decreases docs.len(),
{
    if docs.len() == 0 {
        Seq::empty()
    } else {
        parse_global_spec(docs[0]) + cat_global_docs(docs.skip(1))
    }
}

/// One project's documents folded into the accumulator with
/// deduplication.
pub open spec fn merge_project_docs(
    acc: Seq<BookmarkV>,
    pname: Seq<char>,
    docs: Seq<Seq<char>>,
) -> Seq<BookmarkV>
    decreases docs.len(),
{
    if docs.len() == 0 {
        acc
    } else {
        merge_project_docs(
            merge_dedup_spec(acc, parse_legacy_spec(docs[0], pname, Option::None)),
            pname,
            docs.skip(1),
        )
    }
}

/// All fallback sources folded into the accumulator, in order.
pub open spec fn merge_sources(acc: Seq<BookmarkV>, srcs: Seq<ProjectSourceV>) -> Seq<BookmarkV>
    decreases srcs.len(),
{
    if srcs.len() == 0 {
        acc
    } else {
        merge_sources(merge_project_docs(acc, srcs[0].project_name, srcs[0].documents), srcs.skip(1))
    }
}

/// What extraction returns: every record of the global-workspace
/// documents when there are any; otherwise the fallback sources merged
/// with deduplication; either way sorted stably by project name
/// ascending.
pub open spec fn extract_spec(globals: Seq<Seq<char>>, fallback: Seq<ProjectSourceV>) -> Seq<
    BookmarkV,
> {
    let primary = cat_global_docs(globals);
    if primary.len() > 0 {
        sort_by_spec(primary, record_le())
    } else {
        sort_by_spec(merge_sources(Seq::empty(), fallback), record_le())
    }
}

/// Runs extraction over the supplied document contents: global-workspace
/// documents first; when they yield nothing, the per-project fallback
/// sources, merged with deduplication by `(file_path, line_number)`; the
/// result is sorted stably by project name ascending.
pub fn extract_bookmarks(global_documents: &Vec<String>, fallback_sources: &Vec<ProjectSource>) -> (r:
    Vec<ParsedBookmark>)
    ensures
        bookmarks_view(r@) == extract_spec(
            views_of(global_documents@),
            sources_view(fallback_sources@),
        ),
{
    let ghost vd = views_of(global_documents@);
    let mut primary: Vec<ParsedBookmark> = Vec::new();
    proof {
        assert(vd.skip(0) =~= vd);
        assert(bookmarks_view(primary@) + cat_global_docs(vd) =~= cat_global_docs(vd));
    }
    let mut di: usize = 0;
    while di < global_documents.len()
        invariant
            di <= global_documents.len(),
            vd == views_of(global_documents@),
            vd.len() == global_documents@.len(),
            bookmarks_view(primary@) + cat_global_docs(vd.skip(di as int)) == cat_global_docs(vd),
        decreases global_documents.len() - di,
    {
        let ghost pre = bookmarks_view(primary@);
        let mut batch = parse_bookmarks_from_global_workspace(global_documents[di].as_str());
        let ghost bv = bookmarks_view(batch@);
        primary.append(&mut batch);
        proof {
            assert(global_documents@[di as int]@ == vd[di as int]);
            assert forall|i: int| 0 <= i < primary@.len() implies bookmarks_view(primary@)[i] == (
            pre + bv)[i] by {
                assert(bookmarks_view(primary@)[i] == primary@[i]@);
            }
            assert(bookmarks_view(primary@) =~= pre + bv);
            assert(vd.skip(di as int).skip(1) =~= vd.skip(di + 1));
            assert(vd.skip(di as int)[0] == vd[di as int]);
            assert(cat_global_docs(vd.skip(di as int)) == parse_global_spec(vd[di as int])
                + cat_global_docs(vd.skip(di + 1)));
            assert(bookmarks_view(primary@) + cat_global_docs(vd.skip(di + 1)) =~= pre
                + cat_global_docs(vd.skip(di as int)));
        }
        di += 1;
    }
    proof {
        assert(vd.skip(global_documents@.len() as int) =~= Seq::<Seq<char>>::empty());
        assert(cat_global_docs(vd.skip(global_documents@.len() as int)) =~= Seq::<
            BookmarkV,
        >::empty());
        assert(bookmarks_view(primary@) =~= cat_global_docs(vd));
    }
    if primary.len() > 0 {
        sort_bookmarks(primary)
    } else {
        let ghost vs = sources_view(fallback_sources@);
        let mut merged: Vec<ParsedBookmark> = Vec::new();
        proof {
            assert(vs.skip(0) =~= vs);
            assert(bookmarks_view(merged@) =~= Seq::<BookmarkV>::empty());
        }
        let mut si: usize = 0;
        while si < fallback_sources.len()
            invariant
                si <= fallback_sources.len(),
                vs == sources_view(fallback_sources@),
                vs.len() == fallback_sources@.len(),
                merge_sources(bookmarks_view(merged@), vs.skip(si as int)) == merge_sources(
                    Seq::empty(),
                    vs,
                ),
            decreases fallback_sources.len() - si,
        {
            let ghost m0 = bookmarks_view(merged@);
            let src = &fallback_sources[si];
            let ghost vdocs = views_of(src.documents@);
            proof {
                assert(fallback_sources@[si as int]@ == vs[si as int]);
                assert(vdocs.skip(0) =~= vdocs);
            }
            let mut dj: usize = 0;
            while dj < src.documents.len()
                invariant
                    dj <= src.documents.len(),
                    vdocs == views_of(src.documents@),
                    vdocs.len() == src.documents@.len(),
                    merge_project_docs(bookmarks_view(merged@), src.project_name@, vdocs.skip(
                        dj as int,
                    )) == merge_project_docs(m0, src.project_name@, vdocs),
                decreases src.documents.len() - dj,
            {
                let ghost mer_pre = bookmarks_view(merged@);
                let batch = parse_bookmarks_from_project_idea(
                    src.documents[dj].as_str(),
                    src.project_name.as_str(),
                    None,
                );
                let ghost batchv = bookmarks_view(batch@);
                merge_dedup(&mut merged, batch);
                proof {
                    assert(src.documents@[dj as int]@ == vdocs[dj as int]);
                    assert(batchv == parse_legacy_spec(
                        vdocs[dj as int],
                        src.project_name@,
                        Option::None,
                    ));
                    assert(vdocs.skip(dj as int).skip(1) =~= vdocs.skip(dj + 1));
                    assert(vdocs.skip(dj as int)[0] == vdocs[dj as int]);
                    assert(merge_project_docs(mer_pre, src.project_name@, vdocs.skip(dj as int))
                        == merge_project_docs(
                        merge_dedup_spec(mer_pre, batchv),
                        src.project_name@,
                        vdocs.skip(dj + 1),
                    ));
                }
                dj += 1;
            }
            proof {
                assert(vdocs.skip(src.documents@.len() as int) =~= Seq::<Seq<char>>::empty());
                assert(vs.skip(si as int).skip(1) =~= vs.skip(si + 1));
                assert(vs.skip(si as int)[0] == vs[si as int]);
                assert(merge_sources(m0, vs.skip(si as int)) == merge_sources(
                    merge_project_docs(m0, vs[si as int].project_name, vs[si as int].documents),
                    vs.skip(si + 1),
                ));
            }
            si += 1;
        }
        proof {
            assert(vs.skip(fallback_sources@.len() as int) =~= Seq::<ProjectSourceV>::empty());
        }
        sort_bookmarks(merged)
    }
}

} // verus!
