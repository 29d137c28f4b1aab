//! The recent-project resolver's text half: a deliberately crude
//! quote-splitting tokenizer over a "recent projects" descriptor,
//! yielding candidate project paths. The caller keeps only candidates
//! that exist on disk and contain a project-marker directory; false
//! negatives are acceptable here.

use vstd::prelude::*;

use crate::strutil::{
    contains_seq, contains_str, match_at, match_str_at, replace_all, replace_all_str, split_seq,
    split_str, views_of,
};

verus! {

/// `s` ends with `suf`.
pub open spec fn ends_with(s: Seq<char>, suf: Seq<char>) -> bool {
    match_at(s, suf, s.len() - suf.len())
}

/// Executable form of `ends_with`.
pub fn ends_with_str(s: &str, suf: &str) -> (r: bool)
    ensures
        r == ends_with(s@, suf@),
{
    let n = s.unicode_len();
    let m = suf.unicode_len();
    if m > n {
        false
    } else {
        match_str_at(s, suf, n - m)
    }
}

/// A token looks like a path (it carries a separator or the home
/// placeholder) and is not obvious noise (archives, icons, markup
/// files).
pub open spec fn is_candidate_token(t: Seq<char>) -> bool {
    &&& (contains_seq(t, "/"@) || contains_seq(t, "\\"@) || contains_seq(t, "$USER_HOME$"@))
    &&& !ends_with(t, ".jar"@)
    &&& !contains_seq(t, ".svg"@)
    &&& !contains_seq(t, ".xml"@)
}

/// A candidate with its home placeholder substituted.
pub open spec fn resolve_token(t: Seq<char>, home: Seq<char>) -> Seq<char> {
    replace_all(t, "$USER_HOME$"@, home)
}

/// The accumulator after considering one token: appended when it is a
/// candidate whose resolved path is not yet present.
pub open spec fn push_candidate(acc: Seq<Seq<char>>, t: Seq<char>, home: Seq<char>) -> Seq<
    Seq<char>,
> {
    if is_candidate_token(t) {
        let r = resolve_token(t, home);
        if acc.contains(r) {
            acc
        } else {
            acc.push(r)
        }
    } else {
        acc
    }
}

/// All tokens folded into the accumulator, in order.
pub open spec fn candidates_from(acc: Seq<Seq<char>>, parts: Seq<Seq<char>>, home: Seq<char>) -> Seq<
    Seq<char>,
>
    decreases parts.len(),
{
    if parts.len() == 0 {
        acc
    } else {
        candidates_from(push_candidate(acc, parts[0], home), parts.skip(1), home)
    }
}

/// What the resolver's text half returns: the descriptor content split
/// at quotes, path-looking tokens kept, the home placeholder
/// substituted, duplicates dropped.
pub open spec fn recent_candidates_spec(content: Seq<char>, home: Seq<char>) -> Seq<Seq<char>> {
    candidates_from(Seq::empty(), split_seq(content, "\""@), home)
}

/// Whether the resolved candidate is already collected.
fn vec_contains_string(v: &Vec<String>, s: &String) -> (r: bool)
    ensures
        r == views_of(v@).contains(s@),
{
    let mut i: usize = 0;
    while i < v.len()
        invariant
            i <= v.len(),
            forall|k: int| #![trigger views_of(v@)[k]] 0 <= k < i ==> views_of(v@)[k] != s@,
        decreases v.len() - i,
    {
        if v[i] == *s {
            proof {
                assert(views_of(v@)[i as int] == s@);
            }
            return true;
        }
        i += 1;
    }
    proof {
        if views_of(v@).contains(s@) {
            let k = choose|k: int| 0 <= k < views_of(v@).len() && views_of(v@)[k] == s@;
            assert(views_of(v@)[k] != s@);
        }
    }
    false
}

/// Recovers candidate project root paths from a "recent projects"
/// descriptor: split on quotes, keep path-looking tokens, drop noise,
/// substitute `$USER_HOME$` with `home_dir`, deduplicate by full path.
pub fn recent_project_candidates(content: &str, home_dir: &str) -> (r: Vec<String>)
    ensures
        views_of(r@) == recent_candidates_spec(content@, home_dir@),
{
    proof {
        reveal_strlit("\"");
        reveal_strlit("$USER_HOME$");
    }
    let parts = split_str(content, "\"");
    let ghost vp = views_of(parts@);
    let mut out: Vec<String> = Vec::new();
    proof {
        assert(vp.skip(0) =~= vp);
        assert(views_of(out@) =~= Seq::<Seq<char>>::empty());
    }
    let mut pi: usize = 0;
    while pi < parts.len()
        invariant
            pi <= parts.len(),
            vp == views_of(parts@),
            vp.len() == parts@.len(),
            candidates_from(views_of(out@), vp.skip(pi as int), home_dir@) == candidates_from(
                Seq::empty(),
                vp,
                home_dir@,
            ),
        decreases parts.len() - pi,
    {
        proof {
            reveal_strlit("$USER_HOME$");
        }
        let ghost out_pre = views_of(out@);
        let t = parts[pi].as_str();
        proof {
            assert(parts@[pi as int]@ == vp[pi as int]);
        }
        let looks_like_path = contains_str(t, "/") || contains_str(t, "\\") || contains_str(
            t,
            "$USER_HOME$",
        );
        let noise = ends_with_str(t, ".jar") || contains_str(t, ".svg") || contains_str(t, ".xml");
        if looks_like_path && !noise {
            let resolved = replace_all_str(t, "$USER_HOME$", home_dir);
            if !vec_contains_string(&out, &resolved) {
                out.push(resolved);
                proof {
                    assert(views_of(out@) =~= out_pre.push(resolve_token(
                        vp[pi as int],
                        home_dir@,
                    )));
                }
            }
        }
        proof {
            assert(vp.skip(pi as int).skip(1) =~= vp.skip(pi + 1));
            assert(vp.skip(pi as int)[0] == vp[pi as int]);
            assert(views_of(out@) == push_candidate(out_pre, vp[pi as int], home_dir@));
        }
        pi += 1;
    }
    proof {
        assert(vp.skip(parts@.len() as int) =~= Seq::<Seq<char>>::empty());
    }
    out
}

} // verus!
