//! The path normalizer: rewrites IDE-internal file URIs into host
//! filesystem paths, and string-level helpers over paths with `/` or `\`
//! separators (the data carries both, whatever the host platform is).

use vstd::prelude::*;

use crate::strutil::{
    contains_seq, contains_str, prefix_before, prefix_before_str, replace_all, replace_all_str,
    seq_eq_ignore_case, eq_ignore_case,
};

verus! {

/// A path separator character of either convention.
pub open spec fn is_sep(c: char) -> bool {
    c == '/' || c == '\\'
}

/// Strips a leading separator left over from URI-to-path conversion of a
/// drive-letter path, e.g. `/C:/...` becomes `C:/...`.
pub open spec fn drive_strip(p: Seq<char>) -> Seq<char> {
    if p.len() >= 3 && p[0] == '/' && p[2] == ':' {
        p.skip(1)
    } else {
        p
    }
}

/// What the path normalizer returns. In order: a `$PROJECT_DIR$`
/// placeholder is substituted (with `root` when supplied, else with a
/// fixed readable marker); otherwise any `file://` scheme prefix is
/// dropped; finally a separator left before a drive letter is stripped.
pub open spec fn normalize_spec(raw: Seq<char>, root: Option<Seq<char>>) -> Seq<char> {
    let replaced = if contains_seq(raw, "$PROJECT_DIR$"@) {
        match root {
            Option::Some(r) => replace_all(raw, "file://$PROJECT_DIR$"@, r),
            Option::None => replace_all(raw, "file://$PROJECT_DIR$"@, "[unknown root]"@),
        }
    } else {
        replace_all(raw, "file://"@, Seq::empty())
    };
    drive_strip(replaced)
}

/// The view of an optional string slice.
pub open spec fn opt_str_view(o: Option<&str>) -> Option<Seq<char>> {
    match o {
        Option::Some(s) => Option::Some(s@),
        Option::None => Option::None,
    }
}

/// Rewrites an IDE-internal file URI into a host filesystem path; a
/// best-effort, total normalizer that never fails on any input string.
pub fn clean_bookmark_path(raw_url: &str, project_root: Option<&str>) -> (r: String)
    ensures
        r@ == normalize_spec(raw_url@, opt_str_view(project_root)),
{
    proof {
        reveal_strlit("$PROJECT_DIR$");
        reveal_strlit("file://$PROJECT_DIR$");
        reveal_strlit("file://");
        reveal_strlit("");
        assert(""@ =~= Seq::<char>::empty());
    }
    let replaced: String = if contains_str(raw_url, "$PROJECT_DIR$") {
        match project_root {
            Some(root) => replace_all_str(raw_url, "file://$PROJECT_DIR$", root),
            None => replace_all_str(raw_url, "file://$PROJECT_DIR$", "[unknown root]"),
        }
    } else {
        replace_all_str(raw_url, "file://", "")
    };
    let n = replaced.as_str().unicode_len();
    if n >= 3 && replaced.as_str().get_char(0) == '/' && replaced.as_str().get_char(2) == ':' {
        let r = String::from_str(replaced.as_str().substring_char(1, n));
        proof {
            assert(replaced@.subrange(1, n as int) =~= replaced@.skip(1));
        }
        r
    } else {
        replaced
    }
}

/// `p` with trailing separators removed.
pub open spec fn strip_trailing_seps(p: Seq<char>) -> Seq<char>
    decreases p.len(),
{
    if p.len() > 0 && is_sep(p.last()) {
        strip_trailing_seps(p.drop_last())
    } else {
        p
    }
}

/// The suffix of `p` after its last separator (all of `p` when it has
/// none).
pub open spec fn after_last_sep(p: Seq<char>) -> Seq<char>
    decreases p.len(),
{
    if p.len() == 0 {
        p
    } else if is_sep(p.last()) {
        Seq::empty()
    } else {
        after_last_sep(p.drop_last()).push(p.last())
    }
}

/// The final component of a path: trailing separators are ignored, as the
/// platform path readers ignore them; empty when nothing remains.
pub open spec fn file_name_spec(p: Seq<char>) -> Seq<char> {
    after_last_sep(strip_trailing_seps(p))
}

/// The character at `i` is a path separator.
pub fn char_at_is_sep(p: &str, i: usize) -> (r: bool)
    requires
        i < p@.len(),
    ensures
        r == is_sep(p@[i as int]),
{
    let c = p.get_char(i);
    c == '/' || c == '\\'
}

/// Bounds of the final path component: `p` truncated at `r.1` is `p`
/// without its trailing separators, and the slice from `r.0` to `r.1` is
/// that final component.
pub fn last_component_bounds(p: &str) -> (r: (usize, usize))
    ensures
        r.0 <= r.1 <= p@.len(),
        p@.take(r.1 as int) == strip_trailing_seps(p@),
        p@.subrange(r.0 as int, r.1 as int) == file_name_spec(p@),
{
    let n = p.unicode_len();
    proof {
        assert(p@.take(n as int) =~= p@);
    }
    let mut e = n;
    while e > 0 && char_at_is_sep(p, e - 1)
        invariant
            e <= n,
            n == p@.len(),
            strip_trailing_seps(p@) == strip_trailing_seps(p@.take(e as int)),
        decreases e,
    {
        proof {
            assert(p@.take(e as int).drop_last() =~= p@.take(e - 1));
        }
        e -= 1;
    }
    proof {
        assert(strip_trailing_seps(p@.take(e as int)) == p@.take(e as int));
        assert(after_last_sep(p@.take(e as int)) + p@.subrange(e as int, e as int)
            =~= after_last_sep(p@.take(e as int)));
    }
    let mut j = e;
    while j > 0 && !char_at_is_sep(p, j - 1)
        invariant
            j <= e <= n,
            n == p@.len(),
            after_last_sep(p@.take(e as int)) == after_last_sep(p@.take(j as int)) + p@.subrange(
                j as int,
                e as int,
            ),
        decreases j,
    {
        proof {
            assert(p@.take(j as int).drop_last() =~= p@.take(j - 1));
            assert(after_last_sep(p@.take(j - 1)).push(p@[j - 1]) + p@.subrange(j as int, e as int)
                =~= after_last_sep(p@.take(j - 1)) + p@.subrange(j - 1, e as int));
        }
        j -= 1;
    }
    proof {
        if j == 0 {
            assert(after_last_sep(p@.take(0)) + p@.subrange(0, e as int) =~= p@.subrange(
                0,
                e as int,
            ));
        } else {
            assert(after_last_sep(p@.take(j as int)) =~= Seq::<char>::empty());
            assert(after_last_sep(p@.take(j as int)) + p@.subrange(j as int, e as int) =~= p@
                .subrange(j as int, e as int));
        }
    }
    (j, e)
}

/// Executable form of `file_name_spec`.
pub fn file_name_of(p: &str) -> (r: String)
    ensures
        r@ == file_name_spec(p@),
{
    let (j, e) = last_component_bounds(p);
    String::from_str(p.substring_char(j, e))
}

/// The slice of `p` from `a` to `b` is one whole separator-delimited
/// component.
pub open spec fn is_component(p: Seq<char>, a: int, b: int) -> bool {
    &&& 0 <= a <= b <= p.len()
    &&& (a == 0 || is_sep(p[a - 1]))
    &&& (b == p.len() || is_sep(p[b]))
    &&& forall|k: int| a <= k < b ==> !is_sep(#[trigger] p[k])
}

/// Some component of `p` is `src`, compared ignoring ASCII letter case.
pub open spec fn has_src_component(p: Seq<char>) -> bool {
    exists|a: int, b: int|
        #[trigger] is_component(p, a, b) && seq_eq_ignore_case(
            p.subrange(a, b),
            seq!['s', 'r', 'c'],
        )
}

/// Whether `p` has a `src` component, ignoring ASCII letter case.
pub fn path_has_src_component(p: &str) -> (r: bool)
    ensures
        r == has_src_component(p@),
{
    let n = p.unicode_len();
    let mut i: usize = 0;
    while i < n
        invariant
            i <= n,
            n == p@.len(),
            i == 0 || i == n || is_sep(p@[i - 1]) || is_sep(p@[i as int]),
            forall|a: int, b: int|
                #[trigger] is_component(p@, a, b) && b <= i ==> !seq_eq_ignore_case(
                    p@.subrange(a, b),
                    seq!['s', 'r', 'c'],
                ),
        decreases n - i,
    {
        if char_at_is_sep(p, i) {
            i += 1;
        } else {
            let start = i;
            let mut j = i;
            while j < n && !char_at_is_sep(p, j)
                invariant
                    start <= j <= n,
                    n == p@.len(),
                    forall|k: int| start <= k < j ==> !is_sep(#[trigger] p@[k]),
                decreases n - j,
            {
                j += 1;
            }
            if eq_ignore_case(p.substring_char(start, j), "src") {
                proof {
                    reveal_strlit("src");
                    assert("src"@ =~= seq!['s', 'r', 'c']);
                    assert(is_component(p@, start as int, j as int));
                }
                return true;
            }
            proof {
                assert forall|a: int, b: int|
                    #[trigger] is_component(p@, a, b) && b <= j implies !seq_eq_ignore_case(
                    p@.subrange(a, b),
                    seq!['s', 'r', 'c'],
                ) by {
                    reveal_strlit("src");
                    assert("src"@ =~= seq!['s', 'r', 'c']);
                    if b > start {
                        assert(b == j);
                        assert(a == start) by {
                            if a < start {
                                assert(!is_sep(p@[start - 1]));
                            }
                            if a > start {
                                assert(!is_sep(p@[a - 1]));
                            }
                        }
                    }
                }
            }
            i = j;
        }
    }
    proof {
        assert forall|a: int, b: int|
            #[trigger] is_component(p@, a, b) implies !seq_eq_ignore_case(
            p@.subrange(a, b),
            seq!['s', 'r', 'c'],
        ) by {
            assert(b <= n);
        }
    }
    false
}

/// What the project-name heuristic returns. When the path has a `src`
/// component, the name of the directory before the first literal `src`;
/// otherwise the name of the file's parent directory; `Unknown` when
/// nothing usable remains.
pub open spec fn extract_project_name_spec(p: Seq<char>) -> Seq<char> {
    if has_src_component(p) {
        let name = file_name_spec(prefix_before(p, seq!['s', 'r', 'c']));
        if name.len() == 0 {
            "Unknown"@
        } else {
            name
        }
    } else {
        let t = strip_trailing_seps(p);
        let last = after_last_sep(t);
        let name = file_name_spec(t.take(t.len() - last.len()));
        if name.len() == 0 {
            "Unknown"@
        } else {
            name
        }
    }
}

/// Heuristically recovers a project name from a file path: the directory
/// above a `src` component when there is one, else the parent directory
/// name, else `Unknown`.
pub fn extract_project_name(path: &str) -> (r: String)
    ensures
        r@ == extract_project_name_spec(path@),
{
    proof {
        reveal_strlit("src");
        assert("src"@ =~= seq!['s', 'r', 'c']);
    }
    if path_has_src_component(path) {
        let pre = prefix_before_str(path, "src");
        let name = file_name_of(pre.as_str());
        if name.as_str().unicode_len() == 0 {
            String::from_str("Unknown")
        } else {
            name
        }
    } else {
        let (j, _e) = last_component_bounds(path);
        let ghost t = strip_trailing_seps(path@);
        proof {
            assert(path@.take(j as int) =~= t.take(t.len() - after_last_sep(t).len()));
        }
        let name = file_name_of(path.substring_char(0, j));
        proof {
            assert(path@.subrange(0, j as int) =~= path@.take(j as int));
        }
        if name.as_str().unicode_len() == 0 {
            String::from_str("Unknown")
        } else {
            name
        }
    }
}

} // verus!

