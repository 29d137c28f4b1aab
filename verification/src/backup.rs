//! The backup store's naming and listing logic: identifiers of the form
//! `{yyyymmdd}_{hhmmss}_backup_{original_file_name}`, parsed back by
//! splitting at the first three underscores, and the listing joined with
//! the metadata ledger, newest first.

use vstd::prelude::*;

use crate::ledger::{lookup, Ledger};
use crate::records::{backups_view, BackupFile, BackupFileV};
use crate::sorting::{
    lemma_insert_ordered_at, lemma_sort_by_spec, sort_by_spec, sorted_by, total_leq, trans_leq,
};
use crate::strutil::{
    find_from, find_str, find_sub, is_ascii_digit_char, lemma_str_le_total, lemma_str_le_trans,
    match_at, str_le, str_le_exec, views_of,
};

verus! {

/// A timestamp as the clock wrapper formats it: a date part without
/// underscores, one underscore, and six trailing digits.
pub open spec fn is_stamp(s: Seq<char>) -> bool {
    &&& s.len() >= 15
    &&& s[s.len() - 7] == '_'
    &&& forall|i: int| 0 <= i < s.len() - 7 ==> (#[trigger] s[i]) != '_'
    &&& forall|i: int| s.len() - 7 < i < s.len() ==> is_ascii_digit_char(#[trigger] s[i])
}

/// Relies on chrono's `Local::now` and `%Y%m%d_%H%M%S` formatting: a
/// zero-padded year of at least four digits, two-digit month, day,
/// hour, minute and second fields, and the one literal underscore of
/// the format string between date and time.
#[verifier::external_body]
fn now_stamp() -> (r: String)
    ensures
        is_stamp(r@),
{
    chrono::Local::now().format("%Y%m%d_%H%M%S").to_string()
}

/// A backup identifier: the timestamp, the literal `backup` marker, and
/// the original file name, underscore-separated.
pub open spec fn backup_id_spec(stamp: Seq<char>, file_name: Seq<char>) -> Seq<char> {
    stamp + "_backup_"@ + file_name
}

/// Builds the identifier a backup of `file_name` taken at `timestamp`
/// is stored under.
pub fn make_backup_id(timestamp: &str, file_name: &str) -> (r: String)
    ensures
        r@ == backup_id_spec(timestamp@, file_name@),
{
    let mut out = String::from_str(timestamp);
    out.append("_backup_");
    out.append(file_name);
    out
}

/// Builds an identifier for a backup of `file_name` taken now; the
/// timestamp comes from the clock, so only its shape is known.
pub fn new_backup_id(file_name: &str) -> (r: String)
    ensures
        exists|stamp: Seq<char>| is_stamp(stamp) && r@ == backup_id_spec(stamp, file_name@),
{
    let ts = now_stamp();
    let r = make_backup_id(ts.as_str(), file_name);
    proof {
        assert(is_stamp(ts@) && r@ == backup_id_spec(ts@, file_name@));
    }
    r
}

/// Identifier law: an identifier built from a clock stamp and a file
/// name parses back into the stamp's date and time and the very file
/// name, whatever underscores the file name itself carries.
pub proof fn lemma_backup_id_parses(stamp: Seq<char>, name: Seq<char>)
    requires
        is_stamp(stamp),
    ensures
        backup_parts_spec(backup_id_spec(stamp, name)) == Some(
            (stamp.take(stamp.len() - 7), stamp.skip(stamp.len() - 6), name),
        ),
{
    reveal_strlit("_");
    reveal_strlit("_backup_");
    reveal_strlit("backup");
    let id = backup_id_spec(stamp, name);
    let sl = stamp.len() as int;
    let u = "_"@;
    assert(u.len() == 1 && u[0] == '_');
    assert(forall|x: int| 0 <= x < sl ==> id[x] == stamp[x]);
    assert(forall|x: int| sl <= x < sl + 8 ==> id[x] == "_backup_"@[x - sl]);
    assert(forall|x: int| sl + 8 <= x < id.len() ==> id[x] == name[x - sl - 8]);
    assert forall|j: int| 0 <= j < id.len() implies (match_at(id, u, j) <==> id[j] == '_') by {
        assert(id.subrange(j, j + 1) =~= seq![id[j]]);
        if id[j] == '_' {
            assert(id.subrange(j, j + 1) =~= u);
        }
        if match_at(id, u, j) {
            assert(id.subrange(j, j + 1)[0] == u[0]);
        }
    }
    // the first underscore is the stamp's own, between date and time
    assert(id[sl - 7] == '_');
    assert forall|j: int| 0 <= j < sl - 7 implies !match_at(id, u, j) by {
        assert(id[j] == stamp[j]);
    }
    crate::strutil::lemma_find_first(id, u, 0, sl - 7);
    // the second is the leading underscore of the `_backup_` marker:
    // the stamp's time part is all digits
    assert(id[sl] == '_');
    assert forall|j: int| sl - 6 <= j < sl implies !match_at(id, u, j) by {
        assert(is_ascii_digit_char(stamp[j]));
        if id[j] == '_' {
            assert(('_' as u32) == 95);
        }
    }
    crate::strutil::lemma_find_first(id, u, sl - 6, sl);
    // the third is the marker's trailing underscore: `backup` itself has
    // none
    assert(id[sl + 7] == '_');
    assert forall|j: int| sl + 1 <= j < sl + 7 implies !match_at(id, u, j) by {
        assert(id[j] == "_backup_"@[j - sl]);
    }
    crate::strutil::lemma_find_first(id, u, sl + 1, sl + 7);
    assert(id.subrange(0, sl - 7) =~= stamp.take(sl - 7));
    assert(id.subrange(sl - 6, sl) =~= stamp.skip(sl - 6));
    assert(id.subrange(sl + 1, sl + 7) =~= "backup"@);
    assert(id.subrange(sl + 8, id.len() as int) =~= name);
}

/// Backup round-trip law, the store side: a backup recorded in the
/// ledger under a fresh identifier appears in the listing of that one
/// file as exactly one entry — same identifier, the original file name
/// and display timestamp recovered from the identifier, the path under
/// the backup directory, and the recorded project list.
pub proof fn lemma_backup_then_listed(
    stamp: Seq<char>,
    name: Seq<char>,
    dir: Seq<char>,
    ps: Seq<Seq<char>>,
)
    requires
        is_stamp(stamp),
    ensures
        ({
            let id = backup_id_spec(stamp, name);
            let led = crate::ledger::insert_entry(Seq::empty(), id, ps);
            let out = backup_list_spec(seq![id], dir, led);
            &&& out.len() == 1
            &&& out[0].id == id
            &&& out[0].original_file_name == name
            &&& out[0].timestamp == display_time_spec(
                stamp.take(stamp.len() - 7),
                stamp.skip(stamp.len() - 6),
            )
            &&& out[0].path == dir + "/"@ + id
            &&& out[0].projects == ps
        }),
{
    let id = backup_id_spec(stamp, name);
    let led = crate::ledger::insert_entry(Seq::empty(), id, ps);
    lemma_backup_id_parses(stamp, name);
    crate::ledger::lemma_insert_then_lookup(Seq::empty(), id, ps);
    let base = listing_of(seq![id], dir, led);
    assert(seq![id].skip(1) =~= Seq::<Seq<char>>::empty());
    assert(listing_of(Seq::<Seq<char>>::empty(), dir, led) =~= Seq::<BackupFileV>::empty());
    assert(seq![id][0] == id);
    assert(base =~= listing_entry(id, dir, led));
    let out = backup_list_spec(seq![id], dir, led);
    assert(base.drop_last() =~= Seq::<BackupFileV>::empty());
    assert(sort_by_spec(Seq::<BackupFileV>::empty(), backup_le()) =~= Seq::<BackupFileV>::empty());
    assert(base.last() == base[0]);
    assert(crate::sorting::insert_ordered(Seq::<BackupFileV>::empty(), base[0], backup_le())
        =~= seq![base[0]]);
    assert(out =~= seq![base[0]]);
}

/// An identifier split at its first three underscores into date, time,
/// marker and original name; nothing when it has fewer than three.
pub open spec fn split4_spec(id: Seq<char>) -> Option<(Seq<char>, Seq<char>, Seq<char>, Seq<char>)> {
    match find_sub(id, "_"@) {
        None => None,
        Some(i) => match find_from(id, "_"@, i + 1) {
            None => None,
            Some(j) => match find_from(id, "_"@, j + 1) {
                None => None,
                Some(k) => Some(
                    (
                        id.subrange(0, i),
                        id.subrange(i + 1, j),
                        id.subrange(j + 1, k),
                        id.subrange(k + 1, id.len() as int),
                    ),
                ),
            },
        },
    }
}

/// The parts of a well-formed backup identifier: its date, time and
/// original file name; nothing when the name does not fit the four-part
/// shape with the literal `backup` marker third.
pub open spec fn backup_parts_spec(id: Seq<char>) -> Option<(Seq<char>, Seq<char>, Seq<char>)> {
    match split4_spec(id) {
        None => None,
        Some(p) => if p.2 == "backup"@ {
            Some((p.0, p.1, p.3))
        } else {
            None
        },
    }
}

/// The display form of an identifier's timestamp: dashes, a space and
/// colons when the date and time parts are long enough, else the two
/// parts joined by an underscore.
pub open spec fn display_time_spec(d: Seq<char>, t: Seq<char>) -> Seq<char> {
    if d.len() >= 8 && t.len() >= 6 {
        d.subrange(0, 4) + "-"@ + d.subrange(4, 6) + "-"@ + d.subrange(6, 8) + " "@ + t.subrange(
            0,
            2,
        ) + ":"@ + t.subrange(2, 4) + ":"@ + t.subrange(4, 6)
    } else {
        d + "_"@ + t
    }
}

/// Splits an identifier at its first three underscores.
pub fn split4(id: &str) -> (r: Option<(String, String, String, String)>)
    ensures
        match r {
            Some(p) => split4_spec(id@) == Some((p.0@, p.1@, p.2@, p.3@)),
            None => split4_spec(id@) is None,
        },
{
    let n = id.unicode_len();
    proof {
        reveal_strlit("_");
    }
    match find_str(id, "_", 0) {
        None => None,
        Some(i) => match find_str(id, "_", i + 1) {
            None => None,
            Some(j) => match find_str(id, "_", j + 1) {
                None => None,
                Some(k) => {
                    proof {
                        crate::strutil::lemma_find_from(id@, "_"@, 0);
                        crate::strutil::lemma_find_from(id@, "_"@, i + 1);
                        crate::strutil::lemma_find_from(id@, "_"@, j + 1);
                    }
                    let p0 = String::from_str(id.substring_char(0, i));
                    let p1 = String::from_str(id.substring_char(i + 1, j));
                    let p2 = String::from_str(id.substring_char(j + 1, k));
                    let p3 = String::from_str(id.substring_char(k + 1, n));
                    Some((p0, p1, p2, p3))
                },
            },
        },
    }
}

/// Builds the display form of an identifier's timestamp.
pub fn display_timestamp(d: &str, t: &str) -> (r: String)
    ensures
        r@ == display_time_spec(d@, t@),
{
    let nd = d.unicode_len();
    let nt = t.unicode_len();
    if nd >= 8 && nt >= 6 {
        let mut out = String::from_str(d.substring_char(0, 4));
        out.append("-");
        out.append(d.substring_char(4, 6));
        out.append("-");
        out.append(d.substring_char(6, 8));
        out.append(" ");
        out.append(t.substring_char(0, 2));
        out.append(":");
        out.append(t.substring_char(2, 4));
        out.append(":");
        out.append(t.substring_char(4, 6));
        proof {
            assert(out@ =~= display_time_spec(d@, t@));
        }
        out
    } else {
        let mut out = String::from_str(d);
        out.append("_");
        out.append(t);
        proof {
            assert(out@ =~= display_time_spec(d@, t@));
        }
        out
    }
}

/// The listing order: newest first, by identifier descending; the
/// fixed-width timestamp prefix makes this chronological.
pub open spec fn backup_le_spec(a: BackupFileV, b: BackupFileV) -> bool {
    str_le(b.id, a.id)
}

/// `backup_le_spec` as a comparison value.
pub open spec fn backup_le() -> spec_fn(BackupFileV, BackupFileV) -> bool {
    |a: BackupFileV, b: BackupFileV| backup_le_spec(a, b)
}

/// The listing comparison is a total preorder.
pub proof fn lemma_backup_le_total_trans()
    ensures
        total_leq(backup_le()),
        trans_leq(backup_le()),
{
    let leq = backup_le();
    assert forall|a: BackupFileV, b: BackupFileV| #[trigger] leq(a, b) || #[trigger] leq(b, a) by {
        lemma_str_le_total(a.id, b.id);
    }
    assert forall|a: BackupFileV, b: BackupFileV, c: BackupFileV|
        #[trigger] leq(a, b) && #[trigger] leq(b, c) implies leq(a, c) by {
        lemma_str_le_trans(c.id, b.id, a.id);
    }
}

/// Listing-order law: the backup listing is sorted newest first, by
/// identifier descending.
pub proof fn lemma_backup_list_sorted(
    names: Seq<Seq<char>>,
    dir: Seq<char>,
    led: Seq<(Seq<char>, Seq<Seq<char>>)>,
)
    ensures
        sorted_by(backup_list_spec(names, dir, led), backup_le()),
{
    lemma_backup_le_total_trans();
    lemma_sort_by_spec(listing_of(names, dir, led), backup_le(), (|b: BackupFileV| false));
}

/// The entries (zero or one) a directory file name contributes to the
/// listing: a name that does not fit the identifier shape is silently
/// excluded; the ledger's project list is joined in, defaulting to
/// empty.
pub open spec fn listing_entry(
    name: Seq<char>,
    dir: Seq<char>,
    led: Seq<(Seq<char>, Seq<Seq<char>>)>,
) -> Seq<BackupFileV> {
    match backup_parts_spec(name) {
        None => Seq::empty(),
        Some(p) => seq![
            BackupFileV {
                id: name,
                original_file_name: p.2,
                timestamp: display_time_spec(p.0, p.1),
                path: dir + "/"@ + name,
                projects: match lookup(led, name) {
                    Some(ps) => ps,
                    None => Seq::empty(),
                },
            },
        ],
    }
}

/// The unsorted listing of a set of directory file names.
pub open spec fn listing_of(
    names: Seq<Seq<char>>,
    dir: Seq<char>,
    led: Seq<(Seq<char>, Seq<Seq<char>>)>,
) -> Seq<BackupFileV>
    decreases names.len(),
{
    if names.len() == 0 {
        Seq::empty()
    } else {
        listing_entry(names[0], dir, led) + listing_of(names.skip(1), dir, led)
    }
}

/// What the backup listing returns: one entry per file name that fits
/// the identifier shape, each joined with the ledger's project list,
/// sorted newest first by identifier.
pub open spec fn backup_list_spec(
    names: Seq<Seq<char>>,
    dir: Seq<char>,
    led: Seq<(Seq<char>, Seq<Seq<char>>)>,
) -> Seq<BackupFileV> {
    sort_by_spec(listing_of(names, dir, led), backup_le())
}

/// Executable form of the listing comparison.
fn backup_le_exec(a: &BackupFile, b: &BackupFile) -> (r: bool)
    ensures
        r == backup_le_spec(a@, b@),
{
    str_le_exec(b.id.as_str(), a.id.as_str())
}

/// Stable sort of backup entries, newest first by identifier.
fn sort_backups(v: Vec<BackupFile>) -> (r: Vec<BackupFile>)
    ensures
        backups_view(r@) == sort_by_spec(backups_view(v@), backup_le()),
{
    let ghost sv = backups_view(v@);
    let mut input = v;
    let mut out: Vec<BackupFile> = Vec::new();
    proof {
        assert(sv.take(0) =~= Seq::<BackupFileV>::empty());
        assert(backups_view(out@) =~= sort_by_spec(sv.take(0), backup_le()));
        assert(backups_view(input@) =~= sv.skip(0));
    }
    while input.len() > 0
        invariant
            input@.len() <= sv.len(),
            backups_view(input@) == sv.skip(sv.len() - input@.len()),
            backups_view(out@) == sort_by_spec(sv.take(sv.len() - input@.len()), backup_le()),
        decreases input.len(),
    {
        let ghost k = sv.len() - input@.len();
        let ghost out_pre = backups_view(out@);
        let ghost inp_pre = input@;
        let x = input.remove(0);
        proof {
            assert(x == inp_pre[0]);
            assert(backups_view(inp_pre)[0] == inp_pre[0]@);
            assert(x@ == sv.skip(k as int)[0]);
            assert(input@ =~= inp_pre.skip(1));
            assert forall|i: int| 0 <= i < input@.len() implies backups_view(input@)[i] == sv.skip(
                k as int + 1,
            )[i] by {
                assert(backups_view(input@)[i] == input@[i]@);
                assert(input@[i] == inp_pre[i + 1]);
                assert(backups_view(inp_pre)[i + 1] == inp_pre[i + 1]@);
                assert(backups_view(inp_pre)[i + 1] == sv.skip(k as int)[i + 1]);
            }
            assert(backups_view(input@) =~= sv.skip(k as int + 1));
        }
        let mut pos: usize = 0;
        while pos < out.len() && backup_le_exec(&out[pos], &x)
            invariant
                pos <= out.len(),
                forall|i: int| 0 <= i < pos ==> backup_le_spec(
                    #[trigger] backups_view(out@)[i],
                    x@,
                ),
            decreases out.len() - pos,
        {
            pos += 1;
        }
        proof {
            let leq = backup_le();
            assert forall|i: int| 0 <= i < pos implies leq(#[trigger] out_pre[i], x@) by {
                assert(backup_le_spec(backups_view(out@)[i], x@));
            }
            if (pos as int) < out_pre.len() {
                assert(!leq(out_pre[pos as int], x@));
            }
            lemma_insert_ordered_at(out_pre, x@, backup_le(), pos as int);
        }
        out.insert(pos, x);
        proof {
            assert(backups_view(out@) =~= out_pre.take(pos as int) + seq![x@] + out_pre.skip(
                pos as int,
            ));
            assert(sv.take(k + 1).drop_last() =~= sv.take(k as int));
            assert(sv.take(k + 1).last() == sv[k as int]);
            assert(backups_view(out@) == sort_by_spec(sv.take(k + 1), backup_le()));
        }
    }
    proof {
        assert(sv.take(sv.len() as int) =~= sv);
    }
    out
}

/// Builds the backup listing from the file names found in the backup
/// directory: names that do not fit the identifier shape are silently
/// excluded, each entry carries `dir`-slash-name as its path and the
/// ledger's project list (empty when absent), and the result is sorted
/// newest first by identifier.
pub fn build_backup_list(names: &Vec<String>, dir: &str, ledger: &Ledger) -> (r: Vec<BackupFile>)
    ensures
        backups_view(r@) == backup_list_spec(views_of(names@), dir@, ledger@),
{
    let ghost vn = views_of(names@);
    let mut out: Vec<BackupFile> = Vec::new();
    proof {
        assert(vn.skip(0) =~= vn);
        assert(backups_view(out@) + listing_of(vn, dir@, ledger@) =~= listing_of(
            vn,
            dir@,
            ledger@,
        ));
    }
    let mut ni: usize = 0;
    while ni < names.len()
        invariant
            ni <= names.len(),
            vn == views_of(names@),
            vn.len() == names@.len(),
            backups_view(out@) + listing_of(vn.skip(ni as int), dir@, ledger@) == listing_of(
                vn,
                dir@,
                ledger@,
            ),
        decreases names.len() - ni,
    {
        let ghost out_pre = backups_view(out@);
        let name = names[ni].as_str();
        proof {
            assert(names@[ni as int]@ == vn[ni as int]);
        }
        match split4(name) {
            Some(p) => {
                if crate::ledger::str_eq(p.2.as_str(), "backup") {
                    let ts = display_timestamp(p.0.as_str(), p.1.as_str());
                    let projects = match ledger.get(name) {
                        Some(ps) => ps,
                        None => Vec::new(),
                    };
                    let mut path = String::from_str(dir);
                    path.append("/");
                    path.append(name);
                    let entry = BackupFile {
                        id: String::from_str(name),
                        original_file_name: p.3,
                        timestamp: ts,
                        path,
                        projects,
                    };
                    proof {
                        reveal_strlit("/");
                        if lookup(ledger@, vn[ni as int]) is None {
                            assert(views_of(Seq::<String>::empty()) =~= Seq::<Seq<char>>::empty());
                        }
                    }
                    out.push(entry);
                    proof {
                        assert(backups_view(out@) =~= out_pre + listing_entry(
                            vn[ni as int],
                            dir@,
                            ledger@,
                        ));
                    }
                } else {
                    proof {
                        assert(listing_entry(vn[ni as int], dir@, ledger@) =~= Seq::<
                            BackupFileV,
                        >::empty());
                    }
                }
            },
            None => {
                proof {
                    assert(listing_entry(vn[ni as int], dir@, ledger@) =~= Seq::<
                        BackupFileV,
                    >::empty());
                }
            },
        }
        proof {
            assert(vn.skip(ni as int).skip(1) =~= vn.skip(ni + 1));
            assert(vn.skip(ni as int)[0] == vn[ni as int]);
            assert(listing_of(vn.skip(ni as int), dir@, ledger@) == listing_entry(
                vn[ni as int],
                dir@,
                ledger@,
            ) + listing_of(vn.skip(ni + 1), dir@, ledger@));
            assert(backups_view(out@) + listing_of(vn.skip(ni + 1), dir@, ledger@) =~= out_pre
                + listing_of(vn.skip(ni as int), dir@, ledger@));
        }
        ni += 1;
    }
    proof {
        assert(vn.skip(names@.len() as int) =~= Seq::<Seq<char>>::empty());
        assert(backups_view(out@) =~= listing_of(vn, dir@, ledger@));
    }
    sort_backups(out)
}

} // verus!
