//! The backup metadata ledger: a mapping from backup identifier to the
//! list of project names the backup covers, rewritten as one whole JSON
//! document on every change. The ledger is advisory: a missing entry is
//! an empty project list, and an unreadable document is an empty ledger.

use vstd::prelude::*;

use crate::json::{
    entries_view, json_entry_spec, json_entries_tail, ledger_json_spec, parse_ledger_doc,
    parse_ledger_text, write_json_array, write_json_string, ParsedEntry,
};
use crate::strutil::views_of;

verus! {

/// One ledger entry: a backup identifier and its project names.
pub struct LedgerEntry {
    pub id: String,
    pub projects: Vec<String>,
}

impl View for LedgerEntry {
    type V = (Seq<char>, Seq<Seq<char>>);

    open spec fn view(&self) -> (Seq<char>, Seq<Seq<char>>) {
        (self.id@, views_of(self.projects@))
    }
}

/// Identifiers are pairwise distinct.
pub open spec fn unique_ids(es: Seq<(Seq<char>, Seq<Seq<char>>)>) -> bool {
    forall|i: int, j: int| #![trigger es[i], es[j]] 0 <= i < j < es.len() ==> es[i].0 != es[j].0
}

/// The project list of the first entry carrying `id`.
pub open spec fn lookup(es: Seq<(Seq<char>, Seq<Seq<char>>)>, id: Seq<char>) -> Option<
    Seq<Seq<char>>,
>
    decreases es.len(),
{
    if es.len() == 0 {
        None
    } else if es[0].0 == id {
        Some(es[0].1)
    } else {
        lookup(es.skip(1), id)
    }
}

/// The entries without the first one carrying `id`.
pub open spec fn remove_id(es: Seq<(Seq<char>, Seq<Seq<char>>)>, id: Seq<char>) -> Seq<
    (Seq<char>, Seq<Seq<char>>),
>
    decreases es.len(),
{
    if es.len() == 0 {
        es
    } else if es[0].0 == id {
        es.skip(1)
    } else {
        seq![es[0]] + remove_id(es.skip(1), id)
    }
}

/// What inserting yields: any entry already carrying the identifier is
/// replaced; the entry goes to the end.
pub open spec fn insert_entry(
    es: Seq<(Seq<char>, Seq<Seq<char>>)>,
    id: Seq<char>,
    ps: Seq<Seq<char>>,
) -> Seq<(Seq<char>, Seq<Seq<char>>)> {
    remove_id(es, id).push((id, ps))
}

/// Removal keeps entries of other identifiers, keeps identifiers
/// distinct, and leaves no entry with the removed identifier.
pub proof fn lemma_remove_id(es: Seq<(Seq<char>, Seq<Seq<char>>)>, id: Seq<char>)
    requires
        unique_ids(es),
    ensures
        unique_ids(remove_id(es, id)),
        forall|k: int|
            0 <= k < remove_id(es, id).len() ==> (#[trigger] remove_id(es, id)[k]).0 != id,
        forall|k: int|
            0 <= k < remove_id(es, id).len() ==> exists|m: int|
                0 <= m < es.len() && #[trigger] remove_id(es, id)[k] == es[m],
    decreases es.len(),
{
    let out = remove_id(es, id);
    if es.len() == 0 {
    } else if es[0].0 == id {
        assert forall|k: int| 0 <= k < out.len() implies (#[trigger] out[k]).0 != id by {
            assert(out[k] == es[k + 1]);
        }
        assert forall|k: int| 0 <= k < out.len() implies exists|m: int|
            0 <= m < es.len() && #[trigger] out[k] == es[m] by {
            assert(out[k] == es[k + 1]);
        }
    } else {
        assert(unique_ids(es.skip(1)));
        lemma_remove_id(es.skip(1), id);
        let rest = remove_id(es.skip(1), id);
        assert forall|k: int| 0 <= k < out.len() implies exists|m: int|
            0 <= m < es.len() && #[trigger] out[k] == es[m] by {
            if k == 0 {
                assert(out[0] == es[0]);
            } else {
                assert(out[k] == rest[k - 1]);
                let m0 = choose|m0: int| 0 <= m0 < es.skip(1).len() && rest[k - 1] == es.skip(1)[m0];
                assert(out[k] == es[m0 + 1]);
            }
        }
        assert forall|k: int| 0 <= k < out.len() implies (#[trigger] out[k]).0 != id by {
            if k > 0 {
                assert(out[k] == rest[k - 1]);
            }
        }
        assert forall|i: int, j: int|
            #![trigger out[i], out[j]]
            0 <= i < j < out.len() implies out[i].0 != out[j].0 by {
            if i == 0 {
                assert(out[j] == rest[j - 1]);
                let m0 = choose|m0: int| 0 <= m0 < es.skip(1).len() && rest[j - 1] == es.skip(1)[m0];
                assert(out[j] == es[m0 + 1]);
                assert(es[0].0 != es[m0 + 1].0);
            } else {
                assert(out[i] == rest[i - 1]);
                assert(out[j] == rest[j - 1]);
            }
        }
    }
}

/// A sequence with no entry for `id` looks `id` up to nothing.
proof fn lemma_lookup_absent(es: Seq<(Seq<char>, Seq<Seq<char>>)>, id: Seq<char>)
    requires
        forall|k: int| 0 <= k < es.len() ==> (#[trigger] es[k]).0 != id,
    ensures
        lookup(es, id) is None,
    decreases es.len(),
{
    if es.len() > 0 {
        assert(es.skip(1) =~= es.skip(1));
        assert forall|k: int| 0 <= k < es.skip(1).len() implies (#[trigger] es.skip(1)[k]).0
            != id by {
            assert(es.skip(1)[k] == es[k + 1]);
        }
        lemma_lookup_absent(es.skip(1), id);
    }
}

/// Appending an entry behind ones that do not carry its identifier makes
/// it the one looked up.
proof fn lemma_lookup_pushed(
    es: Seq<(Seq<char>, Seq<Seq<char>>)>,
    id: Seq<char>,
    ps: Seq<Seq<char>>,
)
    requires
        forall|k: int| 0 <= k < es.len() ==> (#[trigger] es[k]).0 != id,
    ensures
        lookup(es.push((id, ps)), id) == Some(ps),
    decreases es.len(),
{
    let out = es.push((id, ps));
    if es.len() == 0 {
        assert(out[0] == (id, ps));
    } else {
        assert(out[0] == es[0]);
        assert forall|k: int| 0 <= k < es.skip(1).len() implies (#[trigger] es.skip(1)[k]).0
            != id by {
            assert(es.skip(1)[k] == es[k + 1]);
        }
        lemma_lookup_pushed(es.skip(1), id, ps);
        assert(out.skip(1) =~= es.skip(1).push((id, ps)));
    }
}

/// Ledger law, the insert side: after recording a project list for an
/// identifier, looking that identifier up yields exactly that list.
pub proof fn lemma_insert_then_lookup(
    es: Seq<(Seq<char>, Seq<Seq<char>>)>,
    id: Seq<char>,
    ps: Seq<Seq<char>>,
)
    requires
        unique_ids(es),
    ensures
        lookup(insert_entry(es, id, ps), id) == Some(ps),
{
    lemma_remove_id(es, id);
    lemma_lookup_pushed(remove_id(es, id), id, ps);
}

/// Ledger law, the delete side: after removing an identifier, looking it
/// up yields nothing.
pub proof fn lemma_remove_then_lookup(es: Seq<(Seq<char>, Seq<Seq<char>>)>, id: Seq<char>)
    requires
        unique_ids(es),
    ensures
        lookup(remove_id(es, id), id) is None,
{
    lemma_remove_id(es, id);
    lemma_lookup_absent(remove_id(es, id), id);
}

/// A scan that passed `i` entries without a match leaves the lookup to
/// the rest.
proof fn lemma_lookup_skip(es: Seq<(Seq<char>, Seq<Seq<char>>)>, id: Seq<char>, i: int)
    requires
        0 <= i <= es.len(),
        forall|k: int| 0 <= k < i ==> (#[trigger] es[k]).0 != id,
    ensures
        lookup(es, id) == lookup(es.skip(i), id),
    decreases i,
{
    if i > 0 {
        lemma_lookup_skip(es, id, i - 1);
        assert(es.skip(i - 1)[0] == es[i - 1]);
        assert(es.skip(i - 1).skip(1) =~= es.skip(i));
    } else {
        assert(es.skip(0) =~= es);
    }
}

/// A scan that passed `i` entries without a match removes from the rest.
proof fn lemma_remove_id_skip(es: Seq<(Seq<char>, Seq<Seq<char>>)>, id: Seq<char>, i: int)
    requires
        0 <= i <= es.len(),
        forall|k: int| 0 <= k < i ==> (#[trigger] es[k]).0 != id,
    ensures
        remove_id(es, id) == es.take(i) + remove_id(es.skip(i), id),
    decreases i,
{
    if i > 0 {
        lemma_remove_id_skip(es, id, i - 1);
        assert(es.skip(i - 1)[0] == es[i - 1]);
        assert(es.skip(i - 1).skip(1) =~= es.skip(i));
        assert(remove_id(es.skip(i - 1), id) == seq![es[i - 1]] + remove_id(es.skip(i), id));
        assert(es.take(i - 1) + (seq![es[i - 1]] + remove_id(es.skip(i), id)) =~= es.take(i)
            + remove_id(es.skip(i), id));
    } else {
        assert(es.skip(0) =~= es);
        assert(es.take(0) + remove_id(es, id) =~= remove_id(es, id));
    }
}

/// Clones a list of strings.
fn clone_strings(v: &Vec<String>) -> (r: Vec<String>)
    ensures
        views_of(r@) == views_of(v@),
{
    let mut r: Vec<String> = Vec::new();
    let mut i: usize = 0;
    while i < v.len()
        invariant
            i <= v.len(),
            r@.len() == i,
            forall|k: int| #![trigger r@[k]] 0 <= k < i ==> r@[k]@ == v@[k]@,
        decreases v.len() - i,
    {
        r.push(v[i].clone());
        i += 1;
    }
    proof {
        assert(views_of(r@) =~= views_of(v@));
    }
    r
}

/// The entries of a parsed document folded into an accumulator by
/// `insert_entry`: a repeated identifier keeps only its last entry, as a
/// JSON object read into a map would.
pub open spec fn fold_entries(
    acc: Seq<(Seq<char>, Seq<Seq<char>>)>,
    es: Seq<(Seq<char>, Seq<Seq<char>>)>,
) -> Seq<(Seq<char>, Seq<Seq<char>>)>
    decreases es.len(),
{
    if es.len() == 0 {
        acc
    } else {
        fold_entries(insert_entry(acc, es[0].0, es[0].1), es.skip(1))
    }
}

/// What loading a ledger document yields: its entries when it parses,
/// and an empty ledger for any other document.
pub open spec fn ledger_from_doc(s: Seq<char>) -> Seq<(Seq<char>, Seq<Seq<char>>)> {
    match parse_ledger_doc(s) {
        Some(es) => fold_entries(Seq::empty(), es),
        None => Seq::empty(),
    }
}

/// The backup metadata ledger. Its one invariant: identifiers are
/// pairwise distinct.
pub struct Ledger {
    entries: Vec<LedgerEntry>,
}

impl View for Ledger {
    type V = Seq<(Seq<char>, Seq<Seq<char>>)>;

    closed spec fn view(&self) -> Seq<(Seq<char>, Seq<Seq<char>>)> {
        Seq::new(self.entries@.len(), |i: int| self.entries@[i]@)
    }
}

impl Ledger {
    /// Well-formed: identifiers pairwise distinct.
    pub open spec fn wf(&self) -> bool {
        unique_ids(self@)
    }

    /// An empty ledger.
    pub fn new() -> (r: Ledger)
        ensures
            r@ == Seq::<(Seq<char>, Seq<Seq<char>>)>::empty(),
            r.wf(),
    {
        let r = Ledger { entries: Vec::new() };
        proof {
            assert(r@ =~= Seq::<(Seq<char>, Seq<Seq<char>>)>::empty());
        }
        r
    }

    /// The index of the entry carrying `id`, when one is present.
    fn find_index(&self, id: &str) -> (r: Option<usize>)
        ensures
            match r {
                Some(i) => i < self@.len() && self@[i as int].0 == id@ && forall|k: int|
                    0 <= k < i ==> (#[trigger] self@[k]).0 != id@,
                None => forall|k: int| 0 <= k < self@.len() ==> (#[trigger] self@[k]).0 != id@,
            },
    {
        let mut i: usize = 0;
        while i < self.entries.len()
            invariant
                i <= self.entries@.len(),
                forall|k: int| 0 <= k < i ==> (#[trigger] self@[k]).0 != id@,
            decreases self.entries@.len() - i,
        {
            if str_eq(self.entries[i].id.as_str(), id) {
                proof {
                    assert(self@[i as int] == self.entries@[i as int]@);
                }
                return Some(i);
            }
            proof {
                assert(self@[i as int] == self.entries@[i as int]@);
            }
            i += 1;
        }
        None
    }

    /// The project list recorded for `id`, if any.
    pub fn get(&self, id: &str) -> (r: Option<Vec<String>>)
        ensures
            match r {
                Some(ps) => lookup(self@, id@) == Some(views_of(ps@)),
                None => lookup(self@, id@) is None,
            },
    {
        match self.find_index(id) {
            Some(i) => {
                proof {
                    lemma_lookup_skip(self@, id@, i as int);
                    assert(self@.skip(i as int)[0] == self@[i as int]);
                }
                Some(clone_strings(&self.entries[i].projects))
            },
            None => {
                proof {
                    lemma_lookup_skip(self@, id@, self@.len() as int);
                    assert(self@.skip(self@.len() as int) =~= Seq::<
                        (Seq<char>, Seq<Seq<char>>),
                    >::empty());
                }
                None
            },
        }
    }

    /// Removes the entry carrying `id`, if one is present.
    pub fn remove(&mut self, id: &str)
        ensures
            final(self)@ == remove_id(old(self)@, id@),
            old(self).wf() ==> final(self).wf(),
    {
        let ghost es = self@;
        match self.find_index(id) {
            Some(i) => {
                self.entries.remove(i);
                proof {
                    lemma_remove_id_skip(es, id@, i as int);
                    assert(es.skip(i as int)[0] == es[i as int]);
                    assert(remove_id(es.skip(i as int), id@) == es.skip(i as int).skip(1));
                    assert(es.skip(i as int).skip(1) =~= es.skip(i as int + 1));
                    assert(self@ =~= es.take(i as int) + es.skip(i as int + 1));
                    if unique_ids(es) {
                        lemma_remove_id(es, id@);
                    }
                }
            },
            None => {
                proof {
                    lemma_remove_id_skip(es, id@, es.len() as int);
                    assert(es.skip(es.len() as int) =~= Seq::<(Seq<char>, Seq<Seq<char>>)>::empty());
                    assert(es.take(es.len() as int) + remove_id(
                        es.skip(es.len() as int),
                        id@,
                    ) =~= es);
                }
            },
        }
    }

    /// Records the project list for `id`, replacing any entry already
    /// carrying it.
    pub fn insert(&mut self, id: String, projects: Vec<String>)
        requires
            old(self).wf(),
        ensures
            final(self)@ == insert_entry(old(self)@, id@, views_of(projects@)),
            final(self).wf(),
    {
        let ghost es = self@;
        self.remove(id.as_str());
        let ghost removed = self@;
        proof {
            lemma_remove_id(es, id@);
        }
        self.entries.push(LedgerEntry { id, projects });
        proof {
            assert(self@ =~= removed.push(self.entries@.last()@));
            let out = self@;
            assert forall|i: int, j: int|
                #![trigger out[i], out[j]]
                0 <= i < j < out.len() implies out[i].0 != out[j].0 by {
                if j == out.len() - 1 {
                    assert(out[i] == removed[i]);
                }
            }
        }
    }

    /// Writes the whole ledger as one compact JSON document.
    pub fn to_json(&self) -> (r: String)
        ensures
            r@ == ledger_json_spec(self@),
    {
        let ghost es = self@;
        if self.entries.len() == 0 {
            return String::from_str("{}");
        }
        let mut out = String::from_str("{");
        let k0 = write_json_string(self.entries[0].id.as_str());
        out.append(k0.as_str());
        out.append(":");
        let a0 = write_json_array(&self.entries[0].projects);
        out.append(a0.as_str());
        proof {
            reveal_strlit("{");
            reveal_strlit(":");
            assert(self@[0] == self.entries@[0]@);
            assert(out@ =~= seq!['{'] + json_entry_spec(es[0]));
        }
        let mut i: usize = 1;
        while i < self.entries.len()
            invariant
                1 <= i <= self.entries@.len(),
                es == self@,
                es.len() == self.entries@.len(),
                out@ + json_entries_tail(es, i as int) == seq!['{'] + json_entry_spec(es[0])
                    + json_entries_tail(es, 1),
            decreases self.entries@.len() - i,
        {
            let ghost out_pre = out@;
            out.append(",");
            let k = write_json_string(self.entries[i].id.as_str());
            out.append(k.as_str());
            out.append(":");
            let a = write_json_array(&self.entries[i].projects);
            out.append(a.as_str());
            proof {
                reveal_strlit(",");
                reveal_strlit(":");
                assert(self@[i as int] == self.entries@[i as int]@);
                assert(out@ =~= out_pre + seq![','] + json_entry_spec(es[i as int]));
                assert(json_entries_tail(es, i as int) == seq![','] + json_entry_spec(es[i as int])
                    + json_entries_tail(es, i + 1));
                assert(out@ + json_entries_tail(es, i + 1) =~= out_pre + json_entries_tail(
                    es,
                    i as int,
                ));
            }
            i += 1;
        }
        out.append("}");
        proof {
            reveal_strlit("}");
            assert(out@ =~= ledger_json_spec(es));
        }
        out
    }

    /// Reads a ledger back from a document. Any document that does not
    /// parse — absent, truncated, or not this shape — is an empty
    /// ledger, never an error.
    pub fn from_json(s: &str) -> (r: Ledger)
        ensures
            r@ == ledger_from_doc(s@),
            r.wf(),
    {
        match parse_ledger_text(s) {
            None => Ledger::new(),
            Some(entries) => {
                let ghost pes = entries_view(entries@);
                let mut l = Ledger::new();
                let mut rest = entries;
                proof {
                    assert(entries_view(rest@) =~= pes.skip(0));
                }
                while rest.len() > 0
                    invariant
                        l.wf(),
                        fold_entries(l@, entries_view(rest@)) == fold_entries(
                            Seq::empty(),
                            pes,
                        ),
                    decreases rest.len(),
                {
                    let ghost rv_pre = entries_view(rest@);
                    let ghost rvec_pre = rest@;
                    let e = rest.remove(0);
                    proof {
                        assert(e == rvec_pre[0]);
                        assert(entries_view(rvec_pre)[0] == rvec_pre[0]@);
                        assert forall|k: int| 0 <= k < rest@.len() implies entries_view(
                            rest@,
                        )[k] == rv_pre.skip(1)[k] by {
                            assert(entries_view(rest@)[k] == rest@[k]@);
                            assert(rest@[k] == rvec_pre[k + 1]);
                            assert(entries_view(rvec_pre)[k + 1] == rvec_pre[k + 1]@);
                        }
                        assert(entries_view(rest@) =~= rv_pre.skip(1));
                    }
                    l.insert(e.id, e.projects);
                }
                proof {
                    assert(entries_view(rest@) =~= Seq::<(Seq<char>, Seq<Seq<char>>)>::empty());
                }
                l
            },
        }
    }
}

/// The strings are equal.
pub fn str_eq(a: &str, b: &str) -> (r: bool)
    ensures
        r == (a@ == b@),
{
    let na = a.unicode_len();
    let nb = b.unicode_len();
    if na != nb {
        proof {
            assert(a@ != b@);
        }
        return false;
    }
    let r = crate::strutil::match_str_at(a, b, 0);
    proof {
        if r {
            assert(a@.subrange(0, nb as int) =~= a@);
        }
        if a@ == b@ {
            assert(a@.subrange(0, nb as int) =~= b@);
        }
    }
    r
}

} // verus!
