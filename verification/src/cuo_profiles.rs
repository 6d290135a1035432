//! Account and character names found in a ClassicUO folder's saved
//! profiles, offered when an account is set up. The folders are listed by
//! the application; this module cleans, orders and de-duplicates the names.

use vstd::prelude::*;
use crate::sort::{SortKey, stable_sort, stably_sorted};
use crate::text::{lemma_seq_lt_irreflexive, lemma_seq_lt_total, lemma_seq_lt_transitive, seq_lt, str_eq, str_lt, trimmed};

verus! {

/// A name in lower case, as `str::to_lowercase` gives it.
pub uninterp spec fn lowercase(s: Seq<char>) -> Seq<char>;

/// Calls `str::to_lowercase`; the contract claims the result is a function
/// of the text.
#[verifier::external_body]
pub(crate) fn to_lowercase(s: &str) -> (r: String)
    ensures
        r@ == lowercase(s@),
{
    s.to_lowercase()
}

#[derive(Debug, Clone)]
pub struct CuoProfileCandidate {
    pub account: String,
    pub characters: Vec<String>,
}

/// A name with the key it is ordered by.
#[derive(Debug, Clone)]
pub struct NameKey {
    pub key: String,
    pub name: String,
}

impl SortKey for NameKey {
    open spec fn sorts_before(self, other: Self) -> bool {
        seq_lt(self.key@, other.key@)
    }

    fn before(&self, other: &Self) -> (b: bool) {
        str_lt(self.key.as_str(), other.key.as_str())
    }

    proof fn lemma_strict_weak_order(a: Self, b: Self, c: Self) {
        lemma_seq_lt_irreflexive(a.key@, b.key@);
        lemma_seq_lt_irreflexive(b.key@, c.key@);
        lemma_seq_lt_irreflexive(a.key@, c.key@);
        lemma_seq_lt_transitive(a.key@, b.key@, c.key@);
        lemma_seq_lt_total(a.key@, b.key@);
        lemma_seq_lt_total(b.key@, c.key@);
        lemma_seq_lt_total(a.key@, c.key@);
    }
}

/// The names kept: trimmed, and not empty.
pub open spec fn clean_names(raw: Seq<Seq<char>>) -> Seq<Seq<char>> {
    raw.map_values(|s: Seq<char>| trimmed(s)).filter(|s: Seq<char>| s.len() > 0)
}

/// Drops each name whose key equals that of the name kept before it.
pub open spec fn dedup_keys(s: Seq<NameKey>) -> Seq<NameKey>
    decreases s.len(),
{
    if s.len() == 0 {
        s
    } else {
        let p = dedup_keys(s.drop_last());
        if p.len() > 0 && p.last().key@ == s.last().key@ {
            p
        } else {
            p.push(s.last())
        }
    }
}

/// The names of a keyed list.
pub open spec fn names_of(s: Seq<NameKey>) -> Seq<Seq<char>> {
    s.map_values(|k: NameKey| k.name@)
}

/// `keyed` holds the names with their lower-case keys.
pub open spec fn keyed_names(keyed: Seq<NameKey>, names: Seq<Seq<char>>) -> bool {
    &&& keyed.len() == names.len()
    &&& forall|i: int|
        0 <= i < names.len() ==> (#[trigger] keyed[i]).name@ == names[i] && keyed[i].key@ == lowercase(names[i])
}

/// The character names of an account: trimmed, without empty ones, ordered
/// by lower-case name (stably) and without repeats of a lower-case name.
pub open spec fn character_list_of(raw: Seq<Seq<char>>, r: Seq<Seq<char>>) -> bool {
    exists|keyed: Seq<NameKey>, sorted: Seq<NameKey>|
        #![trigger keyed_names(keyed, clean_names(raw)), stably_sorted(keyed, sorted)]
        keyed_names(keyed, clean_names(raw)) && stably_sorted(keyed, sorted) && r == names_of(dedup_keys(sorted))
}

fn clean(raw: &Vec<String>) -> (r: Vec<NameKey>)
    ensures
        keyed_names(r@, clean_names(raw@.map_values(|s: String| s@))),
{
    let ghost rv = raw@.map_values(|s: String| s@);
    let ghost mapped = rv.map_values(|s: Seq<char>| trimmed(s));
    let ghost pred = |s: Seq<char>| s.len() > 0;
    let mut out: Vec<NameKey> = Vec::new();
    let mut i: usize = 0;
    assert(mapped.take(0).filter(pred) =~= Seq::<Seq<char>>::empty()) by {
        reveal(Seq::filter);
    }
    while i < raw.len()
        invariant
            rv == raw@.map_values(|s: String| s@),
            mapped == rv.map_values(|s: Seq<char>| trimmed(s)),
            i <= rv.len(),
            keyed_names(out@, mapped.take(i as int).filter(pred)),
            forall|s: Seq<char>| #[trigger] pred(s) == (s.len() > 0),
        decreases rv.len() - i,
    {
        proof {
            crate::settings::lemma_filter_take_step(mapped, i as int, pred);
        }
        let name = raw[i].as_str().trim();
        assert(name@ == mapped[i as int]);
        if name.unicode_len() > 0 {
            let ghost before = out@;
            out.push(NameKey { key: to_lowercase(name), name: String::from_str(name) });
            assert forall|j: int| 0 <= j < out@.len() implies (#[trigger] out@[j]).name@ == mapped.take(i as int + 1).filter(pred)[j]
                && out@[j].key@ == lowercase(mapped.take(i as int + 1).filter(pred)[j]) by {
                if j < before.len() {
                    assert(out@[j] == before[j]);
                }
            }
        }
        i = i + 1;
    }
    assert(mapped.take(rv.len() as int) =~= mapped);
    assert(pred =~= (|s: Seq<char>| s.len() > 0));
    out
}

fn dedup(sorted: Vec<NameKey>) -> (r: Vec<String>)
    ensures
        r@.map_values(|s: String| s@) == names_of(dedup_keys(sorted@)),
{
    let ghost s = sorted@;
    let mut kept: Vec<NameKey> = Vec::new();
    let mut i: usize = 0;
    assert(s.take(0) =~= Seq::<NameKey>::empty());
    while i < sorted.len()
        invariant
            s == sorted@,
            i <= s.len(),
            kept@ == dedup_keys(s.take(i as int)),
        decreases s.len() - i,
    {
        let ghost t = s.take(i as int + 1);
        assert(t.drop_last() =~= s.take(i as int));
        assert(t.last() == s[i as int]);
        let repeat = kept.len() > 0 && str_eq(kept[kept.len() - 1].key.as_str(), sorted[i].key.as_str());
        if !repeat {
            kept.push(NameKey { key: sorted[i].key.clone(), name: sorted[i].name.clone() });
            assert(kept@ =~= dedup_keys(t));
        }
        i = i + 1;
    }
    assert(s.take(s.len() as int) =~= s);
    let mut out: Vec<String> = Vec::new();
    let mut j: usize = 0;
    while j < kept.len()
        invariant
            j <= kept@.len(),
            out@.map_values(|x: String| x@) == names_of(kept@.take(j as int)),
        decreases kept@.len() - j,
    {
        let ghost before = out@.map_values(|x: String| x@);
        let name = kept[j].name.clone();
        assert(name@ == kept@[j as int].name@);
        out.push(name);
        assert(out@.map_values(|x: String| x@) =~= before.push(kept@[j as int].name@));
        assert(kept@.take(j as int + 1).drop_last() =~= kept@.take(j as int));
        j = j + 1;
        assert(out@.map_values(|x: String| x@) =~= names_of(kept@.take(j as int)));
    }
    assert(kept@.take(kept@.len() as int) =~= kept@);
    out
}

/// Cleans, orders and de-duplicates the character names of an account.
pub fn character_list(raw: &Vec<String>) -> (r: Vec<String>)
    ensures
        character_list_of(raw@.map_values(|s: String| s@), r@.map_values(|s: String| s@)),
{
    let keyed = clean(raw);
    let ghost k = keyed@;
    let sorted = stable_sort(keyed);
    let ghost s = sorted@;
    let r = dedup(sorted);
    assert(keyed_names(k, clean_names(raw@.map_values(|s: String| s@))) && stably_sorted(k, s));
    r
}

fn copy_strings(v: &Vec<String>) -> (r: Vec<String>)
    ensures
        r@ == v@,
{
    let mut r: Vec<String> = Vec::new();
    let mut i: usize = 0;
    while i < v.len()
        invariant
            i <= v@.len(),
            r@ == v@.take(i as int),
        decreases v@.len() - i,
    {
        r.push(v[i].clone());
        i = i + 1;
        assert(r@ =~= v@.take(i as int));
    }
    assert(v@.take(v@.len() as int) =~= v@);
    r
}

/// Two candidates with the same account and character names.
pub open spec fn same_candidate(a: CuoProfileCandidate, b: CuoProfileCandidate) -> bool {
    a.account@ == b.account@ && a.characters@.map_values(|s: String| s@) == b.characters@.map_values(
        |s: String| s@,
    )
}

fn copy_candidate(c: &CuoProfileCandidate) -> (r: CuoProfileCandidate)
    ensures
        same_candidate(r, *c),
{
    CuoProfileCandidate { account: c.account.clone(), characters: copy_strings(&c.characters) }
}

/// An account candidate with the key it is ordered by.
#[derive(Debug, Clone)]
pub struct KeyedCandidate {
    pub key: String,
    pub candidate: CuoProfileCandidate,
}

impl SortKey for KeyedCandidate {
    open spec fn sorts_before(self, other: Self) -> bool {
        seq_lt(self.key@, other.key@)
    }

    fn before(&self, other: &Self) -> (b: bool) {
        str_lt(self.key.as_str(), other.key.as_str())
    }

    proof fn lemma_strict_weak_order(a: Self, b: Self, c: Self) {
        lemma_seq_lt_irreflexive(a.key@, b.key@);
        lemma_seq_lt_irreflexive(b.key@, c.key@);
        lemma_seq_lt_irreflexive(a.key@, c.key@);
        lemma_seq_lt_transitive(a.key@, b.key@, c.key@);
        lemma_seq_lt_total(a.key@, b.key@);
        lemma_seq_lt_total(b.key@, c.key@);
        lemma_seq_lt_total(a.key@, c.key@);
    }
}

/// The candidate of an account folder: its trimmed name (kept only if not
/// empty) and its character list.
pub open spec fn candidate_of(k: KeyedCandidate, account: Seq<char>, characters: Seq<Seq<char>>) -> bool {
    &&& k.candidate.account@ == trimmed(account)
    &&& k.key@ == lowercase(trimmed(account))
    &&& character_list_of(characters, k.candidate.characters@.map_values(|s: String| s@))
}

/// The accounts found: each account folder (name and character folder
/// names) with a non-empty name, ordered by lower-case name.
pub fn build_candidates(entries: Vec<(String, Vec<String>)>) -> (r: Vec<CuoProfileCandidate>)
    ensures
        exists|unsorted: Seq<KeyedCandidate>, sorted: Seq<KeyedCandidate>|
            #![trigger stably_sorted(unsorted, sorted)]
            {
                let kept = entries@.filter(|e: (String, Vec<String>)| trimmed(e.0@).len() > 0);
                &&& unsorted.len() == kept.len()
                &&& forall|i: int|
                    0 <= i < kept.len() ==> candidate_of(
                        #[trigger] unsorted[i],
                        kept[i].0@,
                        kept[i].1@.map_values(|s: String| s@),
                    )
                &&& stably_sorted(unsorted, sorted)
                &&& r@.len() == sorted.len()
                &&& forall|i: int| 0 <= i < sorted.len() ==> same_candidate(#[trigger] r@[i], sorted[i].candidate)
            },
{
    let ghost es = entries@;
    let ghost pred = |e: (String, Vec<String>)| trimmed(e.0@).len() > 0;
    let mut out: Vec<KeyedCandidate> = Vec::new();
    let mut i: usize = 0;
    assert(es.take(0).filter(pred) =~= Seq::<(String, Vec<String>)>::empty()) by {
        reveal(Seq::filter);
    }
    while i < entries.len()
        invariant
            es == entries@,
            i <= es.len(),
            out@.len() == es.take(i as int).filter(pred).len(),
            forall|j: int|
                0 <= j < out@.len() ==> candidate_of(
                    #[trigger] out@[j],
                    es.take(i as int).filter(pred)[j].0@,
                    es.take(i as int).filter(pred)[j].1@.map_values(|s: String| s@),
                ),
            forall|e: (String, Vec<String>)| #[trigger] pred(e) == (trimmed(e.0@).len() > 0),
        decreases es.len() - i,
    {
        proof {
            crate::settings::lemma_filter_take_step(es, i as int, pred);
        }
        let account = entries[i].0.as_str().trim();
        if account.unicode_len() > 0 {
            let characters = character_list(&entries[i].1);
            let ghost before = out@;
            out.push(
                KeyedCandidate {
                    key: to_lowercase(account),
                    candidate: CuoProfileCandidate { account: String::from_str(account), characters },
                },
            );
            assert forall|j: int| 0 <= j < out@.len() implies candidate_of(
                #[trigger] out@[j],
                es.take(i as int + 1).filter(pred)[j].0@,
                es.take(i as int + 1).filter(pred)[j].1@.map_values(|s: String| s@),
            ) by {
                if j < before.len() {
                    assert(out@[j] == before[j]);
                }
            }
        }
        i = i + 1;
    }
    assert(es.take(es.len() as int) =~= es);
    let ghost unsorted = out@;
    let sorted = stable_sort(out);
    let ghost sv = sorted@;
    let mut r: Vec<CuoProfileCandidate> = Vec::new();
    let mut j: usize = 0;
    while j < sorted.len()
        invariant
            sv == sorted@,
            j <= sv.len(),
            r@.len() == j,
            forall|i: int| 0 <= i < j ==> same_candidate(#[trigger] r@[i], sv[i].candidate),
        decreases sv.len() - j,
    {
        r.push(copy_candidate(&sorted[j].candidate));
        j = j + 1;
    }
    assert(pred =~= (|e: (String, Vec<String>)| trimmed(e.0@).len() > 0));
    assert(stably_sorted(unsorted, sv));
    r
}

} // verus!
