//! The registry of resolved icon assets: a mapping from unique identifier
//! to icon entry, kept sorted by identifier so that every walk over it is
//! deterministic and generated artifacts are reproducible byte for byte.

use vstd::prelude::*;

use crate::errors::BuildError;
use crate::text::{lex_lt, lemma_lex_irreflexive, lemma_lex_transitive, seq_views, str_compare,
    KeyOrder};

verus! {

/// Where an icon entry came from. Shipped entries use the `-symbolic.svg`
/// virtual-path convention; custom entries keep their own file name form.
#[derive(Clone, Copy, PartialEq, Eq, Structural, Debug)]
pub enum Provenance {
    Shipped,
    Custom,
}

/// One resolved icon asset.
#[derive(Debug)]
pub struct IconEntry {
    /// Unique key in the registry.
    pub identifier: String,
    /// Location of the backing file on disk at build time.
    pub source_path: String,
    /// Whether the entry belongs to the shipped or the custom set.
    pub provenance: Provenance,
    /// Directory components between the custom icon root and the file;
    /// always empty for shipped entries.
    pub relative_group_path: Vec<String>,
    /// Final path component without its `.svg` extension; custom constant
    /// names are derived from it.
    pub file_stem: String,
}

/// The mathematical model of an [`IconEntry`].
pub struct EntryModel {
    pub identifier: Seq<char>,
    pub source_path: Seq<char>,
    pub provenance: Provenance,
    pub relative_group_path: Seq<Seq<char>>,
    pub file_stem: Seq<char>,
}

impl View for IconEntry {
    type V = EntryModel;

    open spec fn view(&self) -> EntryModel {
        EntryModel {
            identifier: self.identifier@,
            source_path: self.source_path@,
            provenance: self.provenance,
            relative_group_path: seq_views(self.relative_group_path@),
            file_stem: self.file_stem@,
        }
    }
}

/// Identifiers appear in strictly ascending order, so no two are equal.
pub open spec fn ids_sorted(s: Seq<EntryModel>) -> bool {
    forall|i: int, j: int| 0 <= i < j < s.len() ==> lex_lt(
        #[trigger] s[i].identifier,
        #[trigger] s[j].identifier,
    )
}

/// Some entry of `s` carries the identifier `id`.
pub open spec fn contains_id(s: Seq<EntryModel>, id: Seq<char>) -> bool {
    exists|i: int| 0 <= i < s.len() && #[trigger] s[i].identifier == id
}

/// `s` with `e` inserted in identifier order.
pub open spec fn insert_sorted(s: Seq<EntryModel>, e: EntryModel) -> Seq<EntryModel>
    decreases s.len(),
{
    if s.len() == 0 {
        seq![e]
    } else if lex_lt(e.identifier, s[0].identifier) {
        seq![e] + s
    } else {
        seq![s[0]] + insert_sorted(s.drop_first(), e)
    }
}

/// `insert_sorted` is the same as inserting at the first position whose
/// identifier is not below `e`'s.
proof fn lemma_insert_sorted_at(s: Seq<EntryModel>, e: EntryModel, p: int)
    requires
        0 <= p <= s.len(),
        forall|k: int| 0 <= k < p ==> lex_lt(#[trigger] s[k].identifier, e.identifier),
        p < s.len() ==> lex_lt(e.identifier, s[p].identifier),
    ensures
        insert_sorted(s, e) == s.insert(p, e),
    decreases p,
{
    if p == 0 {
        if s.len() == 0 {
            assert(insert_sorted(s, e) =~= s.insert(0, e));
        } else {
            assert(lex_lt(e.identifier, s[0].identifier));
            assert(seq![e] + s =~= s.insert(0, e));
        }
    } else {
        assert(lex_lt(s[0].identifier, e.identifier));
        lemma_lex_irreflexive(s[0].identifier);
        if lex_lt(e.identifier, s[0].identifier) {
            lemma_lex_transitive(s[0].identifier, e.identifier, s[0].identifier);
        }
        assert(!lex_lt(e.identifier, s[0].identifier));
        let t = s.drop_first();
        assert forall|k: int| 0 <= k < p - 1 implies lex_lt(
            #[trigger] t[k].identifier,
            e.identifier,
        ) by {
            assert(t[k] == s[k + 1]);
        }
        if p - 1 < t.len() {
            assert(t[p - 1] == s[p]);
        }
        lemma_insert_sorted_at(t, e, p - 1);
        assert(seq![s[0]] + t.insert(p - 1, e) =~= s.insert(p, e));
    }
}

/// The registry of resolved assets, sorted by identifier.
#[derive(Debug)]
pub struct Registry {
    entries: Vec<IconEntry>,
}

impl View for Registry {
    type V = Seq<EntryModel>;

    closed spec fn view(&self) -> Seq<EntryModel> {
        self.entries@.map_values(|e: IconEntry| e@)
    }
}

impl Registry {
    /// The registry invariant: identifiers strictly ascending.
    pub open spec fn wf(&self) -> bool {
        ids_sorted(self@)
    }

    /// An empty registry.
    pub fn new() -> (r: Registry)
        ensures
            r@ == Seq::<EntryModel>::empty(),
            r.wf(),
    {
        let r = Registry { entries: Vec::new() };
        proof {
            assert(r@ =~= Seq::<EntryModel>::empty());
        }
        r
    }

    /// Number of entries.
    pub fn len(&self) -> (n: usize)
        ensures
            n == self@.len(),
    {
        self.entries.len()
    }

    /// The entry at position `i`, in identifier order.
    pub fn get(&self, i: usize) -> (e: &IconEntry)
        requires
            i < self@.len(),
        ensures
            e@ == self@[i as int],
    {
        &self.entries[i]
    }

    /// Inserts `e` at its place in identifier order. Fails, and leaves the
    /// registry unchanged, exactly when the identifier is already taken.
    pub fn insert(&mut self, e: IconEntry) -> (r: Result<(), BuildError>)
        requires
            old(self).wf(),
        ensures
            final(self).wf(),
            r is Ok <==> !contains_id(old(self)@, e@.identifier),
            r is Ok ==> final(self)@ == insert_sorted(old(self)@, e@),
            r is Err ==> final(self)@ == old(self)@,
            r is Err ==> (r->Err_0 matches BuildError::DuplicateIdentifier(d) && d@
                == e@.identifier),
    {
        let ghost s = old(self)@;
        assert(self@ == s);
        let n = self.entries.len();
        let mut i: usize = 0;
        while i < n
            invariant
                s == old(self)@,
                n == s.len(),
                i <= n,
                self@ == s,
                ids_sorted(s),
                forall|k: int| 0 <= k < i ==> lex_lt(#[trigger] s[k].identifier, e@.identifier),
            decreases n - i,
        {
            proof {
                assert(self.entries@.map_values(|en: IconEntry| en@)[i as int]
                    == self.entries@[i as int]@);
            }
            match str_compare(self.entries[i].identifier.as_str(), e.identifier.as_str()) {
                KeyOrder::Less => {
                    i += 1;
                },
                KeyOrder::Equal => {
                    assert(s[i as int].identifier == e@.identifier);
                    assert(contains_id(s, e@.identifier));
                    let d = self.entries[i].identifier.clone();
                    return Err(BuildError::DuplicateIdentifier(d));
                },
                KeyOrder::Greater => {
                    assert(lex_lt(e@.identifier, s[i as int].identifier));
                    proof {
                        lemma_insert_sorted_at(s, e@, i as int);
                        assert(!contains_id(s, e@.identifier)) by {
                            if contains_id(s, e@.identifier) {
                                let j = choose|j: int|
                                    0 <= j < s.len() && #[trigger] s[j].identifier
                                        == e@.identifier;
                                lemma_lex_irreflexive(e@.identifier);
                                if j < i {
                                    assert(lex_lt(s[j].identifier, e@.identifier));
                                } else if j > i {
                                    lemma_lex_transitive(
                                        e@.identifier,
                                        s[i as int].identifier,
                                        s[j].identifier,
                                    );
                                }
                            }
                        }
                    }
                    self.entries.insert(i, e);
                    proof {
                        assert(self@ =~= s.insert(i as int, e@)) by {
                            assert(self.entries@ == self.entries@);
                            assert forall|k: int| 0 <= k < self.entries@.len() implies #[trigger] self@[k]
                                == s.insert(i as int, e@)[k] by {
                                assert(self@[k] == self.entries@[k]@);
                            }
                        }
                        lemma_insert_is_sorted(s, e@, i as int);
                    }
                    return Ok(());
                },
            }
        }
        proof {
            lemma_insert_sorted_at(s, e@, n as int);
            assert(!contains_id(s, e@.identifier)) by {
                if contains_id(s, e@.identifier) {
                    let j = choose|j: int|
                        0 <= j < s.len() && #[trigger] s[j].identifier == e@.identifier;
                    lemma_lex_irreflexive(e@.identifier);
                    assert(lex_lt(s[j].identifier, e@.identifier));
                }
            }
        }
        self.entries.push(e);
        proof {
            assert(self@ =~= s.insert(n as int, e@)) by {
                assert forall|k: int| 0 <= k < self.entries@.len() implies #[trigger] self@[k]
                    == s.insert(n as int, e@)[k] by {
                    assert(self@[k] == self.entries@[k]@);
                }
            }
            lemma_insert_is_sorted(s, e@, n as int);
        }
        Ok(())
    }
}

/// Inserting at the right place keeps the order strict.
proof fn lemma_insert_is_sorted(s: Seq<EntryModel>, e: EntryModel, p: int)
    requires
        ids_sorted(s),
        0 <= p <= s.len(),
        forall|k: int| 0 <= k < p ==> lex_lt(#[trigger] s[k].identifier, e.identifier),
        p < s.len() ==> lex_lt(e.identifier, s[p].identifier),
    ensures
        ids_sorted(s.insert(p, e)),
{
    let t = s.insert(p, e);
    assert forall|i: int, j: int| 0 <= i < j < t.len() implies lex_lt(
        #[trigger] t[i].identifier,
        #[trigger] t[j].identifier,
    ) by {
        if j < p {
            assert(t[i] == s[i]);
            assert(t[j] == s[j]);
        } else if j == p {
            assert(t[i] == s[i]);
            assert(t[j] == e);
        } else if i < p {
            assert(t[i] == s[i]);
            assert(t[j] == s[j - 1]);
            assert(i < j - 1);
            assert(lex_lt(s[i].identifier, s[j - 1].identifier));
        } else if i == p {
            assert(t[i] == e);
            assert(t[j] == s[j - 1]);
            if j - 1 > p {
                assert(lex_lt(s[p].identifier, s[j - 1].identifier));
                lemma_lex_transitive(e.identifier, s[p].identifier, s[j - 1].identifier);
            }
        } else {
            assert(t[i] == s[i - 1]);
            assert(t[j] == s[j - 1]);
            assert(lex_lt(s[i - 1].identifier, s[j - 1].identifier));
        }
    }
}

/// An inserted sequence holds exactly the old identifiers and the new one.
pub proof fn lemma_insert_sorted_contains(s: Seq<EntryModel>, e: EntryModel, id: Seq<char>)
    ensures
        contains_id(insert_sorted(s, e), id) <==> (contains_id(s, id) || e.identifier == id),
    decreases s.len(),
{
    let t = insert_sorted(s, e);
    if s.len() == 0 {
        assert(t[0] == e);
        if e.identifier == id {
            assert(contains_id(t, id));
        }
        if contains_id(t, id) {
            let j = choose|j: int| 0 <= j < t.len() && #[trigger] t[j].identifier == id;
            assert(j == 0);
        }
    } else if lex_lt(e.identifier, s[0].identifier) {
        assert forall|j: int| 0 <= j < s.len() implies #[trigger] t[j + 1] == s[j] by {}
        assert(t[0] == e);
        if e.identifier == id {
            assert(contains_id(t, id));
        }
        if contains_id(s, id) {
            let j = choose|j: int| 0 <= j < s.len() && #[trigger] s[j].identifier == id;
            assert(t[j + 1].identifier == id);
            assert(contains_id(t, id));
        }
        if contains_id(t, id) {
            let j = choose|j: int| 0 <= j < t.len() && #[trigger] t[j].identifier == id;
            if j > 0 {
                assert(s[j - 1].identifier == id);
                assert(contains_id(s, id));
            }
        }
    } else {
        let u = insert_sorted(s.drop_first(), e);
        lemma_insert_sorted_contains(s.drop_first(), e, id);
        assert(t[0] == s[0]);
        assert forall|j: int| 0 <= j < u.len() implies #[trigger] t[j + 1] == u[j] by {}
        if contains_id(t, id) {
            let j = choose|j: int| 0 <= j < t.len() && #[trigger] t[j].identifier == id;
            if j == 0 {
                assert(s[0].identifier == id);
                assert(contains_id(s, id));
            } else {
                assert(u[j - 1].identifier == id);
                assert(contains_id(u, id));
                if contains_id(s.drop_first(), id) {
                    let x = choose|x: int|
                        0 <= x < s.drop_first().len() && #[trigger] s.drop_first()[x].identifier
                            == id;
                    assert(s[x + 1].identifier == id);
                    assert(contains_id(s, id));
                }
            }
        }
        if contains_id(s, id) {
            let j = choose|j: int| 0 <= j < s.len() && #[trigger] s[j].identifier == id;
            if j == 0 {
                assert(t[0].identifier == id);
                assert(contains_id(t, id));
            } else {
                assert(s.drop_first()[j - 1].identifier == id);
                assert(contains_id(s.drop_first(), id));
                assert(contains_id(u, id));
                let x = choose|x: int| 0 <= x < u.len() && #[trigger] u[x].identifier == id;
                assert(t[x + 1].identifier == id);
                assert(contains_id(t, id));
            }
        }
        if e.identifier == id {
            assert(contains_id(u, id));
            let x = choose|x: int| 0 <= x < u.len() && #[trigger] u[x].identifier == id;
            assert(t[x + 1].identifier == id);
            assert(contains_id(t, id));
        }
    }
}

/// Every successfully inserted identifier is unique in the registry: a
/// well-formed registry never holds two entries with the same identifier.
pub proof fn lemma_registry_identifiers_unique(s: Seq<EntryModel>)
    requires
        ids_sorted(s),
    ensures
        forall|i: int, j: int|
            0 <= i < s.len() && 0 <= j < s.len() && i != j ==> (#[trigger] s[i].identifier)
                != (#[trigger] s[j].identifier),
{
    assert forall|i: int, j: int|
        0 <= i < s.len() && 0 <= j < s.len() && i != j implies (#[trigger] s[i].identifier)
        != (#[trigger] s[j].identifier) by {
        if s[i].identifier == s[j].identifier {
            if i < j {
                lemma_lex_irreflexive(s[i].identifier);
            } else {
                lemma_lex_irreflexive(s[j].identifier);
            }
        }
    }
}

} // verus!
