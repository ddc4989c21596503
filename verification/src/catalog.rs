//! The catalog side of the tool chain: scanning pack directories into a
//! list of icons with unique names, resolving name collisions by bounded
//! fallback renaming, and the sorted icon list behind both.

use vstd::prelude::*;

use crate::errors::{BuildError, ErrorModel};
use crate::normalize::{alt_name, alt_name2, IconPack};
use crate::text::{ends_with, lex_lt, lemma_lex_irreflexive, lemma_lex_transitive, seq_views,
    str_compare, str_ends_with, str_trim_suffix, trim_suffix, KeyOrder};

verus! {

/// One icon of the catalog.
#[derive(Debug)]
pub struct IconInfo {
    /// Unique name in the list.
    pub name: String,
    /// Location of the backing file.
    pub path: String,
    /// The source directory the icon came from.
    pub source: String,
}

/// The mathematical model of an [`IconInfo`].
pub struct InfoModel {
    pub name: Seq<char>,
    pub path: Seq<char>,
    pub source: Seq<char>,
}

impl View for IconInfo {
    type V = InfoModel;

    open spec fn view(&self) -> InfoModel {
        InfoModel { name: self.name@, path: self.path@, source: self.source@ }
    }
}

/// Names appear in strictly ascending order, so no two are equal.
pub open spec fn names_sorted(s: Seq<InfoModel>) -> bool {
    forall|i: int, j: int| 0 <= i < j < s.len() ==> lex_lt(
        #[trigger] s[i].name,
        #[trigger] s[j].name,
    )
}

/// Some icon of `s` carries the name `name`.
pub open spec fn contains_name(s: Seq<InfoModel>, name: Seq<char>) -> bool {
    exists|i: int| 0 <= i < s.len() && #[trigger] s[i].name == name
}

/// `s` with `m` inserted in name order, replacing the icon of the same
/// name if there is one.
pub open spec fn upsert(s: Seq<InfoModel>, m: InfoModel) -> Seq<InfoModel>
    decreases s.len(),
{
    if s.len() == 0 {
        seq![m]
    } else if lex_lt(m.name, s[0].name) {
        seq![m] + s
    } else if m.name == s[0].name {
        seq![m] + s.drop_first()
    } else {
        seq![s[0]] + upsert(s.drop_first(), m)
    }
}

/// `upsert` of a fresh name is insertion at the first position whose name
/// is not below `m`'s.
proof fn lemma_upsert_inserts(s: Seq<InfoModel>, m: InfoModel, p: int)
    requires
        0 <= p <= s.len(),
        forall|k: int| 0 <= k < p ==> lex_lt(#[trigger] s[k].name, m.name),
        p < s.len() ==> lex_lt(m.name, s[p].name),
    ensures
        upsert(s, m) == s.insert(p, m),
    decreases p,
{
    if p == 0 {
        if s.len() == 0 {
            assert(upsert(s, m) =~= s.insert(0, m));
        } else {
            lemma_lex_irreflexive(s[0].name);
            assert(seq![m] + s =~= s.insert(0, m));
        }
    } else {
        assert(lex_lt(s[0].name, m.name));
        lemma_lex_irreflexive(s[0].name);
        if lex_lt(m.name, s[0].name) {
            lemma_lex_transitive(s[0].name, m.name, s[0].name);
        }
        assert(!lex_lt(m.name, s[0].name));
        assert(m.name != s[0].name);
        let t = s.drop_first();
        assert forall|k: int| 0 <= k < p - 1 implies lex_lt(#[trigger] t[k].name, m.name) by {
            assert(t[k] == s[k + 1]);
        }
        if p - 1 < t.len() {
            assert(t[p - 1] == s[p]);
        }
        lemma_upsert_inserts(t, m, p - 1);
        assert(seq![s[0]] + t.insert(p - 1, m) =~= s.insert(p, m));
    }
}

/// `upsert` of a taken name replaces the icon holding it.
proof fn lemma_upsert_replaces(s: Seq<InfoModel>, m: InfoModel, p: int)
    requires
        names_sorted(s),
        0 <= p < s.len(),
        forall|k: int| 0 <= k < p ==> lex_lt(#[trigger] s[k].name, m.name),
        s[p].name == m.name,
    ensures
        upsert(s, m) == s.update(p, m),
    decreases p,
{
    if p == 0 {
        lemma_lex_irreflexive(s[0].name);
        assert(!lex_lt(m.name, s[0].name));
        assert(seq![m] + s.drop_first() =~= s.update(0, m));
    } else {
        assert(lex_lt(s[0].name, m.name));
        lemma_lex_irreflexive(s[0].name);
        if lex_lt(m.name, s[0].name) {
            lemma_lex_transitive(s[0].name, m.name, s[0].name);
        }
        assert(!lex_lt(m.name, s[0].name));
        assert(m.name != s[0].name);
        let t = s.drop_first();
        assert forall|k: int| 0 <= k < p - 1 implies lex_lt(#[trigger] t[k].name, m.name) by {
            assert(t[k] == s[k + 1]);
        }
        assert forall|i: int, j: int| 0 <= i < j < t.len() implies lex_lt(
            #[trigger] t[i].name,
            #[trigger] t[j].name,
        ) by {
            assert(t[i] == s[i + 1]);
            assert(t[j] == s[j + 1]);
        }
        assert(t[p - 1] == s[p]);
        lemma_upsert_replaces(t, m, p - 1);
        assert(seq![s[0]] + t.update(p - 1, m) =~= s.update(p, m));
    }
}

/// Inserting a fresh name at its place keeps the order strict.
proof fn lemma_insert_keeps_sorted(s: Seq<InfoModel>, m: InfoModel, p: int)
    requires
        names_sorted(s),
        0 <= p <= s.len(),
        forall|k: int| 0 <= k < p ==> lex_lt(#[trigger] s[k].name, m.name),
        p < s.len() ==> lex_lt(m.name, s[p].name),
    ensures
        names_sorted(s.insert(p, m)),
{
    let t = s.insert(p, m);
    assert forall|i: int, j: int| 0 <= i < j < t.len() implies lex_lt(
        #[trigger] t[i].name,
        #[trigger] t[j].name,
    ) by {
        if j < p {
            assert(t[i] == s[i]);
            assert(t[j] == s[j]);
        } else if j == p {
            assert(t[i] == s[i]);
            assert(t[j] == m);
        } else if i < p {
            assert(t[i] == s[i]);
            assert(t[j] == s[j - 1]);
            assert(i < j - 1);
            assert(lex_lt(s[i].name, s[j - 1].name));
        } else if i == p {
            assert(t[i] == m);
            assert(t[j] == s[j - 1]);
            if j - 1 > p {
                assert(lex_lt(s[p].name, s[j - 1].name));
                lemma_lex_transitive(m.name, s[p].name, s[j - 1].name);
            }
        } else {
            assert(t[i] == s[i - 1]);
            assert(t[j] == s[j - 1]);
            assert(lex_lt(s[i - 1].name, s[j - 1].name));
        }
    }
}

/// Replacing an icon by one of the same name keeps the order strict.
proof fn lemma_update_keeps_sorted(s: Seq<InfoModel>, m: InfoModel, p: int)
    requires
        names_sorted(s),
        0 <= p < s.len(),
        s[p].name == m.name,
    ensures
        names_sorted(s.update(p, m)),
{
    let t = s.update(p, m);
    assert forall|i: int, j: int| 0 <= i < j < t.len() implies lex_lt(
        #[trigger] t[i].name,
        #[trigger] t[j].name,
    ) by {
        assert(t[i].name == s[i].name);
        assert(t[j].name == s[j].name);
    }
}

/// The sorted list of catalog icons, unique by name.
pub struct IconList {
    entries: Vec<IconInfo>,
}

impl View for IconList {
    type V = Seq<InfoModel>;

    closed spec fn view(&self) -> Seq<InfoModel> {
        self.entries@.map_values(|e: IconInfo| e@)
    }
}

impl IconList {
    /// The list invariant: names strictly ascending.
    pub open spec fn wf(&self) -> bool {
        names_sorted(self@)
    }

    /// An empty list.
    pub fn new() -> (r: IconList)
        ensures
            r@ == Seq::<InfoModel>::empty(),
            r.wf(),
    {
        let r = IconList { entries: Vec::new() };
        proof {
            assert(r@ =~= Seq::<InfoModel>::empty());
        }
        r
    }

    /// Number of icons.
    pub fn len(&self) -> (n: usize)
        ensures
            n == self@.len(),
    {
        self.entries.len()
    }

    /// The icon at position `i`, in name order.
    pub fn get(&self, i: usize) -> (e: &IconInfo)
        requires
            i < self@.len(),
        ensures
            e@ == self@[i as int],
    {
        &self.entries[i]
    }

    /// Whether the list holds an icon of this name.
    pub fn contains(&self, name: &str) -> (r: bool)
        ensures
            r == contains_name(self@, name@),
    {
        let ghost s = self@;
        let n = self.entries.len();
        let mut i: usize = 0;
        while i < n
            invariant
                s == self@,
                n == s.len(),
                i <= n,
                forall|k: int| 0 <= k < i ==> (#[trigger] s[k].name) != name@,
            decreases n - i,
        {
            proof {
                assert(self.entries@.map_values(|e: IconInfo| e@)[i as int]
                    == self.entries@[i as int]@);
            }
            match str_compare(self.entries[i].name.as_str(), name) {
                KeyOrder::Equal => {
                    assert(s[i as int].name == name@);
                    return true;
                },
                _ => {
                    assert(s[i as int].name != name@);
                },
            }
            i += 1;
        }
        assert(!contains_name(s, name@)) by {
            if contains_name(s, name@) {
                let j = choose|j: int| 0 <= j < s.len() && #[trigger] s[j].name == name@;
                assert(s[j].name != name@);
            }
        }
        false
    }

    /// Puts `info` at its place in name order, replacing any icon of the
    /// same name.
    pub fn set(&mut self, info: IconInfo)
        requires
            old(self).wf(),
        ensures
            final(self).wf(),
            final(self)@ == upsert(old(self)@, info@),
    {
        let ghost s = old(self)@;
        assert(self@ == s);
        let n = self.entries.len();
        let mut i: usize = 0;
        while i < n
            invariant
                s == old(self)@,
                n == s.len(),
                i <= n,
                self@ == s,
                names_sorted(s),
                forall|k: int| 0 <= k < i ==> lex_lt(#[trigger] s[k].name, info@.name),
            decreases n - i,
        {
            proof {
                assert(self.entries@.map_values(|e: IconInfo| e@)[i as int]
                    == self.entries@[i as int]@);
            }
            match str_compare(self.entries[i].name.as_str(), info.name.as_str()) {
                KeyOrder::Less => {
                    i += 1;
                },
                KeyOrder::Equal => {
                    proof {
                        lemma_upsert_replaces(s, info@, i as int);
                        lemma_update_keeps_sorted(s, info@, i as int);
                    }
                    self.entries.set(i, info);
                    proof {
                        assert(self@ =~= s.update(i as int, info@)) by {
                            assert forall|k: int| 0 <= k < self.entries@.len() implies #[trigger] self@[k]
                                == s.update(i as int, info@)[k] by {
                                assert(self@[k] == self.entries@[k]@);
                            }
                        }
                    }
                    return ;
                },
                KeyOrder::Greater => {
                    proof {
                        lemma_upsert_inserts(s, info@, i as int);
                        lemma_insert_keeps_sorted(s, info@, i as int);
                    }
                    self.entries.insert(i, info);
                    proof {
                        assert(self@ =~= s.insert(i as int, info@)) by {
                            assert forall|k: int| 0 <= k < self.entries@.len() implies #[trigger] self@[k]
                                == s.insert(i as int, info@)[k] by {
                                assert(self@[k] == self.entries@[k]@);
                            }
                        }
                    }
                    return ;
                },
            }
        }
        proof {
            lemma_upsert_inserts(s, info@, n as int);
            lemma_insert_keeps_sorted(s, info@, n as int);
        }
        let ghost m = info@;
        self.entries.push(info);
        proof {
            assert(self@ =~= s.insert(n as int, m)) by {
                assert forall|k: int| 0 <= k < self.entries@.len() implies #[trigger] self@[k]
                    == s.insert(n as int, m)[k] by {
                    assert(self@[k] == self.entries@[k]@);
                }
            }
        }
    }

    /// Hands the icons out, in name order.
    pub fn into_entries(self) -> (r: Vec<IconInfo>)
        ensures
            r@.map_values(|e: IconInfo| e@) == self@,
    {
        self.entries
    }
}

/// What resolving one scanned icon does to the list: the icon goes in
/// under its own name, or under the first free fallback name; with name,
/// first and second fallback all taken, the icon is a genuine duplicate.
pub open spec fn resolved(
    s: Seq<InfoModel>,
    p: IconPack,
    name: Seq<char>,
    path: Seq<char>,
    source: Seq<char>,
) -> Result<Seq<InfoModel>, ErrorModel> {
    if !contains_name(s, name) {
        Ok(upsert(s, InfoModel { name, path, source }))
    } else if !contains_name(s, alt_name(name)) {
        Ok(upsert(s, InfoModel { name: alt_name(name), path, source }))
    } else if !contains_name(s, alt_name2(p, name)) {
        Ok(upsert(s, InfoModel { name: alt_name2(p, name), path, source }))
    } else {
        Err(ErrorModel::DuplicateIdentifier(name))
    }
}

/// Inserts a scanned icon under its name, retrying with the shared and
/// then the pack-specific alternate name on a collision. Exactly two
/// fallback attempts are made; a third collision is a genuine duplicate
/// that must be fixed at the source, and fails.
pub fn resolve_insert(
    list: &mut IconList,
    pack: IconPack,
    name: String,
    path: String,
    source: String,
) -> (r: Result<(), BuildError>)
    requires
        old(list).wf(),
    ensures
        final(list).wf(),
        match r {
            Ok(()) => resolved(old(list)@, pack, name@, path@, source@) matches Ok(t)
                && final(list)@ == t,
            Err(e) => resolved(old(list)@, pack, name@, path@, source@) is Err && final(list)@
                == old(list)@ && (e matches BuildError::DuplicateIdentifier(d) && d@ == name@),
        },
{
    if !list.contains(name.as_str()) {
        list.set(IconInfo { name, path, source });
        Ok(())
    } else {
        let a1 = pack.alt_icon_name(name.as_str());
        if !list.contains(a1.as_str()) {
            list.set(IconInfo { name: a1, path, source });
            Ok(())
        } else {
            let a2 = pack.alt_icon_name2(name.as_str());
            if !list.contains(a2.as_str()) {
                list.set(IconInfo { name: a2, path, source });
                Ok(())
            } else {
                Err(BuildError::DuplicateIdentifier(name))
            }
        }
    }
}

/// One pack subdirectory of the icon store, as scanned by the caller.
pub struct IconSource {
    /// The source key recorded on every icon taken from here.
    pub name: String,
    /// The directory path, used as the prefix of every icon's path.
    pub dir: String,
    /// The names of the regular files in the directory.
    pub files: Vec<String>,
}

/// The mathematical model of an [`IconSource`].
pub struct SourceModel {
    pub name: Seq<char>,
    pub dir: Seq<char>,
    pub files: Seq<Seq<char>>,
}

impl View for IconSource {
    type V = SourceModel;

    open spec fn view(&self) -> SourceModel {
        SourceModel { name: self.name@, dir: self.dir@, files: seq_views(self.files@) }
    }
}

/// What one scanned file does to the catalog: a file that is no symbolic
/// SVG fails the build; otherwise the icon goes in under its trimmed
/// name, or under the name with `-alt` appended when the name is taken.
/// One fallback only: a collision on the `-alt` name too is a genuine
/// duplicate and fails instead of touching the icon already listed.
pub open spec fn catalog_step(
    s: Seq<InfoModel>,
    source: Seq<char>,
    dir: Seq<char>,
    f: Seq<char>,
) -> Result<Seq<InfoModel>, ErrorModel> {
    if !ends_with(f, "-symbolic.svg"@) {
        Err(ErrorModel::UnexpectedFile(f))
    } else {
        let base = trim_suffix(f, "-symbolic.svg"@);
        if !contains_name(s, base) {
            Ok(upsert(s, InfoModel { name: base, path: dir + "/"@ + f, source }))
        } else if !contains_name(s, base + "-alt"@) {
            Ok(upsert(s, InfoModel { name: base + "-alt"@, path: dir + "/"@ + f, source }))
        } else {
            Err(ErrorModel::DuplicateIdentifier(base))
        }
    }
}

/// The catalog after one source directory's files, in order.
pub open spec fn catalog_files(
    s: Seq<InfoModel>,
    source: Seq<char>,
    dir: Seq<char>,
    files: Seq<Seq<char>>,
) -> Result<Seq<InfoModel>, ErrorModel>
    decreases files.len(),
{
    if files.len() == 0 {
        Ok(s)
    } else {
        match catalog_step(s, source, dir, files[0]) {
            Ok(t) => catalog_files(t, source, dir, files.drop_first()),
            Err(e) => Err(e),
        }
    }
}

/// The catalog after all source directories, in order.
pub open spec fn catalog_sources(s: Seq<InfoModel>, sources: Seq<SourceModel>) -> Result<
    Seq<InfoModel>,
    ErrorModel,
>
    decreases sources.len(),
{
    if sources.len() == 0 {
        Ok(s)
    } else {
        match catalog_files(s, sources[0].name, sources[0].dir, sources[0].files) {
            Ok(t) => catalog_sources(t, sources.drop_first()),
            Err(e) => Err(e),
        }
    }
}

/// Feeds one source directory's files into the list. A file that does
/// not end in `-symbolic.svg` fails the build; a name collision is
/// resolved by appending `-alt` once, and a collision on that name too is
/// a genuine duplicate and fails.
fn add_icon_source(list: &mut IconList, src: &IconSource) -> (r: Result<(), BuildError>)
    requires
        old(list).wf(),
    ensures
        final(list).wf(),
        match r {
            Ok(()) => catalog_files(old(list)@, src@.name, src@.dir, src@.files) matches Ok(t)
                && final(list)@ == t,
            Err(e) => catalog_files(old(list)@, src@.name, src@.dir, src@.files) matches Err(em)
                && e@ == em,
        },
{
    let ghost s0 = old(list)@;
    let ghost fviews = src@.files;
    assert(list@ == s0);
    let n = src.files.len();
    let mut i: usize = 0;
    proof {
        assert(fviews.skip(0) =~= fviews);
    }
    while i < n
        invariant
            s0 == old(list)@,
            n == fviews.len(),
            fviews == src@.files,
            i <= n,
            list.wf(),
            catalog_files(s0, src@.name, src@.dir, fviews) == catalog_files(
                list@,
                src@.name,
                src@.dir,
                fviews.skip(i as int),
            ),
        decreases n - i,
    {
        let ghost cur = list@;
        let ghost rest = fviews.skip(i as int);
        proof {
            assert(seq_views(src.files@)[i as int] == src.files@[i as int]@);
            assert(rest[0] == fviews[i as int]);
            assert(rest.drop_first() =~= fviews.skip(i + 1));
        }
        let f = &src.files[i];
        proof {
            reveal_strlit("-symbolic.svg");
        }
        if !str_ends_with(f.as_str(), "-symbolic.svg") {
            proof {
                assert(rest.len() > 0);
                assert(catalog_step(cur, src@.name, src@.dir, f@) == Err::<Seq<InfoModel>, _>(
                    ErrorModel::UnexpectedFile(f@),
                ));
                assert(catalog_files(cur, src@.name, src@.dir, rest) == Err::<Seq<InfoModel>, _>(
                    ErrorModel::UnexpectedFile(f@),
                ));
            }
            return Err(BuildError::UnexpectedFile(f.clone()));
        }
        let base = str_trim_suffix(f.as_str(), "-symbolic.svg");
        let name = if !list.contains(base.as_str()) {
            base
        } else {
            let mut alt = base.clone();
            alt.append("-alt");
            if list.contains(alt.as_str()) {
                proof {
                    assert(catalog_files(cur, src@.name, src@.dir, rest) matches Err(em) && em
                        == ErrorModel::DuplicateIdentifier(base@));
                }
                return Err(BuildError::DuplicateIdentifier(base));
            }
            alt
        };
        let mut path = String::from_str(src.dir.as_str());
        path.append("/");
        path.append(f.as_str());
        let info = IconInfo { name, path, source: src.name.clone() };
        proof {
            assert(catalog_step(cur, src@.name, src@.dir, f@) == Ok::<_, ErrorModel>(
                upsert(cur, info@),
            ));
        }
        list.set(info);
        i += 1;
    }
    proof {
        assert(fviews.skip(n as int).len() == 0);
    }
    Ok(())
}

/// Builds the catalog of icons from the given source directories, sorted
/// by name. A file outside the symbolic naming convention, and a name
/// whose single `-alt` fallback is also taken, fail the build instead.
pub fn get_icons(sources: &Vec<IconSource>) -> (r: Result<Vec<IconInfo>, BuildError>)
    ensures
        match r {
            Ok(v) => catalog_sources(Seq::empty(), seq_source_views(sources@)) matches Ok(t)
                && v@.map_values(|e: IconInfo| e@) == t && names_sorted(t),
            Err(e) => catalog_sources(Seq::empty(), seq_source_views(sources@)) matches Err(em)
                && e@ == em,
        },
{
    let ghost views = seq_source_views(sources@);
    let mut list = IconList::new();
    let n = sources.len();
    let mut i: usize = 0;
    proof {
        assert(views.skip(0) =~= views);
    }
    while i < n
        invariant
            views == seq_source_views(sources@),
            n == views.len(),
            i <= n,
            list.wf(),
            catalog_sources(Seq::empty(), views) == catalog_sources(list@, views.skip(i as int)),
        decreases n - i,
    {
        let ghost rest = views.skip(i as int);
        proof {
            assert(seq_source_views(sources@)[i as int] == sources@[i as int]@);
            assert(rest[0] == views[i as int]);
            assert(rest.drop_first() =~= views.skip(i + 1));
        }
        match add_icon_source(&mut list, &sources[i]) {
            Ok(()) => {},
            Err(e) => {
                return Err(e);
            },
        }
        i += 1;
    }
    proof {
        assert(views.skip(n as int).len() == 0);
    }
    Ok(list.into_entries())
}

/// The models of a vector of sources.
pub open spec fn seq_source_views(sources: Seq<IconSource>) -> Seq<SourceModel> {
    sources.map_values(|x: IconSource| x@)
}

/// Every successfully inserted name is unique in the catalog: a
/// well-formed icon list never holds two icons with the same name.
pub proof fn lemma_catalog_names_unique(s: Seq<InfoModel>)
    requires
        names_sorted(s),
    ensures
        forall|i: int, j: int|
            0 <= i < s.len() && 0 <= j < s.len() && i != j ==> (#[trigger] s[i].name)
                != (#[trigger] s[j].name),
{
    assert forall|i: int, j: int|
        0 <= i < s.len() && 0 <= j < s.len() && i != j implies (#[trigger] s[i].name)
        != (#[trigger] s[j].name) by {
        if s[i].name == s[j].name {
            if i < j {
                lemma_lex_irreflexive(s[i].name);
            } else {
                lemma_lex_irreflexive(s[j].name);
            }
        }
    }
}

} // verus!
