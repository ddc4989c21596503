//! The icon set merger: combines a scan of the user's custom icon folder
//! with a caller-selected subset of the shipped icon corpus into one
//! registry, keeping the provenance of every entry.

use vstd::prelude::*;

use crate::errors::{BuildError, ErrorModel};
use crate::registry::{contains_id, insert_sorted, EntryModel, IconEntry, Provenance, Registry};
use crate::text::{ends_with, join_strings, join_with, replace_char, seq_views, str_compare,
    str_replace_char, str_trim_suffix, trim_suffix, KeyOrder};

verus! {

/// One file of the custom icon folder, as the path components between the
/// folder root and the file, the file name last.
pub struct CustomFile {
    pub components: Vec<String>,
}

impl View for CustomFile {
    type V = Seq<Seq<char>>;

    open spec fn view(&self) -> Seq<Seq<char>> {
        seq_views(self.components@)
    }
}

/// The scan of the custom icon folder.
pub struct CustomScan {
    /// The folder path as the caller opened it.
    pub root: String,
    /// Every regular file under the folder.
    pub files: Vec<CustomFile>,
}

/// The mathematical model of a [`CustomScan`].
pub struct ScanModel {
    pub root: Seq<char>,
    pub files: Seq<Seq<Seq<char>>>,
}

impl View for CustomScan {
    type V = ScanModel;

    open spec fn view(&self) -> ScanModel {
        ScanModel { root: self.root@, files: self.files@.map_values(|f: CustomFile| f@) }
    }
}

/// One shipped icon pack directory, with its file listing. The caller
/// fixes the order of the directories: the first directory holding a
/// selected icon wins.
pub struct ShippedDir {
    pub path: String,
    pub files: Vec<String>,
}

/// The mathematical model of a [`ShippedDir`].
pub struct DirModel {
    pub path: Seq<char>,
    pub files: Seq<Seq<char>>,
}

impl View for ShippedDir {
    type V = DirModel;

    open spec fn view(&self) -> DirModel {
        DirModel { path: self.path@, files: seq_views(self.files@) }
    }
}

/// The registry entry a custom file becomes: the identifier is the
/// directory-relative path with `.svg` stripped and `/` turned into `-`,
/// so a custom `home.svg` at the folder root and a shipped `home` really
/// resolve to the same identifier; the source path keeps the folder
/// prefix. A file that is no `.svg` becomes nothing and is skipped.
pub open spec fn custom_entry(root: Seq<char>, comps: Seq<Seq<char>>) -> Option<EntryModel> {
    let rel = join_with(comps, '/');
    if ends_with(rel, ".svg"@) {
        Some(
            EntryModel {
                identifier: replace_char(trim_suffix(rel, ".svg"@), '/', '-'),
                source_path: root + "/"@ + rel,
                provenance: Provenance::Custom,
                relative_group_path: comps.take(comps.len() - 1),
                file_stem: trim_suffix(comps.last(), ".svg"@),
            },
        )
    } else {
        None
    }
}

/// The registry after the custom files, in order. A collision among
/// custom identifiers is fatal: custom icons are user-controlled and must
/// be pre-deduplicated, so no alternate names are tried.
pub open spec fn merge_custom(
    s: Seq<EntryModel>,
    root: Seq<char>,
    files: Seq<Seq<Seq<char>>>,
) -> Result<Seq<EntryModel>, ErrorModel>
    decreases files.len(),
{
    if files.len() == 0 {
        Ok(s)
    } else {
        match custom_entry(root, files[0]) {
            Option::None => merge_custom(s, root, files.drop_first()),
            Option::Some(e) => if contains_id(s, e.identifier) {
                Err(ErrorModel::DuplicateIdentifier(e.identifier))
            } else {
                merge_custom(insert_sorted(s, e), root, files.drop_first())
            },
        }
    }
}

/// The source path of the first directory holding the file, searched in
/// the caller's fixed order; `None` when no directory has it.
pub open spec fn find_shipped(dirs: Seq<DirModel>, target: Seq<char>) -> Option<Seq<char>>
    decreases dirs.len(),
{
    if dirs.len() == 0 {
        Option::None
    } else if dirs[0].files.contains(target) {
        Option::Some(dirs[0].path + "/"@ + target)
    } else {
        find_shipped(dirs.drop_first(), target)
    }
}

/// The registry entry of a shipped icon.
pub open spec fn shipped_entry(name: Seq<char>, path: Seq<char>) -> EntryModel {
    EntryModel {
        identifier: name,
        source_path: path,
        provenance: Provenance::Shipped,
        relative_group_path: Seq::empty(),
        file_stem: name,
    }
}

/// The registry after the selected shipped icons, in order. A selected
/// name found in no pack directory is fatal, as is a collision with an
/// identifier already taken (custom entries were inserted first and so
/// take naming precedence).
pub open spec fn merge_shipped(
    s: Seq<EntryModel>,
    dirs: Seq<DirModel>,
    names: Seq<Seq<char>>,
) -> Result<Seq<EntryModel>, ErrorModel>
    decreases names.len(),
{
    if names.len() == 0 {
        Ok(s)
    } else {
        let target = names[0] + "-symbolic.svg"@;
        match find_shipped(dirs, target) {
            Option::None => Err(ErrorModel::MissingShippedIcon(names[0])),
            Option::Some(p) => if contains_id(s, names[0]) {
                Err(ErrorModel::DuplicateIdentifier(names[0]))
            } else {
                merge_shipped(insert_sorted(s, shipped_entry(names[0], p)), dirs, names.drop_first())
            },
        }
    }
}

/// The whole merge: the custom scan first, then the shipped selection.
pub open spec fn merge_model(
    custom: Option<ScanModel>,
    dirs: Seq<DirModel>,
    names: Seq<Seq<char>>,
) -> Result<Seq<EntryModel>, ErrorModel> {
    match custom {
        Option::None => merge_shipped(Seq::empty(), dirs, names),
        Option::Some(c) => match merge_custom(Seq::empty(), c.root, c.files) {
            Ok(s) => merge_shipped(s, dirs, names),
            Err(e) => Err(e),
        },
    }
}

/// The model of the optional custom scan argument.
pub open spec fn scan_model(custom: Option<&CustomScan>) -> Option<ScanModel> {
    match custom {
        Option::None => Option::None,
        Option::Some(c) => Option::Some(c@),
    }
}

/// Whether the listing holds the file name.
fn files_contain(files: &Vec<String>, target: &str) -> (r: bool)
    ensures
        r == seq_views(files@).contains(target@),
{
    let ghost views = seq_views(files@);
    let n = files.len();
    let mut i: usize = 0;
    while i < n
        invariant
            views == seq_views(files@),
            n == views.len(),
            i <= n,
            forall|k: int| 0 <= k < i ==> (#[trigger] views[k]) != target@,
        decreases n - i,
    {
        proof {
            assert(seq_views(files@)[i as int] == files@[i as int]@);
        }
        match str_compare(files[i].as_str(), target) {
            KeyOrder::Equal => {
                assert(views[i as int] == target@);
                return true;
            },
            _ => {
                assert(views[i as int] != target@);
            },
        }
        i += 1;
    }
    assert(!views.contains(target@)) by {
        if views.contains(target@) {
            let j = choose|j: int| 0 <= j < views.len() && views[j] == target@;
            assert(views[j] != target@);
        }
    }
    false
}

/// The source path of the first directory holding the file, or `None`.
fn find_shipped_path(dirs: &Vec<ShippedDir>, target: &str) -> (r: Option<String>)
    ensures
        r is Some <==> find_shipped(seq_dir_views(dirs@), target@) is Some,
        r matches Some(p) ==> Some(p@) == find_shipped(seq_dir_views(dirs@), target@),
{
    let ghost views = seq_dir_views(dirs@);
    let n = dirs.len();
    let mut i: usize = 0;
    proof {
        assert(views.skip(0) =~= views);
    }
    while i < n
        invariant
            views == seq_dir_views(dirs@),
            n == views.len(),
            i <= n,
            find_shipped(views, target@) == find_shipped(views.skip(i as int), target@),
        decreases n - i,
    {
        let ghost rest = views.skip(i as int);
        proof {
            assert(seq_dir_views(dirs@)[i as int] == dirs@[i as int]@);
            assert(rest[0] == views[i as int]);
            assert(rest.drop_first() =~= views.skip(i + 1));
        }
        if files_contain(&dirs[i].files, target) {
            let mut p = String::from_str(dirs[i].path.as_str());
            p.append("/");
            p.append(target);
            assert(p@ == rest[0].path + "/"@ + target@);
            return Some(p);
        }
        i += 1;
    }
    proof {
        assert(views.skip(n as int).len() == 0);
    }
    None
}

/// The models of the shipped directories.
pub open spec fn seq_dir_views(dirs: Seq<ShippedDir>) -> Seq<DirModel> {
    dirs.map_values(|d: ShippedDir| d@)
}

/// Merges the custom scan and the shipped selection into one registry.
/// Every custom `.svg` file becomes a custom entry first; then every
/// selected shipped icon is looked up across the pack directories in
/// order and becomes a shipped entry. Any identifier collision, and any
/// selected icon that no pack directory holds, fails the build with the
/// matching error.
pub fn merge(
    custom: Option<&CustomScan>,
    shipped_dirs: &Vec<ShippedDir>,
    icon_names: &Vec<String>,
) -> (r: Result<Registry, BuildError>)
    requires
        custom matches Some(c) ==> forall|k: int|
            0 <= k < c@.files.len() ==> (#[trigger] c@.files[k]).len() > 0,
    ensures
        match r {
            Ok(reg) => merge_model(scan_model(custom), seq_dir_views(shipped_dirs@), seq_views(
                icon_names@,
            )) matches Ok(t) && reg@ == t && reg.wf(),
            Err(e) => merge_model(scan_model(custom), seq_dir_views(shipped_dirs@), seq_views(
                icon_names@,
            )) matches Err(em) && e@ == em,
        },
{
    let mut reg = Registry::new();
    let ghost dviews = seq_dir_views(shipped_dirs@);
    let ghost nviews = seq_views(icon_names@);
    if let Some(scan) = custom {
        let ghost fviews = scan@.files;
        let n = scan.files.len();
        let mut i: usize = 0;
        proof {
            assert(fviews.skip(0) =~= fviews);
            assert(reg@ =~= Seq::<EntryModel>::empty());
        }
        while i < n
            invariant
                custom == Some(scan),
                fviews == scan@.files,
                n == fviews.len(),
                i <= n,
                reg.wf(),
                forall|k: int| 0 <= k < fviews.len() ==> (#[trigger] fviews[k]).len() > 0,
                merge_custom(Seq::empty(), scan@.root, fviews) == merge_custom(
                    reg@,
                    scan@.root,
                    fviews.skip(i as int),
                ),
            decreases n - i,
        {
            let ghost cur = reg@;
            let ghost rest = fviews.skip(i as int);
            proof {
                assert(scan@.files[i as int] == scan.files@[i as int]@);
                assert(rest[0] == fviews[i as int]);
                assert(rest.drop_first() =~= fviews.skip(i + 1));
            }
            let file = &scan.files[i];
            proof {
                assert(fviews[i as int] == file@);
            }
            let m = file.components.len();
            assert(m >= 1) by {
                assert(fviews[i as int].len() > 0);
            }
            let rel = join_strings(&file.components, '/');
            assert(rel@ == join_with(rest[0], '/'));
            match crate::normalize::path_to_icon_alias(rel.as_str()) {
                None => {
                    assert(custom_entry(scan@.root, rest[0]) is None);
                },
                Some(alias) => {
                    let identifier = str_replace_char(alias.as_str(), '/', '-');
                    let mut group: Vec<String> = Vec::new();
                    let mut j2: usize = 0;
                    while j2 < m - 1
                        invariant
                            m == file.components@.len(),
                            m >= 1,
                            j2 <= m - 1,
                            group@.len() == j2,
                            forall|k: int| 0 <= k < j2 ==> #[trigger] group@[k]@
                                == file.components@[k]@,
                        decreases m - 1 - j2,
                    {
                        group.push(clone_string(&file.components[j2]));
                        j2 += 1;
                    }
                    proof {
                        reveal_strlit(".svg");
                        assert(seq_views(group@) =~= rest[0].take(rest[0].len() - 1)) by {
                            assert forall|k: int| 0 <= k < group@.len() implies #[trigger] seq_views(
                                group@,
                            )[k] == rest[0].take(rest[0].len() - 1)[k] by {
                                assert(seq_views(group@)[k] == group@[k]@);
                                assert(file@[k] == file.components@[k]@);
                            }
                        }
                    }
                    let stem = str_trim_suffix(file.components[m - 1].as_str(), ".svg");
                    proof {
                        assert(file@[m - 1] == file.components@[m - 1]@);
                        assert(rest[0].last() == file.components@[m - 1]@);
                    }
                    let mut full = String::from_str(scan.root.as_str());
                    full.append("/");
                    full.append(rel.as_str());
                    let entry = IconEntry {
                        identifier,
                        source_path: full,
                        provenance: Provenance::Custom,
                        relative_group_path: group,
                        file_stem: stem,
                    };
                    proof {
                        assert(entry@.relative_group_path == seq_views(group@));
                        assert(custom_entry(scan@.root, rest[0]) == Some(entry@));
                    }
                    match reg.insert(entry) {
                        Ok(()) => {},
                        Err(e) => {
                            proof {
                                assert(merge_custom(cur, scan@.root, rest) matches Err(em)
                                    && em == e@);
                            }
                            return Err(e);
                        },
                    }
                },
            }
            i += 1;
        }
        proof {
            assert(fviews.skip(n as int).len() == 0);
            assert(merge_custom(Seq::empty(), scan@.root, fviews) == Ok::<_, ErrorModel>(reg@));
        }
    } else {
        proof {
            assert(reg@ =~= Seq::<EntryModel>::empty());
        }
    }
    let n = icon_names.len();
    let mut i: usize = 0;
    proof {
        assert(nviews.skip(0) =~= nviews);
        assert(merge_model(scan_model(custom), dviews, nviews) == merge_shipped(
            reg@,
            dviews,
            nviews,
        ));
    }
    while i < n
        invariant
            dviews == seq_dir_views(shipped_dirs@),
            nviews == seq_views(icon_names@),
            n == nviews.len(),
            i <= n,
            reg.wf(),
            merge_model(scan_model(custom), dviews, nviews) == merge_shipped(
                reg@,
                dviews,
                nviews.skip(i as int),
            ),
        decreases n - i,
    {
        let ghost cur = reg@;
        let ghost rest = nviews.skip(i as int);
        proof {
            assert(seq_views(icon_names@)[i as int] == icon_names@[i as int]@);
            assert(rest[0] == nviews[i as int]);
            assert(rest.drop_first() =~= nviews.skip(i + 1));
        }
        let name = &icon_names[i];
        let mut target = clone_string(name);
        target.append("-symbolic.svg");
        assert(target@ == rest[0] + "-symbolic.svg"@);
        match find_shipped_path(shipped_dirs, target.as_str()) {
            None => {
                proof {
                    assert(merge_shipped(cur, dviews, rest) matches Err(em) && em
                        == ErrorModel::MissingShippedIcon(rest[0]));
                }
                return Err(BuildError::MissingShippedIcon(clone_string(name)));
            },
            Some(path) => {
                let entry = IconEntry {
                    identifier: clone_string(name),
                    source_path: path,
                    provenance: Provenance::Shipped,
                    relative_group_path: Vec::new(),
                    file_stem: clone_string(name),
                };
                proof {
                    assert(entry@.relative_group_path =~= Seq::<Seq<char>>::empty());
                    assert(entry@ == shipped_entry(rest[0], entry@.source_path));
                }
                match reg.insert(entry) {
                    Ok(()) => {},
                    Err(e) => {
                        proof {
                            assert(merge_shipped(cur, dviews, rest) matches Err(em) && em == e@);
                        }
                        return Err(e);
                    },
                }
            },
        }
        i += 1;
    }
    proof {
        assert(nviews.skip(n as int).len() == 0);
    }
    Ok(reg)
}

/// A copy of the string.
fn clone_string(s: &String) -> (r: String)
    ensures
        r@ == s@,
{
    s.clone()
}

/// A shipped selection that no pack directory holds makes the merge fail:
/// whatever else the inputs hold, no registry comes out and nothing gets
/// written from it.
pub proof fn lemma_missing_shipped_fails(
    custom: Option<ScanModel>,
    dirs: Seq<DirModel>,
    names: Seq<Seq<char>>,
    k: int,
)
    requires
        0 <= k < names.len(),
        find_shipped(dirs, names[k] + "-symbolic.svg"@) is None,
    ensures
        merge_model(custom, dirs, names) is Err,
{
    match custom {
        Option::None => lemma_missing_shipped_fails_from(Seq::empty(), dirs, names, k),
        Option::Some(c) => match merge_custom(Seq::empty(), c.root, c.files) {
            Ok(s) => lemma_missing_shipped_fails_from(s, dirs, names, k),
            Err(e) => {},
        },
    }
}

proof fn lemma_missing_shipped_fails_from(
    s: Seq<EntryModel>,
    dirs: Seq<DirModel>,
    names: Seq<Seq<char>>,
    k: int,
)
    requires
        0 <= k < names.len(),
        find_shipped(dirs, names[k] + "-symbolic.svg"@) is None,
    ensures
        merge_shipped(s, dirs, names) is Err,
    decreases k,
{
    let target = names[0] + "-symbolic.svg"@;
    match find_shipped(dirs, target) {
        Option::None => {},
        Option::Some(p) => {
            assert(k != 0);
            if !contains_id(s, names[0]) {
                assert(names.drop_first()[k - 1] == names[k]);
                lemma_missing_shipped_fails_from(
                    insert_sorted(s, shipped_entry(names[0], p)),
                    dirs,
                    names.drop_first(),
                    k - 1,
                );
            }
        },
    }
}

/// And the failure is of the missing-icon class: when the custom phase
/// went through, the selected names are distinct, none collides with a
/// resolved identifier, and `k` is the first selection the pack
/// directories do not hold, the whole merge fails naming exactly that
/// icon.
pub proof fn lemma_missing_shipped_names_the_icon(
    custom: Option<ScanModel>,
    dirs: Seq<DirModel>,
    names: Seq<Seq<char>>,
    resolved: Seq<EntryModel>,
    k: int,
)
    requires
        match custom {
            Option::None => resolved == Seq::<EntryModel>::empty(),
            Option::Some(c) => merge_custom(Seq::empty(), c.root, c.files) == Ok::<
                _,
                ErrorModel,
            >(resolved),
        },
        0 <= k < names.len(),
        find_shipped(dirs, names[k] + "-symbolic.svg"@) is None,
        forall|j: int| 0 <= j < k ==> find_shipped(dirs, (#[trigger] names[j]) + "-symbolic.svg"@)
            is Some,
        forall|i: int, j: int| 0 <= i < j < names.len() ==> names[i] != names[j],
        forall|j: int| 0 <= j < names.len() ==> !contains_id(resolved, #[trigger] names[j]),
    ensures
        merge_model(custom, dirs, names) == Err::<Seq<EntryModel>, ErrorModel>(
            ErrorModel::MissingShippedIcon(names[k]),
        ),
{
    lemma_missing_shipped_error(resolved, dirs, names, k);
}

/// When the selected names
/// are distinct, none collides with an identifier already in the
/// registry, and `k` is the first selection the pack directories do not
/// hold, the merge of the shipped set fails naming exactly that icon.
pub proof fn lemma_missing_shipped_error(
    s: Seq<EntryModel>,
    dirs: Seq<DirModel>,
    names: Seq<Seq<char>>,
    k: int,
)
    requires
        0 <= k < names.len(),
        find_shipped(dirs, names[k] + "-symbolic.svg"@) is None,
        forall|j: int| 0 <= j < k ==> find_shipped(dirs, (#[trigger] names[j]) + "-symbolic.svg"@)
            is Some,
        forall|i: int, j: int| 0 <= i < j < names.len() ==> names[i] != names[j],
        forall|j: int| 0 <= j < names.len() ==> !contains_id(s, #[trigger] names[j]),
    ensures
        merge_shipped(s, dirs, names) == Err::<Seq<EntryModel>, ErrorModel>(
            ErrorModel::MissingShippedIcon(names[k]),
        ),
    decreases k,
{
    let target = names[0] + "-symbolic.svg"@;
    match find_shipped(dirs, target) {
        Option::None => {
            assert(k == 0) by {
                if k > 0 {
                    assert(find_shipped(dirs, names[0] + "-symbolic.svg"@) is Some);
                }
            }
        },
        Option::Some(p) => {
            assert(k != 0);
            assert(!contains_id(s, names[0]));
            let e = shipped_entry(names[0], p);
            let s2 = insert_sorted(s, e);
            let rest = names.drop_first();
            assert forall|j: int| 0 <= j < rest.len() implies !contains_id(
                s2,
                #[trigger] rest[j],
            ) by {
                assert(rest[j] == names[j + 1]);
                crate::registry::lemma_insert_sorted_contains(s, e, names[j + 1]);
                assert(names[0] != names[j + 1]);
            }
            assert forall|i: int, j: int| 0 <= i < j < rest.len() implies rest[i] != rest[j] by {
                assert(rest[i] == names[i + 1]);
                assert(rest[j] == names[j + 1]);
            }
            assert forall|j: int| 0 <= j < k - 1 implies find_shipped(
                dirs,
                (#[trigger] rest[j]) + "-symbolic.svg"@,
            ) is Some by {
                assert(rest[j] == names[j + 1]);
            }
            assert(rest[k - 1] == names[k]);
            lemma_missing_shipped_error(s2, dirs, rest, k - 1);
        },
    }
}

/// A shipped selection whose identifier is already taken — for instance
/// by a custom entry, which is inserted first — makes the merge of the
/// shipped set fail: whatever else the inputs hold, no registry comes out
/// and nothing gets written from it.
pub proof fn lemma_shipped_collision_fails(
    s: Seq<EntryModel>,
    dirs: Seq<DirModel>,
    names: Seq<Seq<char>>,
    k: int,
)
    requires
        0 <= k < names.len(),
        contains_id(s, names[k]),
    ensures
        merge_shipped(s, dirs, names) is Err,
    decreases k,
{
    let target = names[0] + "-symbolic.svg"@;
    match find_shipped(dirs, target) {
        Option::None => {},
        Option::Some(p) => {
            if !contains_id(s, names[0]) {
                assert(k != 0);
                let s2 = insert_sorted(s, shipped_entry(names[0], p));
                crate::registry::lemma_insert_sorted_contains(
                    s,
                    shipped_entry(names[0], p),
                    names[k],
                );
                assert(names.drop_first()[k - 1] == names[k]);
                lemma_shipped_collision_fails(s2, dirs, names.drop_first(), k - 1);
            }
        },
    }
}

/// And the failure names the contested identifier: when the selected
/// names are distinct, each is found in some pack directory, and `k` is
/// the first selection whose identifier is already taken, the merge of
/// the shipped set fails with a duplicate-identifier error naming exactly
/// that icon.
pub proof fn lemma_shipped_collision_names_the_icon(
    s: Seq<EntryModel>,
    dirs: Seq<DirModel>,
    names: Seq<Seq<char>>,
    k: int,
)
    requires
        0 <= k < names.len(),
        contains_id(s, names[k]),
        forall|j: int| 0 <= j <= k ==> find_shipped(dirs, (#[trigger] names[j]) + "-symbolic.svg"@)
            is Some,
        forall|i: int, j: int| 0 <= i < j < names.len() ==> names[i] != names[j],
        forall|j: int| 0 <= j < k ==> !contains_id(s, #[trigger] names[j]),
    ensures
        merge_shipped(s, dirs, names) == Err::<Seq<EntryModel>, ErrorModel>(
            ErrorModel::DuplicateIdentifier(names[k]),
        ),
    decreases k,
{
    let target = names[0] + "-symbolic.svg"@;
    assert(find_shipped(dirs, target) is Some);
    match find_shipped(dirs, target) {
        Option::None => {},
        Option::Some(p) => {
            if k == 0 {
                assert(contains_id(s, names[0]));
            } else {
                assert(!contains_id(s, names[0]));
                let e = shipped_entry(names[0], p);
                let s2 = insert_sorted(s, e);
                let rest = names.drop_first();
                assert(rest[k - 1] == names[k]);
                crate::registry::lemma_insert_sorted_contains(s, e, names[k]);
                assert(contains_id(s2, names[k]));
                assert forall|j: int| 0 <= j < k - 1 implies !contains_id(
                    s2,
                    #[trigger] rest[j],
                ) by {
                    assert(rest[j] == names[j + 1]);
                    crate::registry::lemma_insert_sorted_contains(s, e, names[j + 1]);
                    assert(names[0] != names[j + 1]);
                }
                assert forall|j: int| 0 <= j <= k - 1 implies find_shipped(
                    dirs,
                    (#[trigger] rest[j]) + "-symbolic.svg"@,
                ) is Some by {
                    assert(rest[j] == names[j + 1]);
                }
                assert forall|i: int, j: int| 0 <= i < j < rest.len() implies rest[i]
                    != rest[j] by {
                    assert(rest[i] == names[i + 1]);
                    assert(rest[j] == names[j + 1]);
                }
                lemma_shipped_collision_names_the_icon(s2, dirs, rest, k - 1);
            }
        },
    }
}

/// At the level of the whole merge: with the custom phase resolved, the
/// selected names distinct and each found in some pack directory, a first
/// selection whose identifier a custom entry already took fails the whole
/// merge with a duplicate-identifier error naming exactly that icon.
pub proof fn lemma_custom_shipped_collision_names_the_icon(
    custom: Option<ScanModel>,
    dirs: Seq<DirModel>,
    names: Seq<Seq<char>>,
    resolved: Seq<EntryModel>,
    k: int,
)
    requires
        match custom {
            Option::None => resolved == Seq::<EntryModel>::empty(),
            Option::Some(c) => merge_custom(Seq::empty(), c.root, c.files) == Ok::<
                _,
                ErrorModel,
            >(resolved),
        },
        0 <= k < names.len(),
        contains_id(resolved, names[k]),
        forall|j: int| 0 <= j <= k ==> find_shipped(dirs, (#[trigger] names[j]) + "-symbolic.svg"@)
            is Some,
        forall|i: int, j: int| 0 <= i < j < names.len() ==> names[i] != names[j],
        forall|j: int| 0 <= j < k ==> !contains_id(resolved, #[trigger] names[j]),
    ensures
        merge_model(custom, dirs, names) == Err::<Seq<EntryModel>, ErrorModel>(
            ErrorModel::DuplicateIdentifier(names[k]),
        ),
{
    lemma_shipped_collision_names_the_icon(resolved, dirs, names, k);
}

} // verus!
