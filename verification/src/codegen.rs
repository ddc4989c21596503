//! The constant generator: renders the registry as Rust source text, one
//! named constant per icon, custom entries nested into modules that
//! mirror their directory structure, and the container bytes and resource
//! prefix embedded at the end.

use vstd::prelude::*;

use crate::registry::{EntryModel, IconEntry, Provenance, Registry};
use crate::text::{const_case, join_strings, join_with, lex_lt, lemma_lex_irreflexive,
    lemma_lex_transitive, replace_char, seq_views, str_compare, to_const_case, KeyOrder};

verus! {

/// One generated constant: its name and its string value.
pub struct ConstPair {
    pub name: String,
    pub value: String,
}

/// The mathematical model of a [`ConstPair`].
pub struct ConstModel {
    pub name: Seq<char>,
    pub value: Seq<char>,
}

impl View for ConstPair {
    type V = ConstModel;

    open spec fn view(&self) -> ConstModel {
        ConstModel { name: self.name@, value: self.value@ }
    }
}

/// One group of custom constants: the directory components under the
/// custom root, and the constants of the files in that directory, in
/// arrival order.
pub struct GroupEntry {
    pub key: String,
    pub components: Vec<String>,
    pub consts: Vec<ConstPair>,
}

/// The mathematical model of a [`GroupEntry`].
pub struct GroupModel {
    pub key: Seq<char>,
    pub components: Seq<Seq<char>>,
    pub consts: Seq<ConstModel>,
}

impl View for GroupEntry {
    type V = GroupModel;

    open spec fn view(&self) -> GroupModel {
        GroupModel {
            key: self.key@,
            components: seq_views(self.components@),
            consts: self.consts@.map_values(|c: ConstPair| c@),
        }
    }
}

/// The constant a registry entry becomes: the file stem folded to
/// constant case, bound to the identifier.
pub open spec fn entry_const(e: EntryModel) -> ConstModel {
    ConstModel { name: const_case(e.file_stem), value: e.identifier }
}

/// The sort key of a group: its components joined with `/`, which is the
/// directory path under the custom root.
pub open spec fn group_key_of(comps: Seq<Seq<char>>) -> Seq<char> {
    join_with(comps, '/')
}

/// Group keys never descend: the rendered groups are sorted by directory
/// path.
pub open spec fn keys_ordered(s: Seq<GroupModel>) -> bool {
    forall|i: int, j: int| 0 <= i < j < s.len() ==> !lex_lt(
        (#[trigger] s[j]).key,
        (#[trigger] s[i]).key,
    )
}

/// Every group's key is the join of its components.
pub open spec fn keys_match(s: Seq<GroupModel>) -> bool {
    forall|i: int| 0 <= i < s.len() ==> (#[trigger] s[i]).key == group_key_of(s[i].components)
}

/// Adds one constant to the groups: appended to the group of the same
/// components if there is one, else as a new group at its place in key
/// order, after any group of equal key.
pub open spec fn group_insert(s: Seq<GroupModel>, comps: Seq<Seq<char>>, c: ConstModel) -> Seq<
    GroupModel,
>
    decreases s.len(),
{
    if s.len() == 0 {
        seq![GroupModel { key: group_key_of(comps), components: comps, consts: seq![c] }]
    } else if lex_lt(group_key_of(comps), s[0].key) {
        seq![GroupModel { key: group_key_of(comps), components: comps, consts: seq![c] }] + s
    } else if s[0].components == comps {
        seq![
            GroupModel { key: s[0].key, components: s[0].components, consts: s[0].consts.push(c) },
        ] + s.drop_first()
    } else {
        seq![s[0]] + group_insert(s.drop_first(), comps, c)
    }
}

/// The groups of the custom entries, folded in registry order.
pub open spec fn groups_fold(s: Seq<GroupModel>, entries: Seq<EntryModel>) -> Seq<GroupModel>
    decreases entries.len(),
{
    if entries.len() == 0 {
        s
    } else {
        let e = entries[0];
        let s2 = if e.provenance is Custom {
            group_insert(s, e.relative_group_path, entry_const(e))
        } else {
            s
        };
        groups_fold(s2, entries.drop_first())
    }
}

/// The custom groups of a registry.
pub open spec fn custom_groups(entries: Seq<EntryModel>) -> Seq<GroupModel> {
    groups_fold(Seq::empty(), entries)
}

/// `group_insert` of fresh components is insertion at the first position
/// whose key is strictly above.
proof fn lemma_group_insert_at(s: Seq<GroupModel>, comps: Seq<Seq<char>>, c: ConstModel, p: int)
    requires
        keys_match(s),
        0 <= p <= s.len(),
        forall|k: int| 0 <= k < p ==> !lex_lt(group_key_of(comps), (#[trigger] s[k]).key) && (
        #[trigger] s[k]).components != comps,
        p < s.len() ==> lex_lt(group_key_of(comps), s[p].key),
    ensures
        group_insert(s, comps, c) == s.insert(
            p,
            GroupModel { key: group_key_of(comps), components: comps, consts: seq![c] },
        ),
    decreases p,
{
    let g = GroupModel { key: group_key_of(comps), components: comps, consts: seq![c] };
    if p == 0 {
        if s.len() == 0 {
            assert(group_insert(s, comps, c) =~= s.insert(0, g));
        } else {
            assert(seq![g] + s =~= s.insert(0, g));
        }
    } else {
        assert(!lex_lt(group_key_of(comps), s[0].key));
        assert(s[0].components != comps);
        let t = s.drop_first();
        assert forall|k: int| 0 <= k < p - 1 implies !lex_lt(
            group_key_of(comps),
            (#[trigger] t[k]).key,
        ) && (#[trigger] t[k]).components != comps by {
            assert(t[k] == s[k + 1]);
        }
        assert forall|k: int| 0 <= k < t.len() implies (#[trigger] t[k]).key == group_key_of(
            t[k].components,
        ) by {
            assert(t[k] == s[k + 1]);
        }
        if p - 1 < t.len() {
            assert(t[p - 1] == s[p]);
        }
        lemma_group_insert_at(t, comps, c, p - 1);
        assert(seq![s[0]] + t.insert(p - 1, g) =~= s.insert(p, g));
    }
}

/// `group_insert` of known components appends the constant to the group
/// holding them.
proof fn lemma_group_insert_extends(s: Seq<GroupModel>, comps: Seq<Seq<char>>, c: ConstModel, p: int)
    requires
        keys_match(s),
        0 <= p < s.len(),
        forall|k: int| 0 <= k < p ==> !lex_lt(group_key_of(comps), (#[trigger] s[k]).key) && (
        #[trigger] s[k]).components != comps,
        s[p].components == comps,
    ensures
        group_insert(s, comps, c) == s.update(
            p,
            GroupModel { key: s[p].key, components: s[p].components, consts: s[p].consts.push(c) },
        ),
    decreases p,
{
    if p == 0 {
        assert(s[0].key == group_key_of(comps));
        lemma_lex_irreflexive(s[0].key);
        assert(!lex_lt(group_key_of(comps), s[0].key));
        assert(seq![
            GroupModel { key: s[0].key, components: s[0].components, consts: s[0].consts.push(c) },
        ] + s.drop_first() =~= s.update(
            0,
            GroupModel { key: s[0].key, components: s[0].components, consts: s[0].consts.push(c) },
        ));
    } else {
        assert(!lex_lt(group_key_of(comps), s[0].key));
        assert(s[0].components != comps);
        let t = s.drop_first();
        assert forall|k: int| 0 <= k < p - 1 implies !lex_lt(
            group_key_of(comps),
            (#[trigger] t[k]).key,
        ) && (#[trigger] t[k]).components != comps by {
            assert(t[k] == s[k + 1]);
        }
        assert forall|k: int| 0 <= k < t.len() implies (#[trigger] t[k]).key == group_key_of(
            t[k].components,
        ) by {
            assert(t[k] == s[k + 1]);
        }
        assert(t[p - 1] == s[p]);
        lemma_group_insert_extends(t, comps, c, p - 1);
        assert(seq![s[0]] + t.update(
            p - 1,
            GroupModel { key: s[p].key, components: s[p].components, consts: s[p].consts.push(c) },
        ) =~= s.update(
            p,
            GroupModel { key: s[p].key, components: s[p].components, consts: s[p].consts.push(c) },
        ));
    }
}

/// Inserting a new group at its place keeps order and keys intact.
proof fn lemma_group_insert_keeps(s: Seq<GroupModel>, comps: Seq<Seq<char>>, c: ConstModel, p: int)
    requires
        keys_ordered(s),
        keys_match(s),
        0 <= p <= s.len(),
        forall|k: int| 0 <= k < p ==> !lex_lt(group_key_of(comps), (#[trigger] s[k]).key),
        p < s.len() ==> lex_lt(group_key_of(comps), s[p].key),
    ensures
        keys_ordered(
            s.insert(p, GroupModel { key: group_key_of(comps), components: comps, consts: seq![c] }),
        ),
        keys_match(
            s.insert(p, GroupModel { key: group_key_of(comps), components: comps, consts: seq![c] }),
        ),
{
    let g = GroupModel { key: group_key_of(comps), components: comps, consts: seq![c] };
    let t = s.insert(p, g);
    assert forall|i: int, j: int| 0 <= i < j < t.len() implies !lex_lt(
        (#[trigger] t[j]).key,
        (#[trigger] t[i]).key,
    ) by {
        if j < p {
            assert(t[i] == s[i]);
            assert(t[j] == s[j]);
        } else if j == p {
            assert(t[i] == s[i]);
            assert(t[j] == g);
            if lex_lt(g.key, s[i].key) {
                lemma_lex_irreflexive(g.key);
                if s[i].key != g.key {
                    lemma_lex_transitive(g.key, s[i].key, g.key);
                }
            }
        } else if i < p {
            assert(t[i] == s[i]);
            assert(t[j] == s[j - 1]);
            assert(i <= j - 1);
            if i == j - 1 {
            } else {
                assert(!lex_lt(s[j - 1].key, s[i].key));
            }
        } else if i == p {
            assert(t[i] == g);
            assert(t[j] == s[j - 1]);
            assert(p <= j - 1);
            if lex_lt(s[j - 1].key, g.key) {
                if j - 1 == p {
                    lemma_lex_irreflexive(s[p].key);
                    lemma_lex_transitive(s[p].key, g.key, s[p].key);
                } else {
                    assert(!lex_lt(s[j - 1].key, s[p].key));
                    lemma_lex_transitive(s[j - 1].key, g.key, s[p].key);
                }
            }
        } else {
            assert(t[i] == s[i - 1]);
            assert(t[j] == s[j - 1]);
            assert(!lex_lt(s[j - 1].key, s[i - 1].key));
        }
    }
    assert forall|i: int| 0 <= i < t.len() implies (#[trigger] t[i]).key == group_key_of(
        t[i].components,
    ) by {
        if i < p {
            assert(t[i] == s[i]);
        } else if i == p {
            assert(t[i] == g);
        } else {
            assert(t[i] == s[i - 1]);
        }
    }
}

/// Extending a group's constants keeps order and keys intact.
proof fn lemma_group_update_keeps(s: Seq<GroupModel>, c: ConstModel, p: int)
    requires
        keys_ordered(s),
        keys_match(s),
        0 <= p < s.len(),
    ensures
        keys_ordered(
            s.update(
                p,
                GroupModel {
                    key: s[p].key,
                    components: s[p].components,
                    consts: s[p].consts.push(c),
                },
            ),
        ),
        keys_match(
            s.update(
                p,
                GroupModel {
                    key: s[p].key,
                    components: s[p].components,
                    consts: s[p].consts.push(c),
                },
            ),
        ),
{
    let t = s.update(
        p,
        GroupModel { key: s[p].key, components: s[p].components, consts: s[p].consts.push(c) },
    );
    assert forall|i: int, j: int| 0 <= i < j < t.len() implies !lex_lt(
        (#[trigger] t[j]).key,
        (#[trigger] t[i]).key,
    ) by {
        assert(t[i].key == s[i].key);
        assert(t[j].key == s[j].key);
    }
    assert forall|i: int| 0 <= i < t.len() implies (#[trigger] t[i]).key == group_key_of(
        t[i].components,
    ) by {
        assert(t[i].key == s[i].key);
        assert(t[i].components == s[i].components);
    }
}

/// The custom groups under construction, ordered by directory path.
pub struct GroupMap {
    entries: Vec<GroupEntry>,
}

impl View for GroupMap {
    type V = Seq<GroupModel>;

    closed spec fn view(&self) -> Seq<GroupModel> {
        self.entries@.map_values(|g: GroupEntry| g@)
    }
}

/// Whether two component vectors hold the same strings.
fn components_equal(a: &Vec<String>, b: &Vec<String>) -> (r: bool)
    ensures
        r == (seq_views(a@) == seq_views(b@)),
{
    let n = a.len();
    if n != b.len() {
        assert(seq_views(a@).len() != seq_views(b@).len());
        return false;
    }
    let mut i: usize = 0;
    while i < n
        invariant
            n == a@.len(),
            n == b@.len(),
            i <= n,
            forall|k: int| 0 <= k < i ==> #[trigger] seq_views(a@)[k] == seq_views(b@)[k],
        decreases n - i,
    {
        proof {
            assert(seq_views(a@)[i as int] == a@[i as int]@);
            assert(seq_views(b@)[i as int] == b@[i as int]@);
        }
        match str_compare(a[i].as_str(), b[i].as_str()) {
            KeyOrder::Equal => {
                i += 1;
            },
            _ => {
                assert(seq_views(a@)[i as int] != seq_views(b@)[i as int]);
                return false;
            },
        }
    }
    assert(seq_views(a@) =~= seq_views(b@));
    true
}

/// A copy of a component vector.
fn clone_components(v: &Vec<String>) -> (r: Vec<String>)
    ensures
        seq_views(r@) == seq_views(v@),
{
    let mut r: Vec<String> = Vec::new();
    let n = v.len();
    let mut i: usize = 0;
    while i < n
        invariant
            n == v@.len(),
            i <= n,
            r@.len() == i,
            forall|k: int| 0 <= k < i ==> #[trigger] r@[k]@ == v@[k]@,
        decreases n - i,
    {
        r.push(v[i].clone());
        i += 1;
    }
    proof {
        assert forall|k: int| 0 <= k < n implies #[trigger] seq_views(r@)[k] == seq_views(
            v@,
        )[k] by {
            assert(seq_views(r@)[k] == r@[k]@);
            assert(seq_views(v@)[k] == v@[k]@);
        }
        assert(seq_views(r@) =~= seq_views(v@));
    }
    r
}

impl GroupMap {
    /// The map invariant.
    pub open spec fn wf(&self) -> bool {
        keys_ordered(self@) && keys_match(self@)
    }

    /// An empty map.
    pub fn new() -> (r: GroupMap)
        ensures
            r@ == Seq::<GroupModel>::empty(),
            r.wf(),
    {
        let r = GroupMap { entries: Vec::new() };
        proof {
            assert(r@ =~= Seq::<GroupModel>::empty());
        }
        r
    }

    /// Number of groups.
    pub fn len(&self) -> (n: usize)
        ensures
            n == self@.len(),
    {
        self.entries.len()
    }

    /// The group at position `i`, in key order.
    pub fn get(&self, i: usize) -> (g: &GroupEntry)
        requires
            i < self@.len(),
        ensures
            g@ == self@[i as int],
    {
        &self.entries[i]
    }

    /// Adds one constant under its directory components.
    pub fn add(&mut self, comps: &Vec<String>, c: ConstPair)
        requires
            old(self).wf(),
        ensures
            final(self).wf(),
            final(self)@ == group_insert(old(self)@, seq_views(comps@), c@),
    {
        let ghost s = old(self)@;
        assert(self@ == s);
        let ghost cv = seq_views(comps@);
        let key = join_strings(comps, '/');
        assert(key@ == group_key_of(cv));
        let n = self.entries.len();
        let mut i: usize = 0;
        while i < n
            invariant
                s == old(self)@,
                cv == seq_views(comps@),
                key@ == group_key_of(cv),
                n == s.len(),
                i <= n,
                self@ == s,
                keys_ordered(s),
                keys_match(s),
                forall|k: int| 0 <= k < i ==> !lex_lt(group_key_of(cv), (#[trigger] s[k]).key) && (
                #[trigger] s[k]).components != cv,
            decreases n - i,
        {
            proof {
                assert(self.entries@.map_values(|g: GroupEntry| g@)[i as int]
                    == self.entries@[i as int]@);
            }
            match str_compare(key.as_str(), self.entries[i].key.as_str()) {
                KeyOrder::Less => {
                    proof {
                        lemma_group_insert_at(s, cv, c@, i as int);
                        lemma_group_insert_keeps(s, cv, c@, i as int);
                    }
                    let g = GroupEntry {
                        key,
                        components: clone_components(comps),
                        consts: vec_of_one(c),
                    };
                    proof {
                        assert(g@.consts =~= seq![c@]);
                        assert(g@ == (GroupModel {
                            key: group_key_of(cv),
                            components: cv,
                            consts: seq![c@],
                        }));
                    }
                    self.entries.insert(i, g);
                    proof {
                        assert(self@ =~= s.insert(
                            i as int,
                            GroupModel { key: group_key_of(cv), components: cv, consts: seq![c@] },
                        )) by {
                            assert forall|k: int| 0 <= k < self.entries@.len() implies #[trigger] self@[k]
                                == s.insert(
                                i as int,
                                GroupModel {
                                    key: group_key_of(cv),
                                    components: cv,
                                    consts: seq![c@],
                                },
                            )[k] by {
                                assert(self@[k] == self.entries@[k]@);
                            }
                        }
                    }
                    return ;
                },
                KeyOrder::Equal => {
                    if components_equal(&self.entries[i].components, comps) {
                        proof {
                            assert(s[i as int].components == cv);
                            lemma_group_insert_extends(s, cv, c@, i as int);
                            lemma_group_update_keeps(s, c@, i as int);
                        }
                        let mut g = self.entries.remove(i);
                        let ghost gold = g@;
                        g.consts.push(c);
                        proof {
                            assert(g@.consts =~= gold.consts.push(c@));
                            assert(g@ == (GroupModel {
                                key: gold.key,
                                components: gold.components,
                                consts: gold.consts.push(c@),
                            }));
                        }
                        self.entries.insert(i, g);
                        proof {
                            let updated = GroupModel {
                                key: s[i as int].key,
                                components: s[i as int].components,
                                consts: s[i as int].consts.push(c@),
                            };
                            assert(self@ =~= s.update(i as int, updated)) by {
                                assert forall|k: int| 0 <= k < self.entries@.len() implies #[trigger] self@[k]
                                    == s.update(i as int, updated)[k] by {
                                    assert(self@[k] == self.entries@[k]@);
                                    assert(s[k] == old(self).entries@[k]@);
                                }
                            }
                        }
                        return ;
                    } else {
                        proof {
                            lemma_lex_irreflexive(group_key_of(cv));
                            assert(!lex_lt(group_key_of(cv), s[i as int].key));
                        }
                        i += 1;
                    }
                },
                KeyOrder::Greater => {
                    proof {
                        lemma_lex_irreflexive(group_key_of(cv));
                        if lex_lt(group_key_of(cv), s[i as int].key) {
                            lemma_lex_transitive(
                                group_key_of(cv),
                                s[i as int].key,
                                group_key_of(cv),
                            );
                        }
                        assert(!lex_lt(group_key_of(cv), s[i as int].key));
                        assert(s[i as int].components != cv) by {
                            if s[i as int].components == cv {
                                assert(s[i as int].key == group_key_of(cv));
                                lemma_lex_irreflexive(group_key_of(cv));
                            }
                        }
                    }
                    i += 1;
                },
            }
        }
        proof {
            lemma_group_insert_at(s, cv, c@, n as int);
            lemma_group_insert_keeps(s, cv, c@, n as int);
        }
        let g = GroupEntry { key, components: clone_components(comps), consts: vec_of_one(c) };
        proof {
            assert(g@.consts =~= seq![c@]);
            assert(g@ == (GroupModel { key: group_key_of(cv), components: cv, consts: seq![c@] }));
        }
        self.entries.push(g);
        proof {
            assert(self@ =~= s.insert(
                n as int,
                GroupModel { key: group_key_of(cv), components: cv, consts: seq![c@] },
            )) by {
                assert forall|k: int| 0 <= k < self.entries@.len() implies #[trigger] self@[k]
                    == s.insert(
                    n as int,
                    GroupModel { key: group_key_of(cv), components: cv, consts: seq![c@] },
                )[k] by {
                    assert(self@[k] == self.entries@[k]@);
                }
            }
        }
    }
}

/// A vector holding one constant.
fn vec_of_one(c: ConstPair) -> (r: Vec<ConstPair>)
    ensures
        r@.map_values(|x: ConstPair| x@) == seq![c@],
{
    let ghost cm = c@;
    let mut r: Vec<ConstPair> = Vec::new();
    r.push(c);
    proof {
        assert(r@.map_values(|x: ConstPair| x@) =~= seq![cm]);
    }
    r
}

/// The generated line of one shipped icon: a doc comment naming the icon
/// and its file, then the constant, bound to the bare identifier.
pub open spec fn shipped_line(e: EntryModel) -> Seq<char> {
    "/// Icon name of the icon `"@ + e.identifier + "`, found at `"@ + e.source_path
        + "`\npub const "@ + const_case(e.identifier) + ": &str = \""@ + e.identifier + "\";\n"@
}

/// The lines of all shipped entries, in registry order.
pub open spec fn render_shipped(entries: Seq<EntryModel>) -> Seq<char>
    decreases entries.len(),
{
    if entries.len() == 0 {
        Seq::empty()
    } else {
        (if entries[0].provenance is Shipped {
            shipped_line(entries[0])
        } else {
            Seq::<char>::empty()
        }) + render_shipped(entries.drop_first())
    }
}

/// The generated line of one custom constant.
pub open spec fn const_line(c: ConstModel) -> Seq<char> {
    "pub const "@ + c.name + ": &str = \""@ + c.value + "\";\n"@
}

/// The lines of a group's constants, in arrival order.
pub open spec fn render_consts(cs: Seq<ConstModel>) -> Seq<char>
    decreases cs.len(),
{
    if cs.len() == 0 {
        Seq::empty()
    } else {
        const_line(cs[0]) + render_consts(cs.drop_first())
    }
}

/// The nested module headers of a group, one per directory component,
/// dashes folded to underscores.
pub open spec fn open_mods(comps: Seq<Seq<char>>) -> Seq<char>
    decreases comps.len(),
{
    if comps.len() == 0 {
        Seq::empty()
    } else {
        "pub mod "@ + replace_char(comps[0], '-', '_') + " {\n"@ + open_mods(comps.drop_first())
    }
}

/// `n` closing braces, one per opened module.
pub open spec fn close_mods(n: nat) -> Seq<char>
    decreases n,
{
    if n == 0 {
        Seq::empty()
    } else {
        "}\n"@ + close_mods((n - 1) as nat)
    }
}

proof fn lemma_close_mods_snoc(n: nat)
    ensures
        close_mods(n + 1) == close_mods(n) + "}\n"@,
    decreases n,
{
    if n == 0 {
        assert(close_mods(1) =~= close_mods(0) + "}\n"@);
    } else {
        lemma_close_mods_snoc((n - 1) as nat);
        assert("}\n"@ + (close_mods((n - 1) as nat) + "}\n"@) =~= ("}\n"@ + close_mods(
            (n - 1) as nat,
        )) + "}\n"@);
    }
}

/// The text of one group: constants of the custom root at the top level,
/// others nested in modules mirroring their directory components.
pub open spec fn render_group(g: GroupModel) -> Seq<char> {
    if g.components.len() == 0 {
        render_consts(g.consts)
    } else {
        open_mods(g.components) + render_consts(g.consts) + close_mods(g.components.len())
    }
}

/// The text of all groups, in key order.
pub open spec fn render_groups(gs: Seq<GroupModel>) -> Seq<char>
    decreases gs.len(),
{
    if gs.len() == 0 {
        Seq::empty()
    } else {
        render_group(gs[0]) + render_groups(gs.drop_first())
    }
}

/// The decimal digit character of `d`, for `d` below ten.
pub open spec fn dec_digit(d: u8) -> char {
    ((48 + d) as u8) as char
}

/// The decimal text of one byte.
pub open spec fn dec_u8(b: u8) -> Seq<char> {
    if b < 10 {
        seq![dec_digit(b)]
    } else if b < 100 {
        seq![dec_digit(b / 10), dec_digit(b % 10)]
    } else {
        seq![dec_digit(b / 100), dec_digit((b / 10) % 10), dec_digit(b % 10)]
    }
}

/// The container bytes as a comma-separated decimal list.
pub open spec fn render_bytes(bytes: Seq<u8>) -> Seq<char>
    decreases bytes.len(),
{
    if bytes.len() == 0 {
        Seq::empty()
    } else {
        dec_u8(bytes[0]) + ","@ + render_bytes(bytes.drop_first())
    }
}

/// The whole generated source text: the shipped module, the custom
/// module with its nested groups, and the two fixed bindings the
/// consumer's initialization call needs — the embedded container bytes
/// and the resource prefix.
pub open spec fn constants_text(
    entries: Seq<EntryModel>,
    prefix: Seq<char>,
    container: Seq<u8>,
) -> Seq<char> {
    "#![rustfmt::skip]\n"@ + "pub mod shipped {\n//! module contains shipped icons\n\n"@
        + render_shipped(entries) + "}\n\n"@
        + "pub mod custom {\n//! module contains user's custom icons\n\n"@ + render_groups(
        custom_groups(entries),
    ) + "}\n"@ + "/// GResource file contents\npub const GRESOURCE_BYTES: &[u8] = &["@
        + render_bytes(container)
        + "];\n/// Resource prefix used in generated `.gresource` file\npub const RESOURCE_PREFIX: &str = \""@
        + prefix + "\";"@
}

/// Appends the shipped entries' constant lines.
fn append_shipped(out: &mut String, registry: &Registry)
    ensures
        final(out)@ == old(out)@ + render_shipped(registry@),
{
    let ghost entries = registry@;
    let n = registry.len();
    let mut i: usize = 0;
    proof {
        assert(entries.skip(0) =~= entries);
        assert(out@ + render_shipped(entries) =~= old(out)@ + render_shipped(entries));
    }
    while i < n
        invariant
            entries == registry@,
            n == entries.len(),
            i <= n,
            old(out)@ + render_shipped(entries) == out@ + render_shipped(entries.skip(i as int)),
        decreases n - i,
    {
        let ghost rest = entries.skip(i as int);
        proof {
            assert(rest[0] == entries[i as int]);
            assert(rest.drop_first() =~= entries.skip(i + 1));
        }
        let e = registry.get(i);
        match e.provenance {
            Provenance::Shipped => {
                out.append("/// Icon name of the icon `");
                out.append(e.identifier.as_str());
                out.append("`, found at `");
                out.append(e.source_path.as_str());
                out.append("`\npub const ");
                let cn = to_const_case(e.identifier.as_str());
                out.append(cn.as_str());
                out.append(": &str = \"");
                out.append(e.identifier.as_str());
                out.append("\";\n");
            },
            Provenance::Custom => {},
        }
        proof {
            assert(old(out)@ + render_shipped(entries) =~= out@ + render_shipped(
                entries.skip(i + 1),
            ));
        }
        i += 1;
    }
    proof {
        assert(entries.skip(n as int).len() == 0);
        assert(out@ + render_shipped(entries.skip(n as int)) =~= out@);
    }
}

/// Appends a group's constant lines.
fn append_consts(out: &mut String, consts: &Vec<ConstPair>)
    ensures
        final(out)@ == old(out)@ + render_consts(consts@.map_values(|c: ConstPair| c@)),
{
    let ghost cs = consts@.map_values(|c: ConstPair| c@);
    let n = consts.len();
    let mut i: usize = 0;
    proof {
        assert(cs.skip(0) =~= cs);
        assert(out@ + render_consts(cs) =~= old(out)@ + render_consts(cs));
    }
    while i < n
        invariant
            cs == consts@.map_values(|c: ConstPair| c@),
            n == cs.len(),
            i <= n,
            old(out)@ + render_consts(cs) == out@ + render_consts(cs.skip(i as int)),
        decreases n - i,
    {
        let ghost rest = cs.skip(i as int);
        proof {
            assert(cs[i as int] == consts@[i as int]@);
            assert(rest[0] == cs[i as int]);
            assert(rest.drop_first() =~= cs.skip(i + 1));
        }
        out.append("pub const ");
        out.append(consts[i].name.as_str());
        out.append(": &str = \"");
        out.append(consts[i].value.as_str());
        out.append("\";\n");
        proof {
            assert(old(out)@ + render_consts(cs) =~= out@ + render_consts(cs.skip(i + 1)));
        }
        i += 1;
    }
    proof {
        assert(cs.skip(n as int).len() == 0);
        assert(out@ + render_consts(cs.skip(n as int)) =~= out@);
    }
}

/// Appends one group: its module headers, constants and closing braces.
fn append_group(out: &mut String, g: &GroupEntry)
    ensures
        final(out)@ == old(out)@ + render_group(g@),
{
    let m = g.components.len();
    if m == 0 {
        append_consts(out, &g.consts);
        return ;
    }
    let ghost comps = g@.components;
    let mut j: usize = 0;
    proof {
        assert(comps.skip(0) =~= comps);
        assert(out@ + open_mods(comps) =~= old(out)@ + open_mods(comps));
    }
    while j < m
        invariant
            comps == g@.components,
            m == comps.len(),
            j <= m,
            old(out)@ + open_mods(comps) == out@ + open_mods(comps.skip(j as int)),
        decreases m - j,
    {
        let ghost rest = comps.skip(j as int);
        proof {
            assert(comps[j as int] == g.components@[j as int]@);
            assert(rest[0] == comps[j as int]);
            assert(rest.drop_first() =~= comps.skip(j + 1));
        }
        out.append("pub mod ");
        let name = crate::text::str_replace_char(g.components[j].as_str(), '-', '_');
        out.append(name.as_str());
        out.append(" {\n");
        proof {
            assert(old(out)@ + open_mods(comps) =~= out@ + open_mods(comps.skip(j + 1)));
        }
        j += 1;
    }
    proof {
        assert(comps.skip(m as int).len() == 0);
        assert(out@ + open_mods(comps.skip(m as int)) =~= out@);
    }
    append_consts(out, &g.consts);
    let ghost before_close = out@;
    let mut k: usize = 0;
    while k < m
        invariant
            comps == g@.components,
            m == comps.len(),
            k <= m,
            out@ == before_close + close_mods(k as nat),
        decreases m - k,
    {
        out.append("}\n");
        proof {
            lemma_close_mods_snoc(k as nat);
            assert(out@ =~= before_close + close_mods((k + 1) as nat));
        }
        k += 1;
    }
    proof {
        assert(final(out)@ =~= old(out)@ + render_group(g@));
    }
}

/// Appends all groups, in key order.
fn append_groups(out: &mut String, gm: &GroupMap)
    ensures
        final(out)@ == old(out)@ + render_groups(gm@),
{
    let ghost gs = gm@;
    let n = gm.len();
    let mut i: usize = 0;
    proof {
        assert(gs.skip(0) =~= gs);
        assert(out@ + render_groups(gs) =~= old(out)@ + render_groups(gs));
    }
    while i < n
        invariant
            gs == gm@,
            n == gs.len(),
            i <= n,
            old(out)@ + render_groups(gs) == out@ + render_groups(gs.skip(i as int)),
        decreases n - i,
    {
        let ghost rest = gs.skip(i as int);
        proof {
            assert(rest[0] == gs[i as int]);
            assert(rest.drop_first() =~= gs.skip(i + 1));
        }
        append_group(out, gm.get(i));
        proof {
            assert(old(out)@ + render_groups(gs) =~= out@ + render_groups(gs.skip(i + 1)));
        }
        i += 1;
    }
    proof {
        assert(gs.skip(n as int).len() == 0);
        assert(out@ + render_groups(gs.skip(n as int)) =~= out@);
    }
}

/// Folds the registry's custom entries into their groups.
fn build_groups(registry: &Registry) -> (gm: GroupMap)
    ensures
        gm.wf(),
        gm@ == custom_groups(registry@),
{
    let ghost entries = registry@;
    let mut gm = GroupMap::new();
    let n = registry.len();
    let mut i: usize = 0;
    proof {
        assert(entries.skip(0) =~= entries);
    }
    while i < n
        invariant
            entries == registry@,
            n == entries.len(),
            i <= n,
            gm.wf(),
            custom_groups(entries) == groups_fold(gm@, entries.skip(i as int)),
        decreases n - i,
    {
        let ghost rest = entries.skip(i as int);
        proof {
            assert(rest[0] == entries[i as int]);
            assert(rest.drop_first() =~= entries.skip(i + 1));
        }
        let e = registry.get(i);
        match e.provenance {
            Provenance::Custom => {
                let c = ConstPair {
                    name: to_const_case(e.file_stem.as_str()),
                    value: e.identifier.clone(),
                };
                proof {
                    assert(c@ == entry_const(entries[i as int]));
                }
                gm.add(&e.relative_group_path, c);
                proof {
                    assert(seq_views(e.relative_group_path@) == entries[i
                        as int].relative_group_path);
                }
            },
            Provenance::Shipped => {},
        }
        i += 1;
    }
    proof {
        assert(entries.skip(n as int).len() == 0);
    }
    gm
}

/// Appends one byte in decimal.
fn push_dec_u8(out: &mut String, b: u8)
    ensures
        final(out)@ == old(out)@ + dec_u8(b),
{
    if b < 10 {
        crate::text::push_char(out, (48 + b) as char);
        proof {
            assert(out@ =~= old(out)@ + dec_u8(b));
        }
    } else if b < 100 {
        crate::text::push_char(out, (48 + b / 10) as char);
        crate::text::push_char(out, (48 + b % 10) as char);
        proof {
            assert(out@ =~= old(out)@ + dec_u8(b));
        }
    } else {
        crate::text::push_char(out, (48 + b / 100) as char);
        crate::text::push_char(out, (48 + (b / 10) % 10) as char);
        crate::text::push_char(out, (48 + b % 10) as char);
        proof {
            assert(out@ =~= old(out)@ + dec_u8(b));
        }
    }
}

/// Appends the container bytes as a decimal list.
fn append_bytes(out: &mut String, bytes: &Vec<u8>)
    ensures
        final(out)@ == old(out)@ + render_bytes(bytes@),
{
    let ghost bs = bytes@;
    let n = bytes.len();
    let mut i: usize = 0;
    proof {
        assert(bs.skip(0) =~= bs);
        assert(out@ + render_bytes(bs) =~= old(out)@ + render_bytes(bs));
    }
    while i < n
        invariant
            bs == bytes@,
            n == bs.len(),
            i <= n,
            old(out)@ + render_bytes(bs) == out@ + render_bytes(bs.skip(i as int)),
        decreases n - i,
    {
        let ghost rest = bs.skip(i as int);
        proof {
            assert(rest[0] == bs[i as int]);
            assert(rest.drop_first() =~= bs.skip(i + 1));
        }
        push_dec_u8(out, bytes[i]);
        out.append(",");
        proof {
            assert(old(out)@ + render_bytes(bs) =~= out@ + render_bytes(bs.skip(i + 1)));
        }
        i += 1;
    }
    proof {
        assert(bs.skip(n as int).len() == 0);
        assert(out@ + render_bytes(bs.skip(n as int)) =~= out@);
    }
}

/// Renders the whole generated source: one constant per shipped entry,
/// the custom entries grouped into nested modules mirroring their
/// directory structure, and at the end the embedded container bytes and
/// the resource prefix. The registry's identifier order and the groups'
/// key order make the text a function of the inputs alone.
pub fn generate_constants(registry: &Registry, prefix: &str, container: &Vec<u8>) -> (r: String)
    ensures
        r@ == constants_text(registry@, prefix@, container@),
{
    let mut out = String::from_str("#![rustfmt::skip]\n");
    out.append("pub mod shipped {\n//! module contains shipped icons\n\n");
    append_shipped(&mut out, registry);
    out.append("}\n\n");
    out.append("pub mod custom {\n//! module contains user's custom icons\n\n");
    let gm = build_groups(registry);
    append_groups(&mut out, &gm);
    out.append("}\n");
    out.append("/// GResource file contents\npub const GRESOURCE_BYTES: &[u8] = &[");
    append_bytes(&mut out, container);
    out.append(
        "];\n/// Resource prefix used in generated `.gresource` file\npub const RESOURCE_PREFIX: &str = \"",
    );
    out.append(prefix);
    out.append("\";");
    proof {
        assert(out@ =~= constants_text(registry@, prefix@, container@));
    }
    out
}

/// Some group of `s` holds exactly these components, and the constant
/// among its entries.
pub open spec fn group_has(s: Seq<GroupModel>, comps: Seq<Seq<char>>, c: ConstModel) -> bool {
    exists|g: int|
        0 <= g < s.len() && (#[trigger] s[g]).components == comps && s[g].consts.contains(c)
}

proof fn lemma_insert_has(s: Seq<GroupModel>, comps: Seq<Seq<char>>, c: ConstModel)
    ensures
        group_has(group_insert(s, comps, c), comps, c),
    decreases s.len(),
{
    let t = group_insert(s, comps, c);
    if s.len() == 0 {
        assert(t[0].consts == seq![c]);
        assert(t[0].consts[0] == c);
        assert(t[0].consts.contains(c));
    } else if lex_lt(group_key_of(comps), s[0].key) {
        assert(t[0].components == comps);
        assert(t[0].consts[0] == c);
        assert(t[0].consts.contains(c));
    } else if s[0].components == comps {
        assert(t[0].components == comps);
        assert(t[0].consts[s[0].consts.len() as int] == c);
        assert(t[0].consts.contains(c));
    } else {
        lemma_insert_has(s.drop_first(), comps, c);
        let u = group_insert(s.drop_first(), comps, c);
        let g = choose|g: int|
            0 <= g < u.len() && (#[trigger] u[g]).components == comps && u[g].consts.contains(c);
        assert(t[g + 1] == u[g]);
        assert(group_has(t, comps, c));
    }
}

proof fn lemma_insert_preserves(
    s: Seq<GroupModel>,
    comps0: Seq<Seq<char>>,
    c0: ConstModel,
    comps: Seq<Seq<char>>,
    c: ConstModel,
)
    requires
        group_has(s, comps, c),
    ensures
        group_has(group_insert(s, comps0, c0), comps, c),
    decreases s.len(),
{
    let t = group_insert(s, comps0, c0);
    let g = choose|g: int|
        0 <= g < s.len() && (#[trigger] s[g]).components == comps && s[g].consts.contains(c);
    if s.len() == 0 {
    } else if lex_lt(group_key_of(comps0), s[0].key) {
        assert(t[g + 1] == s[g]);
        assert(group_has(t, comps, c));
    } else if s[0].components == comps0 {
        if g == 0 {
            assert(t[0].components == s[0].components);
            let idx = choose|i: int| 0 <= i < s[0].consts.len() && s[0].consts[i] == c;
            assert(t[0].consts[idx] == c);
            assert(t[0].consts.contains(c));
            assert(group_has(t, comps, c));
        } else {
            assert(t[g] == s[g]);
            assert(group_has(t, comps, c));
        }
    } else {
        if g == 0 {
            assert(t[0] == s[0]);
            assert(group_has(t, comps, c));
        } else {
            assert(s.drop_first()[g - 1] == s[g]);
            assert(group_has(s.drop_first(), comps, c));
            lemma_insert_preserves(s.drop_first(), comps0, c0, comps, c);
            let u = group_insert(s.drop_first(), comps0, c0);
            let h = choose|h: int|
                0 <= h < u.len() && (#[trigger] u[h]).components == comps && u[h].consts.contains(
                    c,
                );
            assert(t[h + 1] == u[h]);
            assert(group_has(t, comps, c));
        }
    }
}

proof fn lemma_fold_preserves(
    s: Seq<GroupModel>,
    entries: Seq<EntryModel>,
    comps: Seq<Seq<char>>,
    c: ConstModel,
)
    requires
        group_has(s, comps, c),
    ensures
        group_has(groups_fold(s, entries), comps, c),
    decreases entries.len(),
{
    if entries.len() > 0 {
        let e = entries[0];
        if e.provenance is Custom {
            lemma_insert_preserves(s, e.relative_group_path, entry_const(e), comps, c);
            lemma_fold_preserves(
                group_insert(s, e.relative_group_path, entry_const(e)),
                entries.drop_first(),
                comps,
                c,
            );
        } else {
            lemma_fold_preserves(s, entries.drop_first(), comps, c);
        }
    }
}

proof fn lemma_custom_nesting_fold(s: Seq<GroupModel>, entries: Seq<EntryModel>, k: int)
    requires
        0 <= k < entries.len(),
        entries[k].provenance is Custom,
    ensures
        group_has(
            groups_fold(s, entries),
            entries[k].relative_group_path,
            entry_const(entries[k]),
        ),
    decreases k,
{
    let e = entries[0];
    let s2 = if e.provenance is Custom {
        group_insert(s, e.relative_group_path, entry_const(e))
    } else {
        s
    };
    if k == 0 {
        lemma_insert_has(s, e.relative_group_path, entry_const(e));
        lemma_fold_preserves(s2, entries.drop_first(), e.relative_group_path, entry_const(e));
    } else {
        assert(entries.drop_first()[k - 1] == entries[k]);
        lemma_custom_nesting_fold(s2, entries.drop_first(), k - 1);
    }
}

/// Nesting fidelity: every custom entry's constant stands in the group
/// whose components are exactly the entry's directory path under the
/// custom root, so the emitted constant is reachable by the
/// fully-qualified module path that mirrors the source directory
/// structure.
pub proof fn lemma_custom_nesting(entries: Seq<EntryModel>, k: int)
    requires
        0 <= k < entries.len(),
        entries[k].provenance is Custom,
    ensures
        group_has(custom_groups(entries), entries[k].relative_group_path, entry_const(entries[k])),
{
    lemma_custom_nesting_fold(Seq::empty(), entries, k);
}

} // verus!
