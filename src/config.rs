use vstd::multiset::Multiset;
use vstd::prelude::*;

use crate::disk::{DiskState, DiskView};
use crate::paths::{lemma_lex_total, lex_lt, str_lt, 
    definition_extension, definition_file, extension, extension_of, join, path_join, shim_file,
    shim_file_name, str_eq, with_extension,
};

verus! {

/// The two categories of plugin groups.
#[derive(Clone, Copy, Debug, PartialEq, Eq, Structural)]
pub enum PluginGroupType {
    Effect,
    Generator,
}

/// The display name of a category, also the name of its directory of definitions.
pub open spec fn category_name(t: PluginGroupType) -> Seq<char> {
    match t {
        PluginGroupType::Effect => seq!['e', 'f', 'f', 'e', 'c', 't'],
        PluginGroupType::Generator => seq!['g', 'e', 'n', 'e', 'r', 'a', 't', 'o', 'r'],
    }
}

/// The directory of a category in the plugin database.
pub open spec fn type_segment(t: PluginGroupType) -> Seq<char> {
    match t {
        PluginGroupType::Effect => seq!['E', 'f', 'f', 'e', 'c', 't', 's'],
        PluginGroupType::Generator => seq!['G', 'e', 'n', 'e', 'r', 'a', 't', 'o', 'r', 's'],
    }
}

impl PluginGroupType {
    /// The display name of the category.
    pub fn name(&self) -> (r: String)
        ensures
            r@ == category_name(*self),
    {
        match self {
            PluginGroupType::Effect => {
                proof {
                    reveal_strlit("effect");
                    assert("effect"@ =~= category_name(*self));
                }
                "effect".to_owned()
            },
            PluginGroupType::Generator => {
                proof {
                    reveal_strlit("generator");
                    assert("generator"@ =~= category_name(*self));
                }
                "generator".to_owned()
            },
        }
    }

    /// The directory under `base_path` that holds the category's definition files.
    pub fn path(&self, base_path: &str) -> (r: String)
        ensures
            r@ == path_join(base_path@, category_name(*self)),
    {
        let name = self.name();
        join(base_path, name.as_str())
    }

    /// The category's directory in the plugin database.
    pub fn segment(&self) -> (r: String)
        ensures
            r@ == type_segment(*self),
    {
        match self {
            PluginGroupType::Effect => {
                proof {
                    reveal_strlit("Effects");
                    assert("Effects"@ =~= type_segment(*self));
                }
                "Effects".to_owned()
            },
            PluginGroupType::Generator => {
                proof {
                    reveal_strlit("Generators");
                    assert("Generators"@ =~= type_segment(*self));
                }
                "Generators".to_owned()
            },
        }
    }
}

/// A named group of plugins, and the names of the plugins that are sorted into it.
#[derive(Debug)]
pub struct PluginGroup {
    pub name: String,
    pub plugins: Vec<String>,
}

/// The mathematical value of a [`PluginGroup`].
pub struct GroupSpec {
    pub name: Seq<char>,
    pub plugins: Seq<Seq<char>>,
}

/// The views of a list of strings.
pub open spec fn strings_view(v: Seq<String>) -> Seq<Seq<char>> {
    v.map_values(|s: String| s@)
}

impl View for PluginGroup {
    type V = GroupSpec;

    open spec fn view(&self) -> GroupSpec {
        GroupSpec { name: self.name@, plugins: strings_view(self.plugins@) }
    }
}

/// The views of a list of groups.
pub open spec fn groups_view(v: Seq<PluginGroup>) -> Seq<GroupSpec> {
    v.map_values(|g: PluginGroup| g@)
}

impl PluginGroup {
    /// A group called `name` that holds `plugins`, in order.
    pub fn new(name: &str, plugins: Vec<String>) -> (r: Self)
        ensures
            r@ == (GroupSpec { name: name@, plugins: strings_view(plugins@) }),
    {
        PluginGroup { name: name.to_owned(), plugins }
    }
}

/// A group definition file: its identifier (the file name without extension) and its contents.
#[derive(Debug)]
pub struct DefinitionFile {
    pub id: String,
    pub group: PluginGroup,
}

/// A warning of the load: the file `file` declares a name that an earlier file declared too.
#[derive(Debug)]
pub struct DuplicateName {
    pub name: String,
    pub file: String,
}

/// The index of the first group in `gs` called `name`, if any.
pub open spec fn index_of_name(gs: Seq<GroupSpec>, name: Seq<char>) -> Option<int>
    decreases gs.len(),
{
    if gs.len() == 0 {
        None
    } else {
        match index_of_name(gs.drop_last(), name) {
            Some(i) => Some(i),
            None => if gs.last().name == name {
                Some(gs.len() - 1)
            } else {
                None
            },
        }
    }
}

/// The groups that a registry keeps of the definitions `gs`, read in order: one per name, with
/// the contents of the last definition of that name, at the place where the name came first.
pub open spec fn retained(gs: Seq<GroupSpec>) -> Seq<GroupSpec>
    decreases gs.len(),
{
    if gs.len() == 0 {
        Seq::empty()
    } else {
        let kept = retained(gs.drop_last());
        match index_of_name(kept, gs.last().name) {
            Some(i) => kept.update(i, gs.last()),
            None => kept.push(gs.last()),
        }
    }
}

/// The names of the definitions in `gs` that repeat a name declared before them.
pub open spec fn duplicates(gs: Seq<GroupSpec>) -> Seq<Seq<char>>
    decreases gs.len(),
{
    if gs.len() == 0 {
        Seq::empty()
    } else {
        let earlier = duplicates(gs.drop_last());
        match index_of_name(retained(gs.drop_last()), gs.last().name) {
            Some(_) => earlier.push(gs.last().name),
            None => earlier,
        }
    }
}

/// The contents of a list of definition files.
pub open spec fn definitions_view(files: Seq<DefinitionFile>) -> Seq<GroupSpec> {
    files.map_values(|f: DefinitionFile| f.group@)
}

/// A path that carries the extension of definition files.
pub open spec fn is_definition_path(path: Seq<char>) -> bool {
    extension_of(path) == Some(definition_extension())
}

/// Whether `path` carries the extension of group definition files.
pub fn is_definition_file(path: &str) -> (r: bool)
    ensures
        r == is_definition_path(path@),
{
    match extension(path) {
        Some(e) => {
            proof {
                reveal_strlit("toml");
                assert("toml"@ =~= definition_extension());
            }
            str_eq(e.as_str(), "toml")
        },
        None => false,
    }
}

fn find_name(gs: &Vec<PluginGroup>, name: &str) -> (r: Option<usize>)
    ensures
        match r {
            Some(i) => index_of_name(groups_view(gs@), name@) == Some(i as int),
            None => index_of_name(groups_view(gs@), name@) == None::<int>,
        },
{
    let mut i: usize = 0;
    while i < gs.len()
        invariant
            i <= gs@.len(),
            index_of_name(groups_view(gs@).subrange(0, i as int), name@) == None::<int>,
        decreases gs@.len() - i,
    {
        assert(groups_view(gs@).subrange(0, i + 1).drop_last() =~= groups_view(gs@).subrange(
            0,
            i as int,
        ));
        if str_eq(gs[i].name.as_str(), name) {
            proof {
                lemma_index_of_name_prefix(groups_view(gs@), name@, i + 1, i as int);
            }
            return Some(i);
        }
        i = i + 1;
    }
    assert(groups_view(gs@).subrange(0, gs@.len() as int) =~= groups_view(gs@));
    None
}

proof fn lemma_index_of_name_bounds(gs: Seq<GroupSpec>, name: Seq<char>)
    ensures
        match index_of_name(gs, name) {
            Some(i) => 0 <= i < gs.len() && gs[i].name == name,
            None => true,
        },
    decreases gs.len(),
{
    if gs.len() > 0 {
        lemma_index_of_name_bounds(gs.drop_last(), name);
    }
}

proof fn lemma_index_of_name_prefix(gs: Seq<GroupSpec>, name: Seq<char>, n: int, i: int)
    requires
        0 < n <= gs.len(),
        index_of_name(gs.subrange(0, n), name) == Some(i),
    ensures
        index_of_name(gs, name) == Some(i),
    decreases gs.len() - n,
{
    if n < gs.len() {
        assert(gs.subrange(0, n + 1).drop_last() =~= gs.subrange(0, n));
        assert(index_of_name(gs.subrange(0, n + 1), name) == Some(i));
        lemma_index_of_name_prefix(gs, name, n + 1, i);
    } else {
        assert(gs.subrange(0, n) =~= gs);
    }
}

/// A group that was saved after every other definition of its name is what a load of the
/// registry yields for that name: after saving `g` as the definition at `i`, with no later
/// definition declaring its name, the loaded groups hold `g` unchanged, name and plugins in order.
pub proof fn lemma_saved_group_loads(gs: Seq<GroupSpec>, i: int, g: GroupSpec)
    requires
        0 <= i < gs.len(),
        gs[i] == g,
        forall|j: int| i < j < gs.len() ==> gs[j].name != g.name,
    ensures
        retained(gs).contains(g),
    decreases gs.len(),
{
    let kept = retained(gs.drop_last());
    lemma_index_of_name_bounds(kept, gs.last().name);
    if i == gs.len() - 1 {
        match index_of_name(kept, gs.last().name) {
            Some(k) => assert(retained(gs)[k] == g),
            None => assert(retained(gs)[kept.len() as int] == g),
        }
    } else {
        assert forall|j: int| i < j < gs.drop_last().len() implies gs.drop_last()[j].name != g.name by {
            assert(gs.drop_last()[j] == gs[j]);
        }
        lemma_saved_group_loads(gs.drop_last(), i, g);
        let k = choose|k: int| 0 <= k < kept.len() && kept[k] == g;
        match index_of_name(kept, gs.last().name) {
            Some(m) => {
                assert(m != k);
                assert(retained(gs)[k] == g);
            },
            None => assert(retained(gs)[k] == g),
        }
    }
}

/// A loaded registry holds at most one group of each name, whatever the definitions were.
pub proof fn lemma_retained_names_unique(gs: Seq<GroupSpec>)
    ensures
        forall|i: int, j: int|
            0 <= i < j < retained(gs).len() ==> #[trigger] retained(gs)[i].name != #[trigger] retained(
                gs,
            )[j].name,
    decreases gs.len(),
{
    if gs.len() > 0 {
        let kept = retained(gs.drop_last());
        let last = gs.last();
        lemma_retained_names_unique(gs.drop_last());
        lemma_index_of_name_bounds(kept, last.name);
        lemma_index_of_name_absent(kept, last.name);
    }
}

proof fn lemma_index_of_name_absent(gs: Seq<GroupSpec>, name: Seq<char>)
    ensures
        index_of_name(gs, name) is None ==> forall|k: int| 0 <= k < gs.len() ==> gs[k].name != name,
    decreases gs.len(),
{
    if gs.len() > 0 {
        lemma_index_of_name_absent(gs.drop_last(), name);
        if index_of_name(gs, name) is None {
            assert forall|k: int| 0 <= k < gs.len() implies gs[k].name != name by {
                if k < gs.len() - 1 {
                    assert(gs.drop_last()[k] == gs[k]);
                }
            }
        }
    }
}

/// The identifiers of `files` never decrease.
pub open spec fn ids_ordered(files: Seq<DefinitionFile>) -> bool {
    forall|k: int| 0 <= k < files.len() - 1 ==> !lex_lt(#[trigger] files[k + 1].id@, files[k].id@)
}

/// `files` ordered by identifier; files of equal identifier keep their order.
pub fn order_by_id(files: Vec<DefinitionFile>) -> (r: Vec<DefinitionFile>)
    ensures
        ids_ordered(r@),
        r@.to_multiset() == files@.to_multiset(),
{
    broadcast use vstd::seq_lib::group_to_multiset_ensures, vstd::multiset::group_multiset_axioms;

    let ghost all = files@;
    let mut rest = files;
    let mut r: Vec<DefinitionFile> = Vec::new();
    assert(r@ =~= Seq::<DefinitionFile>::empty());
    assert(r@.to_multiset() =~= Multiset::empty());
    assert(r@.to_multiset().add(rest@.to_multiset()) =~= all.to_multiset());
    while rest.len() > 0
        invariant
            ids_ordered(r@),
            r@.to_multiset().add(rest@.to_multiset()) == all.to_multiset(),
        decreases rest@.len(),
    {
        let ghost before_rest = rest@;
        let f = rest.remove(0);
        assert(before_rest.remove(0) == rest@);
        let mut p: usize = 0;
        while p < r.len()
            invariant
                p <= r@.len(),
                forall|k: int| 0 <= k < p ==> !lex_lt(f.id@, #[trigger] r@[k].id@),
            ensures
                p <= r@.len(),
                forall|k: int| 0 <= k < p ==> !lex_lt(f.id@, #[trigger] r@[k].id@),
                p < r@.len() ==> lex_lt(f.id@, r@[p as int].id@),
            decreases r@.len() - p,
        {
            if str_lt(f.id.as_str(), r[p].id.as_str()) {
                break;
            }
            p = p + 1;
        }
        let ghost old_r = r@;
        if p < r.len() {
            proof {
                lemma_lex_total(f.id@, r@[p as int].id@);
            }
        }
        let ghost g = f;
        r.insert(p, f);
        assert(r@ == old_r.insert(p as int, g));
        assert forall|k: int| 0 <= k < r@.len() - 1 implies !lex_lt(
            #[trigger] r@[k + 1].id@,
            r@[k].id@,
        ) by {
            if k < p - 1 {
                assert(r@[k] == old_r[k] && r@[k + 1] == old_r[k + 1]);
                assert(!lex_lt(old_r[k + 1].id@, old_r[k].id@));
            } else if k == p - 1 {
                assert(r@[k] == old_r[k] && r@[k + 1] == g);
            } else if k == p {
                assert(r@[k] == g && r@[k + 1] == old_r[k]);
            } else {
                assert(r@[k] == old_r[k - 1] && r@[k + 1] == old_r[k]);
                assert(!lex_lt(old_r[(k - 1) + 1].id@, old_r[k - 1].id@));
            }
        }
        proof {
            vstd::seq_lib::to_multiset_insert(old_r, p as int, g);
        }
        assert(r@.to_multiset() == old_r.to_multiset().insert(g));
        assert(before_rest.to_multiset() == rest@.to_multiset().insert(g)) by {
            assert(before_rest[0] == g);
            vstd::seq_lib::to_multiset_remove(before_rest, 0);
            vstd::seq_lib::to_multiset_contains(before_rest, g);
            assert(before_rest.remove(0).to_multiset() == before_rest.to_multiset().remove(g));
            assert(before_rest.contains(g));
            assert(before_rest.to_multiset().count(g) > 0);
            assert(before_rest.to_multiset() =~= before_rest.to_multiset().remove(g).insert(g));
        }
        assert(r@.to_multiset().add(rest@.to_multiset()) =~= old_r.to_multiset().add(
            before_rest.to_multiset(),
        ));
    }
    assert(rest@ =~= Seq::<DefinitionFile>::empty());
    assert(rest@.to_multiset() =~= Multiset::empty());
    assert(r@.to_multiset().add(Multiset::empty()) =~= r@.to_multiset());
    r
}

/// The groups of one category, and the directory that holds their definition files.
#[derive(Debug)]
pub struct PluginGroupData {
    pub group_type: PluginGroupType,
    pub config_path: String,
    pub groups: Vec<PluginGroup>,
}

impl PluginGroupData {
    /// A registry of `groups`, whose definitions lie in `path`.
    pub fn new(group_type: PluginGroupType, path: &str, groups: Vec<PluginGroup>) -> (r: Self)
        ensures
            r.group_type == group_type,
            r.config_path@ == path@,
            r.groups@ == groups@,
    {
        PluginGroupData { group_type, config_path: path.to_owned(), groups }
    }

    /// The registry of the definition files `files`, read in the order of their identifiers.
    /// Where two files declare one name the later one wins, and a warning names it.
    pub fn load(group_type: PluginGroupType, path: &str, files: Vec<DefinitionFile>) -> (r: (
        Self,
        Vec<DuplicateName>,
    ))
        ensures
            r.0.group_type == group_type,
            r.0.config_path@ == path@,
            exists|ordered: Seq<DefinitionFile>|
                {
                    &&& ordered.to_multiset() == files@.to_multiset()
                    &&& ids_ordered(ordered)
                    &&& groups_view(r.0.groups@) == retained(definitions_view(ordered))
                    &&& r.1@.map_values(|d: DuplicateName| d.name@) == duplicates(
                        definitions_view(ordered),
                    )
                },
    {
        let files = order_by_id(files);
        let ghost ordered = files@;
        let ghost all = definitions_view(files@);
        let mut rest = files;
        let mut groups: Vec<PluginGroup> = Vec::new();
        let mut warnings: Vec<DuplicateName> = Vec::new();
        let ghost done: int = 0;
        while rest.len() > 0
            invariant
                0 <= done <= all.len(),
                definitions_view(rest@) == all.subrange(done, all.len() as int),
                rest@.len() == all.len() - done,
                groups_view(groups@) == retained(all.subrange(0, done)),
                warnings@.map_values(|d: DuplicateName| d.name@) == duplicates(
                    all.subrange(0, done),
                ),
            decreases rest@.len(),
        {
            let ghost before_rest = rest@;
            let file = rest.remove(0);
            let ghost g = file.group@;
            assert(definitions_view(before_rest)[0] == g);
            assert(g == all[done]);
            assert(all.subrange(0, done + 1).drop_last() =~= all.subrange(0, done));
            assert(all.subrange(0, done + 1).last() == g);
            match find_name(&groups, file.group.name.as_str()) {
                Some(k) => {
                    proof {
                        lemma_index_of_name_bounds(groups_view(groups@), g.name);
                    }
                    let name = file.group.name.clone();
                    let ghost before = warnings@;
                    warnings.push(DuplicateName { name, file: file.id });
                    assert(warnings@.map_values(|d: DuplicateName| d.name@) =~= before.map_values(
                        |d: DuplicateName| d.name@,
                    ).push(g.name));
                    let ghost old_groups = groups@;
                    groups.set(k, file.group);
                    assert(groups_view(groups@) =~= groups_view(old_groups).update(k as int, g));
                },
                None => {
                    let ghost old_groups = groups@;
                    groups.push(file.group);
                    assert(groups_view(groups@) =~= groups_view(old_groups).push(g));
                },
            }
            assert(definitions_view(rest@) =~= definitions_view(before_rest).subrange(
                1,
                before_rest.len() as int,
            ));
            proof {
                done = done + 1;
                assert(definitions_view(rest@) =~= all.subrange(done, all.len() as int));
            }
        }
        assert(all.subrange(0, done) =~= all);
        assert(groups_view(groups@) == retained(definitions_view(ordered)));
        (PluginGroupData { group_type, config_path: path.to_owned(), groups }, warnings)
    }

    /// The path of the definition file with identifier `group_name`.
    pub fn group_path(&self, group_name: &str) -> (r: String)
        ensures
            r@ == path_join(self.config_path@, with_extension(group_name@, definition_extension())),
    {
        let file = definition_file(group_name);
        join(self.config_path.as_str(), file.as_str())
    }

    /// Whether a definition file with identifier `group_name` is on `disk`.
    pub fn group_exists(&self, group_name: &str, disk: &DiskView) -> (r: bool)
        ensures
            r == disk@.files.contains(
                path_join(self.config_path@, with_extension(group_name@, definition_extension())),
            ),
    {
        let path = self.group_path(group_name);
        disk.has_file(path.as_str())
    }
}

/// The directory `Installed` of the plugin database.
pub open spec fn installed_segment() -> Seq<char> {
    seq!['I', 'n', 's', 't', 'a', 'l', 'l', 'e', 'd']
}

/// The root of newer-format installations inside an installed-plugins directory.
pub open spec fn newer_segment() -> Seq<char> {
    seq!['V', 'S', 'T', '3']
}

/// The root of legacy-format installations inside an installed-plugins directory.
pub open spec fn legacy_segment() -> Seq<char> {
    seq!['V', 'S', 'T']
}

/// Where the groups of category `t` are sorted to, in the database at `base`.
pub open spec fn category_folder(base: Seq<char>, t: PluginGroupType) -> Seq<char> {
    path_join(base, type_segment(t))
}

/// Where the installed plugins of category `t` lie, in the database at `base`.
pub open spec fn installed_folder(base: Seq<char>, t: PluginGroupType) -> Seq<char> {
    path_join(path_join(base, installed_segment()), type_segment(t))
}

/// The installed file that plugin `name` resolves to: the newer-format root is probed first,
/// then the legacy-format root.
pub open spec fn resolve(newer: Seq<char>, legacy: Seq<char>, d: DiskState, name: Seq<char>) -> Option<
    Seq<char>,
> {
    let file = shim_file_name(name);
    if d.occupied(path_join(newer, file)) {
        Some(path_join(newer, file))
    } else if d.occupied(path_join(legacy, file)) {
        Some(path_join(legacy, file))
    } else {
        None
    }
}

/// The directory `folder` holds both installation roots, as directories.
pub open spec fn has_install_roots(folder: Seq<char>, d: DiskState) -> bool {
    &&& d.dirs.contains(path_join(folder, newer_segment()))
    &&& d.dirs.contains(path_join(folder, legacy_segment()))
}

/// The plugin database at `base` has the layout that sorting needs.
pub open spec fn database_valid(base: Seq<char>, d: DiskState) -> bool {
    &&& d.occupied(category_folder(base, PluginGroupType::Effect))
    &&& d.occupied(category_folder(base, PluginGroupType::Generator))
    &&& d.occupied(installed_folder(base, PluginGroupType::Effect))
    &&& d.occupied(installed_folder(base, PluginGroupType::Generator))
    &&& has_install_roots(installed_folder(base, PluginGroupType::Effect), d)
    &&& has_install_roots(installed_folder(base, PluginGroupType::Generator), d)
}

/// Why a configuration could not be built.
#[derive(Debug, PartialEq, Eq, Structural)]
pub enum ConfigError {
    /// The plugin database lacks a directory of its layout.
    InvalidDatabase,
}

/// The two roots under which the installed plugins of one category lie.
#[derive(Debug)]
pub struct InstalledPlugins {
    pub vst: String,
    pub vst3: String,
}

impl InstalledPlugins {
    /// The index over the legacy root `vst` and the newer root `vst3`.
    pub fn new(vst: &str, vst3: &str) -> (r: Self)
        ensures
            r.vst@ == vst@,
            r.vst3@ == vst3@,
    {
        InstalledPlugins { vst: vst.to_owned(), vst3: vst3.to_owned() }
    }

    /// The index of the installed-plugins directory `plugin_folder`, which must hold both roots.
    pub fn from_folder(plugin_folder: &str, disk: &DiskView) -> (r: Result<Self, ConfigError>)
        ensures
            r is Ok <==> has_install_roots(plugin_folder@, disk@),
            r matches Ok(i) ==> i.vst3@ == path_join(plugin_folder@, newer_segment()) && i.vst@
                == path_join(plugin_folder@, legacy_segment()),
    {
        proof {
            reveal_strlit("VST3");
            reveal_strlit("VST");
            assert("VST3"@ =~= newer_segment());
            assert("VST"@ =~= legacy_segment());
        }
        let vst3 = join(plugin_folder, "VST3");
        let vst = join(plugin_folder, "VST");
        if !disk.has_dir(vst3.as_str()) || !disk.has_dir(vst.as_str()) {
            return Err(ConfigError::InvalidDatabase);
        }
        Ok(InstalledPlugins { vst, vst3 })
    }

    /// The installed file of plugin `name`, if `disk` holds one.
    pub fn get_plugin(&self, name: &str, disk: &DiskView) -> (r: Option<String>)
        ensures
            match r {
                Some(p) => resolve(self.vst3@, self.vst@, disk@, name@) == Some(p@),
                None => resolve(self.vst3@, self.vst@, disk@, name@) == None::<Seq<char>>,
            },
    {
        let file_name = shim_file(name);
        let vst3 = join(self.vst3.as_str(), file_name.as_str());
        if disk.is_occupied(vst3.as_str()) {
            return Some(vst3);
        }
        let vst = join(self.vst.as_str(), file_name.as_str());
        if disk.is_occupied(vst.as_str()) {
            return Some(vst);
        }
        None
    }
}

/// The installed plugins of one category, and the folder its groups are sorted to.
#[derive(Debug)]
pub struct PluginDatabaseGroup {
    pub group_type: PluginGroupType,
    pub installed: InstalledPlugins,
    pub folder: String,
}

impl PluginDatabaseGroup {
    pub fn new(group_type: PluginGroupType, installed: InstalledPlugins, folder: &str) -> (r: Self)
        ensures
            r.group_type == group_type,
            r.installed == installed,
            r.folder@ == folder@,
    {
        PluginDatabaseGroup { group_type, installed, folder: folder.to_owned() }
    }

    /// This part of the database is the one of category `t` in the database at `base`.
    pub open spec fn located_at(&self, base: Seq<char>, t: PluginGroupType) -> bool {
        &&& self.group_type == t
        &&& self.folder@ == category_folder(base, t)
        &&& self.installed.vst3@ == path_join(installed_folder(base, t), newer_segment())
        &&& self.installed.vst@ == path_join(installed_folder(base, t), legacy_segment())
    }
}

/// The plugin database: per category, where plugins are installed and where groups go.
#[derive(Debug)]
pub struct PluginDatabase {
    pub effects: PluginDatabaseGroup,
    pub generators: PluginDatabaseGroup,
}

impl PluginDatabase {
    /// The part of the database that belongs to category `t`.
    pub open spec fn part(&self, t: PluginGroupType) -> PluginDatabaseGroup {
        match t {
            PluginGroupType::Effect => self.effects,
            PluginGroupType::Generator => self.generators,
        }
    }

    /// The database is the one at `base`.
    pub open spec fn located_at(&self, base: Seq<char>) -> bool {
        &&& self.effects.located_at(base, PluginGroupType::Effect)
        &&& self.generators.located_at(base, PluginGroupType::Generator)
    }

    /// The database at `database_path`, which succeeds exactly where its layout is complete.
    pub fn new(database_path: &str, disk: &DiskView) -> (r: Result<Self, ConfigError>)
        ensures
            r is Ok <==> database_valid(database_path@, disk@),
            r matches Ok(db) ==> db.located_at(database_path@),
    {
        let effect = PluginGroupType::Effect;
        let generator = PluginGroupType::Generator;
        let effect_segment = effect.segment();
        let generator_segment = generator.segment();
        proof {
            reveal_strlit("Installed");
            assert("Installed"@ =~= installed_segment());
        }
        let effects = join(database_path, effect_segment.as_str());
        let generators = join(database_path, generator_segment.as_str());
        let installed_plugins = join(database_path, "Installed");
        let installed_effects = join(installed_plugins.as_str(), effect_segment.as_str());
        let installed_generators = join(installed_plugins.as_str(), generator_segment.as_str());
        if !disk.is_occupied(effects.as_str()) || !disk.is_occupied(generators.as_str())
            || !disk.is_occupied(installed_effects.as_str()) || !disk.is_occupied(
            installed_generators.as_str(),
        ) {
            return Err(ConfigError::InvalidDatabase);
        }
        let effect_plugins = match InstalledPlugins::from_folder(installed_effects.as_str(), disk) {
            Ok(i) => i,
            Err(e) => return Err(e),
        };
        let generator_plugins = match InstalledPlugins::from_folder(
            installed_generators.as_str(),
            disk,
        ) {
            Ok(i) => i,
            Err(e) => return Err(e),
        };
        Ok(
            PluginDatabase {
                effects: PluginDatabaseGroup::new(effect, effect_plugins, effects.as_str()),
                generators: PluginDatabaseGroup::new(
                    generator,
                    generator_plugins,
                    generators.as_str(),
                ),
            },
        )
    }

    /// The folder that `group` of category `group_type` is sorted to.
    pub fn get_group_path(&self, group: &PluginGroup, group_type: &PluginGroupType) -> (r: String)
        ensures
            r@ == path_join(self.part(*group_type).folder@, group.name@),
    {
        let database_group = match group_type {
            PluginGroupType::Effect => &self.effects,
            PluginGroupType::Generator => &self.generators,
        };
        join(database_group.folder.as_str(), group.name.as_str())
    }
}

/// The settings of the user: where the plugin database lies.
#[derive(Debug)]
pub struct UserConfig {
    pub plugin_database_path: String,
}

/// Where the plugin database lies, below the documents directory, unless the user says otherwise.
pub open spec fn default_database_suffix() -> Seq<char> {
    seq![
        'I', 'm', 'a', 'g', 'e', '-', 'L', 'i', 'n', 'e', '/', 'F', 'L', ' ', 'S', 't', 'u', 'd',
        'i', 'o', '/', 'P', 'r', 'e', 's', 'e', 't', 's', '/', 'P', 'l', 'u', 'g', 'i', 'n', ' ',
        'd', 'a', 't', 'a', 'b', 'a', 's', 'e',
    ]
}

impl UserConfig {
    /// The settings of a first run, given the user's documents directory.
    pub fn with_documents_dir(documents: &str) -> (r: Self)
        ensures
            r.plugin_database_path@ == path_join(documents@, default_database_suffix()),
    {
        proof {
            reveal_strlit("Image-Line/FL Studio/Presets/Plugin database");
            assert("Image-Line/FL Studio/Presets/Plugin database"@ =~= default_database_suffix());
        }
        UserConfig {
            plugin_database_path: join(documents, "Image-Line/FL Studio/Presets/Plugin database"),
        }
    }
}

/// Everything a command works on: the user's settings, the database and both registries.
#[derive(Debug)]
pub struct Config {
    pub user: UserConfig,
    pub plugin_database: PluginDatabase,
    pub effects: PluginGroupData,
    pub generators: PluginGroupData,
}

impl Config {
    pub fn new(
        user_config: UserConfig,
        plugin_database: PluginDatabase,
        effects: PluginGroupData,
        generators: PluginGroupData,
    ) -> (r: Self)
        ensures
            r.user == user_config,
            r.plugin_database == plugin_database,
            r.effects == effects,
            r.generators == generators,
    {
        Config { user: user_config, plugin_database, effects, generators }
    }

    /// The registry of category `t`.
    pub open spec fn registry(&self, t: PluginGroupType) -> PluginGroupData {
        match t {
            PluginGroupType::Effect => self.effects,
            PluginGroupType::Generator => self.generators,
        }
    }
}

} // verus!
