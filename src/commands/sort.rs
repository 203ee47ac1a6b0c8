use vstd::prelude::*;

use crate::config::{
    groups_view, resolve, strings_view, Config, GroupSpec, InstalledPlugins, PluginGroup,
};
use crate::disk::{apply_ops, ops_view, DiskState, DiskView, FsOp, OpSpec};
use crate::paths::{join, path_join, shim_file, shim_file_name};

verus! {

/// Sorts the plugins of every group into the plugin database.
pub struct SortSubcommand {}

/// What sorting the groups of one category does and finds.
pub struct SortResult {
    /// The groups that were sorted: those with at least one plugin.
    pub folder_count: usize,
    /// The plugins that were copied.
    pub plugin_count: usize,
    /// The groups that were skipped because they hold no plugins.
    pub skipped_groups: Vec<String>,
    /// The plugins that were skipped because they are not installed.
    pub missing_plugins: Vec<String>,
    /// The changes to make to the file system, in order.
    pub ops: Vec<FsOp>,
}

/// The copies that sorting `plugins` into `dir` makes.
pub open spec fn plugin_plan(
    dir: Seq<char>,
    inst: InstalledPlugins,
    d: DiskState,
    plugins: Seq<Seq<char>>,
) -> Seq<OpSpec>
    decreases plugins.len(),
{
    if plugins.len() == 0 {
        Seq::empty()
    } else {
        let before = plugin_plan(dir, inst, d, plugins.drop_last());
        let name = plugins.last();
        match resolve(inst.vst3@, inst.vst@, d, name) {
            Some(from) => before.push(OpSpec::Copy(from, path_join(dir, shim_file_name(name)))),
            None => before,
        }
    }
}

/// How many of `plugins` are installed.
pub open spec fn plugin_hits(inst: InstalledPlugins, d: DiskState, plugins: Seq<Seq<char>>) -> nat
    decreases plugins.len(),
{
    if plugins.len() == 0 {
        0
    } else {
        plugin_hits(inst, d, plugins.drop_last()) + if resolve(
            inst.vst3@,
            inst.vst@,
            d,
            plugins.last(),
        ) is Some {
            1nat
        } else {
            0nat
        }
    }
}

/// Those of `plugins` that are not installed, in order.
pub open spec fn plugin_misses(
    inst: InstalledPlugins,
    d: DiskState,
    plugins: Seq<Seq<char>>,
) -> Seq<Seq<char>>
    decreases plugins.len(),
{
    if plugins.len() == 0 {
        Seq::empty()
    } else {
        let before = plugin_misses(inst, d, plugins.drop_last());
        if resolve(inst.vst3@, inst.vst@, d, plugins.last()) is Some {
            before
        } else {
            before.push(plugins.last())
        }
    }
}

/// What sorting group `g` into `folder` does: nothing for a group without plugins, else create
/// its folder and copy each installed plugin into it.
pub open spec fn group_plan(
    folder: Seq<char>,
    inst: InstalledPlugins,
    d: DiskState,
    g: GroupSpec,
) -> Seq<OpSpec> {
    if g.plugins.len() == 0 {
        Seq::empty()
    } else {
        let dir = path_join(folder, g.name);
        seq![OpSpec::CreateDirAll(dir)] + plugin_plan(dir, inst, d, g.plugins)
    }
}

/// What sorting the groups `gs` into `folder` does, group after group.
pub open spec fn sort_plan(
    folder: Seq<char>,
    inst: InstalledPlugins,
    d: DiskState,
    gs: Seq<GroupSpec>,
) -> Seq<OpSpec>
    decreases gs.len(),
{
    if gs.len() == 0 {
        Seq::empty()
    } else {
        sort_plan(folder, inst, d, gs.drop_last()) + group_plan(folder, inst, d, gs.last())
    }
}

/// How many plugins of the groups `gs` are copied.
pub open spec fn sort_plugin_count(inst: InstalledPlugins, d: DiskState, gs: Seq<GroupSpec>) -> nat
    decreases gs.len(),
{
    if gs.len() == 0 {
        0
    } else {
        sort_plugin_count(inst, d, gs.drop_last()) + plugin_hits(inst, d, gs.last().plugins)
    }
}

/// How many of the groups `gs` hold at least one plugin.
pub open spec fn sort_folder_count(gs: Seq<GroupSpec>) -> nat
    decreases gs.len(),
{
    if gs.len() == 0 {
        0
    } else {
        sort_folder_count(gs.drop_last()) + if gs.last().plugins.len() == 0 {
            0nat
        } else {
            1nat
        }
    }
}

/// The names of the groups of `gs` that hold no plugin.
pub open spec fn sort_skipped(gs: Seq<GroupSpec>) -> Seq<Seq<char>>
    decreases gs.len(),
{
    if gs.len() == 0 {
        Seq::empty()
    } else if gs.last().plugins.len() == 0 {
        sort_skipped(gs.drop_last()).push(gs.last().name)
    } else {
        sort_skipped(gs.drop_last())
    }
}

/// The plugins of the groups `gs` that are not installed, group after group.
pub open spec fn sort_missing(inst: InstalledPlugins, d: DiskState, gs: Seq<GroupSpec>) -> Seq<
    Seq<char>,
>
    decreases gs.len(),
{
    if gs.len() == 0 {
        Seq::empty()
    } else {
        sort_missing(inst, d, gs.drop_last()) + plugin_misses(inst, d, gs.last().plugins)
    }
}

/// `res` is what sorting the groups `gs` into `folder` gives.
pub open spec fn sorted_as(
    res: SortResult,
    folder: Seq<char>,
    inst: InstalledPlugins,
    d: DiskState,
    gs: Seq<GroupSpec>,
) -> bool {
    &&& ops_view(res.ops@) == sort_plan(folder, inst, d, gs)
    &&& res.plugin_count == sort_plugin_count(inst, d, gs)
    &&& res.folder_count == sort_folder_count(gs)
    &&& strings_view(res.skipped_groups@) == sort_skipped(gs)
    &&& strings_view(res.missing_plugins@) == sort_missing(inst, d, gs)
}

/// The paths that the operations `ops` create: files copied to and directories made.
pub open spec fn created_paths(ops: Seq<OpSpec>) -> Set<Seq<char>>
    decreases ops.len(),
{
    if ops.len() == 0 {
        Set::empty()
    } else {
        let before = created_paths(ops.drop_last());
        match ops.last() {
            OpSpec::CreateDirAll(p) => before.insert(p),
            OpSpec::Copy(_, to) => before.insert(to),
            _ => before,
        }
    }
}

/// Every operation of `ops` only adds: it creates a directory or copies a file.
pub open spec fn only_creates(ops: Seq<OpSpec>) -> bool {
    forall|i: int| 0 <= i < ops.len() ==> (ops[i] is CreateDirAll || ops[i] is Copy)
}

/// The files that the operations `ops` copy to.
pub open spec fn copied_to(ops: Seq<OpSpec>) -> Set<Seq<char>>
    decreases ops.len(),
{
    if ops.len() == 0 {
        Set::empty()
    } else {
        match ops.last() {
            OpSpec::Copy(_, to) => copied_to(ops.drop_last()).insert(to),
            _ => copied_to(ops.drop_last()),
        }
    }
}

/// The directories that the operations `ops` make.
pub open spec fn dirs_made(ops: Seq<OpSpec>) -> Set<Seq<char>>
    decreases ops.len(),
{
    if ops.len() == 0 {
        Set::empty()
    } else {
        match ops.last() {
            OpSpec::CreateDirAll(p) => dirs_made(ops.drop_last()).insert(p),
            _ => dirs_made(ops.drop_last()),
        }
    }
}

proof fn lemma_creates_add(d: DiskState, ops: Seq<OpSpec>)
    requires
        only_creates(ops),
    ensures
        apply_ops(d, ops) == (DiskState { files: d.files + copied_to(ops), dirs: d.dirs + dirs_made(ops) }),
        created_paths(ops) == copied_to(ops) + dirs_made(ops),
    decreases ops.len(),
{
    if ops.len() > 0 {
        assert(only_creates(ops.drop_last())) by {
            assert forall|i: int| 0 <= i < ops.drop_last().len() implies (ops.drop_last()[i] is CreateDirAll
                || ops.drop_last()[i] is Copy) by {
                assert(ops.drop_last()[i] == ops[i]);
            }
        }
        lemma_creates_add(d, ops.drop_last());
        assert(ops.last() == ops[ops.len() - 1]);
        let a = apply_ops(d, ops);
        match ops.last() {
            OpSpec::CreateDirAll(p) => {
                assert(a.dirs =~= d.dirs + dirs_made(ops));
                assert(a.files =~= d.files + copied_to(ops));
                assert(created_paths(ops) =~= copied_to(ops) + dirs_made(ops));
            },
            OpSpec::Copy(_, to) => {
                assert(a.dirs =~= d.dirs + dirs_made(ops));
                assert(a.files =~= d.files + copied_to(ops));
                assert(created_paths(ops) =~= copied_to(ops) + dirs_made(ops));
            },
            _ => {},
        }
    } else {
        assert(d.files + copied_to(ops) =~= d.files);
        assert(d.dirs + dirs_made(ops) =~= d.dirs);
        assert(created_paths(ops) =~= copied_to(ops) + dirs_made(ops));
    }
}

proof fn lemma_plugin_plan_creates(dir: Seq<char>, inst: InstalledPlugins, d: DiskState, plugins: Seq<Seq<char>>)
    ensures
        only_creates(plugin_plan(dir, inst, d, plugins)),
    decreases plugins.len(),
{
    if plugins.len() > 0 {
        lemma_plugin_plan_creates(dir, inst, d, plugins.drop_last());
    }
}

proof fn lemma_sort_plan_creates(folder: Seq<char>, inst: InstalledPlugins, d: DiskState, gs: Seq<GroupSpec>)
    ensures
        only_creates(sort_plan(folder, inst, d, gs)),
    decreases gs.len(),
{
    if gs.len() > 0 {
        lemma_sort_plan_creates(folder, inst, d, gs.drop_last());
        let g = gs.last();
        if g.plugins.len() > 0 {
            lemma_plugin_plan_creates(path_join(folder, g.name), inst, d, g.plugins);
        }
        let a = sort_plan(folder, inst, d, gs.drop_last());
        let b = group_plan(folder, inst, d, g);
        assert forall|i: int| 0 <= i < (a + b).len() implies ((a + b)[i] is CreateDirAll || (a
            + b)[i] is Copy) by {
            if i < a.len() {
                assert((a + b)[i] == a[i]);
            } else if g.plugins.len() > 0 {
                let dir = path_join(folder, g.name);
                let rest = plugin_plan(dir, inst, d, g.plugins);
                assert(b == seq![OpSpec::CreateDirAll(dir)] + rest);
                if i > a.len() {
                    assert(b[i - a.len()] == rest[i - a.len() - 1]);
                }
            }
        }
    }
}

/// The plugin names of the groups `gs` resolve alike on the disks `d1` and `d2`.
pub open spec fn same_resolution(inst: InstalledPlugins, d1: DiskState, d2: DiskState, gs: Seq<GroupSpec>) -> bool {
    forall|i: int, j: int|
        0 <= i < gs.len() && 0 <= j < gs[i].plugins.len() ==> resolve(inst.vst3@, inst.vst@, d1, #[trigger] gs[i].plugins[j])
            == resolve(inst.vst3@, inst.vst@, d2, gs[i].plugins[j])
}

/// No path that the index probes for a plugin of the groups `gs` is among `touched`.
pub open spec fn probes_avoid(inst: InstalledPlugins, gs: Seq<GroupSpec>, touched: Set<Seq<char>>) -> bool {
    forall|i: int, j: int|
        0 <= i < gs.len() && 0 <= j < gs[i].plugins.len() ==> {
            &&& !touched.contains(path_join(inst.vst3@, shim_file_name(#[trigger] gs[i].plugins[j])))
            &&& !touched.contains(path_join(inst.vst@, shim_file_name(gs[i].plugins[j])))
        }
}

proof fn lemma_plugins_alike(dir: Seq<char>, inst: InstalledPlugins, d1: DiskState, d2: DiskState, plugins: Seq<Seq<char>>)
    requires
        forall|j: int| 0 <= j < plugins.len() ==> resolve(inst.vst3@, inst.vst@, d1, #[trigger] plugins[j])
            == resolve(inst.vst3@, inst.vst@, d2, plugins[j]),
    ensures
        plugin_plan(dir, inst, d1, plugins) == plugin_plan(dir, inst, d2, plugins),
        plugin_hits(inst, d1, plugins) == plugin_hits(inst, d2, plugins),
        plugin_misses(inst, d1, plugins) == plugin_misses(inst, d2, plugins),
    decreases plugins.len(),
{
    if plugins.len() > 0 {
        assert(plugins.last() == plugins[plugins.len() - 1]);
        assert forall|j: int| 0 <= j < plugins.drop_last().len() implies resolve(inst.vst3@, inst.vst@, d1, #[trigger] plugins.drop_last()[j])
            == resolve(inst.vst3@, inst.vst@, d2, plugins.drop_last()[j]) by {
            assert(plugins.drop_last()[j] == plugins[j]);
        }
        lemma_plugins_alike(dir, inst, d1, d2, plugins.drop_last());
    }
}

proof fn lemma_groups_alike(folder: Seq<char>, inst: InstalledPlugins, d1: DiskState, d2: DiskState, gs: Seq<GroupSpec>)
    requires
        same_resolution(inst, d1, d2, gs),
    ensures
        sort_plan(folder, inst, d1, gs) == sort_plan(folder, inst, d2, gs),
        sort_plugin_count(inst, d1, gs) == sort_plugin_count(inst, d2, gs),
        sort_missing(inst, d1, gs) == sort_missing(inst, d2, gs),
    decreases gs.len(),
{
    if gs.len() > 0 {
        let g = gs.last();
        assert(g == gs[gs.len() - 1]);
        assert forall|i: int, j: int|
            0 <= i < gs.drop_last().len() && 0 <= j < gs.drop_last()[i].plugins.len() implies resolve(inst.vst3@, inst.vst@, d1, #[trigger] gs.drop_last()[i].plugins[j])
                == resolve(inst.vst3@, inst.vst@, d2, gs.drop_last()[i].plugins[j]) by {
            assert(gs.drop_last()[i] == gs[i]);
        }
        lemma_groups_alike(folder, inst, d1, d2, gs.drop_last());
        assert forall|j: int| 0 <= j < g.plugins.len() implies resolve(inst.vst3@, inst.vst@, d1, #[trigger] g.plugins[j])
            == resolve(inst.vst3@, inst.vst@, d2, g.plugins[j]) by {
            assert(gs[gs.len() - 1].plugins[j] == g.plugins[j]);
        }
        lemma_plugins_alike(path_join(folder, g.name), inst, d1, d2, g.plugins);
    }
}

/// Sorting is idempotent: where the paths that a sort creates are not among the paths that the
/// index probes, sorting the same groups again, on the disk that the first sort left, makes the
/// same changes with the same counts and skips, and leaves the disk as the first sort left it.
pub proof fn lemma_sort_idempotent(folder: Seq<char>, inst: InstalledPlugins, d: DiskState, gs: Seq<GroupSpec>)
    requires
        probes_avoid(inst, gs, created_paths(sort_plan(folder, inst, d, gs))),
    ensures
        ({
            let ops = sort_plan(folder, inst, d, gs);
            let d1 = apply_ops(d, ops);
            &&& sort_plan(folder, inst, d1, gs) == ops
            &&& sort_plugin_count(inst, d1, gs) == sort_plugin_count(inst, d, gs)
            &&& sort_missing(inst, d1, gs) == sort_missing(inst, d, gs)
            &&& apply_ops(d1, sort_plan(folder, inst, d1, gs)) == d1
        }),
{
    let ops = sort_plan(folder, inst, d, gs);
    lemma_sort_plan_creates(folder, inst, d, gs);
    lemma_creates_add(d, ops);
    let d1 = apply_ops(d, ops);
    lemma_creates_add(d1, ops);
    assert(apply_ops(d1, ops).files =~= d1.files);
    assert(apply_ops(d1, ops).dirs =~= d1.dirs);
    assert forall|i: int, j: int|
        0 <= i < gs.len() && 0 <= j < gs[i].plugins.len() implies resolve(inst.vst3@, inst.vst@, d, #[trigger] gs[i].plugins[j])
            == resolve(inst.vst3@, inst.vst@, d1, gs[i].plugins[j]) by {
        let n = gs[i].plugins[j];
        let a = path_join(inst.vst3@, shim_file_name(n));
        let b = path_join(inst.vst@, shim_file_name(n));
        assert(d1.occupied(a) == d.occupied(a));
        assert(d1.occupied(b) == d.occupied(b));
    }
    lemma_groups_alike(folder, inst, d, d1, gs);
}

/// What the sort command does: for each category that has groups, its result.
pub struct SortRun {
    pub effects: Option<SortResult>,
    pub generators: Option<SortResult>,
}

/// Why the sort command did nothing.
#[derive(Debug, PartialEq, Eq, Structural)]
pub enum SortError {
    /// Neither category has a group.
    NoGroups,
}

fn sort_plugins(
    dir: &str,
    installed: &InstalledPlugins,
    plugins: &Vec<String>,
    disk: &DiskView,
    result: &mut SortResult,
)
    requires
        old(result).plugin_count <= old(result).ops@.len(),
    ensures
        ops_view(final(result).ops@) == ops_view(old(result).ops@) + plugin_plan(
            dir@,
            *installed,
            disk@,
            strings_view(plugins@),
        ),
        final(result).plugin_count == old(result).plugin_count + plugin_hits(
            *installed,
            disk@,
            strings_view(plugins@),
        ),
        strings_view(final(result).missing_plugins@) == strings_view(old(result).missing_plugins@)
            + plugin_misses(*installed, disk@, strings_view(plugins@)),
        final(result).folder_count == old(result).folder_count,
        final(result).skipped_groups@ == old(result).skipped_groups@,
        final(result).plugin_count <= final(result).ops@.len(),
{
    let ghost names = strings_view(plugins@);
    let ghost ops0 = ops_view(result.ops@);
    let ghost missing0 = strings_view(result.missing_plugins@);
    let ghost count0 = result.plugin_count;
    let mut i: usize = 0;
    while i < plugins.len()
        invariant
            i <= plugins@.len(),
            names == strings_view(plugins@),
            ops_view(result.ops@) == ops0 + plugin_plan(
                dir@,
                *installed,
                disk@,
                names.subrange(0, i as int),
            ),
            result.plugin_count == count0 + plugin_hits(
                *installed,
                disk@,
                names.subrange(0, i as int),
            ),
            strings_view(result.missing_plugins@) == missing0 + plugin_misses(
                *installed,
                disk@,
                names.subrange(0, i as int),
            ),
            result.folder_count == old(result).folder_count,
            result.skipped_groups@ == old(result).skipped_groups@,
            result.plugin_count <= result.ops@.len(),
        decreases plugins@.len() - i,
    {
        let ghost prefix = names.subrange(0, i + 1);
        assert(prefix.drop_last() =~= names.subrange(0, i as int));
        assert(prefix.last() == plugins@[i as int]@);
        let plugin_name = &plugins[i];
        match installed.get_plugin(plugin_name.as_str(), disk) {
            Some(path) => {
                let file = shim_file(plugin_name.as_str());
                let destination = join(dir, file.as_str());
                let ghost before = result.ops@;
                result.ops.push(FsOp::Copy(path, destination));
                assert(ops_view(result.ops@) =~= ops_view(before).push(
                    OpSpec::Copy(
                        resolve(installed.vst3@, installed.vst@, disk@, prefix.last())->Some_0,
                        path_join(dir@, shim_file_name(prefix.last())),
                    ),
                ));
                // the count stays within the number of operations, whose length is a usize
                let _ops_len = result.ops.len();
                result.plugin_count = result.plugin_count + 1;
            },
            None => {
                let ghost before = result.missing_plugins@;
                result.missing_plugins.push(plugin_name.clone());
                assert(strings_view(result.missing_plugins@) =~= strings_view(before).push(
                    prefix.last(),
                ));
            },
        }
        i = i + 1;
    }
    assert(names.subrange(0, plugins@.len() as int) =~= names);
}

impl SortSubcommand {
    /// Sorts `groups` into `plugin_folder`, resolving plugins through `installed_plugins` against
    /// `disk`: the result holds the changes to make and what was counted and skipped.
    pub fn sort_groups(
        &self,
        plugin_folder: &str,
        installed_plugins: &InstalledPlugins,
        groups: &Vec<PluginGroup>,
        disk: &DiskView,
    ) -> (r: SortResult)
        ensures
            sorted_as(r, plugin_folder@, *installed_plugins, disk@, groups_view(groups@)),
    {
        let ghost gs = groups_view(groups@);
        let mut result = SortResult {
            folder_count: 0,
            plugin_count: 0,
            skipped_groups: Vec::new(),
            missing_plugins: Vec::new(),
            ops: Vec::new(),
        };
        assert(ops_view(result.ops@) =~= Seq::<OpSpec>::empty());
        assert(strings_view(result.skipped_groups@) =~= Seq::<Seq<char>>::empty());
        assert(strings_view(result.missing_plugins@) =~= Seq::<Seq<char>>::empty());
        let mut i: usize = 0;
        while i < groups.len()
            invariant
                i <= groups@.len(),
                gs == groups_view(groups@),
                sorted_as(result, plugin_folder@, *installed_plugins, disk@, gs.subrange(0, i as int)),
                result.plugin_count <= result.ops@.len(),
                result.folder_count <= i,
            decreases groups@.len() - i,
        {
            let ghost prefix = gs.subrange(0, i + 1);
            assert(prefix.drop_last() =~= gs.subrange(0, i as int));
            let group = &groups[i];
            assert(prefix.last() == group@);
            if group.plugins.len() == 0 {
                let ghost before = result.skipped_groups@;
                result.skipped_groups.push(group.name.clone());
                assert(strings_view(result.skipped_groups@) =~= strings_view(before).push(
                    group.name@,
                ));
                assert(group_plan(plugin_folder@, *installed_plugins, disk@, group@) =~= Seq::<
                    OpSpec,
                >::empty());
                assert(sort_plan(plugin_folder@, *installed_plugins, disk@, prefix) =~= sort_plan(
                    plugin_folder@,
                    *installed_plugins,
                    disk@,
                    prefix.drop_last(),
                ));
                assert(strings_view(group.plugins@) =~= Seq::<Seq<char>>::empty());
                assert(sort_missing(*installed_plugins, disk@, prefix) =~= sort_missing(
                    *installed_plugins,
                    disk@,
                    prefix.drop_last(),
                ));
            } else {
                let group_dir = join(plugin_folder, group.name.as_str());
                let ghost before = result.ops@;
                result.ops.push(FsOp::CreateDirAll(group_dir.clone()));
                assert(ops_view(result.ops@) =~= ops_view(before).push(
                    OpSpec::CreateDirAll(path_join(plugin_folder@, group.name@)),
                ));
                sort_plugins(group_dir.as_str(), installed_plugins, &group.plugins, disk, &mut result);
                assert(ops_view(result.ops@) =~= sort_plan(
                    plugin_folder@,
                    *installed_plugins,
                    disk@,
                    prefix.drop_last(),
                ) + group_plan(plugin_folder@, *installed_plugins, disk@, group@));
                result.folder_count = result.folder_count + 1;
            }
            i = i + 1;
        }
        assert(gs.subrange(0, groups@.len() as int) =~= gs);
        result
    }

    /// Runs the sort on both categories of `config` against `disk`. A category without groups is
    /// left out; where neither has any, nothing is done.
    pub fn run(&self, config: &Config, disk: &DiskView) -> (r: Result<SortRun, SortError>)
        ensures
            r is Err <==> config.effects.groups@.len() == 0 && config.generators.groups@.len() == 0,
            r matches Ok(run) ==> {
                &&& run.effects is Some <==> config.effects.groups@.len() > 0
                &&& run.generators is Some <==> config.generators.groups@.len() > 0
                &&& run.effects matches Some(e) ==> sorted_as(
                    e,
                    config.plugin_database.effects.folder@,
                    config.plugin_database.effects.installed,
                    disk@,
                    groups_view(config.effects.groups@),
                )
                &&& run.generators matches Some(g) ==> sorted_as(
                    g,
                    config.plugin_database.generators.folder@,
                    config.plugin_database.generators.installed,
                    disk@,
                    groups_view(config.generators.groups@),
                )
            },
    {
        let is_effects_empty = config.effects.groups.len() == 0;
        let is_generators_empty = config.generators.groups.len() == 0;
        if is_effects_empty && is_generators_empty {
            return Err(SortError::NoGroups);
        }
        let database = &config.plugin_database;
        let effects = if is_effects_empty {
            None
        } else {
            Some(
                self.sort_groups(
                    database.effects.folder.as_str(),
                    &database.effects.installed,
                    &config.effects.groups,
                    disk,
                ),
            )
        };
        let generators = if is_generators_empty {
            None
        } else {
            Some(
                self.sort_groups(
                    database.generators.folder.as_str(),
                    &database.generators.installed,
                    &config.generators.groups,
                    disk,
                ),
            )
        };
        Ok(SortRun { effects, generators })
    }
}

} // verus!
