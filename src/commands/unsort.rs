use vstd::prelude::*;

use crate::config::{groups_view, strings_view, Config, GroupSpec, PluginDatabase, PluginGroup, PluginGroupType};
use crate::disk::{apply_op, apply_ops, ops_view, DiskState, DiskView, FsOp, OpSpec};
use crate::paths::{join, path_join, shim_file, shim_file_name};

verus! {

/// Removes the folders and shim files that sorting made.
pub struct UnsortSubcommand {}

/// The outcome of undoing a sort, in the model: the disk after, the changes and the count of
/// removed shim files.
pub struct UnsortSpec {
    pub disk: DiskState,
    pub ops: Seq<OpSpec>,
    pub removed: nat,
}

/// Removes the shim files of `plugins` from `dir`, where they are regular files.
pub open spec fn unsort_plugins(d: DiskState, dir: Seq<char>, plugins: Seq<Seq<char>>) -> UnsortSpec
    decreases plugins.len(),
{
    if plugins.len() == 0 {
        UnsortSpec { disk: d, ops: Seq::empty(), removed: 0 }
    } else {
        let s = unsort_plugins(d, dir, plugins.drop_last());
        let file = path_join(dir, shim_file_name(plugins.last()));
        if s.disk.files.contains(file) {
            UnsortSpec {
                disk: apply_op(s.disk, OpSpec::RemoveFile(file)),
                ops: s.ops.push(OpSpec::RemoveFile(file)),
                removed: s.removed + 1,
            }
        } else {
            s
        }
    }
}

/// Undoes the sort of one group into `dir`: nothing where `dir` is absent; else its shim files
/// go, and then `dir` itself where nothing is left below it.
pub open spec fn unsort_group(d: DiskState, dir: Seq<char>, plugins: Seq<Seq<char>>) -> UnsortSpec {
    if !d.occupied(dir) {
        UnsortSpec { disk: d, ops: Seq::empty(), removed: 0 }
    } else {
        let s = unsort_plugins(d, dir, plugins);
        if s.disk.has_entries_below(dir) {
            s
        } else {
            UnsortSpec {
                disk: apply_op(s.disk, OpSpec::RemoveDir(dir)),
                ops: s.ops.push(OpSpec::RemoveDir(dir)),
                removed: s.removed,
            }
        }
    }
}

/// Undoes the sort of the groups `gs` out of `folder`, group after group.
pub open spec fn unsort_groups(d: DiskState, folder: Seq<char>, gs: Seq<GroupSpec>) -> UnsortSpec
    decreases gs.len(),
{
    if gs.len() == 0 {
        UnsortSpec { disk: d, ops: Seq::empty(), removed: 0 }
    } else {
        let s = unsort_groups(d, folder, gs.drop_last());
        let t = unsort_group(s.disk, path_join(folder, gs.last().name), gs.last().plugins);
        UnsortSpec { disk: t.disk, ops: s.ops + t.ops, removed: s.removed + t.removed }
    }
}

/// The disk after undoing the sort of the groups `gs` out of `folder`.
pub open spec fn disk_after_unsort(d: DiskState, folder: Seq<char>, gs: Seq<GroupSpec>) -> DiskState {
    if gs.len() == 0 {
        d
    } else {
        unsort_groups(d, folder, gs).disk
    }
}

proof fn lemma_apply_concat(d: DiskState, a: Seq<OpSpec>, b: Seq<OpSpec>)
    ensures
        apply_ops(d, a + b) == apply_ops(apply_ops(d, a), b),
    decreases b.len(),
{
    if b.len() == 0 {
        assert(a + b =~= a);
    } else {
        lemma_apply_concat(d, a, b.drop_last());
        assert((a + b).drop_last() =~= a + b.drop_last());
        assert((a + b).last() == b.last());
    }
}

proof fn lemma_unsort_plugins_applies(d: DiskState, dir: Seq<char>, plugins: Seq<Seq<char>>)
    ensures
        apply_ops(d, unsort_plugins(d, dir, plugins).ops) == unsort_plugins(d, dir, plugins).disk,
    decreases plugins.len(),
{
    if plugins.len() > 0 {
        lemma_unsort_plugins_applies(d, dir, plugins.drop_last());
        let s = unsort_plugins(d, dir, plugins.drop_last());
        let file = path_join(dir, shim_file_name(plugins.last()));
        if s.disk.files.contains(file) {
            assert(s.ops.push(OpSpec::RemoveFile(file)).drop_last() =~= s.ops);
        }
    }
}

/// The changes that undoing a sort hands out, carried out in order on the disk it started
/// from, leave the disk that the undoing describes.
pub proof fn lemma_unsort_plan_applies(d: DiskState, folder: Seq<char>, gs: Seq<GroupSpec>)
    ensures
        apply_ops(d, unsort_groups(d, folder, gs).ops) == unsort_groups(d, folder, gs).disk,
    decreases gs.len(),
{
    if gs.len() > 0 {
        lemma_unsort_plan_applies(d, folder, gs.drop_last());
        let s = unsort_groups(d, folder, gs.drop_last());
        let dir = path_join(folder, gs.last().name);
        let t = unsort_group(s.disk, dir, gs.last().plugins);
        lemma_apply_concat(d, s.ops, t.ops);
        if s.disk.occupied(dir) {
            let u = unsort_plugins(s.disk, dir, gs.last().plugins);
            lemma_unsort_plugins_applies(s.disk, dir, gs.last().plugins);
            if !u.disk.has_entries_below(dir) {
                assert(u.ops.push(OpSpec::RemoveDir(dir)).drop_last() =~= u.ops);
            }
        }
    }
}

/// What undoing the sort of one category does.
pub struct UnsortResult {
    /// The category has no groups, and nothing was looked at.
    pub no_groups: bool,
    /// The shim files that were removed.
    pub removed_count: usize,
    /// The changes to make to the file system, in order.
    pub ops: Vec<FsOp>,
}

/// What the unsort command does to each category.
pub struct UnsortRun {
    pub effects: UnsortResult,
    pub generators: UnsortResult,
}

/// `res` is what undoing the sort of `gs` out of `folder` gives, from the disk `before` to the
/// disk `after`.
pub open spec fn unsorted_as(
    res: UnsortResult,
    before: DiskState,
    after: DiskState,
    folder: Seq<char>,
    gs: Seq<GroupSpec>,
) -> bool {
    if gs.len() == 0 {
        &&& res.no_groups
        &&& res.removed_count == 0
        &&& res.ops@.len() == 0
        &&& after == before
    } else {
        let s = unsort_groups(before, folder, gs);
        &&& !res.no_groups
        &&& res.removed_count == s.removed
        &&& ops_view(res.ops@) == s.ops
        &&& after == s.disk
    }
}

fn unsort_plugins_exec(
    dir: &str,
    plugins: &Vec<String>,
    disk: &mut DiskView,
    ops: &mut Vec<FsOp>,
    removed: &mut usize,
)
    requires
        *old(removed) <= old(ops)@.len(),
    ensures
        ({
            let s = unsort_plugins(old(disk)@, dir@, strings_view(plugins@));
            &&& final(disk)@ == s.disk
            &&& ops_view(final(ops)@) == ops_view(old(ops)@) + s.ops
            &&& *final(removed) == *old(removed) + s.removed
        }),
        *final(removed) <= final(ops)@.len(),
{
    let ghost names = strings_view(plugins@);
    let ghost d0 = disk@;
    let ghost ops0 = ops_view(ops@);
    let ghost removed0 = *removed;
    let mut i: usize = 0;
    while i < plugins.len()
        invariant
            i <= plugins@.len(),
            names == strings_view(plugins@),
            disk@ == unsort_plugins(d0, dir@, names.subrange(0, i as int)).disk,
            ops_view(ops@) == ops0 + unsort_plugins(d0, dir@, names.subrange(0, i as int)).ops,
            *removed == removed0 + unsort_plugins(d0, dir@, names.subrange(0, i as int)).removed,
            *removed <= ops@.len(),
        decreases plugins@.len() - i,
    {
        let ghost prefix = names.subrange(0, i + 1);
        assert(prefix.drop_last() =~= names.subrange(0, i as int));
        assert(prefix.last() == plugins@[i as int]@);
        let file = shim_file(plugins[i].as_str());
        let plugin_path = join(dir, file.as_str());
        if disk.has_file(plugin_path.as_str()) {
            let op = FsOp::RemoveFile(plugin_path);
            disk.apply(&op);
            let ghost before = ops@;
            ops.push(op);
            assert(ops_view(ops@) =~= ops_view(before).push(
                OpSpec::RemoveFile(path_join(dir@, shim_file_name(prefix.last()))),
            ));
            // the count stays within the number of operations, whose length is a usize
            let _ops_len = ops.len();
            *removed = *removed + 1;
        }
        i = i + 1;
    }
    assert(names.subrange(0, plugins@.len() as int) =~= names);
}

impl UnsortSubcommand {
    /// Undoes the sort of `groups`, of category `group_type`, against `disk`, which follows the
    /// changes: the result holds the changes to make and the count of removed shim files.
    pub fn remove_sorted_files(
        &self,
        plugin_database: &PluginDatabase,
        groups: &Vec<PluginGroup>,
        group_type: PluginGroupType,
        disk: &mut DiskView,
    ) -> (r: UnsortResult)
        ensures
            unsorted_as(
                r,
                old(disk)@,
                final(disk)@,
                plugin_database.part(group_type).folder@,
                groups_view(groups@),
            ),
    {
        if groups.len() == 0 {
            return UnsortResult { no_groups: true, removed_count: 0, ops: Vec::new() };
        }
        let ghost gs = groups_view(groups@);
        let ghost d0 = disk@;
        let ghost folder = plugin_database.part(group_type).folder@;
        let mut ops: Vec<FsOp> = Vec::new();
        let mut removed_count: usize = 0;
        assert(ops_view(ops@) =~= Seq::<OpSpec>::empty());
        let mut i: usize = 0;
        while i < groups.len()
            invariant
                i <= groups@.len(),
                gs == groups_view(groups@),
                folder == plugin_database.part(group_type).folder@,
                disk@ == unsort_groups(d0, folder, gs.subrange(0, i as int)).disk,
                ops_view(ops@) == unsort_groups(d0, folder, gs.subrange(0, i as int)).ops,
                removed_count == unsort_groups(d0, folder, gs.subrange(0, i as int)).removed,
                removed_count <= ops@.len(),
            decreases groups@.len() - i,
        {
            let ghost prefix = gs.subrange(0, i + 1);
            assert(prefix.drop_last() =~= gs.subrange(0, i as int));
            let group = &groups[i];
            assert(prefix.last() == group@);
            let ghost s = unsort_groups(d0, folder, gs.subrange(0, i as int));
            let base_path = plugin_database.get_group_path(group, &group_type);
            if disk.is_occupied(base_path.as_str()) {
                unsort_plugins_exec(base_path.as_str(), &group.plugins, disk, &mut ops, &mut removed_count);
                if !disk.has_entries_below(base_path.as_str()) {
                    let op = FsOp::RemoveDir(base_path);
                    disk.apply(&op);
                    let ghost before = ops@;
                    ops.push(op);
                    assert(ops_view(ops@) =~= ops_view(before).push(
                        OpSpec::RemoveDir(path_join(folder, group.name@)),
                    ));
                }
                let ghost t = unsort_group(s.disk, path_join(folder, group.name@), group@.plugins);
                assert(ops_view(ops@) =~= s.ops + t.ops);
            } else {
                assert(s.ops + Seq::<OpSpec>::empty() =~= s.ops);
            }
            i = i + 1;
        }
        assert(gs.subrange(0, groups@.len() as int) =~= gs);
        UnsortResult { no_groups: false, removed_count, ops }
    }

    /// Undoes the sort of both categories of `config`, effects first, against `disk`.
    pub fn run(&self, config: &Config, disk: &mut DiskView) -> (r: UnsortRun)
        ensures
            ({
                    let mid = disk_after_unsort(
                        old(disk)@,
                        config.plugin_database.effects.folder@,
                        groups_view(config.effects.groups@),
                    );
                    &&& unsorted_as(
                        r.effects,
                        old(disk)@,
                        mid,
                        config.plugin_database.effects.folder@,
                        groups_view(config.effects.groups@),
                    )
                    &&& unsorted_as(
                        r.generators,
                        mid,
                        final(disk)@,
                        config.plugin_database.generators.folder@,
                        groups_view(config.generators.groups@),
                    )
                }),
    {
        let database = &config.plugin_database;
        let effects = self.remove_sorted_files(
            database,
            &config.effects.groups,
            PluginGroupType::Effect,
            disk,
        );
        let generators = self.remove_sorted_files(
            database,
            &config.generators.groups,
            PluginGroupType::Generator,
            disk,
        );
        UnsortRun { effects, generators }
    }
}

} // verus!
