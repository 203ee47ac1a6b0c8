use flsorter::commands::sort::SortSubcommand;
use flsorter::commands::unsort::UnsortSubcommand;
use flsorter::config::{
    ConfigError, InstalledPlugins, PluginDatabase, PluginGroup, PluginGroupType,
};
use flsorter::disk::{DiskView, FsOp};

const BASE: &str = "/db";

fn layout() -> DiskView {
    let mut disk = DiskView::new();
    for dir in [
        "/db/Effects",
        "/db/Generators",
        "/db/Installed",
        "/db/Installed/Effects",
        "/db/Installed/Generators",
        "/db/Installed/Effects/VST3",
        "/db/Installed/Effects/VST",
        "/db/Installed/Generators/VST3",
        "/db/Installed/Generators/VST",
    ] {
        disk.add_dir(dir.to_string());
    }
    disk
}

fn group(name: &str, plugins: &[&str]) -> PluginGroup {
    PluginGroup::new(name, plugins.iter().map(|p| p.to_string()).collect())
}

fn apply_all(disk: &mut DiskView, ops: &[FsOp]) {
    for op in ops {
        disk.apply(op);
    }
}

fn sorted_files(disk: &DiskView, dir: &str) -> Vec<String> {
    let mut files = disk.files_below(dir);
    files.sort();
    files
}

#[test]
fn sort_then_unsort_removes_folder() {
    let mut disk = layout();
    disk.add_file("/db/Installed/Effects/VST3/ValhallaRoom.fst".to_string());
    disk.add_file("/db/Installed/Effects/VST/FabFilterProQ.fst".to_string());
    let db = PluginDatabase::new(BASE, &disk).unwrap();
    let groups = vec![group("Reverb Rack", &["ValhallaRoom", "FabFilterProQ"])];

    let result = SortSubcommand {}.sort_groups(
        &db.effects.folder,
        &db.effects.installed,
        &groups,
        &disk,
    );
    assert_eq!(result.plugin_count, 2);
    assert_eq!(result.folder_count, 1);
    apply_all(&mut disk, &result.ops);
    assert!(disk.has_dir("/db/Effects/Reverb Rack"));
    assert_eq!(
        sorted_files(&disk, "/db/Effects/Reverb Rack"),
        vec![
            "/db/Effects/Reverb Rack/FabFilterProQ.fst".to_string(),
            "/db/Effects/Reverb Rack/ValhallaRoom.fst".to_string(),
        ]
    );

    let undone = UnsortSubcommand {}.remove_sorted_files(
        &db,
        &groups,
        PluginGroupType::Effect,
        &mut disk,
    );
    assert!(!undone.no_groups);
    assert_eq!(undone.removed_count, 2);
    assert!(!disk.is_occupied("/db/Effects/Reverb Rack"));
    assert!(disk.files_below("/db/Effects/Reverb Rack").is_empty());
}

#[test]
fn sort_skips_missing_plugin() {
    let mut disk = layout();
    disk.add_file("/db/Installed/Generators/VST3/Real.fst".to_string());
    let db = PluginDatabase::new(BASE, &disk).unwrap();
    let groups = vec![group("Mix", &["Real", "Ghost"])];
    let result = SortSubcommand {}.sort_groups(
        &db.generators.folder,
        &db.generators.installed,
        &groups,
        &disk,
    );
    assert_eq!(result.plugin_count, 1);
    assert_eq!(result.folder_count, 1);
    assert_eq!(result.missing_plugins, vec!["Ghost".to_string()]);
    assert!(result.skipped_groups.is_empty());
    apply_all(&mut disk, &result.ops);
    assert_eq!(
        sorted_files(&disk, "/db/Generators/Mix"),
        vec!["/db/Generators/Mix/Real.fst".to_string()]
    );
}

#[test]
fn sort_twice_gives_same_result() {
    let mut disk = layout();
    disk.add_file("/db/Installed/Effects/VST3/A.fst".to_string());
    let db = PluginDatabase::new(BASE, &disk).unwrap();
    let groups = vec![group("G", &["A", "B", "A"])];
    let sorter = SortSubcommand {};
    let first = sorter.sort_groups(&db.effects.folder, &db.effects.installed, &groups, &disk);
    apply_all(&mut disk, &first.ops);
    let after_first = sorted_files(&disk, "/db/Effects/G");
    let second = sorter.sort_groups(&db.effects.folder, &db.effects.installed, &groups, &disk);
    apply_all(&mut disk, &second.ops);
    assert_eq!(first.plugin_count, 2);
    assert_eq!(second.plugin_count, first.plugin_count);
    assert_eq!(second.folder_count, first.folder_count);
    assert_eq!(second.missing_plugins, first.missing_plugins);
    assert_eq!(second.ops.len(), first.ops.len());
    assert_eq!(sorted_files(&disk, "/db/Effects/G"), after_first);
    assert_eq!(after_first, vec!["/db/Effects/G/A.fst".to_string()]);
}

#[test]
fn sort_skips_empty_group() {
    let disk = layout();
    let db = PluginDatabase::new(BASE, &disk).unwrap();
    let groups = vec![group("Nothing", &[])];
    let result = SortSubcommand {}.sort_groups(
        &db.effects.folder,
        &db.effects.installed,
        &groups,
        &disk,
    );
    assert_eq!(result.folder_count, 0);
    assert_eq!(result.plugin_count, 0);
    assert!(result.ops.is_empty());
    assert_eq!(result.skipped_groups, vec!["Nothing".to_string()]);
}

#[test]
fn sort_counts_folder_when_no_plugin_resolves() {
    let disk = layout();
    let db = PluginDatabase::new(BASE, &disk).unwrap();
    let groups = vec![group("Lost", &["Nope"])];
    let result = SortSubcommand {}.sort_groups(
        &db.effects.folder,
        &db.effects.installed,
        &groups,
        &disk,
    );
    assert_eq!(result.folder_count, 1);
    assert_eq!(result.plugin_count, 0);
    assert_eq!(result.ops.len(), 1);
    assert!(matches!(&result.ops[0], FsOp::CreateDirAll(p) if p == "/db/Effects/Lost"));
}

#[test]
fn newer_root_shadows_legacy() {
    let mut disk = layout();
    disk.add_file("/db/Installed/Effects/VST3/Both.fst".to_string());
    disk.add_file("/db/Installed/Effects/VST/Both.fst".to_string());
    disk.add_file("/db/Installed/Effects/VST/Old.fst".to_string());
    let db = PluginDatabase::new(BASE, &disk).unwrap();
    assert_eq!(
        db.effects.installed.get_plugin("Both", &disk),
        Some("/db/Installed/Effects/VST3/Both.fst".to_string())
    );
    assert_eq!(
        db.effects.installed.get_plugin("Old", &disk),
        Some("/db/Installed/Effects/VST/Old.fst".to_string())
    );
    assert_eq!(db.effects.installed.get_plugin("None", &disk), None);
}

#[test]
fn installed_index_by_hand() {
    let mut disk = DiskView::new();
    disk.add_file("/n/X.fst".to_string());
    let index = InstalledPlugins::new("/l", "/n");
    assert_eq!(index.get_plugin("X", &disk), Some("/n/X.fst".to_string()));
}

#[test]
fn database_requires_newer_generator_root() {
    let mut disk = DiskView::new();
    for dir in [
        "/db/Effects",
        "/db/Generators",
        "/db/Installed/Effects",
        "/db/Installed/Generators",
        "/db/Installed/Effects/VST3",
        "/db/Installed/Effects/VST",
        "/db/Installed/Generators/VST",
    ] {
        disk.add_dir(dir.to_string());
    }
    assert_eq!(PluginDatabase::new(BASE, &disk).err(), Some(ConfigError::InvalidDatabase));
    disk.add_dir("/db/Installed/Generators/VST3".to_string());
    assert!(PluginDatabase::new(BASE, &disk).is_ok());
}

#[test]
fn database_requires_destination_roots() {
    let mut disk = layout();
    disk.apply(&FsOp::RemoveDir("/db/Effects".to_string()));
    assert_eq!(PluginDatabase::new(BASE, &disk).err(), Some(ConfigError::InvalidDatabase));
}

#[test]
fn database_paths() {
    let disk = layout();
    let db = PluginDatabase::new(BASE, &disk).unwrap();
    assert_eq!(db.effects.folder, "/db/Effects");
    assert_eq!(db.generators.folder, "/db/Generators");
    assert_eq!(db.generators.installed.vst3, "/db/Installed/Generators/VST3");
    assert_eq!(db.generators.installed.vst, "/db/Installed/Generators/VST");
    let g = group("Pads", &[]);
    assert_eq!(db.get_group_path(&g, &PluginGroupType::Generator), "/db/Generators/Pads");
    assert_eq!(db.get_group_path(&g, &PluginGroupType::Effect), "/db/Effects/Pads");
}

#[test]
fn unsort_keeps_unrelated_file() {
    let mut disk = layout();
    disk.add_dir("/db/Effects/Bus".to_string());
    disk.add_file("/db/Effects/Bus/Comp.fst".to_string());
    disk.add_file("/db/Effects/Bus/notes.txt".to_string());
    let db = PluginDatabase::new(BASE, &disk).unwrap();
    let groups = vec![group("Bus", &["Comp"])];
    let undone = UnsortSubcommand {}.remove_sorted_files(
        &db,
        &groups,
        PluginGroupType::Effect,
        &mut disk,
    );
    assert_eq!(undone.removed_count, 1);
    assert_eq!(undone.ops.len(), 1);
    assert!(!disk.has_file("/db/Effects/Bus/Comp.fst"));
    assert!(disk.has_file("/db/Effects/Bus/notes.txt"));
    assert!(disk.has_dir("/db/Effects/Bus"));
}

#[test]
fn unsort_without_groups() {
    let mut disk = layout();
    let db = PluginDatabase::new(BASE, &disk).unwrap();
    let undone = UnsortSubcommand {}.remove_sorted_files(
        &db,
        &Vec::new(),
        PluginGroupType::Generator,
        &mut disk,
    );
    assert!(undone.no_groups);
    assert_eq!(undone.removed_count, 0);
    assert!(undone.ops.is_empty());
}

#[test]
fn unsort_skips_absent_folder_and_counts_zero() {
    let mut disk = layout();
    let db = PluginDatabase::new(BASE, &disk).unwrap();
    let groups = vec![group("Never", &["X"])];
    let undone = UnsortSubcommand {}.remove_sorted_files(
        &db,
        &groups,
        PluginGroupType::Effect,
        &mut disk,
    );
    assert!(!undone.no_groups);
    assert_eq!(undone.removed_count, 0);
    assert!(undone.ops.is_empty());
}

#[test]
fn unsort_ignores_changed_definition() {
    let mut disk = layout();
    disk.add_dir("/db/Effects/Bus".to_string());
    disk.add_file("/db/Effects/Bus/Old.fst".to_string());
    let db = PluginDatabase::new(BASE, &disk).unwrap();
    let groups = vec![group("Bus", &["New"])];
    let undone = UnsortSubcommand {}.remove_sorted_files(
        &db,
        &groups,
        PluginGroupType::Effect,
        &mut disk,
    );
    assert_eq!(undone.removed_count, 0);
    assert!(disk.has_file("/db/Effects/Bus/Old.fst"));
    assert!(disk.has_dir("/db/Effects/Bus"));
}
