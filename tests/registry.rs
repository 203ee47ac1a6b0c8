use flsorter::commands::generate::{GenerateError, GenerateSubcommand};
use flsorter::commands::list::ListSubcommand;
use flsorter::commands::new::NewSubcommand;
use flsorter::commands::sort::{SortError, SortSubcommand};
use flsorter::commands::unsort::UnsortSubcommand;
use flsorter::config::{
    is_definition_file, Config, DefinitionFile, PluginDatabase, PluginGroup, PluginGroupData,
    PluginGroupType, UserConfig,
};
use flsorter::disk::DiskView;
use flsorter::paths::{default_file_name, file_stem, underscore_spaces};
use flsorter::plugin::is_path_vst;

fn strings(items: &[&str]) -> Vec<String> {
    items.iter().map(|s| s.to_string()).collect()
}

fn file(id: &str, name: &str, plugins: &[&str]) -> DefinitionFile {
    DefinitionFile { id: id.to_string(), group: PluginGroup::new(name, strings(plugins)) }
}

fn layout() -> DiskView {
    let mut disk = DiskView::new();
    for dir in [
        "/db/Effects",
        "/db/Generators",
        "/db/Installed/Effects",
        "/db/Installed/Generators",
        "/db/Installed/Effects/VST3",
        "/db/Installed/Effects/VST",
        "/db/Installed/Generators/VST3",
        "/db/Installed/Generators/VST",
    ] {
        disk.add_dir(dir.to_string());
    }
    disk
}

fn config(effects: Vec<PluginGroup>, generators: Vec<PluginGroup>, disk: &DiskView) -> Config {
    Config::new(
        UserConfig { plugin_database_path: "/db".to_string() },
        PluginDatabase::new("/db", disk).unwrap(),
        PluginGroupData::new(PluginGroupType::Effect, "/cfg/effect", effects),
        PluginGroupData::new(PluginGroupType::Generator, "/cfg/generator", generators),
    )
}

#[test]
fn duplicate_names_keep_later_file() {
    let files = vec![
        file("a", "Delay", &["Echo"]),
        file("b", "Chorus", &["Dimension"]),
        file("c", "Delay", &["Tape", "Slap"]),
    ];
    let (data, warnings) = PluginGroupData::load(PluginGroupType::Effect, "/cfg/effect", files);
    assert_eq!(data.groups.len(), 2);
    let delays: Vec<&PluginGroup> = data.groups.iter().filter(|g| g.name == "Delay").collect();
    assert_eq!(delays.len(), 1);
    assert_eq!(delays[0].plugins, strings(&["Tape", "Slap"]));
    assert_eq!(warnings.len(), 1);
    assert_eq!(warnings[0].name, "Delay");
    assert_eq!(warnings[0].file, "c");
}

#[test]
fn saved_group_loads_unchanged() {
    let files = vec![
        file("other", "Other", &["X"]),
        file("reverb", "Reverb Rack", &["ValhallaRoom", "FabFilterProQ", "ValhallaRoom"]),
    ];
    let (data, warnings) = PluginGroupData::load(PluginGroupType::Effect, "/cfg/effect", files);
    assert!(warnings.is_empty());
    assert_eq!(data.groups.len(), 2);
    assert_eq!(data.groups[1].name, "Reverb Rack");
    assert_eq!(data.groups[1].plugins, strings(&["ValhallaRoom", "FabFilterProQ", "ValhallaRoom"]));
    assert_eq!(data.config_path, "/cfg/effect");
}

#[test]
fn empty_registry_loads() {
    let (data, warnings) = PluginGroupData::load(PluginGroupType::Generator, "/g", Vec::new());
    assert!(data.groups.is_empty());
    assert!(warnings.is_empty());
}

#[test]
fn group_file_paths() {
    let data = PluginGroupData::new(PluginGroupType::Effect, "/cfg/effect", Vec::new());
    assert_eq!(data.group_path("delay_bus"), "/cfg/effect/delay_bus.toml");
    let mut disk = DiskView::new();
    assert!(!data.group_exists("delay_bus", &disk));
    disk.add_file("/cfg/effect/delay_bus.toml".to_string());
    assert!(data.group_exists("delay_bus", &disk));
    assert!(!data.group_exists("other", &disk));
}

#[test]
fn category_names_and_paths() {
    assert_eq!(PluginGroupType::Effect.name(), "effect");
    assert_eq!(PluginGroupType::Generator.name(), "generator");
    assert_eq!(PluginGroupType::Effect.path("/cfg"), "/cfg/effect");
    assert_eq!(PluginGroupType::Generator.path("/cfg"), "/cfg/generator");
    assert_eq!(PluginGroupType::Effect.segment(), "Effects");
    assert_eq!(PluginGroupType::Generator.segment(), "Generators");
}

#[test]
fn default_database_location() {
    let user = UserConfig::with_documents_dir("/home/u/Documents");
    assert_eq!(
        user.plugin_database_path,
        "/home/u/Documents/Image-Line/FL Studio/Presets/Plugin database"
    );
}

#[test]
fn definition_file_extension() {
    assert!(is_definition_file("/cfg/effect/bus.toml"));
    assert!(!is_definition_file("/cfg/effect/bus.txt"));
    assert!(!is_definition_file("/cfg/effect/.toml"));
    assert!(!is_definition_file("/cfg/effect.toml/bus"));
}

#[test]
fn plugin_binary_extensions() {
    assert!(is_path_vst("/p/Serum.dll"));
    assert!(is_path_vst("/p/Pro-Q 3.vst3"));
    assert!(!is_path_vst("/p/readme.txt"));
    assert!(!is_path_vst("/p/noext"));
    assert!(!is_path_vst("/p.dll/noext"));
    assert!(!is_path_vst("/p/.dll"));
    assert!(is_path_vst("plain.dll"));
}

#[test]
fn plugin_names_from_paths() {
    assert_eq!(file_stem("/p/Serum.dll"), "Serum");
    assert_eq!(file_stem("/p/a.b.vst3"), "a.b");
    assert_eq!(file_stem("/p/.hidden"), ".hidden");
    assert_eq!(file_stem("bare"), "bare");
}

#[test]
fn default_file_names() {
    assert_eq!(default_file_name("My Reverb Rack"), "my_reverb_rack");
    assert_eq!(default_file_name("DELAY"), "delay");
    assert_eq!(underscore_spaces("a b  c"), "a_b__c");
}

#[test]
fn generate_splits_by_choice() {
    let cmd = GenerateSubcommand {
        path: "/plugins/Synths Folder".to_string(),
        name: None,
        file_name: None,
        recurse: false,
    };
    let names = strings(&["Serum", "ProQ", "Vital", "Valhalla"]);
    let plan = cmd.plan(&names, "Synths Folder", &vec![1, 3]).unwrap();
    assert_eq!(plan.file_name, "synths_folder");
    let effects = plan.effects.unwrap();
    assert_eq!(effects.name, "Synths Folder");
    assert_eq!(effects.plugins, strings(&["ProQ", "Valhalla"]));
    let generators = plan.generators.unwrap();
    assert_eq!(generators.plugins, strings(&["Serum", "Vital"]));
}

#[test]
fn generate_without_choice_is_all_generators() {
    let cmd = GenerateSubcommand {
        path: "/x".to_string(),
        name: Some("Named".to_string()),
        file_name: Some("given".to_string()),
        recurse: true,
    };
    let plan = cmd.plan(&strings(&["A", "B"]), "x", &Vec::new()).unwrap();
    assert_eq!(plan.file_name, "given");
    assert!(plan.effects.is_none());
    let generators = plan.generators.unwrap();
    assert_eq!(generators.name, "Named");
    assert_eq!(generators.plugins, strings(&["A", "B"]));
}

#[test]
fn generate_without_plugins_fails() {
    let cmd = GenerateSubcommand { path: "/x".to_string(), name: None, file_name: None, recurse: false };
    assert_eq!(cmd.plan(&Vec::new(), "x", &Vec::new()).err(), Some(GenerateError::NoPlugins));
}

#[test]
fn new_group_file_name() {
    let cmd = NewSubcommand {
        plugins: strings(&["A", "B"]),
        name: "Vocal Chain".to_string(),
        group_type: PluginGroupType::Effect,
        file_name: None,
    };
    let (id, group) = cmd.into_group();
    assert_eq!(id, "vocal_chain");
    assert_eq!(group.name, "Vocal Chain");
    assert_eq!(group.plugins, strings(&["A", "B"]));
    let cmd = NewSubcommand {
        plugins: strings(&["A"]),
        name: "Vocal Chain".to_string(),
        group_type: PluginGroupType::Generator,
        file_name: Some("vc".to_string()),
    };
    assert_eq!(cmd.into_group().0, "vc");
}

#[test]
fn list_labels_sorted() {
    let disk = layout();
    let cfg = config(
        vec![PluginGroup::new("Reverb", strings(&["R"])), PluginGroup::new("Delay", Vec::new())],
        vec![PluginGroup::new("Bass", strings(&["B"])), PluginGroup::new("Delay", Vec::new())],
        &disk,
    );
    let entries = ListSubcommand {}.entries(&cfg);
    let labels: Vec<&str> = entries.iter().map(|e| e.label.as_str()).collect();
    assert_eq!(labels, vec!["Bass (GENERATOR)", "Delay (EFFECT)", "Delay (GENERATOR)", "Reverb (EFFECT)"]);
    assert_eq!(entries[0].group_type, PluginGroupType::Generator);
    assert_eq!(entries[0].index, 0);
    assert_eq!(entries[3].index, 0);
}

#[test]
fn list_empty() {
    let disk = layout();
    let cfg = config(Vec::new(), Vec::new(), &disk);
    assert!(ListSubcommand {}.entries(&cfg).is_empty());
}

#[test]
fn sort_run_needs_groups() {
    let disk = layout();
    let cfg = config(Vec::new(), Vec::new(), &disk);
    assert_eq!(SortSubcommand {}.run(&cfg, &disk).err(), Some(SortError::NoGroups));
}

#[test]
fn sort_run_skips_empty_category() {
    let mut disk = layout();
    disk.add_file("/db/Installed/Generators/VST/Bass.fst".to_string());
    let cfg = config(Vec::new(), vec![PluginGroup::new("Low", strings(&["Bass"]))], &disk);
    let run = SortSubcommand {}.run(&cfg, &disk).ok().unwrap();
    assert!(run.effects.is_none());
    let generators = run.generators.unwrap();
    assert_eq!(generators.plugin_count, 1);
    assert_eq!(generators.folder_count, 1);
}

#[test]
fn unsort_run_both_categories() {
    let mut disk = layout();
    disk.add_dir("/db/Generators/Low".to_string());
    disk.add_file("/db/Generators/Low/Bass.fst".to_string());
    let cfg = config(Vec::new(), vec![PluginGroup::new("Low", strings(&["Bass"]))], &disk);
    let run = UnsortSubcommand {}.run(&cfg, &mut disk);
    assert!(run.effects.no_groups);
    assert!(!run.generators.no_groups);
    assert_eq!(run.generators.removed_count, 1);
    assert!(!disk.is_occupied("/db/Generators/Low"));
}

#[test]
fn load_orders_by_identifier() {
    let files = vec![
        file("zeta", "Delay", &["Late"]),
        file("alpha", "Delay", &["Early"]),
        file("mid", "Comp", &["C"]),
    ];
    let (data, warnings) = PluginGroupData::load(PluginGroupType::Effect, "/cfg/effect", files);
    assert_eq!(data.groups.len(), 2);
    assert_eq!(data.groups[0].name, "Delay");
    assert_eq!(data.groups[0].plugins, strings(&["Late"]));
    assert_eq!(data.groups[1].name, "Comp");
    assert_eq!(warnings.len(), 1);
    assert_eq!(warnings[0].file, "zeta");
}
