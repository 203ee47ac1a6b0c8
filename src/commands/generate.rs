use vstd::prelude::*;

use crate::config::{strings_view, GroupSpec, PluginGroup};
use crate::paths::{default_file_name, lower_of, underscored};

verus! {

/// Makes plugin groups out of the plugin binaries found in a folder.
pub struct GenerateSubcommand {
    /// The folder that holds the plugin binaries.
    pub path: String,
    /// The name of the groups; the folder's name where none is given.
    pub name: Option<String>,
    /// The identifier of the definition files; derived from the folder's name where none is given.
    pub file_name: Option<String>,
    /// Whether the plugins of subfolders are taken too.
    pub recurse: bool,
}

/// The groups that generating makes, and the identifier they are saved under.
pub struct GeneratePlan {
    pub file_name: String,
    /// The effect group, where at least one plugin was chosen as an effect.
    pub effects: Option<PluginGroup>,
    /// The generator group, where at least one plugin was not chosen.
    pub generators: Option<PluginGroup>,
}

/// Why nothing could be generated.
#[derive(Debug, PartialEq, Eq, Structural)]
pub enum GenerateError {
    /// The folder holds no plugin binaries.
    NoPlugins,
}

/// The names of `names` whose index is in `chosen` (where `effects`) or is not (otherwise).
pub open spec fn chosen_part(names: Seq<Seq<char>>, chosen: Seq<usize>, effects: bool) -> Seq<
    Seq<char>,
>
    decreases names.len(),
{
    if names.len() == 0 {
        Seq::empty()
    } else {
        let before = chosen_part(names.drop_last(), chosen, effects);
        if chosen.contains((names.len() - 1) as usize) == effects {
            before.push(names.last())
        } else {
            before
        }
    }
}

/// A group of `names` called `name`, where there is at least one name.
pub open spec fn group_of(name: Seq<char>, names: Seq<Seq<char>>) -> Option<GroupSpec> {
    if names.len() == 0 {
        None
    } else {
        Some(GroupSpec { name, plugins: names })
    }
}

/// The view of an optional group.
pub open spec fn opt_group_view(g: Option<PluginGroup>) -> Option<GroupSpec> {
    match g {
        Some(g) => Some(g@),
        None => None,
    }
}

fn has_index(chosen: &Vec<usize>, i: usize) -> (r: bool)
    ensures
        r == chosen@.contains(i),
{
    let mut k: usize = 0;
    while k < chosen.len()
        invariant
            k <= chosen@.len(),
            forall|j: int| 0 <= j < k ==> chosen@[j] != i,
        decreases chosen@.len() - k,
    {
        if chosen[k] == i {
            return true;
        }
        k = k + 1;
    }
    false
}

impl GenerateSubcommand {
    /// The name of the generated groups, given the name of the scanned folder.
    pub open spec fn group_name(&self, dir_name: Seq<char>) -> Seq<char> {
        match self.name {
            Some(n) => n@,
            None => dir_name,
        }
    }

    /// The identifier of the generated definition files, given the name of the scanned folder.
    pub open spec fn file_id(&self, dir_name: Seq<char>) -> Seq<char> {
        match self.file_name {
            Some(f) => f@,
            None => underscored(lower_of(dir_name)),
        }
    }

    /// Splits `plugin_names`, found in the folder called `dir_name`, into an effect group of the
    /// plugins at the indices `chosen` and a generator group of the others.
    pub fn plan(&self, plugin_names: &Vec<String>, dir_name: &str, chosen: &Vec<usize>) -> (r:
        Result<GeneratePlan, GenerateError>)
        ensures
            r is Err <==> plugin_names@.len() == 0,
            r matches Ok(p) ==> {
                let names = strings_view(plugin_names@);
                &&& p.file_name@ == self.file_id(dir_name@)
                &&& opt_group_view(p.effects) == group_of(
                    self.group_name(dir_name@),
                    chosen_part(names, chosen@, true),
                )
                &&& opt_group_view(p.generators) == group_of(
                    self.group_name(dir_name@),
                    chosen_part(names, chosen@, false),
                )
            },
    {
        if plugin_names.len() == 0 {
            return Err(GenerateError::NoPlugins);
        }
        let group_name = match &self.name {
            Some(n) => n.clone(),
            None => dir_name.to_owned(),
        };
        let file_name = match &self.file_name {
            Some(f) => f.clone(),
            None => default_file_name(dir_name),
        };
        let ghost names = strings_view(plugin_names@);
        let mut effects: Vec<String> = Vec::new();
        let mut generators: Vec<String> = Vec::new();
        let mut i: usize = 0;
        while i < plugin_names.len()
            invariant
                i <= plugin_names@.len(),
                names == strings_view(plugin_names@),
                strings_view(effects@) == chosen_part(names.subrange(0, i as int), chosen@, true),
                strings_view(generators@) == chosen_part(
                    names.subrange(0, i as int),
                    chosen@,
                    false,
                ),
            decreases plugin_names@.len() - i,
        {
            let ghost prefix = names.subrange(0, i + 1);
            assert(prefix.drop_last() =~= names.subrange(0, i as int));
            let plugin = plugin_names[i].clone();
            if has_index(chosen, i) {
                let ghost before = effects@;
                effects.push(plugin);
                assert(strings_view(effects@) =~= strings_view(before).push(names[i as int]));
            } else {
                let ghost before = generators@;
                generators.push(plugin);
                assert(strings_view(generators@) =~= strings_view(before).push(names[i as int]));
            }
            i = i + 1;
        }
        assert(names.subrange(0, plugin_names@.len() as int) =~= names);
        let effects = if effects.len() == 0 {
            None
        } else {
            Some(PluginGroup::new(group_name.as_str(), effects))
        };
        let generators = if generators.len() == 0 {
            None
        } else {
            Some(PluginGroup::new(group_name.as_str(), generators))
        };
        Ok(GeneratePlan { file_name, effects, generators })
    }
}

} // verus!
