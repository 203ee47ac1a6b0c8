use vstd::prelude::*;

use crate::config::{strings_view, GroupSpec, PluginGroup, PluginGroupType};
use crate::paths::{default_file_name, lower_of, underscored};

verus! {

/// Creates a plugin group from a list of plugin names.
pub struct NewSubcommand {
    /// The plugins of the group.
    pub plugins: Vec<String>,
    /// The name of the group.
    pub name: String,
    /// The category of the group.
    pub group_type: PluginGroupType,
    /// The identifier of the definition file; derived from the name where none is given.
    pub file_name: Option<String>,
}

impl NewSubcommand {
    /// The identifier of the definition file that this command writes.
    pub open spec fn file_id(&self) -> Seq<char> {
        match self.file_name {
            Some(f) => f@,
            None => underscored(lower_of(self.name@)),
        }
    }

    /// The identifier to save under and the group to save.
    pub fn into_group(self) -> (r: (String, PluginGroup))
        ensures
            r.0@ == self.file_id(),
            r.1@ == (GroupSpec { name: self.name@, plugins: strings_view(self.plugins@) }),
    {
        let file_name = match self.file_name {
            Some(f) => f,
            None => default_file_name(self.name.as_str()),
        };
        let group = PluginGroup::new(self.name.as_str(), self.plugins);
        (file_name, group)
    }
}

} // verus!
