pub mod sort;
pub mod unsort;
pub mod generate;
pub mod list;
pub mod new;

use vstd::prelude::*;

use crate::commands::generate::GenerateSubcommand;
use crate::commands::list::ListSubcommand;
use crate::commands::new::NewSubcommand;
use crate::commands::sort::SortSubcommand;
use crate::commands::unsort::UnsortSubcommand;

verus! {

/// The commands of the tool.
pub enum Subcommand {
    Generate(GenerateSubcommand),
    List(ListSubcommand),
    New(NewSubcommand),
    Sort(SortSubcommand),
    Unsort(UnsortSubcommand),
}

} // verus!
