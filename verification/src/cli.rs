use vstd::prelude::*;

verus! {

/// What was asked for on the command line.
#[derive(Debug, Clone, PartialEq, Eq)]
pub struct Cli {
    pub command: Commands,
}

/// The commands. A workspace can be named by position or by flag.
#[derive(Debug, Clone, PartialEq, Eq)]
pub enum Commands {
    /// Make a workspace, link `repos` into it, and enter it if `activate`.
    Create {
        name_pos: Option<String>,
        name: Option<String>,
        repos: Option<Vec<String>>,
        activate: bool,
    },
    /// List the workspaces, with the stored paths of their links if `detail`.
    List { detail: bool },
    /// Link the paths of `add` into a workspace, then remove the links named
    /// in `remove` from it.
    Update {
        name_pos: Option<String>,
        name: Option<String>,
        add: Option<Vec<String>>,
        remove: Option<Vec<String>>,
    },
    /// Remove a workspace.
    Remove { name_pos: Option<String>, name: Option<String> },
    /// Enter the workspace `name`, or, without a name, one picked from a list.
    Activate { name: Option<String>, detail: bool },
}

/// Of two ways to give a name the first counts where both are used.
pub open spec fn first_given(by_position: Option<String>, by_flag: Option<String>) -> Option<
    String,
> {
    if by_position is Some {
        by_position
    } else {
        by_flag
    }
}

impl Commands {
    /// The workspace that the command names, if it names one.
    pub open spec fn named(&self) -> Option<String> {
        match self {
            Commands::Create { name_pos, name, .. } => first_given(*name_pos, *name),
            Commands::List { .. } => None,
            Commands::Update { name_pos, name, .. } => first_given(*name_pos, *name),
            Commands::Remove { name_pos, name } => first_given(*name_pos, *name),
            Commands::Activate { name, .. } => *name,
        }
    }

    /// The workspace that the command names, if it names one.
    pub fn workspace_name(&self) -> (r: Option<&String>)
        ensures
            (match r {
                Some(name) => self.named() == Some(*name),
                None => self.named() is None,
            }),
    {
        match self {
            Commands::Create { name_pos, name, .. } => Self::pick(name_pos, name),
            Commands::List { .. } => None,
            Commands::Update { name_pos, name, .. } => Self::pick(name_pos, name),
            Commands::Remove { name_pos, name } => Self::pick(name_pos, name),
            Commands::Activate { name, .. } => name.as_ref(),
        }
    }

    fn pick<'a>(by_position: &'a Option<String>, by_flag: &'a Option<String>) -> (r: Option<
        &'a String,
    >)
        ensures
            (match r {
                Some(name) => first_given(*by_position, *by_flag) == Some(*name),
                None => first_given(*by_position, *by_flag) is None,
            }),
    {
        match by_position {
            Some(name) => Some(name),
            None => by_flag.as_ref(),
        }
    }
}

} // verus!
