use vstd::prelude::*;
use vstd::string::StringExecFns;
use crate::error::{outcome, WorkspaceError};
use crate::layout::{Action, Entry, Layout, LayoutModel, Node};
use crate::listing::{
    lemma_link_listed, lemma_link_skipped, lemma_links_listed, lemma_workspace_listed,
    lemma_workspace_skipped, lemma_workspaces_listed, links_listed_upto, workspaces_listed_upto,
};
use crate::model::{
    add_link_step, add_links_step, create_workspace_step, is_link_listing, is_workspace_listing,
    list_links_refusal, name_check, remove_link_step, remove_workspace_step, Step, TargetModel,
};
use crate::path::{final_component, is_hidden, is_single_segment, join, joined};

verus! {

/// The directory under the home directory that holds the workspaces, unless
/// another root is given.
pub const WORKSPACE_DIR: &'static str = ".workspaces";

/// A path that is to be linked to: as it was given, and as the file system
/// resolved it to a canonical absolute path, if it could.
#[derive(Debug, Clone, PartialEq, Eq)]
pub struct Target {
    pub path: String,
    pub resolved: Option<String>,
}

impl View for Target {
    type V = TargetModel;

    open spec fn view(&self) -> TargetModel {
        TargetModel {
            path: self.path@,
            resolved: match self.resolved {
                Some(resolved) => Some(resolved@),
                None => None,
            },
        }
    }
}

/// The targets of a vector as contracts see them.
pub open spec fn targets_model(targets: Seq<Target>) -> Seq<TargetModel> {
    targets.map_values(|t: Target| t@)
}

/// The targets handed to `create_workspace` as contracts see them.
pub open spec fn repos_model(repos: Option<Vec<Target>>) -> Option<Seq<TargetModel>> {
    match repos {
        Some(targets) => Some(targets_model(targets@)),
        None => None,
    }
}

/// Where a call leaves the layout, and how it ended.
pub open spec fn step_of(layout: LayoutModel, r: Result<(), WorkspaceError>) -> Step {
    Step { layout, result: outcome(r) }
}

/// The root directory that the two sources give: the one given outright where
/// there is one, else `.workspaces` under the home directory, if that is known.
pub open spec fn resolved_root(
    given: Option<Seq<char>>,
    home: Option<Seq<char>>,
) -> Option<Seq<char>> {
    match given {
        Some(root) => Some(root),
        None => match home {
            Some(home) => Some(joined(home, WORKSPACE_DIR@)),
            None => None,
        },
    }
}

/// A string that may be missing, as contracts see it.
pub open spec fn text_model(text: Option<String>) -> Option<Seq<char>> {
    match text {
        Some(text) => Some(text@),
        None => None,
    }
}

/// Wraps `dirs::home_dir`: the user's home directory, where the system knows
/// one and its path is valid Unicode. The answer depends on the environment,
/// so nothing is promised of it.
#[verifier::external_body]
fn home_dir() -> (home: Option<String>) {
    let path = dirs::home_dir()?;
    path.into_os_string().into_string().ok()
}

/// Manages the workspaces under one root directory.
pub struct WorkspaceManager {
    root_dir: String,
}

impl WorkspaceManager {
    /// The root directory.
    pub closed spec fn root(&self) -> Seq<char> {
        self.root_dir@
    }

    /// The root of a manager that may be missing.
    pub open spec fn root_of(manager: Option<WorkspaceManager>) -> Option<Seq<char>> {
        match manager {
            Some(manager) => Some(manager.root()),
            None => None,
        }
    }

    /// A manager for the root that `given` and `home` give, if they give one.
    pub fn from_sources(given: Option<String>, home: Option<String>) -> (r: Option<
        WorkspaceManager,
    >)
        ensures
            Self::root_of(r) == resolved_root(text_model(given), text_model(home)),
    {
        match given {
            Some(root) => Some(WorkspaceManager { root_dir: root }),
            None => match home {
                Some(home) => Some(
                    WorkspaceManager { root_dir: join(home.as_str(), WORKSPACE_DIR) },
                ),
                None => None,
            },
        }
    }

    /// A manager for the root `given`, or, without one, for `.workspaces`
    /// under the user's home directory. The home directory is asked for only
    /// where no root is given; `None` comes back where it is then not known.
    pub fn new(given: Option<String>) -> (r: Option<WorkspaceManager>)
        ensures
            given is Some ==> Self::root_of(r) == text_model(given),
            given is None ==> exists|home: Option<Seq<char>>|
                Self::root_of(r) == #[trigger] resolved_root(None, home),
    {
        match given {
            Some(root) => Self::from_sources(Some(root), None),
            None => {
                let home = home_dir();
                let r = Self::from_sources(None, home);
                assert(Self::root_of(r) == resolved_root(None, text_model(home)));
                r
            },
        }
    }

    /// The root directory.
    pub fn root_dir(&self) -> (root: &String)
        ensures
            root@ == self.root(),
    {
        &self.root_dir
    }

    /// Checks that `name` is one literal path segment. `label` says what is
    /// named, for the error.
    pub fn validate_name(&self, name: &str, label: &str) -> (r: Result<(), WorkspaceError>)
        ensures
            outcome(r) == name_check(name@, label@),
    {
        if is_single_segment(name) {
            Ok(())
        } else {
            Err(
                WorkspaceError::InvalidName {
                    label: String::from_str(label),
                    name: String::from_str(name),
                },
            )
        }
    }

    /// The path of the workspace `name`: the root joined with `name`, whether
    /// or not such a workspace exists and whatever `name` holds.
    pub fn get_workspace_dir(&self, name: &str) -> (path: String)
        ensures
            path@ == joined(self.root(), name@),
    {
        join(self.root_dir.as_str(), name)
    }

    /// Links `target` into the workspace `workspace_name`.
    pub fn add_link(&self, layout: &mut Layout, workspace_name: &str, target: &Target) -> (r:
        Result<(), WorkspaceError>)
        ensures
            step_of(final(layout)@, r) == add_link_step(
                self.root(),
                old(layout)@,
                workspace_name@,
                target@,
            ),
    {
        match self.validate_name(workspace_name, "Workspace") {
            Err(e) => {
                return Err(e);
            },
            Ok(_) => {},
        }
        let ws_dir = self.get_workspace_dir(workspace_name);
        if layout.node(workspace_name).is_none() {
            return Err(WorkspaceError::NotFound { name: String::from_str(workspace_name) });
        }
        let resolved = match &target.resolved {
            None => {
                return Err(WorkspaceError::IOFailure { path: target.path.clone() });
            },
            Some(resolved) => resolved,
        };
        let link_name = final_component(resolved.as_str());
        if !is_single_segment(link_name.as_str()) {
            return Err(
                WorkspaceError::InvalidName {
                    label: String::from_str("Link"),
                    name: resolved.clone(),
                },
            );
        }
        let link_path = join(ws_dir.as_str(), link_name.as_str());
        let taken = match layout.node(workspace_name) {
            Some(Node::Directory { entries }) => entries.get(link_name.as_str()).is_some(),
            _ => {
                return Err(WorkspaceError::IOFailure { path: link_path });
            },
        };
        if taken {
            layout.decide(Action::KeepEntry { path: link_path });
        } else {
            let stored = resolved.clone();
            layout.record_entry(
                workspace_name,
                link_name.as_str(),
                Entry::Link { target: resolved.clone() },
            );
            layout.decide(Action::CreateLink { path: link_path, target: stored });
        }
        Ok(())
    }

    /// Makes the workspace `name` and links `repos` into it, if any are given,
    /// in their order. The first target that is refused ends the call with its
    /// error; the workspace and the links made before it stay.
    pub fn create_workspace(
        &self,
        layout: &mut Layout,
        name: &str,
        repos: Option<Vec<Target>>,
    ) -> (r: Result<(), WorkspaceError>)
        ensures
            step_of(final(layout)@, r) == create_workspace_step(
                self.root(),
                old(layout)@,
                name@,
                repos_model(repos),
            ),
    {
        match self.validate_name(name, "Workspace") {
            Err(e) => {
                return Err(e);
            },
            Ok(_) => {},
        }
        let ws_dir = self.get_workspace_dir(name);
        if layout.node(name).is_some() {
            return Err(WorkspaceError::AlreadyExists { path: ws_dir });
        }
        layout.record_directory(name);
        layout.decide(Action::CreateDirectory { path: ws_dir });
        let ghost goal = create_workspace_step(
            self.root(),
            old(layout)@,
            name@,
            repos_model(repos),
        );
        match repos {
            Some(targets) => {
                let ghost all = targets_model(targets@);
                let n: usize = targets.len();
                let mut i: usize = 0;
                proof {
                    assert(all.skip(0) =~= all);
                }
                while i < n
                    invariant
                        n == targets@.len(),
                        i <= n,
                        all == targets_model(targets@),
                        goal == create_workspace_step(
                            self.root(),
                            old(layout)@,
                            name@,
                            repos_model(repos),
                        ),
                        add_links_step(self.root(), layout@, name@, all.skip(i as int)) == goal,
                    decreases n - i,
                {
                    proof {
                        assert(all.skip(i as int)[0] == targets@[i as int]@);
                        assert(all.skip(i as int).drop_first() =~= all.skip(i + 1));
                    }
                    match self.add_link(layout, name, &targets[i]) {
                        Err(e) => {
                            return Err(e);
                        },
                        Ok(_) => {},
                    }
                    i = i + 1;
                }
                Ok(())
            },
            None => Ok(()),
        }
    }

    /// The names of the workspaces: of the directories under the root that
    /// are not hidden, in ascending order.
    pub fn list_workspaces(&self, layout: &Layout) -> (names: Vec<String>)
        ensures
            is_workspace_listing(names.deep_view(), layout@.nodes),
    {
        let nodes = layout.nodes();
        let n: usize = nodes.len();
        let mut names: Vec<String> = Vec::new();
        let mut i: usize = 0;
        while i < n
            invariant
                nodes.coherent(),
                n == nodes.keys().len(),
                i <= n,
                workspaces_listed_upto(names.deep_view(), nodes.keys(), nodes@, i as int),
            decreases n - i,
        {
            let key = nodes.key_at(i);
            let listed = match nodes.value_at(i) {
                Node::Directory { .. } => !is_hidden(key.as_str()),
                Node::Other => false,
            };
            let ghost before = names.deep_view();
            if listed {
                names.push(key.clone());
                proof {
                    assert(names.deep_view() =~= before.push(key@));
                    lemma_workspace_listed(before, nodes.keys(), nodes@, i as int);
                }
            } else {
                proof {
                    lemma_workspace_skipped(before, nodes.keys(), nodes@, i as int);
                }
            }
            i = i + 1;
        }
        proof {
            lemma_workspaces_listed(names.deep_view(), nodes.keys(), nodes@);
        }
        names
    }

    /// The symbolic links in the workspace `name`, each with its name and the
    /// path it stores, in ascending order of the names. What is no symbolic
    /// link is left out.
    pub fn list_links(&self, layout: &Layout, name: &str) -> (r: Result<
        Vec<(String, String)>,
        WorkspaceError,
    >)
        ensures
            (match r {
                Ok(links) => list_links_refusal(self.root(), layout@, name@) is None
                    && is_link_listing(links.deep_view(), layout@.entries(name@)),
                Err(e) => list_links_refusal(self.root(), layout@, name@) == Some(e@),
            }),
    {
        match self.validate_name(name, "Workspace") {
            Err(e) => {
                return Err(e);
            },
            Ok(_) => {},
        }
        let entries = match layout.node(name) {
            None => {
                return Err(WorkspaceError::NotFound { name: String::from_str(name) });
            },
            Some(Node::Other) => {
                return Err(WorkspaceError::IOFailure { path: self.get_workspace_dir(name) });
            },
            Some(Node::Directory { entries }) => entries,
        };
        let n: usize = entries.len();
        let mut links: Vec<(String, String)> = Vec::new();
        let mut i: usize = 0;
        while i < n
            invariant
                entries.coherent(),
                n == entries.keys().len(),
                i <= n,
                links_listed_upto(links.deep_view(), entries.keys(), entries@, i as int),
            decreases n - i,
        {
            let key = entries.key_at(i);
            let ghost before = links.deep_view();
            match entries.value_at(i) {
                Entry::Link { target } => {
                    links.push((key.clone(), target.clone()));
                    proof {
                        assert(links.deep_view() =~= before.push((key@, target@)));
                        assert(entries.keys().contains(key@));
                        lemma_link_listed(before, entries.keys(), entries@, i as int);
                    }
                },
                Entry::Other => {
                    proof {
                        lemma_link_skipped(before, entries.keys(), entries@, i as int);
                    }
                },
            }
            i = i + 1;
        }
        proof {
            lemma_links_listed(links.deep_view(), entries.keys(), entries@);
        }
        Ok(links)
    }

    /// Removes the workspace `name` with all that is in it.
    pub fn remove_workspace(&self, layout: &mut Layout, name: &str) -> (r: Result<
        (),
        WorkspaceError,
    >)
        ensures
            step_of(final(layout)@, r) == remove_workspace_step(self.root(), old(layout)@, name@),
    {
        match self.validate_name(name, "Workspace") {
            Err(e) => {
                return Err(e);
            },
            Ok(_) => {},
        }
        let ws_dir = self.get_workspace_dir(name);
        if layout.node(name).is_none() {
            return Err(WorkspaceError::NotFound { name: String::from_str(name) });
        }
        layout.remove_node(name);
        layout.decide(Action::RemoveDirectory { path: ws_dir });
        Ok(())
    }

    /// Removes the symbolic link `link_name` from the workspace
    /// `workspace_name`. What is no symbolic link is never removed.
    pub fn remove_link(&self, layout: &mut Layout, workspace_name: &str, link_name: &str) -> (r:
        Result<(), WorkspaceError>)
        ensures
            step_of(final(layout)@, r) == remove_link_step(
                self.root(),
                old(layout)@,
                workspace_name@,
                link_name@,
            ),
    {
        match self.validate_name(workspace_name, "Workspace") {
            Err(e) => {
                return Err(e);
            },
            Ok(_) => {},
        }
        match self.validate_name(link_name, "Link") {
            Err(e) => {
                return Err(e);
            },
            Ok(_) => {},
        }
        let ws_dir = self.get_workspace_dir(workspace_name);
        let link_path = join(ws_dir.as_str(), link_name);
        let found = match layout.node(workspace_name) {
            Some(Node::Directory { entries }) => entries.get(link_name),
            _ => None,
        };
        match found {
            None => {
                return Err(WorkspaceError::NotFound { name: String::from_str(link_name) });
            },
            Some(Entry::Other) => {
                return Err(WorkspaceError::NotASymlink { name: String::from_str(link_name) });
            },
            Some(Entry::Link { .. }) => {},
        }
        layout.remove_entry(workspace_name, link_name);
        layout.decide(Action::RemoveLink { path: link_path });
        Ok(())
    }
}

} // verus!
