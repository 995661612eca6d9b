use vstd::prelude::*;
use vstd::string::StringExecFns;
use crate::sorted_map::SortedMap;

verus! {

/// What stands in a workspace under one name.
#[derive(Debug)]
pub enum Entry {
    /// A symbolic link, with the path it stores.
    Link { target: String },
    /// Anything else: a file or a directory.
    Other,
}

/// An `Entry` as contracts see it.
pub enum EntryModel {
    Link { target: Seq<char> },
    Other,
}

impl View for Entry {
    type V = EntryModel;

    open spec fn view(&self) -> EntryModel {
        match self {
            Entry::Link { target } => EntryModel::Link { target: target@ },
            Entry::Other => EntryModel::Other,
        }
    }
}

/// What stands under the root directory under one name.
pub enum Node {
    /// A directory, that is a workspace, with its entries.
    Directory { entries: SortedMap<Entry> },
    /// Anything that is not a directory.
    Other,
}

/// A `Node` as contracts see it.
pub enum NodeModel {
    Directory { entries: Map<Seq<char>, EntryModel> },
    Other,
}

/// The directory that holds `entries`.
pub open spec fn directory(entries: Map<Seq<char>, EntryModel>) -> NodeModel {
    NodeModel::Directory { entries }
}

impl View for Node {
    type V = NodeModel;

    open spec fn view(&self) -> NodeModel {
        match self {
            Node::Directory { entries } => NodeModel::Directory { entries: entries@ },
            Node::Other => NodeModel::Other,
        }
    }
}

/// One step that was decided on and is still to be carried out on the file
/// system, or to be told to the user.
#[derive(Debug, Clone, PartialEq, Eq)]
pub enum Action {
    /// Make the directory `path`, and those above it that are missing.
    CreateDirectory { path: String },
    /// Make at `path` a symbolic link that stores `target`.
    CreateLink { path: String, target: String },
    /// Something stands at `path` already: leave it.
    KeepEntry { path: String },
    /// Remove the symbolic link at `path`, not what it points to.
    RemoveLink { path: String },
    /// Remove the directory `path` and all that is under it.
    RemoveDirectory { path: String },
}

/// An `Action` as contracts see it.
pub enum ActionModel {
    CreateDirectory { path: Seq<char> },
    CreateLink { path: Seq<char>, target: Seq<char> },
    KeepEntry { path: Seq<char> },
    RemoveLink { path: Seq<char> },
    RemoveDirectory { path: Seq<char> },
}

impl View for Action {
    type V = ActionModel;

    open spec fn view(&self) -> ActionModel {
        match self {
            Action::CreateDirectory { path } => ActionModel::CreateDirectory { path: path@ },
            Action::CreateLink { path, target } => ActionModel::CreateLink {
                path: path@,
                target: target@,
            },
            Action::KeepEntry { path } => ActionModel::KeepEntry { path: path@ },
            Action::RemoveLink { path } => ActionModel::RemoveLink { path: path@ },
            Action::RemoveDirectory { path } => ActionModel::RemoveDirectory { path: path@ },
        }
    }
}

/// The actions of a vector as contracts see them.
pub open spec fn actions_model(actions: Seq<Action>) -> Seq<ActionModel> {
    actions.map_values(|a: Action| a@)
}

/// What stands under the root directory, as it was read and as the
/// operations since have changed it, with the actions that they decided on.
pub struct Layout {
    nodes: SortedMap<Node>,
    pending: Vec<Action>,
}

/// A `Layout` as contracts see it.
pub struct LayoutModel {
    /// What stands under the root directory, by name.
    pub nodes: Map<Seq<char>, NodeModel>,
    /// The actions decided on and not yet taken away, oldest first.
    pub pending: Seq<ActionModel>,
}

impl LayoutModel {
    /// Whether a directory stands under `name`.
    pub open spec fn has_directory(self, name: Seq<char>) -> bool {
        self.nodes.dom().contains(name) && self.nodes[name] is Directory
    }

    /// The entries of the directory `name`.
    pub open spec fn entries(self, name: Seq<char>) -> Map<Seq<char>, EntryModel>
        recommends
            self.has_directory(name),
    {
        self.nodes[name]->entries
    }

    /// The same with `node` under `name`.
    pub open spec fn with_node(self, name: Seq<char>, node: NodeModel) -> LayoutModel {
        LayoutModel { nodes: self.nodes.insert(name, node), pending: self.pending }
    }

    /// The same with nothing under `name`.
    pub open spec fn without_node(self, name: Seq<char>) -> LayoutModel {
        LayoutModel { nodes: self.nodes.remove(name), pending: self.pending }
    }

    /// The same with `action` decided on last.
    pub open spec fn with_action(self, action: ActionModel) -> LayoutModel {
        LayoutModel { nodes: self.nodes, pending: self.pending.push(action) }
    }
}

impl View for Layout {
    type V = LayoutModel;

    closed spec fn view(&self) -> LayoutModel {
        LayoutModel { nodes: self.nodes@, pending: actions_model(self.pending@) }
    }
}

impl Layout {
    /// A layout with nothing under the root and nothing decided.
    pub fn new() -> (layout: Layout)
        ensures
            layout@.nodes == Map::<Seq<char>, NodeModel>::empty(),
            layout@.pending == Seq::<ActionModel>::empty(),
    {
        let layout = Layout { nodes: SortedMap::new(), pending: Vec::new() };
        assert(actions_model(layout.pending@) =~= Seq::<ActionModel>::empty());
        layout
    }

    /// What stands under the root directory, by name.
    pub fn nodes(&self) -> (nodes: &SortedMap<Node>)
        ensures
            nodes@ == self@.nodes,
    {
        &self.nodes
    }

    /// What stands under `name`, if anything does.
    pub fn node(&self, name: &str) -> (r: Option<&Node>)
        ensures
            (match r {
                Some(node) => self@.nodes.dom().contains(name@) && node@ == self@.nodes[name@],
                None => !self@.nodes.dom().contains(name@),
            }),
    {
        self.nodes.get(name)
    }

    /// Adds `action` to those decided on.
    pub(crate) fn decide(&mut self, action: Action)
        ensures
            final(self)@ == old(self)@.with_action(action@),
    {
        self.pending.push(action);
        proof {
            assert(actions_model(self.pending@) =~= actions_model(old(self).pending@).push(
                action@,
            ));
        }
    }

    /// The actions decided on and not yet taken away, oldest first.
    pub fn pending(&self) -> (actions: &Vec<Action>)
        ensures
            actions_model(actions@) == self@.pending,
    {
        &self.pending
    }

    /// Takes the actions decided on away, to be carried out, oldest first.
    pub fn take_pending(&mut self) -> (actions: Vec<Action>)
        ensures
            actions_model(actions@) == old(self)@.pending,
            final(self)@.nodes == old(self)@.nodes,
            final(self)@.pending == Seq::<ActionModel>::empty(),
    {
        let mut actions: Vec<Action> = Vec::new();
        std::mem::swap(&mut actions, &mut self.pending);
        proof {
            assert(actions_model(self.pending@) =~= Seq::<ActionModel>::empty());
        }
        actions
    }

    /// Notes that an empty directory stands under `name`, in place of what was
    /// noted under that name before.
    pub fn record_directory(&mut self, name: &str)
        ensures
            final(self)@ == old(self)@.with_node(name@, directory(Map::empty())),
    {
        self.nodes.insert(String::from_str(name), Node::Directory { entries: SortedMap::new() });
    }

    /// Notes that something that is no directory stands under `name`, in place
    /// of what was noted under that name before.
    pub fn record_other(&mut self, name: &str)
        ensures
            final(self)@ == old(self)@.with_node(name@, NodeModel::Other),
    {
        self.nodes.insert(String::from_str(name), Node::Other);
    }

    /// Notes that `entry` stands under `name` in the directory `workspace`, in
    /// place of what was noted there before. Without such a directory nothing
    /// is noted, and the answer is `false`.
    pub fn record_entry(&mut self, workspace: &str, name: &str, entry: Entry) -> (done: bool)
        ensures
            done == old(self)@.has_directory(workspace@),
            done ==> final(self)@ == old(self)@.with_node(
                workspace@,
                directory(old(self)@.entries(workspace@).insert(name@, entry@)),
            ),
            !done ==> final(self)@ == old(self)@,
    {
        match self.nodes.remove(workspace) {
            Some(Node::Directory { entries }) => {
                let mut entries = entries;
                entries.insert(String::from_str(name), entry);
                self.nodes.insert(String::from_str(workspace), Node::Directory { entries });
                proof {
                    assert(final(self)@.nodes =~= old(self)@.nodes.insert(
                        workspace@,
                        directory(old(self)@.entries(workspace@).insert(name@, entry@)),
                    ));
                }
                true
            },
            Some(Node::Other) => {
                self.nodes.insert(String::from_str(workspace), Node::Other);
                proof {
                    assert(final(self)@.nodes =~= old(self)@.nodes);
                }
                false
            },
            None => {
                proof {
                    assert(final(self)@.nodes =~= old(self)@.nodes);
                }
                false
            },
        }
    }
    /// Notes that nothing stands under `name` in the directory `workspace`
    /// any more. Without such a directory nothing changes.
    pub fn remove_entry(&mut self, workspace: &str, name: &str)
        ensures
            old(self)@.has_directory(workspace@) ==> final(self)@ == old(self)@.with_node(
                workspace@,
                directory(old(self)@.entries(workspace@).remove(name@)),
            ),
            !old(self)@.has_directory(workspace@) ==> final(self)@ == old(self)@,
    {
        match self.nodes.remove(workspace) {
            Some(Node::Directory { entries }) => {
                let mut entries = entries;
                entries.remove(name);
                self.nodes.insert(String::from_str(workspace), Node::Directory { entries });
                proof {
                    assert(final(self)@.nodes =~= old(self)@.nodes.insert(
                        workspace@,
                        directory(old(self)@.entries(workspace@).remove(name@)),
                    ));
                }
            },
            Some(Node::Other) => {
                self.nodes.insert(String::from_str(workspace), Node::Other);
                proof {
                    assert(final(self)@.nodes =~= old(self)@.nodes);
                }
            },
            None => {
                proof {
                    assert(final(self)@.nodes =~= old(self)@.nodes);
                }
            },
        }
    }

    /// Notes that nothing stands under `name` any more.
    pub fn remove_node(&mut self, name: &str)
        ensures
            final(self)@ == old(self)@.without_node(name@),
    {
        self.nodes.remove(name);
    }
}

} // verus!
