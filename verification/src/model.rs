use vstd::prelude::*;
use crate::error::Failure;
use crate::layout::{directory, ActionModel, EntryModel, LayoutModel, NodeModel};
use crate::path::{final_segment, hidden, joined, single_segment};
use crate::sorted_map::ascending;

verus! {

/// A path that is to be linked to, as contracts see it: the path as it was
/// given, and the canonical absolute path that the file system resolved it to,
/// if it could.
pub struct TargetModel {
    pub path: Seq<char>,
    pub resolved: Option<Seq<char>>,
}

/// Where an operation leaves the layout, and how it ended.
pub struct Step {
    pub layout: LayoutModel,
    pub result: Result<(), Failure>,
}

/// The operation is refused and nothing changes.
pub open spec fn refused(layout: LayoutModel, failure: Failure) -> Step {
    Step { layout, result: Err(failure) }
}

/// The operation is done and leaves `layout`.
pub open spec fn done(layout: LayoutModel) -> Step {
    Step { layout, result: Ok(()) }
}

/// What the check of a name says: nothing against one literal path segment,
/// `InvalidName` for anything else.
pub open spec fn name_check(name: Seq<char>, label: Seq<char>) -> Result<(), Failure> {
    if single_segment(name) {
        Ok(())
    } else {
        Err(Failure::InvalidName { label, name })
    }
}

/// Making the directory of a new workspace `name` under `root`.
pub open spec fn create_directory_step(
    root: Seq<char>,
    layout: LayoutModel,
    name: Seq<char>,
) -> Step {
    let path = joined(root, name);
    if !single_segment(name) {
        refused(layout, Failure::InvalidName { label: "Workspace"@, name })
    } else if layout.nodes.dom().contains(name) {
        refused(layout, Failure::AlreadyExists { path })
    } else {
        done(
            layout.with_node(name, directory(Map::empty())).with_action(
                ActionModel::CreateDirectory { path },
            ),
        )
    }
}

/// Linking `target` into the workspace `workspace`. The link is named by the
/// final segment of the resolved path. Where that name is taken already,
/// whatever holds it stays, and the operation is done all the same.
pub open spec fn add_link_step(
    root: Seq<char>,
    layout: LayoutModel,
    workspace: Seq<char>,
    target: TargetModel,
) -> Step {
    if !single_segment(workspace) {
        refused(layout, Failure::InvalidName { label: "Workspace"@, name: workspace })
    } else if !layout.nodes.dom().contains(workspace) {
        refused(layout, Failure::NotFound { name: workspace })
    } else if target.resolved is None {
        refused(layout, Failure::IOFailure { path: target.path })
    } else {
        let resolved = target.resolved->0;
        let link = final_segment(resolved);
        let path = joined(joined(root, workspace), link);
        if !single_segment(link) {
            refused(layout, Failure::InvalidName { label: "Link"@, name: resolved })
        } else if !layout.has_directory(workspace) {
            refused(layout, Failure::IOFailure { path })
        } else if layout.entries(workspace).dom().contains(link) {
            done(layout.with_action(ActionModel::KeepEntry { path }))
        } else {
            done(
                layout.with_node(
                    workspace,
                    directory(
                        layout.entries(workspace).insert(
                            link,
                            EntryModel::Link { target: resolved },
                        ),
                    ),
                ).with_action(ActionModel::CreateLink { path, target: resolved }),
            )
        }
    }
}

/// Linking `targets` into `workspace` one after the other. The first that is
/// refused ends it; what was linked before stays.
pub open spec fn add_links_step(
    root: Seq<char>,
    layout: LayoutModel,
    workspace: Seq<char>,
    targets: Seq<TargetModel>,
) -> Step
    decreases targets.len(),
{
    if targets.len() == 0 {
        done(layout)
    } else {
        let first = add_link_step(root, layout, workspace, targets[0]);
        if first.result is Err {
            first
        } else {
            add_links_step(root, first.layout, workspace, targets.drop_first())
        }
    }
}

/// Making the workspace `name` and linking `targets` into it, if any are
/// given. A target that is refused leaves the workspace and the links before
/// it in place.
pub open spec fn create_workspace_step(
    root: Seq<char>,
    layout: LayoutModel,
    name: Seq<char>,
    targets: Option<Seq<TargetModel>>,
) -> Step {
    let made = create_directory_step(root, layout, name);
    if made.result is Err {
        made
    } else {
        match targets {
            Some(targets) => add_links_step(root, made.layout, name, targets),
            None => made,
        }
    }
}

/// Removing the workspace `name` with all that is in it.
pub open spec fn remove_workspace_step(
    root: Seq<char>,
    layout: LayoutModel,
    name: Seq<char>,
) -> Step {
    if !single_segment(name) {
        refused(layout, Failure::InvalidName { label: "Workspace"@, name })
    } else if !layout.nodes.dom().contains(name) {
        refused(layout, Failure::NotFound { name })
    } else {
        done(
            layout.without_node(name).with_action(
                ActionModel::RemoveDirectory { path: joined(root, name) },
            ),
        )
    }
}

/// Removing the link `link` from the workspace `workspace`. Only a symbolic
/// link is ever removed.
pub open spec fn remove_link_step(
    root: Seq<char>,
    layout: LayoutModel,
    workspace: Seq<char>,
    link: Seq<char>,
) -> Step {
    if !single_segment(workspace) {
        refused(layout, Failure::InvalidName { label: "Workspace"@, name: workspace })
    } else if !single_segment(link) {
        refused(layout, Failure::InvalidName { label: "Link"@, name: link })
    } else if !layout.has_directory(workspace) || !layout.entries(workspace).dom().contains(link) {
        refused(layout, Failure::NotFound { name: link })
    } else if layout.entries(workspace)[link] is Other {
        refused(layout, Failure::NotASymlink { name: link })
    } else {
        done(
            layout.with_node(
                workspace,
                directory(layout.entries(workspace).remove(link)),
            ).with_action(
                ActionModel::RemoveLink { path: joined(joined(root, workspace), link) },
            ),
        )
    }
}

/// Why the links of the workspace `name` cannot be listed, if they cannot.
pub open spec fn list_links_refusal(
    root: Seq<char>,
    layout: LayoutModel,
    name: Seq<char>,
) -> Option<Failure> {
    if !single_segment(name) {
        Some(Failure::InvalidName { label: "Workspace"@, name })
    } else if !layout.nodes.dom().contains(name) {
        Some(Failure::NotFound { name })
    } else if !layout.has_directory(name) {
        Some(Failure::IOFailure { path: joined(root, name) })
    } else {
        None
    }
}

/// The names of a listing of links.
pub open spec fn link_names(listing: Seq<(Seq<char>, Seq<char>)>) -> Seq<Seq<char>> {
    listing.map_values(|link: (Seq<char>, Seq<char>)| link.0)
}

/// `listing` lists the symbolic links among `entries`, and nothing else: each
/// with its name and the path it stores, in ascending order of the names.
pub open spec fn is_link_listing(
    listing: Seq<(Seq<char>, Seq<char>)>,
    entries: Map<Seq<char>, EntryModel>,
) -> bool {
    &&& ascending(link_names(listing))
    &&& forall|i: int|
        0 <= i < listing.len() ==> entries.dom().contains((#[trigger] listing[i]).0)
            && entries[listing[i].0] == (EntryModel::Link { target: listing[i].1 })
    &&& forall|name: Seq<char>|
        entries.dom().contains(name) && entries[name] is Link ==> #[trigger] link_names(
            listing,
        ).contains(name)
}

/// `listing` lists the workspaces among `nodes`, and nothing else: the names
/// of the directories that are not hidden, in ascending order.
pub open spec fn is_workspace_listing(
    listing: Seq<Seq<char>>,
    nodes: Map<Seq<char>, NodeModel>,
) -> bool {
    &&& ascending(listing)
    &&& forall|name: Seq<char>|
        #[trigger] listing.contains(name) <==> nodes.dom().contains(name)
            && nodes[name] is Directory && !hidden(name)
}

} // verus!
