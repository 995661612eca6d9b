use vstd::prelude::*;
use crate::error::Failure;
use crate::layout::{ActionModel, EntryModel, LayoutModel, NodeModel};
use crate::model::{
    add_link_step, add_links_step, create_directory_step, create_workspace_step, is_link_listing,
    is_workspace_listing, link_names, list_links_refusal, name_check, refused, remove_link_step,
    remove_workspace_step, TargetModel,
};
use crate::order::{lemma_lt_excludes, lex_lt};
use crate::path::{final_segment, joined, single_segment, SEPARATOR};
use crate::selector::{answer, moved, ChoiceModel, Key, KeyKind};
use crate::sorted_map::ascending;

verus! {

/// A name that is empty, that holds a separator, or that is the segment
/// referring to the parent directory is refused as `InvalidName`.
pub proof fn law_bad_name_refused(name: Seq<char>, label: Seq<char>)
    requires
        name.len() == 0 || name.contains(SEPARATOR) || name == seq!['.', '.'],
    ensures
        name_check(name, label) == Err::<(), Failure>(Failure::InvalidName { label, name }),
{
}

/// A name that is not empty and holds no separator is accepted, unless it is
/// one of the two segments that refer to a directory itself or to its parent.
pub proof fn law_plain_name_accepted(name: Seq<char>, label: Seq<char>)
    requires
        name.len() > 0,
        !name.contains(SEPARATOR),
        name != seq!['.'],
        name != seq!['.', '.'],
    ensures
        name_check(name, label) == Ok::<(), Failure>(()),
{
}

/// Linking never takes a node away from under the root.
proof fn lemma_add_link_keeps_nodes(
    root: Seq<char>,
    layout: LayoutModel,
    workspace: Seq<char>,
    target: TargetModel,
    name: Seq<char>,
)
    requires
        layout.nodes.dom().contains(name),
    ensures
        add_link_step(root, layout, workspace, target).layout.nodes.dom().contains(name),
{
}

/// Linking one target after the other never takes a node away either.
proof fn lemma_add_links_keeps_nodes(
    root: Seq<char>,
    layout: LayoutModel,
    workspace: Seq<char>,
    targets: Seq<TargetModel>,
    name: Seq<char>,
)
    requires
        layout.nodes.dom().contains(name),
    ensures
        add_links_step(root, layout, workspace, targets).layout.nodes.dom().contains(name),
    decreases targets.len(),
{
    if targets.len() > 0 {
        let first = add_link_step(root, layout, workspace, targets[0]);
        lemma_add_link_keeps_nodes(root, layout, workspace, targets[0], name);
        if first.result is Ok {
            lemma_add_links_keeps_nodes(root, first.layout, workspace, targets.drop_first(), name);
        }
    }
}

/// Making a workspace twice: however the first call ended, a second call
/// for the same valid name is refused as `AlreadyExists` and changes nothing.
pub proof fn law_create_twice(
    root: Seq<char>,
    layout: LayoutModel,
    name: Seq<char>,
    first: Option<Seq<TargetModel>>,
    second: Option<Seq<TargetModel>>,
)
    requires
        single_segment(name),
    ensures
        ({
            let after = create_workspace_step(root, layout, name, first).layout;
            create_workspace_step(root, after, name, second) == refused(
                after,
                Failure::AlreadyExists { path: joined(root, name) },
            )
        }),
{
    let made = create_directory_step(root, layout, name);
    if made.result is Ok {
        match first {
            Some(targets) => {
                lemma_add_links_keeps_nodes(root, made.layout, name, targets, name);
            },
            None => {},
        }
    }
}

/// Linking the same target twice: where the first call is done, the second
/// is done too and changes nothing under the root. It only decides to keep
/// what stands under the link's name.
pub proof fn law_add_link_twice(
    root: Seq<char>,
    layout: LayoutModel,
    workspace: Seq<char>,
    target: TargetModel,
)
    requires
        add_link_step(root, layout, workspace, target).result is Ok,
    ensures
        ({
            let first = add_link_step(root, layout, workspace, target);
            let second = add_link_step(root, first.layout, workspace, target);
            let path = joined(joined(root, workspace), final_segment(target.resolved->0));
            &&& second.result is Ok
            &&& second.layout.nodes == first.layout.nodes
            &&& second.layout == first.layout.with_action(ActionModel::KeepEntry { path })
        }),
{
}

/// After a target was linked, the links of the workspace can be listed, and
/// a listing shows the link's name exactly once: unless something that is no
/// symbolic link held that name before, which is then kept and not listed.
/// Linking the target once more changes no entry, so the same holds then.
pub proof fn law_link_listed_once(
    root: Seq<char>,
    layout: LayoutModel,
    workspace: Seq<char>,
    target: TargetModel,
    listing: Seq<(Seq<char>, Seq<char>)>,
)
    requires
        add_link_step(root, layout, workspace, target).result is Ok,
        !(layout.entries(workspace).dom().contains(final_segment(target.resolved->0))
            && layout.entries(workspace)[final_segment(target.resolved->0)] is Other),
        is_link_listing(
            listing,
            add_link_step(root, layout, workspace, target).layout.entries(workspace),
        ),
    ensures
        ({
            let linked = add_link_step(root, layout, workspace, target).layout;
            let link = final_segment(target.resolved->0);
            &&& list_links_refusal(root, linked, workspace) is None
            &&& exists|i: int| 0 <= i < listing.len() && (#[trigger] listing[i]).0 == link
            &&& forall|i: int, j: int|
                0 <= i < listing.len() && 0 <= j < listing.len()
                    && (#[trigger] listing[i]).0 == link && (#[trigger] listing[j]).0 == link
                    ==> i == j
        }),
{
    let linked = add_link_step(root, layout, workspace, target).layout;
    let link = final_segment(target.resolved->0);
    let entries = linked.entries(workspace);
    assert(entries.dom().contains(link) && entries[link] is Link);
    let names = link_names(listing);
    assert(names.contains(link));
    let at = choose|i: int| 0 <= i < names.len() && names[i] == link;
    assert(listing[at].0 == link);
    assert forall|i: int, j: int|
        0 <= i < listing.len() && 0 <= j < listing.len() && (#[trigger] listing[i]).0 == link && (
        #[trigger] listing[j]).0 == link implies i == j by {
        assert(names[i] == link && names[j] == link);
        if i < j {
            lemma_lt_excludes(names[i], names[j]);
        } else if j < i {
            lemma_lt_excludes(names[j], names[i]);
        }
    }
}

/// Removing a link by a name under which a workspace holds something that is
/// no symbolic link is refused as `NotASymlink`, and changes nothing.
pub proof fn law_remove_link_spares_files(
    root: Seq<char>,
    layout: LayoutModel,
    workspace: Seq<char>,
    link: Seq<char>,
)
    requires
        single_segment(workspace),
        single_segment(link),
        layout.has_directory(workspace),
        layout.entries(workspace).dom().contains(link),
        layout.entries(workspace)[link] is Other,
    ensures
        remove_link_step(root, layout, workspace, link) == refused(
            layout,
            Failure::NotASymlink { name: link },
        ),
{
}

/// After a workspace was to be removed, listing its links is refused as
/// `NotFound`: whether the removal was done, or was refused because there was
/// no such workspace.
pub proof fn law_removed_workspace_not_found(
    root: Seq<char>,
    layout: LayoutModel,
    name: Seq<char>,
)
    requires
        single_segment(name),
    ensures
        list_links_refusal(root, remove_workspace_step(root, layout, name).layout, name) == Some(
            Failure::NotFound { name },
        ),
{
}

/// The highlight of a list that is not empty stays on an item. "Up" takes it
/// from the first item to the last and "down" from the last to the first, and
/// each of the two undoes the other.
pub proof fn law_highlight_wraps(count: int, at: int, key: Key, kind: KeyKind)
    requires
        0 <= at < count,
    ensures
        0 <= moved(count, at, key, kind) < count,
        moved(count, 0, Key::Up, KeyKind::Press) == count - 1,
        moved(count, count - 1, Key::Down, KeyKind::Press) == 0,
        moved(count, moved(count, at, Key::Down, KeyKind::Press), Key::Up, KeyKind::Press) == at,
        moved(count, moved(count, at, Key::Up, KeyKind::Press), Key::Down, KeyKind::Press) == at,
{
}

/// A press of `q` or of escape ends the selection without a choice, wherever
/// the highlight stands, and a press of enter chooses the highlighted item.
pub proof fn law_cancel_and_confirm(items: Seq<(Seq<char>, Seq<char>)>, at: int)
    ensures
        answer(items, at, Key::Char('q'), KeyKind::Press) == ChoiceModel::Cancelled,
        answer(items, at, Key::Esc, KeyKind::Press) == ChoiceModel::Cancelled,
        answer(items, at, Key::Enter, KeyKind::Press) == ChoiceModel::Selected(items[at].1),
{
}

/// Two ascending sequences that hold the same strings are the same sequence.
pub proof fn lemma_ascending_unique(a: Seq<Seq<char>>, b: Seq<Seq<char>>)
    requires
        ascending(a),
        ascending(b),
        forall|x: Seq<char>| a.contains(x) <==> b.contains(x),
    ensures
        a == b,
    decreases a.len(),
{
    if a.len() == 0 {
        if b.len() > 0 {
            assert(b.contains(b[0]));
        }
        assert(a =~= b);
    } else {
        assert(a.contains(a[0]));
        let j = choose|j: int| 0 <= j < b.len() && b[j] == a[0];
        assert(b.contains(b[0]));
        let k = choose|k: int| 0 <= k < a.len() && a[k] == b[0];
        if j > 0 {
            assert(lex_lt(b[0], b[j]));
            if k > 0 {
                assert(lex_lt(a[0], a[k]));
            }
            lemma_lt_excludes(b[0], b[j]);
        }
        assert(a[0] == b[0]);
        let a1 = a.drop_first();
        let b1 = b.drop_first();
        assert forall|x: Seq<char>| a1.contains(x) <==> b1.contains(x) by {
            if a1.contains(x) {
                let i = choose|i: int| 0 <= i < a1.len() && a1[i] == x;
                assert(a[i + 1] == x);
                assert(a.contains(x));
                assert(lex_lt(a[0], a[i + 1]));
                lemma_lt_excludes(a[0], x);
                let m = choose|m: int| 0 <= m < b.len() && b[m] == x;
                assert(b1[m - 1] == x);
            }
            if b1.contains(x) {
                let i = choose|i: int| 0 <= i < b1.len() && b1[i] == x;
                assert(b[i + 1] == x);
                assert(b.contains(x));
                assert(lex_lt(b[0], b[i + 1]));
                lemma_lt_excludes(b[0], x);
                let m = choose|m: int| 0 <= m < a.len() && a[m] == x;
                assert(a1[m - 1] == x);
            }
        }
        assert forall|i: int, j: int| 0 <= i < j < a1.len() implies lex_lt(
            #[trigger] a1[i],
            #[trigger] a1[j],
        ) by {
            assert(lex_lt(a[i + 1], a[j + 1]));
        }
        assert forall|i: int, j: int| 0 <= i < j < b1.len() implies lex_lt(
            #[trigger] b1[i],
            #[trigger] b1[j],
        ) by {
            assert(lex_lt(b[i + 1], b[j + 1]));
        }
        lemma_ascending_unique(a1, b1);
        assert(a =~= seq![a[0]] + a1);
        assert(b =~= seq![b[0]] + b1);
    }
}

/// Under a root that holds nothing, as under one that does not exist yet,
/// there are no workspaces to list.
pub proof fn law_empty_root_lists_nothing(listing: Seq<Seq<char>>)
    requires
        is_workspace_listing(listing, Map::empty()),
    ensures
        listing == Seq::<Seq<char>>::empty(),
{
    if listing.len() > 0 {
        assert(listing.contains(listing[0]));
    }
    assert(listing =~= Seq::<Seq<char>>::empty());
}

/// The workspaces under a root have one listing only.
pub proof fn law_workspace_listing_unique(
    a: Seq<Seq<char>>,
    b: Seq<Seq<char>>,
    nodes: Map<Seq<char>, NodeModel>,
)
    requires
        is_workspace_listing(a, nodes),
        is_workspace_listing(b, nodes),
    ensures
        a == b,
{
    lemma_ascending_unique(a, b);
}

/// The links of a workspace have one listing only.
pub proof fn law_link_listing_unique(
    a: Seq<(Seq<char>, Seq<char>)>,
    b: Seq<(Seq<char>, Seq<char>)>,
    entries: Map<Seq<char>, EntryModel>,
)
    requires
        is_link_listing(a, entries),
        is_link_listing(b, entries),
    ensures
        a == b,
{
    let names_a = link_names(a);
    let names_b = link_names(b);
    assert forall|x: Seq<char>| names_a.contains(x) <==> names_b.contains(x) by {
        if names_a.contains(x) {
            let i = choose|i: int| 0 <= i < names_a.len() && names_a[i] == x;
            assert(a[i].0 == x);
        }
        if names_b.contains(x) {
            let i = choose|i: int| 0 <= i < names_b.len() && names_b[i] == x;
            assert(b[i].0 == x);
        }
    }
    lemma_ascending_unique(names_a, names_b);
    assert forall|i: int| 0 <= i < a.len() implies a[i] == b[i] by {
        assert(names_a[i] == names_b[i]);
        assert(a[i].0 == b[i].0);
        assert(entries[a[i].0] == (EntryModel::Link { target: a[i].1 }));
        assert(entries[b[i].0] == (EntryModel::Link { target: b[i].1 }));
    }
    assert(a.len() == names_a.len() && b.len() == names_b.len());
    assert(a =~= b);
}

} // verus!
