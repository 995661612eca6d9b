use vstd::prelude::*;
use crate::layout::{EntryModel, NodeModel};
use crate::model::{is_link_listing, is_workspace_listing, link_names};
use crate::order::lex_lt;
use crate::path::hidden;
use crate::sorted_map::ascending;

verus! {

/// `name` is one of the first `count` of `keys`.
pub open spec fn among_first(keys: Seq<Seq<char>>, count: int, name: Seq<char>) -> bool {
    exists|k: int| 0 <= k < count && #[trigger] keys[k] == name
}

/// `listing` lists the workspaces among the nodes under the first `count` of
/// `keys`.
pub open spec fn workspaces_listed_upto(
    listing: Seq<Seq<char>>,
    keys: Seq<Seq<char>>,
    nodes: Map<Seq<char>, NodeModel>,
    count: int,
) -> bool {
    &&& ascending(listing)
    &&& forall|j: int|
        0 <= j < listing.len() ==> among_first(keys, count, #[trigger] listing[j])
            && nodes[listing[j]] is Directory && !hidden(listing[j])
    &&& forall|k: int|
        0 <= k < count && nodes[#[trigger] keys[k]] is Directory && !hidden(keys[k])
            ==> listing.contains(keys[k])
}

/// A name among the first `count` of ascending keys comes before the key at
/// `count`.
proof fn lemma_earlier_key(keys: Seq<Seq<char>>, count: int, name: Seq<char>)
    requires
        ascending(keys),
        0 <= count < keys.len(),
        among_first(keys, count, name),
    ensures
        lex_lt(name, keys[count]),
{
    let k = choose|k: int| 0 <= k < count && #[trigger] keys[k] == name;
    assert(lex_lt(keys[k], keys[count]));
}

/// Taking the next key into the listing where it names a workspace.
pub proof fn lemma_workspace_listed(
    listing: Seq<Seq<char>>,
    keys: Seq<Seq<char>>,
    nodes: Map<Seq<char>, NodeModel>,
    count: int,
)
    requires
        ascending(keys),
        0 <= count < keys.len(),
        workspaces_listed_upto(listing, keys, nodes, count),
        nodes[keys[count]] is Directory,
        !hidden(keys[count]),
    ensures
        workspaces_listed_upto(listing.push(keys[count]), keys, nodes, count + 1),
{
    let after = listing.push(keys[count]);
    assert forall|a: int, b: int| 0 <= a < b < after.len() implies lex_lt(
        #[trigger] after[a],
        #[trigger] after[b],
    ) by {
        if b == listing.len() {
            lemma_earlier_key(keys, count, listing[a]);
        } else {
            assert(lex_lt(listing[a], listing[b]));
        }
    }
    assert forall|j: int| 0 <= j < after.len() implies among_first(
        keys,
        count + 1,
        #[trigger] after[j],
    ) && nodes[after[j]] is Directory && !hidden(after[j]) by {
        if j < listing.len() {
            let k = choose|k: int| 0 <= k < count && #[trigger] keys[k] == listing[j];
            assert(keys[k] == after[j]);
        } else {
            assert(keys[count] == after[j]);
        }
    }
    assert forall|k: int|
        0 <= k < count + 1 && nodes[#[trigger] keys[k]] is Directory && !hidden(
            keys[k],
        ) implies after.contains(keys[k]) by {
        if k < count {
            let j = choose|j: int| 0 <= j < listing.len() && listing[j] == keys[k];
            assert(after[j] == keys[k]);
        } else {
            assert(after[listing.len() as int] == keys[k]);
        }
    }
}

/// Passing over the next key where it names no workspace.
pub proof fn lemma_workspace_skipped(
    listing: Seq<Seq<char>>,
    keys: Seq<Seq<char>>,
    nodes: Map<Seq<char>, NodeModel>,
    count: int,
)
    requires
        0 <= count < keys.len(),
        workspaces_listed_upto(listing, keys, nodes, count),
        !(nodes[keys[count]] is Directory && !hidden(keys[count])),
    ensures
        workspaces_listed_upto(listing, keys, nodes, count + 1),
{
    assert forall|j: int| 0 <= j < listing.len() implies among_first(
        keys,
        count + 1,
        #[trigger] listing[j],
    ) by {
        let k = choose|k: int| 0 <= k < count && #[trigger] keys[k] == listing[j];
        assert(keys[k] == listing[j]);
    }
}

/// Once all keys are passed, the listing is that of the nodes.
pub proof fn lemma_workspaces_listed(
    listing: Seq<Seq<char>>,
    keys: Seq<Seq<char>>,
    nodes: Map<Seq<char>, NodeModel>,
)
    requires
        workspaces_listed_upto(listing, keys, nodes, keys.len() as int),
        forall|k: Seq<char>| nodes.dom().contains(k) <==> keys.contains(k),
    ensures
        is_workspace_listing(listing, nodes),
{
    assert forall|name: Seq<char>| #[trigger] listing.contains(name) <==> nodes.dom().contains(name)
        && nodes[name] is Directory && !hidden(name) by {
        if listing.contains(name) {
            let j = choose|j: int| 0 <= j < listing.len() && listing[j] == name;
            assert(among_first(keys, keys.len() as int, listing[j]));
            let k = choose|k: int| 0 <= k < keys.len() && #[trigger] keys[k] == listing[j];
            assert(keys.contains(name));
        }
        if nodes.dom().contains(name) && nodes[name] is Directory && !hidden(name) {
            assert(keys.contains(name));
            let k = choose|k: int| 0 <= k < keys.len() && keys[k] == name;
            assert(listing.contains(keys[k]));
        }
    }
}

/// `listing` lists the symbolic links among the entries under the first
/// `count` of `keys`.
pub open spec fn links_listed_upto(
    listing: Seq<(Seq<char>, Seq<char>)>,
    keys: Seq<Seq<char>>,
    entries: Map<Seq<char>, EntryModel>,
    count: int,
) -> bool {
    &&& ascending(link_names(listing))
    &&& forall|j: int|
        0 <= j < listing.len() ==> entries.dom().contains((#[trigger] listing[j]).0)
            && entries[listing[j].0] == (EntryModel::Link { target: listing[j].1 })
    &&& forall|j: int|
        0 <= j < listing.len() ==> among_first(keys, count, (#[trigger] listing[j]).0)
    &&& forall|k: int|
        0 <= k < count && entries[#[trigger] keys[k]] is Link ==> link_names(listing).contains(
            keys[k],
        )
}

/// Taking the next key into the listing where it names a symbolic link.
pub proof fn lemma_link_listed(
    listing: Seq<(Seq<char>, Seq<char>)>,
    keys: Seq<Seq<char>>,
    entries: Map<Seq<char>, EntryModel>,
    count: int,
)
    requires
        ascending(keys),
        0 <= count < keys.len(),
        links_listed_upto(listing, keys, entries, count),
        entries.dom().contains(keys[count]),
        entries[keys[count]] is Link,
    ensures
        links_listed_upto(
            listing.push((keys[count], entries[keys[count]]->target)),
            keys,
            entries,
            count + 1,
        ),
{
    let after = listing.push((keys[count], entries[keys[count]]->target));
    let names = link_names(listing);
    let names_after = link_names(after);
    assert(names_after =~= names.push(keys[count]));
    assert forall|a: int, b: int| 0 <= a < b < names_after.len() implies lex_lt(
        #[trigger] names_after[a],
        #[trigger] names_after[b],
    ) by {
        if b == listing.len() {
            assert(names_after[a] == listing[a].0);
            lemma_earlier_key(keys, count, listing[a].0);
        } else {
            assert(lex_lt(names[a], names[b]));
        }
    }
    assert forall|j: int| 0 <= j < after.len() implies among_first(
        keys,
        count + 1,
        (#[trigger] after[j]).0,
    ) by {
        if j < listing.len() {
            let k = choose|k: int| 0 <= k < count && #[trigger] keys[k] == listing[j].0;
            assert(keys[k] == after[j].0);
        } else {
            assert(keys[count] == after[j].0);
        }
    }
    assert forall|k: int|
        0 <= k < count + 1 && entries[#[trigger] keys[k]] is Link implies names_after.contains(
        keys[k],
    ) by {
        if k < count {
            let j = choose|j: int| 0 <= j < names.len() && names[j] == keys[k];
            assert(names_after[j] == keys[k]);
        } else {
            assert(names_after[listing.len() as int] == keys[k]);
        }
    }
}

/// Passing over the next key where it names no symbolic link.
pub proof fn lemma_link_skipped(
    listing: Seq<(Seq<char>, Seq<char>)>,
    keys: Seq<Seq<char>>,
    entries: Map<Seq<char>, EntryModel>,
    count: int,
)
    requires
        0 <= count < keys.len(),
        links_listed_upto(listing, keys, entries, count),
        !(entries[keys[count]] is Link),
    ensures
        links_listed_upto(listing, keys, entries, count + 1),
{
    assert forall|j: int| 0 <= j < listing.len() implies among_first(
        keys,
        count + 1,
        (#[trigger] listing[j]).0,
    ) by {
        let k = choose|k: int| 0 <= k < count && #[trigger] keys[k] == listing[j].0;
        assert(keys[k] == listing[j].0);
    }
}

/// Once all keys are passed, the listing is that of the entries.
pub proof fn lemma_links_listed(
    listing: Seq<(Seq<char>, Seq<char>)>,
    keys: Seq<Seq<char>>,
    entries: Map<Seq<char>, EntryModel>,
)
    requires
        links_listed_upto(listing, keys, entries, keys.len() as int),
        forall|k: Seq<char>| entries.dom().contains(k) <==> keys.contains(k),
    ensures
        is_link_listing(listing, entries),
{
    assert forall|name: Seq<char>|
        entries.dom().contains(name) && entries[name] is Link implies #[trigger] link_names(
        listing,
    ).contains(name) by {
        assert(keys.contains(name));
        let k = choose|k: int| 0 <= k < keys.len() && keys[k] == name;
        assert(link_names(listing).contains(keys[k]));
    }
}

} // verus!
