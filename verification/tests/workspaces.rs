use workspaces::error::WorkspaceError;
use workspaces::layout::{Action, Entry, Layout, Node};
use workspaces::workspace::{Target, WorkspaceManager};

fn manager() -> WorkspaceManager {
    WorkspaceManager::new(Some("/root".to_string())).expect("a root was given")
}

fn resolved(path: &str, canonical: &str) -> Target {
    Target { path: path.to_string(), resolved: Some(canonical.to_string()) }
}

fn unresolved(path: &str) -> Target {
    Target { path: path.to_string(), resolved: None }
}

fn pair(name: &str, target: &str) -> (String, String) {
    (name.to_string(), target.to_string())
}

fn entry_names(layout: &Layout, workspace: &str) -> Vec<String> {
    match layout.node(workspace) {
        Some(Node::Directory { entries }) => {
            (0..entries.len()).map(|i| entries.key_at(i).clone()).collect()
        }
        _ => panic!("no directory {workspace}"),
    }
}

#[test]
fn create_makes_an_empty_workspace() {
    let m = manager();
    let mut layout = Layout::new();
    assert_eq!(m.create_workspace(&mut layout, "alpha", None), Ok(()));
    assert!(matches!(layout.node("alpha"), Some(Node::Directory { .. })));
    assert_eq!(entry_names(&layout, "alpha"), Vec::<String>::new());
    assert_eq!(
        layout.pending(),
        &vec![Action::CreateDirectory { path: "/root/alpha".to_string() }]
    );
    assert_eq!(m.list_links(&layout, "alpha"), Ok(vec![]));
}

#[test]
fn create_twice_fails_with_already_exists() {
    let m = manager();
    let mut layout = Layout::new();
    assert_eq!(m.create_workspace(&mut layout, "alpha", None), Ok(()));
    assert_eq!(
        m.add_link(&mut layout, "alpha", &resolved("repo", "/src/repo")),
        Ok(())
    );
    let before = layout.pending().clone();
    let second = m.create_workspace(
        &mut layout,
        "alpha",
        Some(vec![resolved("other", "/src/other")]),
    );
    assert_eq!(
        second,
        Err(WorkspaceError::AlreadyExists { path: "/root/alpha".to_string() })
    );
    assert_eq!(layout.pending(), &before);
    assert_eq!(entry_names(&layout, "alpha"), vec!["repo"]);
    assert_eq!(m.list_links(&layout, "alpha"), Ok(vec![pair("repo", "/src/repo")]));
}

#[test]
fn create_fails_where_a_file_stands() {
    let m = manager();
    let mut layout = Layout::new();
    layout.record_other("notes.txt");
    assert_eq!(
        m.create_workspace(&mut layout, "notes.txt", None),
        Err(WorkspaceError::AlreadyExists { path: "/root/notes.txt".to_string() })
    );
    assert!(layout.pending().is_empty());
}

#[test]
fn create_refuses_an_invalid_name_before_anything_else() {
    let m = manager();
    let mut layout = Layout::new();
    for name in ["", "..", ".", "a/b"] {
        assert_eq!(
            m.create_workspace(&mut layout, name, Some(vec![resolved("r", "/r")])),
            Err(WorkspaceError::InvalidName {
                label: "Workspace".to_string(),
                name: name.to_string()
            })
        );
    }
    assert!(layout.pending().is_empty());
    assert_eq!(m.list_workspaces(&layout), Vec::<String>::new());
}

#[test]
fn create_with_targets_links_them_in_order() {
    let m = manager();
    let mut layout = Layout::new();
    let repos = vec![resolved("../b", "/src/b"), resolved("a", "/src/a")];
    assert_eq!(m.create_workspace(&mut layout, "ws", Some(repos)), Ok(()));
    assert_eq!(
        layout.pending(),
        &vec![
            Action::CreateDirectory { path: "/root/ws".to_string() },
            Action::CreateLink { path: "/root/ws/b".to_string(), target: "/src/b".to_string() },
            Action::CreateLink { path: "/root/ws/a".to_string(), target: "/src/a".to_string() },
        ]
    );
    assert_eq!(
        m.list_links(&layout, "ws"),
        Ok(vec![pair("a", "/src/a"), pair("b", "/src/b")])
    );
}

#[test]
fn create_with_a_failing_target_keeps_what_was_done() {
    let m = manager();
    let mut layout = Layout::new();
    let repos = vec![
        resolved("one", "/src/one"),
        unresolved("missing"),
        resolved("three", "/src/three"),
    ];
    assert_eq!(
        m.create_workspace(&mut layout, "ws", Some(repos)),
        Err(WorkspaceError::IOFailure { path: "missing".to_string() })
    );
    assert_eq!(
        layout.pending(),
        &vec![
            Action::CreateDirectory { path: "/root/ws".to_string() },
            Action::CreateLink { path: "/root/ws/one".to_string(), target: "/src/one".to_string() },
        ]
    );
    assert_eq!(m.list_links(&layout, "ws"), Ok(vec![pair("one", "/src/one")]));
}

#[test]
fn create_with_no_targets_is_like_create_with_none() {
    let m = manager();
    let mut with_empty = Layout::new();
    let mut with_none = Layout::new();
    assert_eq!(m.create_workspace(&mut with_empty, "ws", Some(vec![])), Ok(()));
    assert_eq!(m.create_workspace(&mut with_none, "ws", None), Ok(()));
    assert_eq!(with_empty.pending(), with_none.pending());
}

#[test]
fn add_link_twice_is_a_no_op() {
    let m = manager();
    let mut layout = Layout::new();
    layout.record_directory("ws");
    let target = resolved("./repo", "/home/me/repo");
    assert_eq!(m.add_link(&mut layout, "ws", &target), Ok(()));
    assert_eq!(m.list_links(&layout, "ws"), Ok(vec![pair("repo", "/home/me/repo")]));
    assert_eq!(m.add_link(&mut layout, "ws", &target), Ok(()));
    assert_eq!(m.list_links(&layout, "ws"), Ok(vec![pair("repo", "/home/me/repo")]));
    assert_eq!(
        layout.pending(),
        &vec![
            Action::CreateLink {
                path: "/root/ws/repo".to_string(),
                target: "/home/me/repo".to_string()
            },
            Action::KeepEntry { path: "/root/ws/repo".to_string() },
        ]
    );
}

#[test]
fn add_link_keeps_the_old_target_of_a_taken_name() {
    let m = manager();
    let mut layout = Layout::new();
    layout.record_directory("ws");
    assert!(layout.record_entry("ws", "repo", Entry::Link { target: "/old/repo".to_string() }));
    assert_eq!(m.add_link(&mut layout, "ws", &resolved("repo", "/new/repo")), Ok(()));
    assert_eq!(m.list_links(&layout, "ws"), Ok(vec![pair("repo", "/old/repo")]));
    assert_eq!(
        layout.pending(),
        &vec![Action::KeepEntry { path: "/root/ws/repo".to_string() }]
    );
}

#[test]
fn add_link_leaves_a_file_of_that_name_alone() {
    let m = manager();
    let mut layout = Layout::new();
    layout.record_directory("ws");
    assert!(layout.record_entry("ws", "repo", Entry::Other));
    assert_eq!(m.add_link(&mut layout, "ws", &resolved("repo", "/src/repo")), Ok(()));
    assert_eq!(m.list_links(&layout, "ws"), Ok(vec![]));
    assert_eq!(entry_names(&layout, "ws"), vec!["repo"]);
}

#[test]
fn add_link_to_a_missing_workspace_is_not_found() {
    let m = manager();
    let mut layout = Layout::new();
    assert_eq!(
        m.add_link(&mut layout, "ws", &resolved("repo", "/src/repo")),
        Err(WorkspaceError::NotFound { name: "ws".to_string() })
    );
    assert!(layout.pending().is_empty());
}

#[test]
fn add_link_checks_the_workspace_name_first() {
    let m = manager();
    let mut layout = Layout::new();
    assert_eq!(
        m.add_link(&mut layout, "a/b", &unresolved("nowhere")),
        Err(WorkspaceError::InvalidName {
            label: "Workspace".to_string(),
            name: "a/b".to_string()
        })
    );
}

#[test]
fn add_link_of_an_unresolved_target_is_an_io_failure() {
    let m = manager();
    let mut layout = Layout::new();
    layout.record_directory("ws");
    assert_eq!(
        m.add_link(&mut layout, "ws", &unresolved("../gone")),
        Err(WorkspaceError::IOFailure { path: "../gone".to_string() })
    );
    assert!(layout.pending().is_empty());
    assert_eq!(entry_names(&layout, "ws"), Vec::<String>::new());
}

#[test]
fn add_link_of_the_root_path_has_no_name() {
    let m = manager();
    let mut layout = Layout::new();
    layout.record_directory("ws");
    assert_eq!(
        m.add_link(&mut layout, "ws", &resolved("/", "/")),
        Err(WorkspaceError::InvalidName { label: "Link".to_string(), name: "/".to_string() })
    );
    assert!(layout.pending().is_empty());
}

#[test]
fn add_link_under_something_that_is_no_directory_fails() {
    let m = manager();
    let mut layout = Layout::new();
    layout.record_other("ws");
    assert_eq!(
        m.add_link(&mut layout, "ws", &resolved("repo", "/src/repo")),
        Err(WorkspaceError::IOFailure { path: "/root/ws/repo".to_string() })
    );
    assert!(matches!(layout.node("ws"), Some(Node::Other)));
    assert!(layout.pending().is_empty());
}

#[test]
fn list_links_leaves_out_what_is_no_symlink() {
    let m = manager();
    let mut layout = Layout::new();
    layout.record_directory("ws");
    assert!(layout.record_entry("ws", "readme.md", Entry::Other));
    assert!(layout.record_entry("ws", "repo", Entry::Link { target: "/src/repo".to_string() }));
    assert_eq!(m.list_links(&layout, "ws"), Ok(vec![pair("repo", "/src/repo")]));
}

#[test]
fn list_links_sorts_by_link_name() {
    let m = manager();
    let mut layout = Layout::new();
    layout.record_directory("ws");
    for (name, target) in [("zeta", "/1"), ("Alpha", "/4"), ("beta", "/2"), ("alpha", "/3")] {
        assert!(layout.record_entry("ws", name, Entry::Link { target: target.to_string() }));
    }
    assert_eq!(
        m.list_links(&layout, "ws"),
        Ok(vec![pair("Alpha", "/4"), pair("alpha", "/3"), pair("beta", "/2"), pair("zeta", "/1")])
    );
}

#[test]
fn list_links_errors() {
    let m = manager();
    let mut layout = Layout::new();
    layout.record_other("file");
    assert_eq!(
        m.list_links(&layout, "missing"),
        Err(WorkspaceError::NotFound { name: "missing".to_string() })
    );
    assert_eq!(
        m.list_links(&layout, ".."),
        Err(WorkspaceError::InvalidName {
            label: "Workspace".to_string(),
            name: "..".to_string()
        })
    );
    assert_eq!(
        m.list_links(&layout, "file"),
        Err(WorkspaceError::IOFailure { path: "/root/file".to_string() })
    );
}

#[test]
fn remove_link_of_a_regular_file_is_not_a_symlink() {
    let m = manager();
    let mut layout = Layout::new();
    layout.record_directory("ws");
    assert!(layout.record_entry("ws", "notes", Entry::Other));
    assert_eq!(
        m.remove_link(&mut layout, "ws", "notes"),
        Err(WorkspaceError::NotASymlink { name: "notes".to_string() })
    );
    assert!(layout.pending().is_empty());
    assert_eq!(entry_names(&layout, "ws"), vec!["notes"]);
    match layout.node("ws") {
        Some(Node::Directory { entries }) => {
            assert!(matches!(entries.get("notes"), Some(Entry::Other)))
        }
        _ => panic!("the workspace is gone"),
    }
}

#[test]
fn remove_link_removes_only_that_link() {
    let m = manager();
    let mut layout = Layout::new();
    layout.record_directory("ws");
    assert!(layout.record_entry("ws", "a", Entry::Link { target: "/src/a".to_string() }));
    assert!(layout.record_entry("ws", "b", Entry::Link { target: "/src/b".to_string() }));
    assert_eq!(m.remove_link(&mut layout, "ws", "a"), Ok(()));
    assert_eq!(m.list_links(&layout, "ws"), Ok(vec![pair("b", "/src/b")]));
    assert_eq!(layout.pending(), &vec![Action::RemoveLink { path: "/root/ws/a".to_string() }]);
    assert_eq!(
        m.remove_link(&mut layout, "ws", "a"),
        Err(WorkspaceError::NotFound { name: "a".to_string() })
    );
}

#[test]
fn remove_link_errors() {
    let m = manager();
    let mut layout = Layout::new();
    layout.record_directory("ws");
    layout.record_other("file");
    assert_eq!(
        m.remove_link(&mut layout, "ws", "gone"),
        Err(WorkspaceError::NotFound { name: "gone".to_string() })
    );
    assert_eq!(
        m.remove_link(&mut layout, "nowhere", "gone"),
        Err(WorkspaceError::NotFound { name: "gone".to_string() })
    );
    assert_eq!(
        m.remove_link(&mut layout, "file", "gone"),
        Err(WorkspaceError::NotFound { name: "gone".to_string() })
    );
    assert_eq!(
        m.remove_link(&mut layout, "", "gone"),
        Err(WorkspaceError::InvalidName { label: "Workspace".to_string(), name: String::new() })
    );
    assert_eq!(
        m.remove_link(&mut layout, "ws", "a/b"),
        Err(WorkspaceError::InvalidName { label: "Link".to_string(), name: "a/b".to_string() })
    );
    assert!(layout.pending().is_empty());
    assert!(matches!(layout.node("file"), Some(Node::Other)));
}

#[test]
fn list_workspaces_is_sorted_and_skips_hidden() {
    let m = manager();
    let mut layout = Layout::new();
    layout.record_directory("b");
    layout.record_directory("a");
    layout.record_directory(".hidden");
    assert_eq!(m.list_workspaces(&layout), vec!["a", "b"]);
}

#[test]
fn list_workspaces_skips_what_is_no_directory() {
    let m = manager();
    let mut layout = Layout::new();
    layout.record_directory("zed");
    layout.record_other("file.txt");
    layout.record_directory("Alpha");
    layout.record_directory("alpha");
    assert_eq!(m.list_workspaces(&layout), vec!["Alpha", "alpha", "zed"]);
}

#[test]
fn list_workspaces_of_nothing_is_empty() {
    assert_eq!(manager().list_workspaces(&Layout::new()), Vec::<String>::new());
}

#[test]
fn remove_workspace_then_list_links_is_not_found() {
    let m = manager();
    let mut layout = Layout::new();
    assert_eq!(
        m.create_workspace(&mut layout, "ws", Some(vec![resolved("r", "/src/r")])),
        Ok(())
    );
    layout.take_pending();
    assert_eq!(m.remove_workspace(&mut layout, "ws"), Ok(()));
    assert_eq!(
        m.list_links(&layout, "ws"),
        Err(WorkspaceError::NotFound { name: "ws".to_string() })
    );
    assert_eq!(
        layout.pending(),
        &vec![Action::RemoveDirectory { path: "/root/ws".to_string() }]
    );
    assert_eq!(m.list_workspaces(&layout), Vec::<String>::new());
    assert_eq!(m.create_workspace(&mut layout, "ws", None), Ok(()));
    assert_eq!(m.list_links(&layout, "ws"), Ok(vec![]));
}

#[test]
fn remove_workspace_errors() {
    let m = manager();
    let mut layout = Layout::new();
    layout.record_directory("keep");
    assert_eq!(
        m.remove_workspace(&mut layout, "ws"),
        Err(WorkspaceError::NotFound { name: "ws".to_string() })
    );
    assert_eq!(
        m.remove_workspace(&mut layout, "."),
        Err(WorkspaceError::InvalidName { label: "Workspace".to_string(), name: ".".to_string() })
    );
    assert!(layout.pending().is_empty());
    assert_eq!(m.list_workspaces(&layout), vec!["keep"]);
}

#[test]
fn take_pending_empties_the_list_of_actions() {
    let m = manager();
    let mut layout = Layout::new();
    assert_eq!(m.create_workspace(&mut layout, "ws", None), Ok(()));
    let taken = layout.take_pending();
    assert_eq!(taken, vec![Action::CreateDirectory { path: "/root/ws".to_string() }]);
    assert!(layout.pending().is_empty());
    assert!(layout.node("ws").is_some());
}

#[test]
fn record_entry_needs_a_directory() {
    let mut layout = Layout::new();
    layout.record_other("file");
    assert!(!layout.record_entry("file", "x", Entry::Other));
    assert!(!layout.record_entry("missing", "x", Entry::Other));
    assert!(matches!(layout.node("file"), Some(Node::Other)));
    assert!(layout.node("missing").is_none());
    assert_eq!(layout.nodes().len(), 1);
}

#[test]
fn remove_entry_and_remove_node_forget_what_was_noted() {
    let mut layout = Layout::new();
    layout.record_directory("ws");
    layout.record_other("file");
    assert!(layout.record_entry("ws", "a", Entry::Other));
    assert!(layout.record_entry("ws", "b", Entry::Link { target: "/b".to_string() }));
    layout.remove_entry("ws", "a");
    assert_eq!(entry_names(&layout, "ws"), vec!["b"]);
    layout.remove_entry("ws", "missing");
    layout.remove_entry("file", "b");
    layout.remove_entry("nowhere", "b");
    assert_eq!(entry_names(&layout, "ws"), vec!["b"]);
    assert!(matches!(layout.node("file"), Some(Node::Other)));
    layout.remove_node("file");
    layout.remove_node("nowhere");
    assert!(layout.node("file").is_none());
    assert_eq!(layout.nodes().len(), 1);
    assert!(layout.pending().is_empty());
}

#[test]
fn record_directory_again_starts_it_empty() {
    let mut layout = Layout::new();
    layout.record_directory("ws");
    assert!(layout.record_entry("ws", "a", Entry::Other));
    layout.record_directory("ws");
    assert_eq!(entry_names(&layout, "ws"), Vec::<String>::new());
}
