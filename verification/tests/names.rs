use std::path::PathBuf;

use workspaces::error::WorkspaceError;
use workspaces::order::{rank, Rank};
use workspaces::path::{final_component, is_hidden, is_single_segment, join};
use workspaces::text::chars_of;
use workspaces::workspace::{WorkspaceManager, WORKSPACE_DIR};

fn sample_manager() -> WorkspaceManager {
    WorkspaceManager::new(Some("/srv/ws".to_string())).expect("a root was given")
}

#[test]
fn empty_name_is_invalid() {
    let err = sample_manager().validate_name("", "Workspace").unwrap_err();
    assert_eq!(
        err,
        WorkspaceError::InvalidName { label: "Workspace".to_string(), name: String::new() }
    );
}

#[test]
fn name_with_separator_is_invalid() {
    for name in ["a/b", "/", "/abs", "a/", "a//b", "../x", "./x"] {
        let err = sample_manager().validate_name(name, "Link").unwrap_err();
        assert_eq!(
            err,
            WorkspaceError::InvalidName { label: "Link".to_string(), name: name.to_string() }
        );
    }
}

#[test]
fn parent_reference_is_invalid() {
    let err = sample_manager().validate_name("..", "Workspace").unwrap_err();
    assert_eq!(
        err,
        WorkspaceError::InvalidName { label: "Workspace".to_string(), name: "..".to_string() }
    );
}

#[test]
fn current_directory_reference_is_invalid() {
    assert!(sample_manager().validate_name(".", "Workspace").is_err());
    assert!(!is_single_segment("."));
}

#[test]
fn plain_names_are_valid() {
    let names =
        ["ws", "a", "my-project_2", ".hidden", "...", "a.b", "..a", "a..", "with space", "日本語", "é"];
    for name in names {
        assert_eq!(sample_manager().validate_name(name, "Workspace"), Ok(()));
        assert!(is_single_segment(name));
    }
}

#[test]
fn hidden_names_start_with_a_dot() {
    assert!(is_hidden(".hidden"));
    assert!(is_hidden("."));
    assert!(!is_hidden("a.b"));
    assert!(!is_hidden(""));
}

#[test]
fn workspace_dir_is_root_joined_with_name() {
    assert_eq!(sample_manager().get_workspace_dir("alpha"), "/srv/ws/alpha");
    assert_eq!(sample_manager().root_dir(), "/srv/ws");
}

#[test]
fn workspace_dir_needs_no_valid_name() {
    assert_eq!(sample_manager().get_workspace_dir(""), "/srv/ws/");
    assert_eq!(sample_manager().get_workspace_dir(".."), "/srv/ws/..");
    assert_eq!(sample_manager().get_workspace_dir("a/b"), "/srv/ws/a/b");
    assert_eq!(sample_manager().get_workspace_dir("/etc"), "/etc");
}

#[test]
fn join_agrees_with_the_standard_library() {
    let bases = ["", "/", "/srv", "/srv/", "rel", "rel/", "/a/b", "é"];
    let names = ["", "x", "x/y", "/x", "/", "..", ".", "日本", "x/"];
    for base in bases {
        for name in names {
            let expected = PathBuf::from(base).join(name);
            assert_eq!(join(base, name), expected.to_str().unwrap(), "{base:?} {name:?}");
        }
    }
}

#[test]
fn final_component_is_what_follows_the_last_separator() {
    assert_eq!(final_component("/home/me/repo"), "repo");
    assert_eq!(final_component("repo"), "repo");
    assert_eq!(final_component("/repo"), "repo");
    assert_eq!(final_component("/"), "");
    assert_eq!(final_component(""), "");
    assert_eq!(final_component("/a/b/"), "");
    assert_eq!(final_component("/a/.."), "..");
    assert_eq!(final_component("/données/dépôt"), "dépôt");
}

#[test]
fn chars_of_gives_every_character() {
    assert_eq!(chars_of("a/é"), vec!['a', '/', 'é']);
    assert_eq!(chars_of(""), Vec::<char>::new());
}

#[test]
fn rank_is_the_order_of_strings() {
    let samples = [
        "", "a", "A", "ab", "abc", "abd", "b", "ba", ".a", "a.", "é", "z", "日本", "a/b", "10", "9",
    ];
    for x in samples {
        for y in samples {
            let expected = match x.cmp(y) {
                std::cmp::Ordering::Less => Rank::Before,
                std::cmp::Ordering::Equal => Rank::Same,
                std::cmp::Ordering::Greater => Rank::After,
            };
            assert!(rank(x, y) == expected, "{x:?} {y:?}");
        }
    }
}

#[test]
fn rank_of_a_prefix_is_before() {
    assert!(rank("work", "workspace") == Rank::Before);
    assert!(rank("workspace", "work") == Rank::After);
    assert!(rank("work", "work") == Rank::Same);
}

#[test]
fn given_root_wins_over_home() {
    let m = WorkspaceManager::from_sources(Some("/x".to_string()), Some("/home/me".to_string()));
    assert_eq!(m.unwrap().root_dir(), "/x");
}

#[test]
fn home_gives_the_default_root() {
    let m = WorkspaceManager::from_sources(None, Some("/home/me".to_string()));
    assert_eq!(m.unwrap().root_dir(), "/home/me/.workspaces");
    assert_eq!(WORKSPACE_DIR, ".workspaces");
}

#[test]
fn no_root_without_any_source() {
    assert!(WorkspaceManager::from_sources(None, None).is_none());
}

#[test]
fn new_asks_for_the_home_directory_when_no_root_is_given() {
    let home = dirs::home_dir().and_then(|p| p.into_os_string().into_string().ok());
    let expected = WorkspaceManager::from_sources(None, home).map(|m| m.root_dir().clone());
    let got = WorkspaceManager::new(None).map(|m| m.root_dir().clone());
    assert_eq!(got, expected);
}

#[test]
fn new_keeps_a_given_root() {
    let m = WorkspaceManager::new(Some("relative/root".to_string())).unwrap();
    assert_eq!(m.root_dir(), "relative/root");
    assert_eq!(m.get_workspace_dir("w"), "relative/root/w");
}
