use pathtree::ingest::{append_path, split_segments};
use pathtree::state::{init_state, State};
use pathtree::tree::Tree;

fn state_of(paths: &[&str], separator: &str) -> State {
    let lines: Vec<String> = paths.iter().map(|p| p.to_string()).collect();
    init_state(&lines, separator)
}

fn rendered_of(state: &State) -> Vec<String> {
    state.lines()
}

#[test]
fn three_paths_full_render() {
    let state = state_of(&["a/b/c", "a/b/d", "a/e"], "/");
    let lines = rendered_of(&state);
    assert_eq!(
        lines,
        vec![
            "└─ a".to_string(),
            "   ├─ b".to_string(),
            "   │  ├─ c".to_string(),
            "   │  └─ d".to_string(),
            "   └─ e".to_string(),
        ]
    );
}

#[test]
fn collapse_inner_node_suppresses_subtree() {
    let mut state = state_of(&["a/b/c", "a/b/d", "a/e"], "/");
    state.collapsed.collapse(vec![0, 0]);
    let lines = rendered_of(&state);
    assert_eq!(
        lines,
        vec!["└─ a".to_string(), "   ├⊞ b".to_string(), "   └─ e".to_string()]
    );
}

#[test]
fn empty_input_renders_nothing() {
    let state = state_of(&[], "/");
    assert_eq!(rendered_of(&state), Vec::<String>::new());
}

#[test]
fn last_child_is_merged() {
    let state = state_of(&["a/x", "a/y"], "/");
    assert_eq!(
        rendered_of(&state),
        vec!["└─ a".to_string(), "   ├─ x".to_string(), "   └─ y".to_string()]
    );
}

#[test]
fn interleaved_siblings_are_not_merged() {
    let state = state_of(&["a/x", "b/y", "a/z"], "/");
    assert_eq!(
        rendered_of(&state),
        vec![
            "├─ a".to_string(),
            "│  └─ x".to_string(),
            "├─ b".to_string(),
            "│  └─ y".to_string(),
            "└─ a".to_string(),
            "   └─ z".to_string(),
        ]
    );
}

#[test]
fn ingestion_is_deterministic() {
    let first = state_of(&["a/b/c", "a/b/d", "a/e", "f", "//g"], "/");
    let second = state_of(&["a/b/c", "a/b/d", "a/e", "f", "//g"], "/");
    assert_eq!(rendered_of(&first), rendered_of(&second));
}

#[test]
fn collapse_is_idempotent() {
    let mut once = state_of(&["a/b/c", "a/e"], "/");
    let mut twice = state_of(&["a/b/c", "a/e"], "/");
    once.collapsed.collapse(vec![0, 0]);
    twice.collapsed.collapse(vec![0, 0]);
    twice.collapsed.collapse(vec![0, 0]);
    assert_eq!(rendered_of(&once), rendered_of(&twice));
    assert!(twice.collapsed.is_collapsed(&vec![0, 0]));
}

#[test]
fn expand_restores_previous_render() {
    let mut state = state_of(&["a/b/c", "a/b/d", "a/e"], "/");
    let before = rendered_of(&state);
    state.collapsed.collapse(vec![0, 0]);
    assert_ne!(rendered_of(&state), before);
    state.collapsed.expand(&vec![0, 0]);
    assert_eq!(rendered_of(&state), before);
}

#[test]
fn expand_of_absent_coordinate_is_noop() {
    let mut state = state_of(&["a/b", "c"], "/");
    let before = rendered_of(&state);
    state.collapsed.expand(&vec![1, 1, 1]);
    assert_eq!(rendered_of(&state), before);
    assert!(!state.collapsed.is_collapsed(&vec![1, 1, 1]));
}

#[test]
fn collapse_of_stale_coordinate_is_inert() {
    let mut state = state_of(&["a/b", "c"], "/");
    let before = rendered_of(&state);
    state.collapsed.collapse(vec![7]);
    assert_eq!(rendered_of(&state), before);
    assert!(state.collapsed.is_collapsed(&vec![7]));
}

#[test]
fn coords_walk_the_rendered_lines() {
    let state = state_of(&["a/b/c", "a/b/d", "a/e"], "/");
    assert_eq!(state.coords(0), Vec::<usize>::new());
    assert_eq!(state.coords(1), vec![0]);
    assert_eq!(state.coords(2), vec![0, 0]);
    assert_eq!(state.coords(3), vec![0, 0, 0]);
    assert_eq!(state.coords(4), vec![0, 0, 1]);
    assert_eq!(state.coords(5), vec![0, 1]);
}

#[test]
fn coords_skip_collapsed_subtrees() {
    let mut state = state_of(&["a/b/c", "a/b/d", "a/e"], "/");
    state.collapsed.collapse(vec![0, 0]);
    assert_eq!(state.coords(1), vec![0]);
    assert_eq!(state.coords(2), vec![0, 0]);
    assert_eq!(state.coords(3), vec![0, 1]);
}

#[test]
fn resolve_coordinate_rejects_out_of_range() {
    let mut state = state_of(&["a/b/c", "a/b/d", "a/e"], "/");
    assert_eq!(state.resolve_coordinate(0), Some(vec![0]));
    assert_eq!(state.resolve_coordinate(4), Some(vec![0, 1]));
    assert_eq!(state.resolve_coordinate(5), None);
    state.collapsed.collapse(vec![0, 0]);
    assert_eq!(state.resolve_coordinate(2), Some(vec![0, 1]));
    assert_eq!(state.resolve_coordinate(3), None);
}

#[test]
fn resolved_coordinate_names_the_rendered_node() {
    let mut state = state_of(&["a/b/c", "a/b/d", "a/e", "f/g"], "/");
    for pass in 0..2 {
        if pass == 1 {
            state.collapsed.collapse(vec![0, 0]);
        }
        let lines = rendered_of(&state);
        for i in 0..lines.len() {
            let coord = state.coords(i + 1);
            let mut node = &state.tree;
            for &ix in &coord {
                node = &node.children[ix];
            }
            assert!(lines[i].ends_with(&node.value));
        }
    }
}

#[test]
fn count_of_collapsed_node_is_one() {
    let state = state_of(&["a/b/c", "a/b/d", "a/e"], "/");
    let mut collapsed = pathtree::collapse::CollapseState::new();
    collapsed.collapse(vec![0]);
    let mut coords = vec![0];
    // The whole `a` subtree would show five lines; collapsed it is one.
    let top = &state.tree.children[0];
    assert_eq!(top.count(&mut coords, &collapsed), 1);
    let open = pathtree::collapse::CollapseState::new();
    assert_eq!(top.count(&mut coords, &open), 5);
    assert_eq!(coords, vec![0]);
}

#[test]
fn empty_segments_are_skipped() {
    let state = state_of(&["//a//b/"], "/");
    assert_eq!(
        rendered_of(&state),
        vec!["└─ a".to_string(), "   └─ b".to_string()]
    );
}

#[test]
fn empty_path_is_a_noop() {
    let state = state_of(&["", "/", "a"], "/");
    assert_eq!(rendered_of(&state), vec!["└─ a".to_string()]);
}

#[test]
fn multi_character_separator() {
    let state = state_of(&["x::y::z", "x::w"], "::");
    assert_eq!(
        rendered_of(&state),
        vec![
            "└─ x".to_string(),
            "   ├─ y".to_string(),
            "   │  └─ z".to_string(),
            "   └─ w".to_string(),
        ]
    );
}

#[test]
fn empty_separator_splits_between_characters() {
    assert_eq!(
        split_segments("abc", ""),
        vec!["a".to_string(), "b".to_string(), "c".to_string()]
    );
}

#[test]
fn split_segments_drops_empty_pieces() {
    assert_eq!(
        split_segments("/a//bc/", "/"),
        vec!["a".to_string(), "bc".to_string()]
    );
    assert_eq!(split_segments("", "/"), Vec::<String>::new());
    assert_eq!(split_segments("abc", "/"), vec!["abc".to_string()]);
}

#[test]
fn append_path_reuses_only_the_last_child() {
    let mut tree = Tree { value: String::new(), children: Vec::new() };
    append_path(&mut tree, "a/x", "/");
    append_path(&mut tree, "a/y", "/");
    append_path(&mut tree, "b", "/");
    append_path(&mut tree, "a/z", "/");
    let state = State { tree, collapsed: pathtree::collapse::CollapseState::new() };
    assert_eq!(
        rendered_of(&state),
        vec![
            "├─ a".to_string(),
            "│  ├─ x".to_string(),
            "│  └─ y".to_string(),
            "├─ b".to_string(),
            "└─ a".to_string(),
            "   └─ z".to_string(),
        ]
    );
}

#[test]
fn prefixed_lines_renders_a_subtree() {
    let state = state_of(&["a/b", "a/c"], "/");
    let collapsed = pathtree::collapse::CollapseState::new();
    let coord = vec![0usize];
    let lines = state.tree.children[0].prefixed_lines("", "└─ ", "   ", &collapsed, &coord);
    assert_eq!(
        lines,
        vec!["└─ a".to_string(), "   ├─ b".to_string(), "   └─ c".to_string()]
    );
}
