use edman::dispatch::Config;
use edman::page::config::{apply_config_update, ConfigUpdateMessage};
use edman::page::files::{FileNode, FileNodeMessage, FileTypeEnum, FileView};
use edman::page::tree::{split_segments, Leaf, TreeView, TreeViewMessage};

fn draft() -> Config {
    Config {
        download_directory: b"/dl".to_vec(),
        download_subdirectory: b"edman".to_vec(),
        save_file_directory: b"/sv".to_vec(),
        allowed_origins: vec![b"o1".to_vec(), b"o2".to_vec()],
        allowed_extensions: vec![b"e1".to_vec()],
    }
}

#[test]
fn config_edits() {
    let origin_input = b"o3".to_vec();
    let extension_input = b"e2".to_vec();

    let mut c = draft();
    apply_config_update(
        &mut c,
        &origin_input,
        &extension_input,
        ConfigUpdateMessage::DownloadDirectoryChange(b"/new".to_vec()),
    );
    assert_eq!(c.download_directory, b"/new".to_vec());
    assert_eq!(c.save_file_directory, b"/sv".to_vec());

    apply_config_update(
        &mut c,
        &origin_input,
        &extension_input,
        ConfigUpdateMessage::ChromiumOriginAdd,
    );
    assert_eq!(c.allowed_origins, vec![b"o1".to_vec(), b"o2".to_vec(), b"o3".to_vec()]);

    apply_config_update(
        &mut c,
        &origin_input,
        &extension_input,
        ConfigUpdateMessage::FirefoxExtensionAdd,
    );
    assert_eq!(c.allowed_extensions, vec![b"e1".to_vec(), b"e2".to_vec()]);

    apply_config_update(
        &mut c,
        &origin_input,
        &extension_input,
        ConfigUpdateMessage::ChromiumOriginRemove(0),
    );
    assert_eq!(c.allowed_origins, vec![b"o2".to_vec(), b"o3".to_vec()]);

    // An out-of-range removal does nothing rather than fail.
    apply_config_update(
        &mut c,
        &origin_input,
        &extension_input,
        ConfigUpdateMessage::ChromiumOriginRemove(9),
    );
    assert_eq!(c.allowed_origins, vec![b"o2".to_vec(), b"o3".to_vec()]);
}

fn leaf_node(id: i32, name: &[u8]) -> FileNode {
    FileNode {
        id,
        name: name.to_vec(),
        is_open: false,
        file_type: FileTypeEnum::Leaf { attributes: vec![] },
    }
}

#[test]
fn file_node_click_toggles_the_right_node() {
    let mut root = FileNode {
        id: 1,
        name: b"root".to_vec(),
        is_open: true,
        file_type: FileTypeEnum::Node {
            children: vec![leaf_node(2, b"a"), leaf_node(3, b"b"), leaf_node(3, b"b2")],
        },
    };

    // A depth-1 click on id 3 opens only the first match.
    root.update(FileNodeMessage { id: 3, depth: 1 });
    match &root.file_type {
        FileTypeEnum::Node { children } => {
            assert!(!children[0].is_open);
            assert!(children[1].is_open);
            assert!(!children[2].is_open, "only the first match toggles");
        }
        _ => panic!("root keeps its children"),
    }

    // A second identical click folds it again.
    root.update(FileNodeMessage { id: 3, depth: 1 });
    match &root.file_type {
        FileTypeEnum::Node { children } => assert!(!children[1].is_open),
        _ => panic!("root keeps its children"),
    }

    // A depth-0 click targets the root itself.
    root.update(FileNodeMessage { id: 1, depth: 0 });
    assert!(!root.is_open);

    // A click that matches nothing changes nothing.
    root.update(FileNodeMessage { id: 99, depth: 1 });
    assert!(!root.is_open);
}

#[test]
fn path_segments_keep_empties() {
    assert_eq!(
        split_segments(&b"a/b/c".to_vec()),
        vec![b"a".to_vec(), b"b".to_vec(), b"c".to_vec()]
    );
    assert_eq!(
        split_segments(&b"a//b".to_vec()),
        vec![b"a".to_vec(), b"".to_vec(), b"b".to_vec()]
    );
    assert_eq!(split_segments(&b"a/".to_vec()), vec![b"a".to_vec(), b"".to_vec()]);
    assert_eq!(split_segments(&b"".to_vec()), vec![b"".to_vec()]);
    let l = Leaf::of_file(4, &b"docs/notes.txt".to_vec());
    assert_eq!(l.id, 4);
    assert_eq!(l.path, vec![b"docs".to_vec(), b"notes.txt".to_vec()]);
}

fn find_entry<'t>(
    view: &'t TreeView,
    key: &[Vec<u8>],
) -> Option<&'t edman::page::tree::GraphicsEntry> {
    view.tree.iter().find(|(k, _)| k.as_slice() == key).map(|(_, e)| e)
}

#[test]
fn tree_view_holds_every_prefix_once() {
    let leaves = vec![
        Leaf::of_file(1, &b"a/b/c".to_vec()),
        Leaf::of_file(2, &b"a/b/d".to_vec()),
        Leaf::of_file(3, &b"a".to_vec()),
    ];
    let view = TreeView::new(leaves);

    // One entry per distinct prefix: a, a/b, a/b/c, a/b/d.
    assert_eq!(view.tree.len(), 4);

    let e = find_entry(&view, &[b"a".to_vec()]).expect("prefix a");
    assert_eq!(e.depth, 0);
    assert!(!e.is_open);
    // The later leaf for the same key wins: "a" is leaf 3.
    assert_eq!(e.id, Some(3));

    let e = find_entry(&view, &[b"a".to_vec(), b"b".to_vec()]).expect("prefix a/b");
    assert_eq!(e.depth, 1);
    assert_eq!(e.id, None);

    let e = find_entry(&view, &[b"a".to_vec(), b"b".to_vec(), b"c".to_vec()]).expect("a/b/c");
    assert_eq!(e.depth, 2);
    assert_eq!(e.id, Some(1));
}

#[test]
fn tree_view_click_toggles_one_row() {
    let leaves = vec![Leaf::of_file(1, &b"a/b".to_vec())];
    let mut view = TreeView::new(leaves);

    view.update(&TreeViewMessage { path: vec![b"a".to_vec()] });
    assert!(find_entry(&view, &[b"a".to_vec()]).unwrap().is_open);
    assert!(!find_entry(&view, &[b"a".to_vec(), b"b".to_vec()]).unwrap().is_open);

    view.update(&TreeViewMessage { path: vec![b"a".to_vec()] });
    assert!(!find_entry(&view, &[b"a".to_vec()]).unwrap().is_open);

    // A click naming no row changes nothing.
    view.update(&TreeViewMessage { path: vec![b"zz".to_vec()] });
    assert_eq!(view.tree.len(), 2);
    assert!(!find_entry(&view, &[b"a".to_vec()]).unwrap().is_open);
}

#[test]
fn tree_view_rows_show_only_under_open_prefixes() {
    let leaves = vec![Leaf::of_file(1, &b"a/b/c".to_vec())];
    let mut view = TreeView::new(leaves);

    let top = vec![b"a".to_vec()];
    let mid = vec![b"a".to_vec(), b"b".to_vec()];
    let deep = vec![b"a".to_vec(), b"b".to_vec(), b"c".to_vec()];

    // Everything starts folded: only the top row shows.
    assert!(view.row_visible(&top));
    assert!(!view.row_visible(&mid));
    assert!(!view.row_visible(&deep));

    // Opening "a" reveals "a/b" but not "a/b/c".
    view.update(&TreeViewMessage { path: top.clone() });
    assert!(view.row_visible(&mid));
    assert!(!view.row_visible(&deep));

    // Opening "a/b" as well reveals the leaf.
    view.update(&TreeViewMessage { path: mid.clone() });
    assert!(view.row_visible(&deep));
}

#[test]
fn file_view_loads_then_routes_clicks() {
    let mut view = FileView::new();
    assert!(view.tree.is_none());

    // A click before the list has loaded changes nothing.
    view.update(&TreeViewMessage { path: vec![b"a".to_vec()] });
    assert!(view.tree.is_none());

    view.on_loaded(vec![Leaf::of_file(1, &b"a/b".to_vec())]);
    view.update(&TreeViewMessage { path: vec![b"a".to_vec()] });
    let tree = view.tree.as_ref().unwrap();
    assert!(tree.tree.iter().any(|(k, e)| k.as_slice() == [b"a".to_vec()] && e.is_open));
}
