use s3_tui::listing::S3Object;
use s3_tui::tree::Tree;
use s3_tui::tree_node::{Key, NodeType, Open, TreeNode};
use s3_tui::tree_widget::TreeWidget;

fn objects(keys: &[&str]) -> Vec<S3Object> {
    keys.iter().map(|k| S3Object { key: Some(k.to_string()) }).collect()
}

fn sample_widget() -> TreeWidget {
    let mut w = TreeWidget { tree: None, is_active: false };
    w.set_tree(
        "bucket".to_string(),
        objects(&["docs/a.txt", "docs/b.txt", "img/", "img/cat.png", "readme.md"]),
    );
    w
}

#[test]
fn node_constructors() {
    let d = TreeNode::new_dir("d".to_string());
    assert_eq!(d.name, "d");
    assert_eq!(d.node_type, NodeType::Dir(Open(false)));
    let f = TreeNode::new_file("f".to_string(), "x/f".to_string());
    assert_eq!(f.node_type, NodeType::File(Key("x/f".to_string())));
}

#[test]
fn node_open_close_toggle() {
    let mut d = TreeNode::new_dir("d".to_string());
    assert!(!d.try_close());
    assert!(d.try_open());
    assert_eq!(d.node_type, NodeType::Dir(Open(true)));
    assert!(!d.try_open());
    assert!(d.try_close());
    assert_eq!(d.node_type, NodeType::Dir(Open(false)));
    assert!(d.try_toggle());
    assert!(d.try_toggle());
    assert_eq!(d.node_type, NodeType::Dir(Open(false)));
    let mut f = TreeNode::new_file("f".to_string(), "f".to_string());
    assert!(!f.try_open());
    assert!(!f.try_close());
    assert!(!f.try_toggle());
    assert_eq!(f.node_type, NodeType::File(Key("f".to_string())));
}

#[test]
fn new_tree_shows_top_level_closed() {
    let w = sample_widget();
    assert_eq!(
        w.labels(),
        vec![" \u{25b6} docs".to_string(), " \u{25b6} img".to_string(), "   readme.md".to_string()]
    );
    let t = w.tree.as_ref().unwrap();
    assert_eq!(t.bucket, "bucket");
    assert!(t.selected.is_none());
    assert_eq!(t.offset, 0);
}

#[test]
fn empty_listing_shows_nothing() {
    let t = Tree::new("b".to_string(), vec![]);
    assert!(t.flattened.is_empty());
    let mut w = TreeWidget { tree: Some(t), is_active: true };
    w.key_down();
    assert!(w.tree.as_ref().unwrap().selected.is_none());
    assert!(w.labels().is_empty());
}

#[test]
fn shared_prefixes_share_nodes() {
    let t = Tree::new("b".to_string(), objects(&["a/x", "a/y", "a/x"]));
    assert_eq!(t.flattened.len(), 1);
    assert_eq!(t.arena.count(), 4);
}

#[test]
fn open_folder_shows_children_and_paths() {
    let mut w = sample_widget();
    w.key_down();
    assert_eq!(w.selected_index(), Some(0));
    assert_eq!(w.controls(), Some("| Open/Close: Enter | Upload file: u | New folder: f |"));
    w.toggle_selected();
    assert_eq!(
        w.labels(),
        vec![
            " \u{25bc} docs".to_string(),
            "    a.txt".to_string(),
            "    b.txt".to_string(),
            " \u{25b6} img".to_string(),
            "   readme.md".to_string(),
        ]
    );
    let t = w.tree.as_ref().unwrap();
    let a = *t.flattened.get_index(1).unwrap();
    assert_eq!(t.get_path(&a), "docs/a.txt");
    let docs = *t.flattened.get_index(0).unwrap();
    assert_eq!(t.get_path(&docs), "docs");
    w.key_down();
    assert_eq!(w.selected_index(), Some(1));
    assert_eq!(w.controls(), Some("| Download: d | Delete: Del | Info: i |"));
}

#[test]
fn toggling_twice_restores_labels() {
    let mut w = sample_widget();
    let before = w.labels();
    w.key_down();
    w.toggle_selected();
    w.toggle_selected();
    assert_eq!(w.labels(), before);
}

#[test]
fn file_path_is_its_key() {
    let t = Tree::new("b".to_string(), objects(&["one/two/three.txt", "top.bin"]));
    for id in t.arena.iter().filter_map(|n| t.arena.get_node_id(n)) {
        if let NodeType::File(Key(k)) = &t.arena[id].get().node_type {
            assert_eq!(&t.get_path(&id), k);
        }
    }
}

#[test]
fn moving_stays_within_shown_nodes() {
    let mut w = sample_widget();
    w.key_up();
    assert_eq!(w.selected_index(), Some(0));
    w.key_up();
    assert_eq!(w.selected_index(), Some(0));
    w.key_down();
    w.key_down();
    w.key_down();
    assert_eq!(w.selected_index(), Some(2));
    w.try_select_to_parent();
    assert_eq!(w.selected_index(), Some(2));
}

#[test]
fn close_all_folds_everything() {
    let mut w = sample_widget();
    w.key_down();
    w.toggle_selected();
    assert_eq!(w.labels().len(), 5);
    w.close_all();
    assert_eq!(w.labels().len(), 3);
}

#[test]
fn view_write_back() {
    let mut w = sample_widget();
    w.set_view(Some(2), 1);
    let t = w.tree.as_ref().unwrap();
    assert_eq!(t.selected, t.flattened.get_index(2).copied());
    assert_eq!(t.offset, 1);
    w.set_view(None, 0);
    assert!(w.tree.as_ref().unwrap().selected.is_none());
    assert_eq!(w.controls(), None);
}

#[test]
fn folder_key_makes_a_folder() {
    let t = Tree::new("b".to_string(), objects(&["empty/"]));
    let id = *t.flattened.get_index(0).unwrap();
    assert_eq!(t.arena[id].get().node_type, NodeType::Dir(Open(false)));
    assert_eq!(t.label(&id), " \u{25b6} empty");
}

#[test]
fn siblings_in_order_of_first_key() {
    let t = Tree::new("b".to_string(), objects(&["zeta/x", "alpha", "zeta/y", "mid/"]));
    let w = TreeWidget { tree: Some(t), is_active: false };
    assert_eq!(
        w.labels(),
        vec![" \u{25b6} zeta".to_string(), "   alpha".to_string(), " \u{25b6} mid".to_string()]
    );
}

#[test]
fn first_key_decides_file_or_folder() {
    let folder_first = Tree::new("b".to_string(), objects(&["a/", "a"]));
    let id = *folder_first.flattened.get_index(0).unwrap();
    assert_eq!(folder_first.arena[id].get().node_type, NodeType::Dir(Open(false)));
    let file_first = Tree::new("b".to_string(), objects(&["a", "a/"]));
    let id = *file_first.flattened.get_index(0).unwrap();
    assert_eq!(file_first.arena[id].get().node_type, NodeType::File(Key("a".to_string())));
    let file_then_child = Tree::new("b".to_string(), objects(&["a", "a/b"]));
    assert_eq!(file_then_child.arena.count(), 3);
}

#[test]
fn select_reports_a_change() {
    let mut w = sample_widget();
    let id = *w.tree.as_ref().unwrap().flattened.get_index(1).unwrap();
    assert!(w.select(id));
    assert!(!w.select(id));
    assert_eq!(w.selected_index(), Some(1));
    let mut empty = TreeWidget { tree: None, is_active: false };
    assert!(!empty.select(id));
}
