use std::collections::HashMap;
use batch_image_resizer::html::{inline_script, inline_style};
use batch_image_resizer::scan::{is_picture_path, sort_dir_entries, DirEntryInfo, DirListing, DirWalk};

#[test]
fn picture_extensions() {
    assert!(is_picture_path("/a/b.jpg"));
    assert!(is_picture_path("/a/b.tar.JPEG"));
    assert!(is_picture_path("gif"));
    assert!(!is_picture_path("/a/b.Jpg"));
    assert!(!is_picture_path("/a/b.txt"));
    assert!(!is_picture_path("/a/png"));
    assert!(!is_picture_path("/a/b."));
}

fn entry(path: &str, is_dir: bool, is_file: bool) -> DirEntryInfo {
    DirEntryInfo { path: path.to_string(), is_dir, is_file }
}

#[test]
fn sorting_entries() {
    let es = vec![
        entry("/d/a.png", false, true),
        entry("/d/sub", true, false),
        entry("/d/notes.txt", false, true),
        entry("/d/link.jpg", false, false),
        entry("/d/b.gif", false, true),
    ];
    let l = sort_dir_entries(&es);
    assert_eq!(l.files, vec!["/d/a.png".to_string(), "/d/b.gif".to_string()]);
    assert_eq!(l.dirs, vec!["/d/sub".to_string()]);
}

#[test]
fn walking_folders() {
    let mut w = DirWalk::new("/root");
    assert!(!w.is_awaiting());
    assert_eq!(w.next_dir(), Some("/root".to_string()));
    assert!(w.is_awaiting());
    w.absorb(DirListing { files: vec!["/root/a.jpg".to_string()], dirs: vec!["/root/x".to_string(), "/root/y".to_string()] });
    assert_eq!(w.next_dir(), Some("/root/y".to_string()));
    w.absorb(DirListing { files: vec!["/root/y/b.png".to_string()], dirs: vec![] });
    assert_eq!(w.next_dir(), Some("/root/x".to_string()));
    assert_eq!(w.next_dir(), None);
    let (files, dirs) = w.finish();
    assert_eq!(files, vec!["/root/a.jpg".to_string(), "/root/y/b.png".to_string()]);
    assert!(dirs.is_empty());
}

#[test]
fn page_tags() {
    assert_eq!(inline_style("p{}"), "<style type=\"text/css\">p{}</style>");
    assert_eq!(inline_script("f()"), "<script type=\"text/javascript\">f()</script>");
}

#[test]
fn walk_of_flat_folder_is_its_listing() {
    let mut w = DirWalk::new("/flat");
    assert_eq!(w.next_dir(), Some("/flat".to_string()));
    let root_files = vec!["/flat/a.jpg".to_string(), "/flat/b.png".to_string()];
    w.absorb(DirListing { files: root_files.clone(), dirs: vec![] });
    assert_eq!(w.next_dir(), None);
    let (files, dirs) = w.finish();
    assert_eq!(files, root_files);
    assert!(dirs.is_empty());
}

#[test]
fn walk_lists_every_folder_of_a_tree_once() {
    let mut tree: HashMap<&str, Vec<&str>> = HashMap::new();
    tree.insert("/r", vec!["/r/a", "/r/b"]);
    tree.insert("/r/a", vec!["/r/a/x"]);
    tree.insert("/r/b", vec![]);
    tree.insert("/r/a/x", vec![]);
    let mut w = DirWalk::new("/r");
    let mut listed: Vec<String> = Vec::new();
    while let Some(d) = w.next_dir() {
        let dirs: Vec<String> = tree[d.as_str()].iter().map(|s| s.to_string()).collect();
        let files = vec![format!("{}/p.jpg", d)];
        listed.push(d);
        w.absorb(DirListing { files, dirs });
    }
    let mut sorted = listed.clone();
    sorted.sort();
    assert_eq!(sorted, vec!["/r", "/r/a", "/r/a/x", "/r/b"]);
    let (files, dirs) = w.finish();
    assert_eq!(files.len(), 4);
    assert_eq!(files[0], "/r/p.jpg");
    assert!(dirs.is_empty());
}
