//! Paths within folders, and the names at their ends.

use actool::files::{check_leads_away, file_name, File, Item};
use actool::icns::make_icns;
use actool::icon_bundle::is_icon_bundle;

fn file(text: &str) -> Item {
    Item::File(File { data: Some(text.as_bytes().to_vec()), json: None, drawings: Vec::new() })
}

fn text(item: Option<&Item>) -> Option<String> {
    match item {
        Some(Item::File(f)) => f.data.as_ref().map(|d| String::from_utf8(d.clone()).unwrap()),
        _ => None,
    }
}

#[test]
fn names_stand_at_the_end_of_paths() {
    assert_eq!(file_name("a/b.png"), "b.png");
    assert_eq!(file_name("a/b.png//"), "b.png");
    assert_eq!(file_name("a/b.icon/."), "b.icon");
    assert_eq!(file_name("a/./b/./."), "b");
    assert_eq!(file_name("."), "");
    assert_eq!(file_name("a/.."), "");
    assert_eq!(file_name("/"), "");
    assert_eq!(file_name(".hidden"), ".hidden");
    assert!(is_icon_bundle("A.icon/."));
    assert!(is_icon_bundle("dir/A.icon/"));
    assert!(!is_icon_bundle("A.icon/x"));
}

#[test]
fn slashes_follow_folders_only() {
    let inner = Item::Folder(vec![("a.png".to_string(), file("inner"))]);
    let root =
        Item::Folder(vec![("sub".to_string(), inner), ("a.png".to_string(), file("outer"))]);
    assert_eq!(text(root.find("a.png")).as_deref(), Some("outer"));
    assert_eq!(text(root.find("./sub//a.png")).as_deref(), Some("inner"));
    assert!(root.find("a.png/").is_none());
    assert!(root.find("a.png/.").is_none());
    assert!(root.find("sub/").is_some());
    assert!(root.find("").is_some());
}

#[test]
fn paths_that_lead_away_are_entries_of_their_own() {
    let root = Item::Folder(vec![
        ("a.png".to_string(), file("here")),
        ("../a.png".to_string(), file("above")),
        ("/a.png".to_string(), file("root")),
    ]);
    assert_eq!(text(root.find("../a.png")).as_deref(), Some("above"));
    assert_eq!(text(root.find("/a.png")).as_deref(), Some("root"));
    assert!(root.find("/b.png").is_none());
    assert!(root.find("sub/../a.png").is_none());
    assert!(check_leads_away("x/../y") && check_leads_away("..") && check_leads_away("/"));
    assert!(!check_leads_away("x/..y") && !check_leads_away("") && !check_leads_away("./x"));
}

#[test]
fn icon_files_hold_one_image_of_each_width() {
    let images = vec![
        (vec![1, 2, 3], 16),
        (vec![4], 17),
        (vec![5], 16),
        (vec![6, 7], 1024),
    ];
    let mut expected = b"icns".to_vec();
    expected.extend_from_slice(&29u32.to_be_bytes());
    expected.extend_from_slice(b"icp4");
    expected.extend_from_slice(&11u32.to_be_bytes());
    expected.extend_from_slice(&[1, 2, 3]);
    expected.extend_from_slice(b"ic10");
    expected.extend_from_slice(&10u32.to_be_bytes());
    expected.extend_from_slice(&[6, 7]);
    assert_eq!(make_icns(&images), Some(expected));
    assert_eq!(make_icns(&Vec::new()), Some(b"icns\0\0\0\x08".to_vec()));
}
