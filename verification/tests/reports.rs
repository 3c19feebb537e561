use actool::plist::{
    ios_icon_files, ios_loose_icons, ios_primary_size, make_icon_plist, make_info_plist,
    make_ios_icon_plist, make_tvos_icon_plist, IconImage,
};
use actool::report::{
    build_exif_dimensions, leading_version, make_dependency_info, make_results_report,
    make_version_report, plist_version, resolve_coreui_version,
};

fn icon(idiom: &str, point_w: u32, scale: u32) -> IconImage {
    IconImage {
        path: format!("set/{idiom}{point_w}@{scale}.png"),
        extension: Some("png".to_string()),
        idiom: idiom.to_string(),
        point_w,
        scale,
    }
}

#[test]
fn info_plists_name_what_there_is() {
    let text = make_info_plist(Some("AppIcon"), Some("Accent"), None, &["de".to_string()]);
    assert_eq!(
        text,
        "<?xml version=\"1.0\" encoding=\"UTF-8\"?>\n<!DOCTYPE plist PUBLIC \"-//Apple//DTD PLIST 1.0//EN\" \"http://www.apple.com/DTDs/PropertyList-1.0.dtd\">\n<plist version=\"1.0\">\n<dict>\n\t<key>CFBundleIconFile</key>\n\t<string>AppIcon</string>\n\t<key>CFBundleIconName</key>\n\t<string>AppIcon</string>\n\t<key>NSAccentColorName</key>\n\t<string>Accent</string>\n\t<key>CFBundleLocalizations</key>\n\t<array>\n\t\t<string>de</string>\n\t</array>\n</dict>\n</plist>\n"
    );
    let empty = make_info_plist(None, None, None, &[]);
    assert!(empty.ends_with("<dict>\n</dict>\n</plist>\n"));
}

#[test]
fn icon_plists_are_empty_without_an_icon() {
    let text = make_icon_plist(None);
    assert!(text.ends_with("<plist version=\"1.0\">\n<dict/>\n</plist>\n"));
    let text = make_icon_plist(Some("My"));
    assert!(text.contains("\t<key>CFBundleIconFile</key>\n\t<string>My</string>\n"));
    assert!(text.contains("\t<key>CFBundleIconName</key>\n\t<string>My</string>\n"));
}

#[test]
fn phone_and_pad_icons() {
    assert_eq!(ios_primary_size("iphone"), Some(60));
    assert_eq!(ios_primary_size("ipad"), Some(76));
    assert_eq!(ios_primary_size("mac"), None);
    let icons = vec![icon("iphone", 60, 3), icon("iphone", 60, 2), icon("ipad", 76, 2)];
    let loose = ios_loose_icons(&icons, "AppIcon");
    assert_eq!(loose.len(), 2);
    assert_eq!(loose[0].filename, "AppIcon60x60@2x.png");
    assert_eq!(loose[0].src, "set/iphone60@2.png");
    assert_eq!(loose[1].filename, "AppIcon76x76@2x~ipad.png");
    assert_eq!(ios_icon_files(&icons, "AppIcon", "ipad"), vec!["AppIcon76x76"]);
    let text = make_ios_icon_plist("AppIcon", &icons);
    assert!(text.contains("<key>CFBundleIcons~ipad</key>"));
    let text = make_tvos_icon_plist("AppIcon");
    assert!(text.contains("\t\t<key>CFBundlePrimaryIcon</key>\n\t\t<string>AppIcon</string>\n"));
}

#[test]
fn versions_are_resolved_in_turn() {
    assert_eq!(resolve_coreui_version("macosx", Some(5), Some("6"), Some(7)), 5);
    assert_eq!(resolve_coreui_version("macosx", None, Some("6"), Some(7)), 6);
    assert_eq!(resolve_coreui_version("macosx", None, Some("six"), Some(7)), 7);
    assert_eq!(resolve_coreui_version("macosx", None, None, None), 972);
    assert_eq!(resolve_coreui_version("appletvos", None, None, None), 972);
    assert_eq!(resolve_coreui_version("iphoneos", None, None, None), 975);
    assert_eq!(resolve_coreui_version("iphoneos", None, None, Some(7)), 7);
    assert_eq!(leading_version("975.3.1"), Some(975));
    assert_eq!(leading_version("x.3"), None);
}

#[test]
fn reports_in_two_formats() {
    let files = vec!["/out/Assets.car".to_string()];
    assert_eq!(
        make_results_report("human-readable-text", &files),
        "/* com.apple.actool.compilation-results */\n/out/Assets.car\n"
    );
    let xml = make_results_report("xml1", &files);
    assert!(xml.contains("\t\t\t<string>/out/Assets.car</string>\n"));
    let version = make_version_report("xml1", "24506", "26.3");
    assert!(version.contains("<key>short-bundle-version</key>\n\t\t<string>26.3</string>"));
    assert_eq!(
        make_version_report("human-readable-text", "24506", "26.3"),
        "/* com.apple.actool.version */\nbundle-version: 24506\nshort-bundle-version: 26.3\n"
    );
}

#[test]
fn dependencies_are_recorded() {
    let out = make_dependency_info("actool-1", &["in".to_string()], &["o".to_string()]);
    assert_eq!(out, b"\0actool-1\0\x10in\0\x40o\0".to_vec());
}

#[test]
fn exif_carries_the_size() {
    let exif = build_exif_dimensions(120, 180);
    assert_eq!(&exif[..4], &[b'M', b'M', 0, 0x2a]);
    assert_eq!(exif.len(), 68);
    assert_eq!(&exif[48..52], &120u32.to_be_bytes());
    assert_eq!(&exif[60..64], &180u32.to_be_bytes());
}

fn version_plist(member: &str) -> Vec<u8> {
    format!(
        "<?xml version=\"1.0\" encoding=\"UTF-8\"?>\n<plist version=\"1.0\">\n<dict>\n{member}\n</dict>\n</plist>\n"
    )
    .into_bytes()
}

#[test]
fn versions_come_from_property_lists() {
    let versions = [
        ("<key>CFBundleVersion</key><string>975.1.2</string>", Some(975)),
        ("<key>CFBundleVersion</key><string>972</string>", Some(972)),
        ("<key>CFBundleVersion</key><string>beta.1</string>", None),
        ("<key>CFBundleVersion</key><integer>975</integer>", None),
        ("<key>CFBundleName</key><string>975</string>", None),
    ];
    for (member, version) in versions {
        assert_eq!(plist_version(&version_plist(member)), version);
    }
    assert_eq!(plist_version(b"no property list"), None);
    let list = "<plist version=\"1.0\"><array><string>975</string></array></plist>";
    assert_eq!(plist_version(list.as_bytes()), None);
}

#[test]
fn binary_property_lists_are_read_too() {
    let mut members = plist::Dictionary::new();
    members.insert("CFBundleVersion".to_string(), plist::Value::String("975.4".to_string()));
    let mut data = Vec::new();
    plist::Value::Dictionary(members).to_writer_binary(&mut data).unwrap();
    assert_eq!(plist_version(&data), Some(975));
}
