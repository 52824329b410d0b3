use kmf::archive::sanitize_file_path;
use kmf::archive::ExtractTree;

#[test]
fn path_traversal_is_confined() {
    // A malicious entry cannot name a path outside the target directory:
    // every parent reference sanitizes away.
    let segs = sanitize_file_path("../../../evil");
    assert_eq!(segs, vec![String::from("evil")]);
    for s in &segs {
        assert!(!s.contains('/') && !s.contains('\\'));
        assert_ne!(s, "..");
        assert_ne!(s, ".");
    }
}

#[test]
fn backslashes_are_separators() {
    let segs = sanitize_file_path("..\\..\\etc\\passwd");
    assert_eq!(segs, vec![String::from("etc"), String::from("passwd")]);
}

#[test]
fn plain_paths_keep_their_segments() {
    let segs = sanitize_file_path("mods/pack/readme.txt");
    assert_eq!(
        segs,
        vec![String::from("mods"), String::from("pack"), String::from("readme.txt")]
    );
}

#[test]
fn directory_entries_lose_their_trailing_separator() {
    let segs = sanitize_file_path("mods/pack/");
    assert_eq!(segs, vec![String::from("mods"), String::from("pack")]);
}

#[test]
fn segments_match_the_sanitizer_the_extractor_relies_on() {
    // Each kept segment is what sanitize_filename makes of it; a segment
    // handed back unchanged would keep the separator and the dots.
    let raw = "we/ird:*na?me";
    let segs = sanitize_file_path(raw);
    let opts = sanitize_filename::Options { windows: true, truncate: true, replacement: "" };
    assert_eq!(segs[0], sanitize_filename::sanitize_with_options("we", opts.clone()));
    assert_eq!(segs[1], sanitize_filename::sanitize_with_options("ird:*na?me", opts));
    assert_eq!(segs, vec![String::from("we"), String::from("irdname")]);
}

#[test]
fn empty_and_dot_segments_vanish() {
    assert_eq!(sanitize_file_path("a//b/./c/.."), vec![
        String::from("a"),
        String::from("b"),
        String::from("c"),
    ]);
    assert!(sanitize_file_path("..").is_empty());
    assert!(sanitize_file_path("").is_empty());
}

#[test]
fn overlong_segments_cannot_smuggle_a_trailing_dot() {
    // The sanitizer truncates to 255 bytes only after stripping trailing
    // dots, so a long segment can come back ending in a dot; such a
    // segment is screened out rather than joined.
    let long = format!("{}{}", "a".repeat(254), ".bb");
    let segs = sanitize_file_path(&long);
    for s in &segs {
        assert!(!s.is_empty());
        assert!(!s.ends_with('.'));
    }
    let inside = format!("evil/{}/ok.txt", long);
    for s in sanitize_file_path(&inside) {
        assert!(!s.ends_with('.'));
    }
}

#[test]
fn file_before_parent_directory_extracts_correctly() {
    let file = vec![String::from("mods"), String::from("pack"), String::from("data.bin")];
    let parent = vec![String::from("mods"), String::from("pack")];
    let top = vec![String::from("mods")];

    // The archive lists the file first, its parent directory later.
    let mut out_of_order = ExtractTree::new();
    out_of_order.apply_file(&file);
    // The parents already exist: created lazily by the file entry.
    assert!(out_of_order.has_dir(&parent));
    assert!(out_of_order.has_dir(&top));
    assert!(out_of_order.has_file(&file));
    out_of_order.apply_dir(&parent);

    // The same archive in pre-order.
    let mut in_order = ExtractTree::new();
    in_order.apply_dir(&parent);
    in_order.apply_file(&file);

    // Both orders leave the same tree.
    for p in [&file, &parent, &top] {
        assert_eq!(out_of_order.has_file(p), in_order.has_file(p));
        assert_eq!(out_of_order.has_dir(p), in_order.has_dir(p));
    }
}
