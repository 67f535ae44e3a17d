use image_dedup::filter::accepts;

#[test]
fn accepts_known_extensions() {
    assert!(accepts("photos/cat.png"));
    assert!(accepts("cat.jpg"));
    assert!(accepts("a/b/c.jpeg"));
    assert!(accepts("x.gif"));
    assert!(accepts("x.bmp"));
    assert!(accepts("x.ico"));
    assert!(accepts("x.tiff"));
    assert!(accepts("x.webp"));
    assert!(accepts("x.avif"));
    assert!(accepts("x.pnm"));
    assert!(accepts("x.dds"));
    assert!(accepts("x.tga"));
}

#[test]
fn rejects_unknown_extensions() {
    assert!(!accepts("notes.txt"));
    assert!(!accepts("archive.tar.gz"));
    assert!(!accepts("photo.png.bak"));
}

#[test]
fn extension_matching_is_case_sensitive() {
    assert!(!accepts("cat.PNG"));
    assert!(!accepts("cat.Jpg"));
}

#[test]
fn rejects_paths_without_an_extension() {
    assert!(!accepts("README"));
    assert!(!accepts("dir/file"));
    assert!(!accepts(""));
}

#[test]
fn hidden_files_have_no_extension() {
    assert!(!accepts(".png"));
    assert!(!accepts("dir/.png"));
}

#[test]
fn dot_in_directory_does_not_count() {
    assert!(!accepts("dir.png/file"));
}

#[test]
fn trailing_dot_is_an_empty_extension() {
    assert!(!accepts("file."));
}

#[test]
fn last_extension_wins() {
    assert!(accepts("a.b.jpeg"));
    assert!(!accepts("a.jpeg.b"));
}
