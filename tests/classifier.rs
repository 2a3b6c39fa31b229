use elodie::{ends_with, is_image, Classifier};

#[test]
fn suffix_match_is_case_sensitive() {
    assert!(ends_with("photo.jpg", "jpg"));
    assert!(!ends_with("photo.JPG", "jpg"));
    assert!(ends_with("abc", ""));
    assert!(!ends_with("pg", "jpg"));
}

#[test]
fn image_names() {
    assert!(is_image("photo1.jpg", true));
    assert!(is_image("shot.png", true));
    assert!(!is_image("note.txt", true));
    assert!(!is_image("album.jpg", false));
}

#[test]
fn classifier_rejects_non_regular_entries() {
    let c = Classifier::images();
    assert!(c.accepts("photo1.jpg", true));
    assert!(!c.accepts("photo1.jpg", false));
    assert!(!c.accepts("note.txt", true));
    let any = Classifier::any_file();
    assert!(any.accepts("note.txt", true));
    assert!(!any.accepts("dir", false));
}

#[test]
fn configured_extensions() {
    let c = Classifier { extensions: Some(vec![String::from("gif")]) };
    assert!(c.accepts("a.gif", true));
    assert!(!c.accepts("a.jpg", true));
    let none = Classifier { extensions: Some(Vec::new()) };
    assert!(!none.accepts("a.jpg", true));
}
