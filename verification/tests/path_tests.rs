use std::path::{Path, PathBuf};
use store_things::path::{expand_user, extension, file_name, join, stored_path, strip_prefix};
use store_things::store::target_path;

const DIGEST: &str = "ddaf35a193617abacc417349ae20413112e6fa4e89a97ea20a9eeee64b55d39a2192992a274fc1a836ba3c23a3feebbd454d4423643ce80e2a9ac94fa54ca49f";

fn sample_paths() -> Vec<&'static str> {
    vec![
        "",
        "/",
        "//",
        ".",
        "..",
        "./",
        "../",
        "photo.png",
        "photo",
        "photo.",
        ".hidden",
        ".hidden.txt",
        "..a",
        "...",
        "a.b.c",
        "archive.tar.gz",
        "dir/photo.png",
        "dir.d/photo",
        "dir.d/photo.jpeg",
        "/abs/dir/photo.PNG",
        "dir/photo.png/",
        "dir/photo.png//",
        "dir/photo.png/.",
        "dir/photo.png/./",
        "dir/photo.png/./.",
        "dir/photo.png/..",
        "dir/..",
        "dir/../",
        "./photo.png",
        "./.",
        "/.",
        "/..",
        "a/.b",
        "a/b.",
        "a//b.c",
        "~/shots/img.webp",
        "weird name.with space.txt",
        "ünïcödé.päth/フォト.画像",
    ]
}

#[test]
fn extension_agrees_with_std_path() {
    for path in sample_paths() {
        let expected = Path::new(path).extension().and_then(|e| e.to_str()).map(|e| e.to_string());
        assert_eq!(extension(path), expected, "extension of {:?}", path);
    }
}

#[test]
fn file_name_agrees_with_std_path() {
    for path in sample_paths() {
        let expected = Path::new(path).file_name().and_then(|e| e.to_str()).map(|e| e.to_string());
        assert_eq!(file_name(path), expected, "file name of {:?}", path);
    }
}

#[test]
fn extension_of_plain_names() {
    assert_eq!(extension("photo.png"), Some("png".to_string()));
    assert_eq!(extension("photo"), None);
    assert_eq!(extension(".bashrc"), None);
    assert_eq!(extension("notes."), Some("".to_string()));
    assert_eq!(extension("a/b.c/d"), None);
    assert_eq!(extension("archive.tar.gz"), Some("gz".to_string()));
}

#[test]
fn join_puts_one_separator() {
    assert_eq!(join("dir", "name"), "dir/name");
    assert_eq!(join("dir/", "name"), "dir/name");
    assert_eq!(join("", "name"), "name");
    assert_eq!(join("/", "name"), "/name");
    assert_eq!(join("/a/b", "c.d"), "/a/b/c.d");
}

#[test]
fn join_agrees_with_std_path_for_relative_names() {
    for dir in ["", "/", "dir", "dir/", "/a/b", "a//", "~/x"] {
        for name in ["name", "n.e", DIGEST] {
            let expected = Path::new(dir).join(name);
            assert_eq!(PathBuf::from(join(dir, name)), expected);
            assert_eq!(join(dir, name), expected.to_str().unwrap());
        }
    }
}

#[test]
fn stored_path_is_digest_with_extension() {
    assert_eq!(stored_path("/clips", "abc123", "png"), "/clips/abc123.png");
    assert_eq!(stored_path("/clips", "abc123", ""), "/clips/abc123");
    assert_eq!(stored_path("/clips/", "abc123", "tar"), "/clips/abc123.tar");
    assert_eq!(stored_path("", "abc123", "x"), "abc123.x");
}

#[test]
fn stored_path_agrees_with_std_set_extension() {
    for root in ["/clips", "/clips/", "rel/dir", ""] {
        for ext in ["", "png", "gz", "JPEG"] {
            let mut expected = Path::new(root).join(DIGEST);
            expected.set_extension(ext);
            assert_eq!(stored_path(root, DIGEST, ext), expected.to_str().unwrap());
        }
    }
}

#[test]
fn extension_is_preserved() {
    let target = target_path("/clips", "shots/photo.png", DIGEST);
    assert!(target.ends_with(".png"));
    assert_eq!(target, format!("/clips/{}.png", DIGEST));
}

#[test]
fn missing_extension_stays_missing() {
    let target = target_path("/clips", "shots/photo", DIGEST);
    assert_eq!(target, format!("/clips/{}", DIGEST));
    assert!(!target.contains('.'));
}

#[test]
fn empty_extension_counts_as_none() {
    let target = target_path("/clips", "shots/photo.", DIGEST);
    assert_eq!(target, format!("/clips/{}", DIGEST));
}

#[test]
fn target_agrees_with_std_path() {
    for source in sample_paths() {
        let ext = Path::new(source).extension().and_then(|e| e.to_str()).unwrap_or("");
        let mut expected = Path::new("/clips").join(DIGEST);
        expected.set_extension(ext);
        assert_eq!(target_path("/clips", source, DIGEST), expected.to_str().unwrap(), "for {:?}", source);
    }
}

#[test]
fn expand_user_replaces_every_tilde() {
    assert_eq!(expand_user("~/clips", "/home/u"), "/home/u/clips");
    assert_eq!(expand_user("/srv/clips", "/home/u"), "/srv/clips");
    assert_eq!(expand_user("~", "/home/u"), "/home/u");
    assert_eq!(expand_user("", "/home/u"), "");
    assert_eq!(expand_user("~/a~b/~", "/h"), "/h/a/hb//h");
    assert_eq!(expand_user("~~", ""), "");
}

#[test]
fn expand_user_agrees_with_str_replace() {
    for path in sample_paths() {
        for home in ["/home/u", "", "~", "/h~"] {
            assert_eq!(expand_user(path, home), path.replace("~", home));
        }
    }
}

#[test]
fn strip_prefix_removes_leading_components() {
    assert_eq!(strip_prefix("/home/u/clips/a.png", "/home/u"), "/clips/a.png");
    assert_eq!(strip_prefix("/home/u/clips/a.png", "/home/u/"), "clips/a.png");
    assert_eq!(strip_prefix("/home/u", "/home/u"), "");
    assert_eq!(strip_prefix("/home/u/clips/a.png", ""), "/home/u/clips/a.png");
}

#[test]
fn strip_prefix_keeps_other_paths() {
    assert_eq!(strip_prefix("/home/user/clips/a.png", "/home/u"), "/home/user/clips/a.png");
    assert_eq!(strip_prefix("/srv/clips/a.png", "/home/u"), "/srv/clips/a.png");
    assert_eq!(strip_prefix("/home", "/home/u"), "/home");
    assert_eq!(strip_prefix("", "/home/u"), "");
}

#[test]
fn strip_prefix_handles_wide_characters() {
    assert_eq!(strip_prefix("/hömé/ü/clips/ä.png", "/hömé/ü"), "/clips/ä.png");
    assert_eq!(strip_prefix("/hömé/üü/clips", "/hömé/ü"), "/hömé/üü/clips");
}
