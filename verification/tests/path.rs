use media_ingest::path::{extension, file_name, file_stem, is_absolute, join};
use std::path::{Path, PathBuf};

fn std_file_name(p: &str) -> Option<String> {
    Path::new(p).file_name().and_then(|n| n.to_str()).map(|n| n.to_owned())
}

fn std_stem(p: &str) -> Option<String> {
    Path::new(p).file_stem().and_then(|n| n.to_str()).map(|n| n.to_owned())
}

fn std_extension(p: &str) -> Option<String> {
    Path::new(p).extension().and_then(|n| n.to_str()).map(|n| n.to_owned())
}

fn samples() -> Vec<&'static str> {
    vec![
        "",
        ".",
        "..",
        "...",
        "/",
        "//",
        "a",
        "a.b",
        "a.b.c",
        "a.",
        "a..",
        ".a",
        ".a.b",
        "..a",
        "a/",
        "a//",
        "a/.",
        "a/./",
        "a/./.",
        "a/..",
        "a/../",
        "a/b",
        "a/b.c",
        "a/b.c/",
        "a.b/c",
        "/a",
        "/a.b",
        "/.",
        "/..",
        "./a",
        "./a.b",
        "./.",
        "././a.txt",
        "../a",
        "../..",
        "dir.d/file",
        "dir/.hidden",
        "dir/.hidden.txt",
        "clip.mov",
        "vacation.mp4",
        "archive.tar.gz",
        "My holiday. Day 1",
        "a\\b.c",
        "Sunset",
        "naïve.été",
        "日本語.テキスト",
        " . ",
        "x/ .y",
    ]
}

#[test]
fn file_name_agrees_with_std() {
    for p in samples() {
        assert_eq!(file_name(p), std_file_name(p), "path {:?}", p);
    }
}

#[test]
fn file_stem_agrees_with_std() {
    for p in samples() {
        assert_eq!(file_stem(p), std_stem(p), "path {:?}", p);
    }
}

#[test]
fn extension_agrees_with_std() {
    for p in samples() {
        assert_eq!(extension(p), std_extension(p), "path {:?}", p);
    }
}

#[test]
fn is_absolute_agrees_with_std() {
    for p in samples() {
        assert_eq!(is_absolute(p), Path::new(p).is_absolute(), "path {:?}", p);
    }
}

#[test]
fn stem_and_extension_of_plain_name() {
    assert_eq!(file_stem("clip.mov"), Some("clip".to_owned()));
    assert_eq!(extension("clip.mov"), Some("mov".to_owned()));
}

#[test]
fn name_without_dot_has_no_extension() {
    assert_eq!(file_stem("Sunset"), Some("Sunset".to_owned()));
    assert_eq!(extension("Sunset"), None);
}

#[test]
fn leading_dot_is_part_of_the_stem() {
    assert_eq!(file_stem(".profile"), Some(".profile".to_owned()));
    assert_eq!(extension(".profile"), None);
    assert_eq!(file_stem(".profile.bak"), Some(".profile".to_owned()));
    assert_eq!(extension(".profile.bak"), Some("bak".to_owned()));
}

#[test]
fn trailing_dot_gives_empty_extension() {
    assert_eq!(file_stem("notes."), Some("notes".to_owned()));
    assert_eq!(extension("notes."), Some(String::new()));
}

#[test]
fn only_the_last_dot_parts_the_name() {
    assert_eq!(file_stem("archive.tar.gz"), Some("archive.tar".to_owned()));
    assert_eq!(extension("archive.tar.gz"), Some("gz".to_owned()));
}

#[test]
fn directories_are_left_out() {
    assert_eq!(file_name("album/2024/beach.jpg"), Some("beach.jpg".to_owned()));
    assert_eq!(file_stem("album.d/beach"), Some("beach".to_owned()));
    assert_eq!(extension("album.d/beach"), None);
}

#[test]
fn trailing_separators_and_dots_are_skipped() {
    assert_eq!(file_name("album/"), Some("album".to_owned()));
    assert_eq!(file_name("album/./"), Some("album".to_owned()));
    assert_eq!(file_name("album//."), Some("album".to_owned()));
}

#[test]
fn paths_without_a_file_name() {
    assert_eq!(file_name(""), None);
    assert_eq!(file_name("/"), None);
    assert_eq!(file_name("."), None);
    assert_eq!(file_name(".."), None);
    assert_eq!(file_name("album/.."), None);
    assert_eq!(file_stem(""), None);
    assert_eq!(extension(".."), None);
}

#[test]
fn absolute_paths_start_with_a_separator() {
    assert!(is_absolute("/var/lib/files/a.jpg"));
    assert!(is_absolute("/"));
    assert!(!is_absolute("photos/file_1.jpg"));
    assert!(!is_absolute(""));
    assert!(!is_absolute("./a"));
}

#[test]
fn join_puts_one_separator_between() {
    assert_eq!(join("media", "a.jpg"), "media/a.jpg");
    assert_eq!(join("media/", "a.jpg"), "media/a.jpg");
    assert_eq!(join("/", "a.jpg"), "/a.jpg");
    assert_eq!(join("", "a.jpg"), "a.jpg");
    assert_eq!(join("/srv/media", "[x]_1.mp4"), "/srv/media/[x]_1.mp4");
}

#[test]
fn join_agrees_with_std() {
    for dir in ["", "/", "media", "media/", "/srv/media", "a//", "./out", "."] {
        for name in ["a.jpg", "[x]_1.mp4", "title:[T]_u{page:2}.jpg", "[a\\b]_c.mp3"] {
            let mut want = PathBuf::from(dir);
            want.push(name);
            assert_eq!(Some(join(dir, name).as_str()), want.to_str(), "{:?} {:?}", dir, name);
        }
    }
}

fn all_paths(alphabet: &[char], max_len: usize) -> Vec<String> {
    let mut out = vec![String::new()];
    let mut from = 0;
    for _ in 0..max_len {
        let to = out.len();
        for i in from..to {
            for &c in alphabet {
                let mut s = out[i].clone();
                s.push(c);
                out.push(s);
            }
        }
        from = to;
    }
    out
}

#[test]
fn every_short_path_agrees_with_std() {
    let paths = all_paths(&['a', '.', '/'], 8);
    assert_eq!(paths.len(), 9841);
    for p in &paths {
        assert_eq!(file_name(p), std_file_name(p), "path {:?}", p);
        assert_eq!(file_stem(p), std_stem(p), "path {:?}", p);
        assert_eq!(extension(p), std_extension(p), "path {:?}", p);
        assert_eq!(is_absolute(p), Path::new(p).is_absolute(), "path {:?}", p);
    }
}

#[test]
fn every_short_join_agrees_with_std() {
    let dirs = all_paths(&['d', '.', '/'], 5);
    for dir in &dirs {
        for name in ["[x]_1.mp4", "t.", "a"] {
            let mut want = PathBuf::from(dir);
            want.push(name);
            assert_eq!(Some(join(dir, name).as_str()), want.to_str(), "{:?} {:?}", dir, name);
        }
    }
}
