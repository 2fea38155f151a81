use lol_inline_assets::files::Files;
use lol_inline_assets::path::{extension, file_name, join, name, parent};
use lol_inline_assets::text::{cut_before, ends_with, holds, same, starts_with, with_string};
use std::path::Path;

const SAMPLES: [&str; 30] = [
    "",
    ".",
    "..",
    "/",
    "//",
    "a",
    "a/",
    "a//",
    "a/.",
    "a/./",
    "a/..",
    "/a",
    "/a/b",
    "./a",
    "./a/b.css",
    "a/b/c.css",
    "a//b.css",
    "a/./b.css",
    "a/b/../c.png",
    "tests/fixtures/./assets/style.css",
    "tests/fixtures/assets/css/shared/../../fonts/OpenSans-Bold.woff2",
    ".hidden",
    "a/.hidden",
    "a/b.tar.gz",
    "a/b.",
    "a.b/c",
    "..a",
    "./",
    "./.",
    "a/b/./.",
];

#[test]
fn join_puts_one_separator_between() {
    assert_eq!(join("tests/fixtures", "./assets/logo.png"), "tests/fixtures/./assets/logo.png");
    assert_eq!(join("a/", "b"), "a/b");
    assert_eq!(join("a", "b"), "a/b");
    assert_eq!(join("a/b/..", "../c"), "a/b/../../c");
}

#[test]
fn join_edge_cases() {
    assert_eq!(join("", "a.css"), "a.css");
    assert_eq!(join("a", "/b"), "/b");
    assert_eq!(join("a", ""), "a/");
    assert_eq!(join("", ""), "");
    assert_eq!(join("/", "a"), "/a");
}

#[test]
fn join_agrees_with_the_platform() {
    for root in SAMPLES {
        for reference in SAMPLES {
            let expected = Path::new(root).join(reference);
            assert_eq!(join(root, reference), expected.to_str().unwrap(), "{root:?} {reference:?}");
        }
    }
}

#[test]
fn parent_of_ordinary_paths() {
    assert_eq!(parent("a/b/c.css"), "a/b");
    assert_eq!(parent("tests/fixtures/./assets/style.css"), "tests/fixtures/./assets");
    assert_eq!(parent("c.css"), "");
    assert_eq!(parent("/c.css"), "/");
}

#[test]
fn parent_skips_empty_and_dot_components() {
    assert_eq!(parent("a//b.css"), "a");
    assert_eq!(parent("a/./b.css"), "a");
    assert_eq!(parent("a/b/"), "a");
    assert_eq!(parent("./c.css"), ".");
    assert_eq!(parent("a/.."), "a");
}

#[test]
fn parent_without_a_last_component_is_empty() {
    assert_eq!(parent(""), "");
    assert_eq!(parent("/"), "");
    assert_eq!(parent("."), "");
    assert_eq!(parent(".."), "");
}

#[test]
fn parent_agrees_with_the_platform() {
    for sample in SAMPLES {
        let expected = Path::new(sample).parent().unwrap_or(Path::new(""));
        assert_eq!(parent(sample), expected.to_str().unwrap(), "{sample:?}");
    }
}

#[test]
fn file_name_is_the_last_component() {
    assert_eq!(file_name("tests/fixtures/css.html"), Some("css.html".to_string()));
    assert_eq!(file_name("a/b/"), Some("b".to_string()));
    assert_eq!(file_name("a/."), Some("a".to_string()));
    assert_eq!(file_name("a/.."), None);
    assert_eq!(file_name("/"), None);
    assert_eq!(file_name(""), None);
    assert_eq!(name("site/page.html"), "page.html");
    assert_eq!(name(".."), "");
}

#[test]
fn file_name_agrees_with_the_platform() {
    for sample in SAMPLES {
        let expected = Path::new(sample).file_name().map(|n| n.to_str().unwrap().to_string());
        assert_eq!(file_name(sample), expected, "{sample:?}");
    }
}

#[test]
fn extension_follows_the_last_dot() {
    assert_eq!(extension("a/b.tar.gz"), Some("gz".to_string()));
    assert_eq!(extension("logo.png"), Some("png".to_string()));
    assert_eq!(extension("a/b."), Some("".to_string()));
    assert_eq!(extension(".hidden"), None);
    assert_eq!(extension("a.b/c"), None);
    assert_eq!(extension("..a"), Some("a".to_string()));
    assert_eq!(extension("a/.."), None);
}

#[test]
fn extension_agrees_with_the_platform() {
    for sample in SAMPLES {
        let expected = Path::new(sample).extension().map(|n| n.to_str().unwrap().to_string());
        assert_eq!(extension(sample), expected, "{sample:?}");
    }
}

#[test]
fn prefixes_and_suffixes() {
    assert!(starts_with("https://example.com", "http"));
    assert!(starts_with("data:", "data:"));
    assert!(!starts_with("dat", "data:"));
    assert!(!starts_with("xhttp", "http"));
    assert!(starts_with("anything", ""));
    assert!(ends_with("style.css", ".css"));
    assert!(!ends_with("style.scss", ".css"));
    assert!(!ends_with("css", ".css"));
    assert!(ends_with("\u{e9}t\u{e9}.css", ".css"));
    assert!(same("a/b", "a/b"));
    assert!(!same("a/b", "a/./b"));
}

#[test]
fn cut_before_stops_at_the_first_occurrence() {
    assert_eq!(cut_before("font.eot?#iefix", '?'), "font.eot");
    assert_eq!(cut_before("a?b?c", '?'), "a");
    assert_eq!(cut_before("?b", '?'), "");
    assert_eq!(cut_before("plain", '?'), "plain");
    assert_eq!(cut_before("", '#'), "");
    assert_eq!(cut_before("\u{fc}ber#x", '#'), "\u{fc}ber");
}

#[test]
fn lists_of_strings() {
    let list = vec!["a".to_string(), "b".to_string()];
    assert!(holds(&list, "b"));
    assert!(!holds(&list, "c"));
    assert_eq!(with_string(&list, "c".to_string()), vec!["a", "b", "c"]);
}

#[test]
fn files_are_found_by_their_exact_path() {
    let mut files = Files::new();
    assert!(!files.contains("a/b.css"));
    files.insert("a/b.css".to_string(), b"one".to_vec());
    assert!(files.contains("a/b.css"));
    assert!(!files.contains("a/./b.css"));
    assert_eq!(files.get("a/b.css"), Some(&b"one".to_vec()));
    assert_eq!(files.get("b.css"), None);
}

#[test]
fn a_later_file_replaces_an_earlier_one() {
    let mut files = Files::new();
    files.insert("a".to_string(), b"one".to_vec());
    files.insert("b".to_string(), b"two".to_vec());
    files.insert("a".to_string(), b"three".to_vec());
    assert_eq!(files.get("a"), Some(&b"three".to_vec()));
    assert_eq!(files.get("b"), Some(&b"two".to_vec()));
}

#[test]
fn text_is_decoded_utf8_or_nothing() {
    let mut files = Files::new();
    files.insert("ok".to_string(), vec![0xc3, 0xa9, 0x21]);
    files.insert("bad".to_string(), vec![0xff, 0xfe, 0x00]);
    assert_eq!(files.text("ok"), Some("\u{e9}!".to_string()));
    assert_eq!(files.text("bad"), None);
    assert_eq!(files.text("absent"), None);
}
