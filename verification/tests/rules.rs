use lol_inline_assets::error::{Error, Kind};
use lol_inline_assets::files::Files;
use lol_inline_assets::markup::{is_remote, Attribute, Edit, Element};
use lol_inline_assets::{image_edit, include_edit, script_edit, visit};

const PNG: [u8; 8] = [0x89, 0x50, 0x4e, 0x47, 0x0d, 0x0a, 0x1a, 0x0a];

fn store(entries: &[(&str, &[u8])]) -> Files {
    let mut files = Files::new();
    for (path, bytes) in entries {
        files.insert(path.to_string(), bytes.to_vec());
    }
    files
}

fn element(tag: &str, attributes: &[(&str, &str)]) -> Element {
    Element {
        tag: tag.to_string(),
        attributes: attributes
            .iter()
            .map(|(name, value)| Attribute { name: name.to_string(), value: value.to_string() })
            .collect(),
    }
}

fn not_found(kind: Kind, reference: &str, path: &str) -> Error {
    Error::NotFound {
        kind,
        document: "page.html".to_string(),
        reference: reference.to_string(),
        path: path.to_string(),
    }
}

#[test]
fn a_missing_image_fails_the_run() {
    let files = Files::new();
    let r = lol_inline_assets::inline("site/page.html", "<p><img src=\"logo.png\"></p>", &files);
    assert_eq!(r, Err(not_found(Kind::Image, "logo.png", "site/logo.png")));
}

#[test]
fn an_existing_image_is_embedded() {
    let files = store(&[("tests/fixtures/logo.png", &PNG)]);
    let r = lol_inline_assets::inline("tests/fixtures/page.html", "<img src=\"logo.png\">", &files).unwrap();
    assert_eq!(r.html, "<img src=\"data:image/png;base64,iVBORw0KGgo=\">");
    assert_eq!(r.files, vec!["tests/fixtures/logo.png"]);
}

#[test]
fn a_file_that_is_no_image_is_refused() {
    let files = store(&[("site/notes.txt", b"plain")]);
    let r = lol_inline_assets::inline("site/page.html", "<img src=\"notes.txt\">", &files);
    assert_eq!(r, Err(Error::NotImage { reference: "notes.txt".to_string() }));
}

#[test]
fn remote_references_are_left_alone() {
    let files = Files::new();
    let html = "<img src=\"http://e.com/a.png\"><img src=\"data:image/png;base64,AAAA\">\
<script src=\"https://e.com/a.js\"></script><include src=\"httpd.html\"></include>\
<link rel=\"stylesheet\" href=\"https://e.com/a.css\"><img alt=\"none\">";
    let r = lol_inline_assets::inline("site/page.html", html, &files).unwrap();
    assert_eq!(r.html, html);
    assert!(r.files.is_empty());
    assert!(is_remote("httpd.html"));
    assert!(!is_remote("local/http"));
}

#[test]
fn inlining_again_changes_nothing() {
    let files = store(&[
        ("site/logo.png", &PNG),
        ("site/a.css", b"p { x: url('logo.png') }"),
        ("site/a.js", b"var a;"),
    ]);
    let html = "<link href=\"a.css\"><img src=\"logo.png\"><script src=\"a.js\" base64></script><script src=\"a.js\"></script>";
    let once = lol_inline_assets::inline("site/page.html", html, &files).unwrap();
    assert_eq!(once.files, vec!["site/a.css", "site/logo.png", "site/logo.png", "site/a.js", "site/a.js"]);
    let twice = lol_inline_assets::inline("site/page.html", &once.html, &Files::new()).unwrap();
    assert_eq!(twice.html, once.html);
    assert!(twice.files.is_empty());
}

#[test]
fn a_script_is_spliced_in_as_text() {
    let files = store(&[("site/js/app.js", b"if (a < b) { run(); }")]);
    let html = "<script src=\"js/app.js\">ignored</script><p>x</p>";
    let r = lol_inline_assets::inline("site/page.html", html, &files).unwrap();
    assert_eq!(r.html, "<script>if (a < b) { run(); }</script><p>x</p>");
    assert_eq!(r.files, vec!["site/js/app.js"]);
}

#[test]
fn a_base64_script_keeps_its_element() {
    let files = store(&[("site/app.js", b"console.log(1);")]);
    let html = "<script base64 src=\"app.js\"></script>";
    let r = lol_inline_assets::inline("site/page.html", html, &files).unwrap();
    assert_eq!(
        r.html,
        "<script base64 src=\"data:application/javascript;base64,Y29uc29sZS5sb2coMSk7\"></script>"
    );
}

#[test]
fn a_script_of_another_type_is_left_alone() {
    let files = Files::new();
    let html = "<script type=\"module\" src=\"app.js\"></script><script>inline()</script>";
    let r = lol_inline_assets::inline("site/page.html", html, &files).unwrap();
    assert_eq!(r.html, html);
}

#[test]
fn missing_script_and_include_are_named() {
    let files = Files::new();
    let r = lol_inline_assets::inline("page.html", "<script src=\"a.js\"></script>", &files);
    assert_eq!(r, Err(not_found(Kind::Script, "a.js", "a.js")));
    let r = lol_inline_assets::inline("page.html", "<script base64 src=\"a.js\"></script>", &files);
    assert_eq!(r, Err(not_found(Kind::Script, "a.js", "a.js")));
    let r = lol_inline_assets::inline("/page.html", "<include src=\"part.html\">", &files);
    assert_eq!(r, Err(not_found(Kind::Include, "part.html", "/part.html")));
    let r = lol_inline_assets::inline("d/page.html", "<link href=\"a.css\">", &files);
    assert_eq!(r, Err(not_found(Kind::Stylesheet, "a.css", "d/a.css")));
}

#[test]
fn an_include_is_not_processed_again() {
    let files = store(&[("site/part.html", b"<img src=\"gone.png\"><b>part</b>")]);
    let html = "<div><include src=\"part.html\"></include></div>";
    let r = lol_inline_assets::inline("site/page.html", html, &files).unwrap();
    assert_eq!(r.html, "<div><img src=\"gone.png\"><b>part</b></div>");
    assert_eq!(r.files, vec!["site/part.html"]);
}

#[test]
fn a_file_that_is_no_text_is_refused() {
    let files = store(&[("site/part.html", &[0xff, 0xfe]), ("site/a.css", &[0xc0])]);
    let r = lol_inline_assets::inline("site/page.html", "<include src=\"part.html\">", &files);
    assert_eq!(r, Err(Error::NotText { path: "site/part.html".to_string() }));
    let r = lol_inline_assets::inline("site/page.html", "<script src=\"part.html\"></script>", &files);
    assert_eq!(r, Err(Error::NotText { path: "site/part.html".to_string() }));
    let r = lol_inline_assets::inline("site/page.html", "<link href=\"a.css\">", &files);
    assert_eq!(r, Err(Error::NotText { path: "site/a.css".to_string() }));
}

#[test]
fn a_stylesheet_with_an_import_becomes_one_style_element() {
    let files = store(&[
        ("tests/fixtures/style.css", b"@import \"import.css\";\n.b { color: blue; }"),
        ("tests/fixtures/import.css", b".a { background: url(\"icon.png\"); }"),
        ("tests/fixtures/icon.png", &PNG),
    ]);
    let html = "<link rel=\"stylesheet\" href=\"style.css\">";
    let r = lol_inline_assets::inline("tests/fixtures/page.html", html, &files).unwrap();
    assert_eq!(
        r.html,
        "<style type=\"text/css\">.a { background: url(\"data:image/png;base64,iVBORw0KGgo=\"); }\n.b { color: blue; }</style>"
    );
    assert_eq!(
        r.files,
        vec!["tests/fixtures/style.css", "tests/fixtures/import.css", "tests/fixtures/icon.png"]
    );
}

#[test]
fn missing_imports_of_a_link_are_all_reported() {
    let files = store(&[("site/a.css", b"@import 'x.css';\n@import \"y.css\";")]);
    let r = lol_inline_assets::inline("site/page.html", "<link href=\"a.css\">", &files);
    let e = r.unwrap_err();
    assert_eq!(
        e,
        Error::MissingImports {
            document: "page.html".to_string(),
            paths: vec!["site/x.css".to_string(), "site/y.css".to_string()],
        }
    );
    assert_eq!(e.absent(), vec!["site/x.css", "site/y.css"]);
}

#[test]
fn missing_urls_of_a_link_are_all_reported() {
    let files = store(&[("site/css/a.css", b"a { b: url('x.png'); c: url(\"../y.png\") }")]);
    let r = lol_inline_assets::inline("site/page.html", "<link href=\"css/a.css\">", &files);
    assert_eq!(
        r,
        Err(Error::MissingUrls {
            document: "page.html".to_string(),
            paths: vec!["site/css/x.png".to_string(), "site/css/../y.png".to_string()],
        })
    );
}

#[test]
fn a_stylesheet_that_imports_itself_is_refused() {
    let files = store(&[("site/a.css", b"@import 'a.css';")]);
    let r = lol_inline_assets::inline("site/page.html", "<link href=\"a.css\">", &files);
    assert_eq!(
        r,
        Err(Error::CyclicImport { document: "page.html".to_string(), path: "site/a.css".to_string() })
    );
}

#[test]
fn the_first_failing_element_decides() {
    let files = store(&[("site/notes.txt", b"plain")]);
    let html = "<img src=\"notes.txt\"><img src=\"gone.png\">";
    let r = lol_inline_assets::inline("site/page.html", html, &files);
    assert_eq!(r, Err(Error::NotImage { reference: "notes.txt".to_string() }));
    let html = "<img src=\"gone.png\"><img src=\"notes.txt\">";
    let r = lol_inline_assets::inline("site/page.html", html, &files);
    assert_eq!(r, Err(not_found(Kind::Image, "gone.png", "site/gone.png")));
}

#[test]
fn markup_that_cannot_be_read_fails_after_the_elements_before_it() {
    let files = store(&[("site/logo.png", &PNG)]);
    let broken = "<select><xmp><script>\"use strict\";</script></select>";
    let html = format!("<img src=\"logo.png\">{}", broken);
    assert_eq!(lol_inline_assets::inline("site/page.html", &html, &files), Err(Error::Markup));
    let html = format!("<img src=\"gone.png\">{}", broken);
    assert_eq!(
        lol_inline_assets::inline("site/page.html", &html, &files),
        Err(not_found(Kind::Image, "gone.png", "site/gone.png"))
    );
}

#[test]
fn tags_and_attribute_names_are_matched_in_any_case() {
    let files = store(&[("site/logo.png", &PNG)]);
    let r = lol_inline_assets::inline("site/page.html", "<IMG SRC=\"logo.png\">", &files).unwrap();
    assert_eq!(r.files, vec!["site/logo.png"]);
    assert!(r.html.contains("data:image/png;base64,iVBORw0KGgo="));
}

#[test]
fn errors_say_which_paths_are_absent() {
    assert_eq!(not_found(Kind::Image, "a.png", "d/a.png").absent(), vec!["d/a.png"]);
    assert!(Error::Markup.absent().is_empty());
    assert!(Error::NotImage { reference: "a".to_string() }.absent().is_empty());
    let e = Error::MissingUrls { document: "p".to_string(), paths: vec!["a".to_string(), "b".to_string()] };
    assert_eq!(e.absent(), vec!["a", "b"]);
}

#[test]
fn element_rules_on_given_elements() {
    let files = store(&[("r/logo.png", &PNG), ("r/part.html", b"<b>x</b>"), ("r/a.js", b"a()")]);
    assert_eq!(
        image_edit("r/p.html", "r", &element("img", &[("src", "logo.png")]), &files),
        Ok((
            Edit::SetAttribute {
                name: "src".to_string(),
                value: "data:image/png;base64,iVBORw0KGgo=".to_string()
            },
            vec!["r/logo.png".to_string()]
        ))
    );
    assert_eq!(
        include_edit("r/p.html", "r", &element("include", &[("src", "part.html")]), &files),
        Ok((Edit::Replace { html: "<b>x</b>".to_string() }, vec!["r/part.html".to_string()]))
    );
    assert_eq!(
        script_edit("r/p.html", "r", &element("script", &[("src", "a.js")]), &files),
        Ok((Edit::Replace { html: "<script>a()</script>".to_string() }, vec!["r/a.js".to_string()]))
    );
    assert_eq!(
        script_edit("r/p.html", "r", &element("script", &[("type", "text/javascript")]), &files),
        Ok((Edit::Keep, vec![]))
    );
}

#[test]
fn visit_gives_one_edit_for_each_element() {
    let files = store(&[("r/logo.png", &PNG)]);
    let elements = vec![
        element("p", &[("src", "gone")]),
        element("img", &[("src", "logo.png")]),
        element("img", &[]),
        element("img", &[("src", "logo.png")]),
    ];
    let (edits, deps) = visit(&elements, "r/p.html", "r", &files).unwrap();
    assert_eq!(edits.len(), 4);
    assert_eq!(edits[0], Edit::Keep);
    assert_eq!(edits[2], Edit::Keep);
    assert_eq!(edits[1], edits[3]);
    assert_eq!(deps, vec!["r/logo.png", "r/logo.png"]);
}

#[test]
fn elements_inside_a_replaced_element_are_still_visited() {
    let files = store(&[("site/part.html", b"<b>part</b>"), ("site/logo.png", &PNG)]);
    let html = "<include src=\"part.html\"><img src=\"logo.png\"></include><img src=\"logo.png\">";
    let r = lol_inline_assets::inline("site/page.html", html, &files).unwrap();
    assert_eq!(r.html, "<b>part</b><img src=\"data:image/png;base64,iVBORw0KGgo=\">");
    assert_eq!(r.files, vec!["site/part.html", "site/logo.png", "site/logo.png"]);
    let html = "<include src=\"part.html\"><img src=\"gone.png\"></include>";
    let r = lol_inline_assets::inline("site/page.html", html, &files);
    assert_eq!(r, Err(not_found(Kind::Image, "gone.png", "site/gone.png")));
}

#[test]
fn other_attributes_stay_as_they_are() {
    let files = store(&[("site/logo.png", &PNG)]);
    let html = "<img class=\"a b\" src=\"logo.png\" alt='x'>";
    let r = lol_inline_assets::inline("site/page.html", html, &files).unwrap();
    assert_eq!(r.html, "<img class=\"a b\" src=\"data:image/png;base64,iVBORw0KGgo=\" alt='x'>");
}

#[test]
fn a_link_with_two_imports_in_one_line_misses_both() {
    let files = store(&[("site/a.css", b"@import 'x.css'; @import \"y.css\"; p{}")]);
    let r = lol_inline_assets::inline("site/page.html", "<link href=\"a.css\">", &files);
    assert_eq!(
        r,
        Err(Error::MissingImports {
            document: "page.html".to_string(),
            paths: vec!["site/x.css".to_string(), "site/y.css".to_string()],
        })
    );
}

#[test]
fn own_urls_are_embedded_behind_what_an_import_embedded() {
    let files = store(&[
        ("site/a.css", b"@import 'b.css';\n.a{x:url('a.png')}"),
        ("site/b.css", b".b{x:url('b.png')}"),
        ("site/a.png", &PNG),
        ("site/b.png", &PNG),
    ]);
    let r = lol_inline_assets::inline("site/page.html", "<link href=\"a.css\">", &files).unwrap();
    assert_eq!(r.files, vec!["site/a.css", "site/b.css", "site/b.png", "site/a.png"]);
    assert_eq!(
        r.html,
        "<style type=\"text/css\">.b{x:url(\"data:image/png;base64,iVBORw0KGgo=\")}\n.a{x:url(\"data:image/png;base64,iVBORw0KGgo=\")}</style>"
    );
}
