use lol_inline_assets::files::Files;
use lol_inline_assets::InlineResult;

fn files_with(entries: &[(&str, &[u8])]) -> Files {
    let mut files = Files::new();
    for (path, bytes) in entries {
        files.insert(path.to_string(), bytes.to_vec());
    }
    files
}

fn test_image_helper(format: &str, mime_type: &str, contents: &[u8], payload: &str) {
    let fixture_dir = "tests/fixtures";
    let html_file = format!("{}/image_{}.html", fixture_dir, format);
    let image_path = format!("{}/./assets/test.{}", fixture_dir, format);
    let html = format!("<p><img alt=\"test\" src=\"./assets/test.{}\"></p>\n", format);
    let expected = format!(
        "<p><img alt=\"test\" src=\"data:{};base64,{}\"></p>\n",
        mime_type, payload
    );
    let files = files_with(&[(image_path.as_str(), contents)]);

    let inlined = lol_inline_assets::inline(&html_file, &html, &files).unwrap();

    assert_eq!(inlined.html, expected, "HTML mismatch for {} format", format);
    assert!(
        inlined.html.contains(&format!("data:{};base64,", mime_type)),
        "Missing correct MIME type for {}",
        format
    );
    assert_eq!(inlined.files, vec![image_path], "Incorrect file tracking for {}", format);
}

#[test]
fn jpg_image() {
    test_image_helper("jpg", "image/jpeg", &[0xff, 0xd8, 0xff, 0xe0], "/9j/4A==");
}

#[test]
fn svg_image() {
    test_image_helper("svg", "image/svg+xml", b"<svg></svg>", "PHN2Zz48L3N2Zz4=");
}

#[test]
fn png_image() {
    let files = files_with(&[(
        "tests/fixtures/./assets/logo.png",
        &[0x89, 0x50, 0x4e, 0x47, 0x0d, 0x0a, 0x1a, 0x0a],
    )]);
    let html = "<html><body><img src=\"./assets/logo.png\"></body></html>\n";
    let inlined: InlineResult = lol_inline_assets::inline("tests/fixtures/image_png.html", html, &files).unwrap();
    let expected = "<html><body><img src=\"data:image/png;base64,iVBORw0KGgo=\"></body></html>\n";
    assert_eq!(inlined.html, expected);
    assert_eq!(inlined.files, vec!["tests/fixtures/./assets/logo.png"]);
}

#[test]
fn css() {
    let files = files_with(&[("tests/fixtures/./assets/style.css", b"body { color: red; }\n")]);
    let html = "<head><link rel=\"stylesheet\" href=\"./assets/style.css\"></head>\n";
    let inlined = lol_inline_assets::inline("tests/fixtures/css.html", html, &files).unwrap();
    let expected = "<head><style type=\"text/css\">body { color: red; }\n</style></head>\n";
    assert_eq!(inlined.html, expected);
    assert_eq!(inlined.files, vec!["tests/fixtures/./assets/style.css"]);
}

#[test]
fn javascript() {
    let files = files_with(&[("tests/fixtures/./assets/script.js", b"console.log(1);")]);
    let html = "<body><script type=\"text/javascript\" src=\"./assets/script.js\"></script></body>";
    let inlined = lol_inline_assets::inline("tests/fixtures/javascript.html", html, &files).unwrap();
    let expected = "<body><script>console.log(1);</script></body>";
    assert_eq!(inlined.html, expected);
    assert_eq!(inlined.files, vec!["tests/fixtures/./assets/script.js"]);
}

#[test]
fn html() {
    let files = files_with(&[(
        "tests/fixtures/./assets/js/include.js",
        b"<script>window.included = true;</script>",
    )]);
    let html = "<body><include src=\"./assets/js/include.js\"></include><p>after</p></body>";
    let inlined = lol_inline_assets::inline("tests/fixtures/html-include.html", html, &files).unwrap();
    let expected = "<body><script>window.included = true;</script><p>after</p></body>";
    assert_eq!(inlined.html, expected);
    assert_eq!(inlined.files, vec!["tests/fixtures/./assets/js/include.js"]);
}

#[test]
fn html_inline_js_base64() {
    let files = files_with(&[("tests/fixtures/d3.js", b"// https://d3js.org v5.16.0\n")]);
    let html = "<head><script src=\"d3.js\" base64></script></head>";
    let inlined = lol_inline_assets::inline("tests/fixtures/html-d3.html", html, &files).unwrap();
    assert!(inlined
        .html
        .contains(r#"<script src="data:application/javascript;base64,Ly8gaHR0cHM6L"#));
}
