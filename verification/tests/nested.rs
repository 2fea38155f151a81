use lol_inline_assets::files::Files;

fn store(entries: &[(&str, &[u8])]) -> Files {
    let mut files = Files::new();
    for (path, bytes) in entries {
        files.insert(path.to_string(), bytes.to_vec());
    }
    files
}

#[test]
fn css_with_import() {
    let files = store(&[
        (
            "tests/fixtures/./assets/import.css",
            b"@import \"external/style.css\";\n.a { color: red; }\n",
        ),
        (
            "tests/fixtures/./assets/external/style.css",
            b"@import 'second.css';\n.b { color: blue; }\n",
        ),
        ("tests/fixtures/./assets/external/second.css", b".c { color: green; }\n"),
    ]);
    let html = "<link rel=\"stylesheet\" type=\"text/css\" href=\"./assets/import.css\">";
    let inlined = lol_inline_assets::inline("tests/fixtures/css-nested.html", html, &files).unwrap();
    let expected = "<style type=\"text/css\">.c { color: green; }\n\n.b { color: blue; }\n\n.a { color: red; }\n</style>";
    assert_eq!(inlined.html, expected);
    assert_eq!(
        inlined.files,
        vec![
            "tests/fixtures/./assets/import.css",
            "tests/fixtures/./assets/external/style.css",
            "tests/fixtures/./assets/external/second.css",
        ]
    );
}

#[test]
fn css_with_url() {
    let fonts_css = [
        "@font-face {\n",
        "  src: url(\"../../fonts/OpenSans-Bold.woff2\");\n",
        "  src: url('../../fonts/OpenSans-Bold.eot?#iefix') format('embedded-opentype'),\n",
        "       url(\"../../fonts/OpenSans-Bold.woff2\") format(\"woff2\"),\n",
        "       url(\"../../fonts/OpenSans-Bold.woff\") format(\"woff\"),\n",
        "       url(\"../../fonts/OpenSans-Bold.ttf\")  format(\"truetype\"),\n",
        "       url(\"../../fonts/OpenSans-Bold.svg#OpenSans\") format(\"svg\");\n",
        "}\n",
    ].concat();
    let files = store(&[
        ("tests/fixtures/assets/css/url.css", b".logo { background: url(\"../logo.png\"); }\n"),
        ("tests/fixtures/assets/css/../logo.png", &[0x89, 0x50, 0x4e, 0x47, 0x0d, 0x0a, 0x1a, 0x0a]),
        ("tests/fixtures/assets/css/shared/shared.css", b"@import \"fonts.css\";\nh1 { margin: 0; }\n"),
        ("tests/fixtures/assets/css/shared/fonts.css", fonts_css.as_bytes()),
        ("tests/fixtures/assets/css/shared/../../fonts/OpenSans-Bold.woff2", b"wOF2font"),
        ("tests/fixtures/assets/css/shared/../../fonts/OpenSans-Bold.eot", b"eot-font"),
        ("tests/fixtures/assets/css/shared/../../fonts/OpenSans-Bold.woff", b"wOFFfont"),
        ("tests/fixtures/assets/css/shared/../../fonts/OpenSans-Bold.ttf", b"ttf-font"),
        ("tests/fixtures/assets/css/shared/../../fonts/OpenSans-Bold.svg", b"<svg>font</svg>"),
    ]);
    let html = [
        "<link rel=\"stylesheet\" href=\"assets/css/url.css\">",
        "<link rel=\"stylesheet\" href=\"assets/css/shared/shared.css\">",
    ].concat();
    let inlined = lol_inline_assets::inline("tests/fixtures/css-nested-withurl.html", &html, &files).unwrap();
    let expected = [
        "<style type=\"text/css\">",
        ".logo { background: url(\"data:image/png;base64,iVBORw0KGgo=\"); }\n",
        "</style>",
        "<style type=\"text/css\">",
        "@font-face {\n",
        "  src: url(\"data:font/woff2;base64,d09GMmZvbnQ=\");\n",
        "  src: url(\"data:application/vnd.ms-fontobject;base64,ZW90LWZvbnQ=\") format(\"embedded-opentype\"),\n",
        "       url(\"data:font/woff2;base64,d09GMmZvbnQ=\") format(\"woff2\"),\n",
        "       url(\"data:application/font-woff;base64,d09GRmZvbnQ=\") format(\"woff\"),\n",
        "       url(\"data:font/ttf;base64,dHRmLWZvbnQ=\") format(\"truetype\"),\n",
        "       url(\"data:image/svg+xml;base64,PHN2Zz5mb250PC9zdmc+\") format(\"svg\");\n",
        "}\n",
        "\nh1 { margin: 0; }\n",
        "</style>",
    ].concat();

    assert_eq!(inlined.html, expected);
    assert_eq!(
        inlined.files,
        vec![
            "tests/fixtures/assets/css/url.css",
            "tests/fixtures/assets/css/../logo.png",
            "tests/fixtures/assets/css/shared/shared.css",
            "tests/fixtures/assets/css/shared/fonts.css",
            "tests/fixtures/assets/css/shared/../../fonts/OpenSans-Bold.woff2",
            "tests/fixtures/assets/css/shared/../../fonts/OpenSans-Bold.eot",
            "tests/fixtures/assets/css/shared/../../fonts/OpenSans-Bold.woff2",
            "tests/fixtures/assets/css/shared/../../fonts/OpenSans-Bold.woff",
            "tests/fixtures/assets/css/shared/../../fonts/OpenSans-Bold.ttf",
            "tests/fixtures/assets/css/shared/../../fonts/OpenSans-Bold.svg",
        ]
    );
}
