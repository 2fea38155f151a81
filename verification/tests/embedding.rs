use lol_inline_assets::embed::{path_mime, to_base64};

#[test]
fn test_to_base64() {
    let contents: Vec<u8> = vec![0, 1, 2, 3, 4, 5, 6, 7, 8, 9];
    let mime = path_mime("test.eot");
    let expected = "data:application/vnd.ms-fontobject;base64,AAECAwQFBgcICQ==";
    assert_eq!(to_base64(&contents, &mime), expected);
}
