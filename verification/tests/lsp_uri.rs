use lsp_types::Url;

#[test]
fn parse_path_with_file_prefix() {
    let url = Url::parse("file:///test.baml").unwrap();
    assert_eq!(url.as_str(), "file:///test.baml");
}
