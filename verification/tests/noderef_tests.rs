use sync_lsp::noderef::{KindMarker, NodeRef, NodeRefParams, ParseError, RefType};

#[test]
fn parse_ref() {
    let node_ref = NodeRef::parse_ref("lsp://src/main.rs?kind=function#main").unwrap();
    assert!(matches!(node_ref.schema, RefType::Lsp));
    assert!(matches!(node_ref.params.kind, Some(KindMarker::Function)));
    assert_eq!(node_ref.path, "src/main.rs");
    assert_eq!(node_ref.hash, "main");
}

#[test]
fn parse_ref_file_schema() {
    let node_ref = NodeRef::parse_ref("file://README.md").unwrap();
    assert!(matches!(node_ref.schema, RefType::File));
    assert_eq!(node_ref.path, "README.md");
    assert!(node_ref.params.kind.is_none());
    assert_eq!(node_ref.hash, "");
}

#[test]
fn parse_ref_unknown_schema_keeps_text() {
    let node_ref = NodeRef::parse_ref("http://example.com/x").unwrap();
    assert!(matches!(node_ref.schema, RefType::Unknown));
    assert_eq!(node_ref.path, "http://example.com/x");
    assert_eq!(node_ref.hash, "");
}

#[test]
fn parse_ref_missing_schema() {
    assert!(matches!(
        NodeRef::parse_ref("no schema here"),
        Err(ParseError::MissingSchema)
    ));
}

#[test]
fn parse_ref_bad_query() {
    assert!(matches!(
        NodeRef::parse_ref("lsp://a.rs?bogus=1#main"),
        Err(ParseError::Query)
    ));
    assert!(matches!(
        NodeRef::parse_ref("lsp://a.rs?kind=nosuchkind#main"),
        Err(ParseError::Query)
    ));
}

#[test]
fn parse_ref_bad_fragment_encoding() {
    assert!(matches!(
        NodeRef::parse_ref("lsp://a.rs#%FF"),
        Err(ParseError::Fragment)
    ));
}

#[test]
fn parse_ref_decodes_fragment() {
    let node_ref = NodeRef::parse_ref("lsp://a.rs#mod%2Fitem").unwrap();
    assert_eq!(node_ref.hash, "mod/item");
    let spaced = NodeRef::parse_ref("lsp://a.rs#hello%20world").unwrap();
    assert_eq!(spaced.hash, "hello world");
}

#[test]
fn parse_ref_without_query_or_fragment() {
    let node_ref = NodeRef::parse_ref("lsp://src/lib.rs").unwrap();
    assert!(matches!(node_ref.schema, RefType::Lsp));
    assert_eq!(node_ref.path, "src/lib.rs");
    assert!(node_ref.params.kind.is_none());
    assert_eq!(node_ref.hash, "");
}

#[test]
fn parse_ref_workspace_scoped() {
    let node_ref = NodeRef::parse_ref("lsp://#main").unwrap();
    assert_eq!(node_ref.path, "");
    assert!(!node_ref.is_document_scoped());
    assert_eq!(node_ref.hash, "main");
    let scoped = NodeRef::parse_ref("lsp://src/main.rs#main").unwrap();
    assert!(scoped.is_document_scoped());
}

#[test]
fn parse_ref_trims_input() {
    let node_ref = NodeRef::parse_ref("  lsp://src/main.rs#main \n").unwrap();
    assert_eq!(node_ref.path, "src/main.rs");
    assert_eq!(node_ref.hash, "main");
}

#[test]
fn params_from_str_cases() {
    let p = NodeRefParams::from_str("kind=function").unwrap();
    assert!(matches!(p.kind, Some(KindMarker::Function)));
    let p = NodeRefParams::from_str("kind=enumMember").unwrap();
    assert!(matches!(p.kind, Some(KindMarker::EnumMember)));
    let p = NodeRefParams::from_str("").unwrap();
    assert!(p.kind.is_none());
    assert!(NodeRefParams::from_str("kind=function&kind=class").is_err());
    assert!(NodeRefParams::from_str("container=x").is_err());
    assert!(NodeRefParams::from_str("kind=Function").is_err());
}

#[test]
fn to_kind_codes() {
    assert_eq!(KindMarker::File.to_kind(), 1);
    assert_eq!(KindMarker::Function.to_kind(), 12);
    assert_eq!(KindMarker::TypeParameter.to_kind(), 26);
}

#[test]
fn matches_kind_filter() {
    let any = NodeRefParams { kind: None };
    assert!(any.matches_kind(7));
    let only_fn = NodeRefParams {
        kind: Some(KindMarker::Function),
    };
    assert!(only_fn.matches_kind(12));
    assert!(!only_fn.matches_kind(13));
}
