use sync_lsp::locate;
use sync_lsp::resolver::LspData;
use sync_lsp::session::IndexingSignal;

#[test]
fn extract_path() {
    assert_eq!(
        locate::extract_path("src/main.rs:32:5"),
        Some(("src/main.rs", 31, 4))
    );
    assert_eq!(locate::extract_path("src/main.rs:32"), None);
    assert_eq!(locate::extract_path("src/main.rs:-32:-5"), None);
}

#[test]
fn extract_path_edge_cases() {
    assert_eq!(locate::extract_path("f:0:0"), Some(("f", 0, 0)));
    assert_eq!(locate::extract_path("f:1:1"), Some(("f", 0, 0)));
    assert_eq!(locate::extract_path("a:b:c"), None);
    assert_eq!(locate::extract_path("f:4294967295:1"), Some(("f", 4294967294, 0)));
    assert_eq!(locate::extract_path("f:4294967296:1"), None);
    assert_eq!(locate::extract_path(""), None);
}

#[test]
fn indexing_signal_fires_once() {
    let mut signal = IndexingSignal::new();
    assert!(!signal.observe("rustAnalyzer/Indexing", false));
    assert!(!signal.observe("somethingElse", true));
    assert!(signal.observe("rustAnalyzer/Indexing", true));
    // A second recognized end notification, under the other token name, is a
    // no-op rather than an error.
    assert!(!signal.observe("rustAnalyzer/cachePriming", true));
    assert!(!signal.observe("rustAnalyzer/Indexing", true));
}

#[test]
fn indexing_signal_accepts_either_token() {
    let mut signal = IndexingSignal::new();
    assert!(signal.observe("rustAnalyzer/cachePriming", true));
}

#[test]
fn from_hover_packages_markdown() {
    let data = LspData::from_hover(Some("Docs for main"), "src/main.rs", 32);
    assert_eq!(data.hover, "Docs for main");
    assert_eq!(data.location, "src/main.rs:33");
}

#[test]
fn from_hover_without_markdown_is_empty() {
    let data = LspData::from_hover(None, "src/main.rs", 32);
    assert_eq!(data.hover, "");
    assert_eq!(data.location, "");
}
