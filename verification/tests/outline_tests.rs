use sync_lsp::noderef::{KindMarker, NodeRef, NodeRefParams, RefType};
use sync_lsp::outline::{
    convert_stack, find_nested_symbol, find_nested_symbol_in_position, make_ref, SelectionRange,
    SymbolOutlineNode,
};
use sync_lsp::resolver::{match_flat_symbol, FlatLocation, FlatSymbolEntry};

fn node(
    name: &str,
    kind: u32,
    range: (u32, u32, u32, u32),
    children: Vec<SymbolOutlineNode>,
) -> SymbolOutlineNode {
    SymbolOutlineNode {
        name: name.to_string(),
        kind,
        selection_range: SelectionRange {
            start_line: range.0,
            start_char: range.1,
            end_line: range.2,
            end_char: range.3,
        },
        children,
    }
}

fn any_ref(hash: &str) -> NodeRef {
    NodeRef {
        schema: RefType::Lsp,
        path: String::new(),
        params: NodeRefParams { kind: None },
        hash: hash.to_string(),
    }
}

#[test]
fn nested_path_match() {
    let outline = vec![
        node("outer", 2, (0, 4, 0, 9), vec![node("inner", 12, (2, 7, 2, 12), vec![])]),
    ];
    let found = find_nested_symbol(&outline, &any_ref(""), "outer/inner").unwrap();
    assert_eq!(found.name, "inner");
    assert!(find_nested_symbol(&outline, &any_ref(""), "outer/missing").is_none());
    let top = find_nested_symbol(&outline, &any_ref(""), "outer").unwrap();
    assert_eq!(top.name, "outer");
}

#[test]
fn nested_path_backtracks_over_failed_sibling() {
    // A and B carry the same slug; only B's subtree holds the target.
    let a = node("x", 2, (0, 0, 0, 1), vec![node("z", 12, (1, 0, 1, 1), vec![])]);
    let b = node("x", 2, (5, 0, 5, 1), vec![node("y", 12, (6, 0, 6, 1), vec![])]);
    let outline = vec![a, b];
    let found = find_nested_symbol(&outline, &any_ref(""), "x/y").unwrap();
    assert_eq!(found.name, "y");
    assert_eq!(found.selection_range.start_line, 6);
}

#[test]
fn nested_path_kind_filter_disqualifies_sibling_only() {
    // Two siblings named alike; the kind filter skips the first, not the search.
    let outline = vec![
        node("f", 5, (0, 0, 0, 1), vec![]),
        node("f", 12, (3, 0, 3, 1), vec![]),
    ];
    let node_ref = NodeRef {
        schema: RefType::Lsp,
        path: String::new(),
        params: NodeRefParams {
            kind: Some(KindMarker::Function),
        },
        hash: String::new(),
    };
    let found = find_nested_symbol(&outline, &node_ref, "f").unwrap();
    assert_eq!(found.kind, 12);
    assert_eq!(found.selection_range.start_line, 3);
}

#[test]
fn nested_path_matches_normalized_names() {
    let outline = vec![node("impl MyTrait   for   MyType<R>", 11, (0, 0, 0, 4), vec![
        node("go", 6, (1, 0, 1, 2), vec![]),
    ])];
    let found =
        find_nested_symbol(&outline, &any_ref(""), "impl+MyTrait+for+MyType+R+/go").unwrap();
    assert_eq!(found.name, "go");
}

#[test]
fn position_stack_first_containment_wins() {
    // The position sits in both the parent's and the child's selection range;
    // the parent is hit first and the search stops there.
    let outline = vec![node("outer", 2, (0, 0, 5, 10), vec![
        node("inner", 12, (1, 0, 1, 5), vec![]),
    ])];
    let stack = find_nested_symbol_in_position(&outline, 1, 2);
    assert_eq!(stack.len(), 1);
    assert_eq!(stack[0].name, "outer");
}

#[test]
fn position_stack_descends_and_backtracks() {
    let outline = vec![
        node("first", 2, (0, 0, 0, 4), vec![node("fx", 12, (1, 0, 1, 2), vec![])]),
        node("second", 2, (4, 0, 4, 5), vec![node("sx", 12, (5, 4, 5, 6), vec![])]),
    ];
    let stack = find_nested_symbol_in_position(&outline, 5, 5);
    let names: Vec<&str> = stack.iter().map(|s| s.name.as_str()).collect();
    assert_eq!(names, vec!["second", "sx"]);
    assert!(find_nested_symbol_in_position(&outline, 9, 9).is_empty());
}

#[test]
fn convert_stack_builds_reference_text() {
    let outer = node("outer", 2, (0, 0, 0, 4), vec![]);
    let inner = node("in ner", 12, (1, 0, 1, 2), vec![]);
    let text = convert_stack("src/main.rs", vec![&outer, &inner]);
    assert_eq!(text, "lsp://src/main.rs#outer/in+ner");
}

#[test]
fn make_ref_round_trips_through_parser_and_matcher() {
    let outline = vec![
        node("decoy", 2, (0, 0, 0, 4), vec![]),
        node("outer", 2, (1, 4, 1, 9), vec![node("inner", 12, (3, 7, 3, 12), vec![])]),
    ];
    let text = make_ref("src/main.rs", &outline, 3, 8).unwrap();
    assert_eq!(text, "lsp://src/main.rs#outer/inner");

    let node_ref = NodeRef::parse_ref(&text).unwrap();
    assert_eq!(node_ref.path, "src/main.rs");
    let found = find_nested_symbol(&outline, &node_ref, &node_ref.hash).unwrap();
    assert_eq!(found.name, "inner");
    assert_eq!(found.selection_range.start_line, 3);

    assert!(make_ref("src/main.rs", &outline, 9, 0).is_none());
}

#[test]
fn flat_match_takes_first_acceptable_entry() {
    let entries = vec![
        FlatSymbolEntry {
            name: "other".to_string(),
            kind: 12,
            location: FlatLocation {
                uri: "a.rs".to_string(),
                line: 1,
                character: 0,
            },
        },
        FlatSymbolEntry {
            name: "main".to_string(),
            kind: 5,
            location: FlatLocation {
                uri: "b.rs".to_string(),
                line: 2,
                character: 0,
            },
        },
        FlatSymbolEntry {
            name: "main".to_string(),
            kind: 12,
            location: FlatLocation {
                uri: "c.rs".to_string(),
                line: 3,
                character: 0,
            },
        },
    ];
    let unfiltered = match_flat_symbol(&entries, &any_ref("main")).unwrap();
    assert_eq!(unfiltered.location.uri, "b.rs");

    let node_ref = NodeRef {
        schema: RefType::Lsp,
        path: String::new(),
        params: NodeRefParams {
            kind: Some(KindMarker::Function),
        },
        hash: "main".to_string(),
    };
    let filtered = match_flat_symbol(&entries, &node_ref).unwrap();
    assert_eq!(filtered.location.uri, "c.rs");

    assert!(match_flat_symbol(&entries, &any_ref("absent")).is_none());
}
