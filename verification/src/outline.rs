//! Symbol outlines and the two tree matchers.
//!
//! A symbol outline is the ordered forest of named symbols a code
//! intelligence server reports for a document. The nested-path matcher walks
//! it down a `/`-delimited path of normalized names with exhaustive
//! backtracking; the position matcher walks it for the symbol whose
//! selection range contains a cursor position, reporting the ancestor stack.

use vstd::prelude::*;

use crate::chars::{
    find_char_spec, lemma_find_char_props, split_once_spec, split_once_str, str_eq,
};
use crate::noderef::{KindMarker, NodeRef, kind_code_spec};
use crate::normalize::{
    convert_name, keeps_char, lemma_slug_body_shape, normalize_spec, trim_spec,
};
use vstd::string::StrSliceExecFns;
use vstd::string::StringExecFns;

verus! {

/// The selection range of a symbol: the narrow span of its name token.
/// Lines and characters are zero-based; all four bounds are inclusive when
/// a position is tested against them.
#[derive(Clone, Copy, Debug, PartialEq, Eq, Structural)]
pub struct SelectionRange {
    pub start_line: u32,
    pub start_char: u32,
    pub end_line: u32,
    pub end_char: u32,
}

/// One symbol of a hierarchical outline, with its children in document
/// order. The kind is the protocol's numeric symbol-kind code.
#[derive(Debug)]
pub struct SymbolOutlineNode {
    pub name: String,
    pub kind: u32,
    pub selection_range: SelectionRange,
    pub children: Vec<SymbolOutlineNode>,
}

/// Whether a kind filter lets the given numeric kind code through.
pub open spec fn kind_ok(kind: Option<KindMarker>, code: u32) -> bool {
    match kind {
        None => true,
        Some(k) => kind_code_spec(k) == code,
    }
}

/// The first match of a `/`-delimited path of normalized names in a forest,
/// in traversal order, backtracking exhaustively. The head segment of the
/// path is compared against each sibling's normalized name in order; on a
/// name match with no remainder the sibling is taken if the kind filter
/// passes (a failed filter disqualifies only this sibling); on a name match
/// with a remainder the search descends into the children, and a fruitless
/// descent falls through to the next sibling.
pub open spec fn find_path_in(
    nodes: Seq<SymbolOutlineNode>,
    path: Seq<char>,
    kind: Option<KindMarker>,
) -> Option<SymbolOutlineNode>
    decreases nodes,
{
    if nodes.len() == 0 {
        None
    } else {
        let node = nodes[0];
        let current = match split_once_spec(path, '/') {
            Some(pr) => pr.0,
            None => path,
        };
        let remainder = match split_once_spec(path, '/') {
            Some(pr) => pr.1,
            None => Seq::<char>::empty(),
        };
        if normalize_spec(node.name@) == current {
            if remainder.len() == 0 && kind_ok(kind, node.kind) {
                Some(node)
            } else if remainder.len() == 0 {
                find_path_in(nodes.drop_first(), path, kind)
            } else {
                match find_path_in(node.children@, remainder, kind) {
                    Some(m) => Some(m),
                    None => find_path_in(nodes.drop_first(), path, kind),
                }
            }
        } else {
            find_path_in(nodes.drop_first(), path, kind)
        }
    }
}

/// Find the symbol a `/`-delimited path of normalized names denotes, under
/// the reference's kind filter, which applies only to the final segment.
/// Siblings are tried in document order with exhaustive backtracking; the
/// first full match wins.
pub fn find_nested_symbol<'a>(
    symbols: &'a Vec<SymbolOutlineNode>,
    node_ref: &NodeRef,
    path: &str,
) -> (r: Option<&'a SymbolOutlineNode>)
    ensures
        match r {
            Some(m) => find_path_in(symbols@, path@, node_ref.params.kind) == Some(*m),
            None => find_path_in(symbols@, path@, node_ref.params.kind) is None,
        },
    decreases symbols@,
{
    let ghost kind = node_ref.params.kind;
    proof {
        lemma_find_char_props(path@, '/');
    }
    let (current, remainder) = match split_once_str(path, '/') {
        Some(p) => p,
        None => (path, ""),
    };
    proof {
        reveal_strlit("");
        assert(""@ =~= Seq::<char>::empty());
    }
    let n = symbols.len();
    let mut i: usize = 0;
    proof {
        assert(symbols@.skip(0) =~= symbols@);
    }
    while i < n
        invariant
            0 <= i <= n == symbols@.len(),
            find_path_in(symbols@, path@, kind) == find_path_in(
                symbols@.skip(i as int),
                path@,
                kind,
            ),
            kind == node_ref.params.kind,
            split_once_spec(path@, '/') matches Some(pr) ==> (current@ == pr.0 && remainder@
                == pr.1),
            split_once_spec(path@, '/') is None ==> (current@ == path@ && remainder@
                == Seq::<char>::empty()),
        decreases n - i,
    {
        proof {
            assert(symbols@.skip(i as int)[0] == symbols@[i as int]);
            assert(symbols@.skip(i as int).drop_first() =~= symbols@.skip(i + 1));
        }
        let name = convert_name(symbols[i].name.as_str());
        if str_eq(name.as_str(), current) {
            let rem_len = remainder.unicode_len();
            if rem_len == 0 && node_ref.params.matches_kind(symbols[i].kind) {
                return Some(&symbols[i]);
            }
            if rem_len > 0 {
                let nested = find_nested_symbol(&symbols[i].children, node_ref, remainder);
                if nested.is_some() {
                    return nested;
                }
            }
        }
        i += 1;
    }
    proof {
        assert(symbols@.skip(n as int) =~= Seq::<SymbolOutlineNode>::empty());
    }
    None
}

/// A failed partial match never ends the search: when the first sibling's
/// subtree holds no match for the path, matching the pair falls through to
/// the second sibling.
pub proof fn lemma_backtracking(
    a: SymbolOutlineNode,
    b: SymbolOutlineNode,
    path: Seq<char>,
    kind: Option<KindMarker>,
)
    requires
        find_path_in(seq![a], path, kind) is None,
    ensures
        find_path_in(seq![a, b], path, kind) == find_path_in(seq![b], path, kind),
{
    assert(seq![a].drop_first() =~= Seq::<SymbolOutlineNode>::empty());
    assert(seq![a, b].drop_first() =~= seq![b]);
    assert(seq![a, b][0] == a);
}

/// Whether a zero-based position lies inside a selection range; all four
/// bounds are inclusive.
pub open spec fn contains_pos(r: SelectionRange, line: u32, character: u32) -> bool {
    r.start_line <= line && r.start_char <= character && r.end_line >= line && r.end_char
        >= character
}

/// The ancestor stack the position matcher reports: for each sibling in
/// document order, a position inside its selection range ends the whole
/// search with that symbol; otherwise the symbol is kept speculatively
/// while its children are searched, and dropped again when they yield
/// nothing. The first containment hit wins; no tighter inner match is
/// sought.
pub open spec fn position_stack(
    nodes: Seq<SymbolOutlineNode>,
    line: u32,
    character: u32,
) -> Seq<SymbolOutlineNode>
    decreases nodes,
{
    if nodes.len() == 0 {
        Seq::empty()
    } else {
        let node = nodes[0];
        if contains_pos(node.selection_range, line, character) {
            seq![node]
        } else {
            let sub = position_stack(node.children@, line, character);
            if sub.len() > 0 {
                seq![node] + sub
            } else {
                position_stack(nodes.drop_first(), line, character)
            }
        }
    }
}

/// The symbols a stack of references points at.
pub open spec fn deref_nodes(s: Seq<&SymbolOutlineNode>) -> Seq<SymbolOutlineNode> {
    s.map_values(|p: &SymbolOutlineNode| *p)
}

/// One level of the position search: scan the siblings, pushing the
/// ancestors of a hit onto `stack`; report whether a hit was found, leaving
/// `stack` untouched otherwise.
fn lookup_position<'a>(
    list: &'a Vec<SymbolOutlineNode>,
    stack: &mut Vec<&'a SymbolOutlineNode>,
    line: u32,
    character: u32,
) -> (found: bool)
    ensures
        found == (position_stack(list@, line, character).len() > 0),
        found ==> deref_nodes(final (stack)@) == deref_nodes(old(stack)@) + position_stack(
            list@,
            line,
            character,
        ),
        !found ==> final (stack)@ == old(stack)@,
    decreases list@,
{
    let n = list.len();
    let mut i: usize = 0;
    proof {
        assert(list@.skip(0) =~= list@);
    }
    while i < n
        invariant
            0 <= i <= n == list@.len(),
            stack@ == old(stack)@,
            position_stack(list@, line, character) == position_stack(
                list@.skip(i as int),
                line,
                character,
            ),
        decreases n - i,
    {
        proof {
            assert(list@.skip(i as int)[0] == list@[i as int]);
            assert(list@.skip(i as int).drop_first() =~= list@.skip(i + 1));
        }
        let node = &list[i];
        let range = &node.selection_range;
        if range.start_line <= line && range.start_char <= character && range.end_line >= line
            && range.end_char >= character {
            stack.push(node);
            proof {
                assert(deref_nodes(stack@) =~= deref_nodes(old(stack)@) + seq![list@[i as int]]);
            }
            return true;
        }
        stack.push(node);
        let found = lookup_position(&node.children, stack, line, character);
        if found {
            proof {
                let sub = position_stack(list@[i as int].children@, line, character);
                assert(deref_nodes(old(stack)@.push(node)) =~= deref_nodes(old(stack)@) + seq![
                    list@[i as int],
                ]);
                assert(deref_nodes(old(stack)@) + seq![list@[i as int]] + sub =~= deref_nodes(
                    old(stack)@,
                ) + (seq![list@[i as int]] + sub));
            }
            return true;
        }
        stack.pop();
        proof {
            assert(old(stack)@.push(node).drop_last() =~= old(stack)@);
        }
        i += 1;
    }
    proof {
        assert(list@.skip(n as int) =~= Seq::<SymbolOutlineNode>::empty());
    }
    false
}

/// Walk the outline for the symbol whose selection range contains the
/// zero-based position, reporting the chain of symbols from the outermost
/// ancestor down to the hit, or an empty stack when nothing contains it.
pub fn find_nested_symbol_in_position<'a>(
    symbols: &'a Vec<SymbolOutlineNode>,
    line: u32,
    character: u32,
) -> (r: Vec<&'a SymbolOutlineNode>)
    ensures
        deref_nodes(r@) == position_stack(symbols@, line, character),
        r@.len() > 0 <==> some_symbol_holds(symbols@, line, character),
{
    proof {
        lemma_position_stack_nonempty(symbols@, line, character);
    }
    let mut stack: Vec<&'a SymbolOutlineNode> = Vec::new();
    let found = lookup_position(symbols, &mut stack, line, character);
    proof {
        if found {
            assert(deref_nodes(Seq::<&SymbolOutlineNode>::empty())
                =~= Seq::<SymbolOutlineNode>::empty());
            assert(deref_nodes(stack@) =~= position_stack(symbols@, line, character));
        } else {
            assert(deref_nodes(stack@) =~= position_stack(symbols@, line, character));
        }
    }
    stack
}

/// The normalized names of a symbol chain, joined with `/`.
pub open spec fn joined_slugs(stack: Seq<SymbolOutlineNode>) -> Seq<char>
    decreases stack.len(),
{
    if stack.len() == 0 {
        Seq::empty()
    } else if stack.len() == 1 {
        normalize_spec(stack[0].name@)
    } else {
        normalize_spec(stack[0].name@) + seq!['/'] + joined_slugs(stack.drop_first())
    }
}

/// The reference text built from a path and a symbol chain.
pub open spec fn ref_text(path: Seq<char>, stack: Seq<SymbolOutlineNode>) -> Seq<char> {
    "lsp://"@ + path + seq!['#'] + joined_slugs(stack)
}

/// Extending a chain on the right extends the joined names by a `/` and the
/// new name, or starts them when the chain was empty.
proof fn lemma_joined_snoc(stack: Seq<SymbolOutlineNode>, x: SymbolOutlineNode)
    ensures
        joined_slugs(stack.push(x)) == if stack.len() == 0 {
            normalize_spec(x.name@)
        } else {
            joined_slugs(stack) + seq!['/'] + normalize_spec(x.name@)
        },
    decreases stack.len(),
{
    let t = stack.push(x);
    if stack.len() == 0 {
        assert(t.len() == 1);
        assert(t[0] == x);
    } else if stack.len() == 1 {
        assert(t.len() == 2);
        assert(t[0] == stack[0]);
        assert(t.drop_first() =~= seq![x]);
        assert(joined_slugs(seq![x]) == normalize_spec(x.name@));
    } else {
        assert(t[0] == stack[0]);
        assert(t.drop_first() =~= stack.drop_first().push(x));
        lemma_joined_snoc(stack.drop_first(), x);
        assert(normalize_spec(stack[0].name@) + seq!['/'] + (joined_slugs(stack.drop_first())
            + seq!['/'] + normalize_spec(x.name@)) =~= (normalize_spec(stack[0].name@)
            + seq!['/'] + joined_slugs(stack.drop_first())) + seq!['/'] + normalize_spec(
            x.name@,
        ));
    }
}

/// Produce the reference text `lsp://<path>#<slug1>/.../<slugN>` for a
/// chain of symbols.
pub fn convert_stack(path: &str, stack: Vec<&SymbolOutlineNode>) -> (r: String)
    ensures
        r@ == ref_text(path@, deref_nodes(stack@)),
{
    let ghost nodes = deref_nodes(stack@);
    let mut base = String::from_str("lsp://");
    base.append(path);
    base.push('#');
    let n = stack.len();
    let mut i: usize = 0;
    proof {
        assert(nodes.subrange(0, 0) =~= Seq::<SymbolOutlineNode>::empty());
    }
    while i < n
        invariant
            0 <= i <= n == stack@.len(),
            nodes == deref_nodes(stack@),
            nodes.len() == n,
            base@ == "lsp://"@ + path@ + seq!['#'] + joined_slugs(nodes.subrange(0, i as int))
                + (if 0 < i && i < n {
                seq!['/']
            } else {
                Seq::<char>::empty()
            }),
        decreases n - i,
    {
        proof {
            assert(nodes[i as int] == *stack@[i as int]);
            assert(nodes.subrange(0, i as int).push(nodes[i as int]) =~= nodes.subrange(
                0,
                i + 1,
            ));
            lemma_joined_snoc(nodes.subrange(0, i as int), nodes[i as int]);
        }
        let slug = convert_name(stack[i].name.as_str());
        base.append(slug.as_str());
        if i + 1 < n {
            base.push('/');
        }
        i += 1;
    }
    proof {
        assert(nodes.subrange(0, n as int) =~= nodes);
    }
    base
}

/// A slug never holds a `/`: the normalizer only keeps characters from its
/// allow-list, and `/` is not on it.
proof fn lemma_slug_no_slash(name: Seq<char>)
    ensures
        forall|i: int|
            0 <= i < normalize_spec(name).len() ==> #[trigger] normalize_spec(name)[i] != '/',
{
    lemma_slug_body_shape(trim_spec(name), '-');
    assert forall|i: int|
        0 <= i < normalize_spec(name).len() implies #[trigger] normalize_spec(name)[i]
        != '/' by {
        assert(keeps_char(normalize_spec(name)[i]));
    }
}

/// Splitting joined slugs at the first `/` recovers the head slug and the
/// joined tail; a single slug holds no `/` to split at.
proof fn lemma_joined_head_split(stack: Seq<SymbolOutlineNode>)
    requires
        stack.len() >= 1,
    ensures
        stack.len() == 1 ==> split_once_spec(joined_slugs(stack), '/') is None,
        stack.len() > 1 ==> split_once_spec(joined_slugs(stack), '/') == Some(
            (normalize_spec(stack[0].name@), joined_slugs(stack.drop_first())),
        ),
{
    let j = joined_slugs(stack);
    let s0 = normalize_spec(stack[0].name@);
    lemma_slug_no_slash(stack[0].name@);
    lemma_find_char_props(j, '/');
    if stack.len() == 1 {
        assert(j == s0);
        match find_char_spec(j, '/') {
            Some(i) => {
                assert(j[i] != '/');
                assert(false);
            },
            None => {},
        }
    } else {
        let rest = joined_slugs(stack.drop_first());
        assert(j == s0 + seq!['/'] + rest);
        assert(j[s0.len() as int] == '/');
        match find_char_spec(j, '/') {
            Some(i) => {
                assert(i <= s0.len());
                if i < s0.len() {
                    assert(j[i] == s0[i]);
                    assert(false);
                }
                assert(j.subrange(0, i) =~= s0);
                assert(j.subrange(i + 1, j.len() as int) =~= rest);
            },
            None => {
                assert(false);
            },
        }
    }
}

/// Well-formedness of an outline for reference building: everywhere in the
/// forest, sibling slugs are pairwise distinct and no slug is empty.
pub open spec fn distinct_nonempty_slugs(nodes: Seq<SymbolOutlineNode>) -> bool
    decreases nodes,
{
    (forall|i: int, j: int|
        0 <= i < j < nodes.len() ==> normalize_spec(#[trigger] nodes[i].name@) != normalize_spec(
            #[trigger] nodes[j].name@,
        )) && (forall|i: int|
        0 <= i < nodes.len() ==> normalize_spec(#[trigger] nodes[i].name@).len() > 0) && (forall|
        i: int,
    |
        0 <= i < nodes.len() ==> distinct_nonempty_slugs(#[trigger] nodes[i].children@))
}

/// Well-formedness carries over to the tail of a sibling list.
proof fn lemma_ok_drop_first(nodes: Seq<SymbolOutlineNode>)
    requires
        distinct_nonempty_slugs(nodes),
        nodes.len() > 0,
    ensures
        distinct_nonempty_slugs(nodes.drop_first()),
{
    let d = nodes.drop_first();
    assert forall|i: int, j: int| 0 <= i < j < d.len() implies normalize_spec(
        #[trigger] d[i].name@,
    ) != normalize_spec(#[trigger] d[j].name@) by {
        assert(d[i] == nodes[i + 1]);
        assert(d[j] == nodes[j + 1]);
    }
    assert forall|i: int| 0 <= i < d.len() implies normalize_spec(#[trigger] d[i].name@).len()
        > 0 by {
        assert(d[i] == nodes[i + 1]);
    }
    assert forall|i: int| 0 <= i < d.len() implies distinct_nonempty_slugs(
        #[trigger] d[i].children@,
    ) by {
        assert(d[i] == nodes[i + 1]);
    }
}

/// Every symbol on a position stack of a well-formed outline has a
/// non-empty slug.
proof fn lemma_stack_elements_ok(nodes: Seq<SymbolOutlineNode>, line: u32, character: u32)
    requires
        distinct_nonempty_slugs(nodes),
    ensures
        forall|k: int|
            0 <= k < position_stack(nodes, line, character).len() ==> normalize_spec(
                #[trigger] position_stack(nodes, line, character)[k].name@,
            ).len() > 0,
    decreases nodes,
{
    if nodes.len() > 0 {
        let node = nodes[0];
        let ps = position_stack(nodes, line, character);
        if contains_pos(node.selection_range, line, character) {
            assert forall|k: int| 0 <= k < ps.len() implies normalize_spec(
                #[trigger] ps[k].name@,
            ).len() > 0 by {
                assert(ps[k] == node);
                assert(normalize_spec(nodes[0].name@).len() > 0);
            }
        } else {
            let sub = position_stack(node.children@, line, character);
            lemma_stack_elements_ok(node.children@, line, character);
            if sub.len() > 0 {
                assert(ps == seq![node] + sub);
                assert forall|k: int| 0 <= k < ps.len() implies normalize_spec(
                    #[trigger] ps[k].name@,
                ).len() > 0 by {
                    if k == 0 {
                        assert(ps[0] == node);
                        assert(normalize_spec(nodes[0].name@).len() > 0);
                    } else {
                        assert(ps[k] == sub[k - 1]);
                        assert(normalize_spec(sub[k - 1].name@).len() > 0);
                    }
                }
            } else {
                lemma_ok_drop_first(nodes);
                lemma_stack_elements_ok(nodes.drop_first(), line, character);
                assert(ps == position_stack(nodes.drop_first(), line, character));
            }
        }
    }
}

/// A chain of symbols with non-empty slugs joins to non-empty text.
proof fn lemma_joined_nonempty(stack: Seq<SymbolOutlineNode>)
    requires
        stack.len() > 0,
        forall|k: int|
            0 <= k < stack.len() ==> normalize_spec(#[trigger] stack[k].name@).len() > 0,
    ensures
        joined_slugs(stack).len() > 0,
{
    assert(normalize_spec(stack[0].name@).len() > 0);
}

/// A non-empty position stack starts with one of the top-level siblings.
proof fn lemma_stack_head(nodes: Seq<SymbolOutlineNode>, line: u32, character: u32)
    requires
        position_stack(nodes, line, character).len() > 0,
    ensures
        exists|m: int|
            0 <= m < nodes.len() && position_stack(nodes, line, character)[0] == nodes[m],
    decreases nodes,
{
    let ps = position_stack(nodes, line, character);
    let node = nodes[0];
    if contains_pos(node.selection_range, line, character) {
        assert(ps[0] == nodes[0]);
    } else {
        let sub = position_stack(node.children@, line, character);
        if sub.len() > 0 {
            assert(ps[0] == nodes[0]);
        } else {
            lemma_stack_head(nodes.drop_first(), line, character);
            let m0 = choose|m: int|
                0 <= m < nodes.drop_first().len() && position_stack(
                    nodes.drop_first(),
                    line,
                    character,
                )[0] == nodes.drop_first()[m];
            assert(ps[0] == nodes[m0 + 1]);
        }
    }
}

/// Whether any symbol of the forest, at any depth, holds the position in
/// its selection range.
pub open spec fn some_symbol_holds(nodes: Seq<SymbolOutlineNode>, line: u32, character: u32) -> bool
    decreases nodes,
{
    exists|i: int|
        #![trigger nodes[i]]
        0 <= i < nodes.len() && (contains_pos(nodes[i].selection_range, line, character)
            || some_symbol_holds(nodes[i].children@, line, character))
}

/// A symbol that holds the position, or has a descendant that does,
/// witnesses that the whole forest holds it.
proof fn lemma_some_symbol_shift(nodes: Seq<SymbolOutlineNode>, line: u32, character: u32, j: int)
    requires
        0 <= j < nodes.len(),
        contains_pos(nodes[j].selection_range, line, character) || some_symbol_holds(
            nodes[j].children@,
            line,
            character,
        ),
    ensures
        some_symbol_holds(nodes, line, character),
{
}

/// The position matcher reports a symbol exactly when some symbol of the
/// outline holds the position in its selection range.
pub proof fn lemma_position_stack_nonempty(
    nodes: Seq<SymbolOutlineNode>,
    line: u32,
    character: u32,
)
    ensures
        position_stack(nodes, line, character).len() > 0 <==> some_symbol_holds(
            nodes,
            line,
            character,
        ),
    decreases nodes,
{
    if nodes.len() > 0 {
        let node = nodes[0];
        let d = nodes.drop_first();
        lemma_position_stack_nonempty(node.children@, line, character);
        lemma_position_stack_nonempty(d, line, character);
        if contains_pos(node.selection_range, line, character) {
            assert(some_symbol_holds(nodes, line, character));
        } else {
            let sub = position_stack(node.children@, line, character);
            if sub.len() > 0 {
                assert(some_symbol_holds(nodes, line, character));
            } else {
                if some_symbol_holds(d, line, character) && !some_symbol_holds(
                    nodes,
                    line,
                    character,
                ) {
                    let i = choose|i: int|
                        #![trigger d[i]]
                        0 <= i < d.len() && (contains_pos(d[i].selection_range, line, character)
                            || some_symbol_holds(d[i].children@, line, character));
                    assert(d[i] == nodes[i + 1]);
                    lemma_some_symbol_shift(nodes, line, character, i + 1);
                    assert(false);
                }
                if some_symbol_holds(nodes, line, character) && !some_symbol_holds(
                    d,
                    line,
                    character,
                ) {
                    let i = choose|i: int|
                        #![trigger nodes[i]]
                        0 <= i < nodes.len() && (contains_pos(
                            nodes[i].selection_range,
                            line,
                            character,
                        ) || some_symbol_holds(nodes[i].children@, line, character));
                    assert(i != 0);
                    assert(d[i - 1] == nodes[i]);
                    lemma_some_symbol_shift(d, line, character, i - 1);
                    assert(false);
                }
            }
        }
    }
}

/// Produce the reference text for a cursor position in a document: the
/// chain of symbols whose selection range holds the position, rendered as
/// `lsp://<path>#<slug1>/.../<slugN>`, or nothing when no symbol holds it.
pub fn make_ref(path: &str, symbols: &Vec<SymbolOutlineNode>, line: u32, character: u32) -> (r:
    Option<String>)
    ensures
        r is None <==> position_stack(symbols@, line, character).len() == 0,
        r matches Some(t) ==> t@ == ref_text(path@, position_stack(symbols@, line, character)),
{
    let stack = find_nested_symbol_in_position(symbols, line, character);
    if stack.len() == 0 {
        return None;
    }
    Some(convert_stack(path, stack))
}

/// The inductive step of the round trip, phrased over a non-empty ancestor
/// stack.
proof fn lemma_round_trip_stack(nodes: Seq<SymbolOutlineNode>, line: u32, character: u32)
    requires
        distinct_nonempty_slugs(nodes),
        position_stack(nodes, line, character).len() > 0,
    ensures
        find_path_in(nodes, joined_slugs(position_stack(nodes, line, character)), None) == Some(
            position_stack(nodes, line, character).last(),
        ),
    decreases nodes,
{
    let stack = position_stack(nodes, line, character);
    let path = joined_slugs(stack);
    let node = nodes[0];
    lemma_joined_head_split(stack);
    if contains_pos(node.selection_range, line, character) {
        assert(stack == seq![node]);
        assert(split_once_spec(path, '/') is None);
        assert(normalize_spec(node.name@) == path);
        assert(stack.last() == node);
    } else {
        let sub = position_stack(node.children@, line, character);
        if sub.len() > 0 {
            assert(stack == seq![node] + sub);
            assert(stack[0] == node);
            assert(stack.drop_first() =~= sub);
            assert(split_once_spec(path, '/') == Some(
                (normalize_spec(node.name@), joined_slugs(sub)),
            ));
            lemma_stack_elements_ok(node.children@, line, character);
            lemma_joined_nonempty(sub);
            lemma_round_trip_stack(node.children@, line, character);
            assert(find_path_in(node.children@, joined_slugs(sub), None) == Some(sub.last()));
            assert(stack.last() == sub.last());
        } else {
            assert(stack == position_stack(nodes.drop_first(), line, character));
            lemma_ok_drop_first(nodes);
            lemma_round_trip_stack(nodes.drop_first(), line, character);
            lemma_stack_head(nodes.drop_first(), line, character);
            let m0 = choose|m: int|
                0 <= m < nodes.drop_first().len() && position_stack(
                    nodes.drop_first(),
                    line,
                    character,
                )[0] == nodes.drop_first()[m];
            assert(stack[0] == nodes[m0 + 1]);
            let current = match split_once_spec(path, '/') {
                Some(pr) => pr.0,
                None => path,
            };
            assert(current == normalize_spec(stack[0].name@));
            assert(normalize_spec(nodes[0].name@) != normalize_spec(nodes[m0 + 1].name@));
            assert(normalize_spec(node.name@) != current);
            assert(find_path_in(nodes, path, None) == find_path_in(
                nodes.drop_first(),
                path,
                None,
            ));
        }
    }
}

/// Round trip between the two matchers: in an outline whose sibling slugs
/// are everywhere distinct and non-empty, for any position inside some
/// symbol's selection range, joining the normalized names of the position
/// matcher's ancestor stack with `/` and resolving that path with the
/// nested-path matcher (with no kind filter) finds exactly the symbol the
/// position matcher stopped on.
pub proof fn lemma_position_path_round_trip(
    nodes: Seq<SymbolOutlineNode>,
    line: u32,
    character: u32,
)
    requires
        distinct_nonempty_slugs(nodes),
        some_symbol_holds(nodes, line, character),
    ensures
        position_stack(nodes, line, character).len() > 0,
        find_path_in(nodes, joined_slugs(position_stack(nodes, line, character)), None) == Some(
            position_stack(nodes, line, character).last(),
        ),
{
    lemma_position_stack_nonempty(nodes, line, character);
    lemma_round_trip_stack(nodes, line, character);
}

} // verus!
