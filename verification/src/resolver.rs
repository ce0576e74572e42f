//! Matching flat symbol lists and packaging resolved symbols.
//!
//! Some servers answer a symbol query with a flat list instead of a tree.
//! Flat matching scans the list in response order for the first entry whose
//! name equals the reference's fragment exactly and whose kind passes the
//! reference's filter. A resolved symbol is reported with its hover text
//! and a `<path>:<line>` location, the line one-based.

use vstd::prelude::*;

use crate::chars::str_eq;
use crate::noderef::{KindMarker, NodeRef};
use crate::numbers::{dec_digits, u32_to_string};
use crate::outline::kind_ok;
use vstd::string::StringExecFns;

verus! {

/// Where a flat symbol entry points: a document and a zero-based position.
#[derive(Debug)]
pub struct FlatLocation {
    pub uri: String,
    pub line: u32,
    pub character: u32,
}

/// One entry of a flat symbol listing.
#[derive(Debug)]
pub struct FlatSymbolEntry {
    pub name: String,
    pub kind: u32,
    pub location: FlatLocation,
}

/// The index of the first entry at or after `i` whose name is `hash` and
/// whose kind passes the filter.
pub open spec fn flat_match_from(
    entries: Seq<FlatSymbolEntry>,
    hash: Seq<char>,
    kind: Option<KindMarker>,
    i: int,
) -> Option<int>
    decreases entries.len() - i,
{
    if i < 0 || i >= entries.len() {
        None
    } else if entries[i].name@ == hash && kind_ok(kind, entries[i].kind) {
        Some(i)
    } else {
        flat_match_from(entries, hash, kind, i + 1)
    }
}

/// The index of the first entry whose name is `hash` and whose kind passes
/// the filter.
pub open spec fn flat_first_match(
    entries: Seq<FlatSymbolEntry>,
    hash: Seq<char>,
    kind: Option<KindMarker>,
) -> Option<int> {
    flat_match_from(entries, hash, kind, 0)
}

/// A scan that saw no acceptable entry in `[k, i)` and accepts entry `i`
/// has found the first acceptable entry at or after `k`.
proof fn lemma_flat_match_hit(
    entries: Seq<FlatSymbolEntry>,
    hash: Seq<char>,
    kind: Option<KindMarker>,
    k: int,
    i: int,
)
    requires
        0 <= k <= i < entries.len(),
        entries[i].name@ == hash && kind_ok(kind, entries[i].kind),
        forall|j: int|
            k <= j < i ==> !((#[trigger] entries[j].name@) == hash && kind_ok(
                kind,
                entries[j].kind,
            )),
    ensures
        flat_match_from(entries, hash, kind, k) == Some(i),
    decreases i - k,
{
    if k < i {
        lemma_flat_match_hit(entries, hash, kind, k + 1, i);
    }
}

/// A scan that saw no acceptable entry anywhere at or after `k` reports no
/// match.
proof fn lemma_flat_match_miss(
    entries: Seq<FlatSymbolEntry>,
    hash: Seq<char>,
    kind: Option<KindMarker>,
    k: int,
)
    requires
        0 <= k <= entries.len(),
        forall|j: int|
            k <= j < entries.len() ==> !((#[trigger] entries[j].name@) == hash && kind_ok(
                kind,
                entries[j].kind,
            )),
    ensures
        flat_match_from(entries, hash, kind, k) is None,
    decreases entries.len() - k,
{
    if k < entries.len() {
        lemma_flat_match_miss(entries, hash, kind, k + 1);
    }
}

/// Scan a flat symbol listing in response order for the first entry whose
/// name equals the reference's fragment exactly and whose kind passes the
/// reference's filter.
pub fn match_flat_symbol<'a>(symbols: &'a Vec<FlatSymbolEntry>, node_ref: &NodeRef) -> (r:
    Option<&'a FlatSymbolEntry>)
    ensures
        match r {
            Some(e) => (flat_first_match(symbols@, node_ref.hash@, node_ref.params.kind)
                matches Some(i) && *e == symbols@[i]),
            None => flat_first_match(symbols@, node_ref.hash@, node_ref.params.kind) is None,
        },
{
    let n = symbols.len();
    let mut i: usize = 0;
    while i < n
        invariant
            0 <= i <= n == symbols@.len(),
            forall|j: int|
                0 <= j < i ==> !((#[trigger] symbols@[j].name@) == node_ref.hash@ && kind_ok(
                    node_ref.params.kind,
                    symbols@[j].kind,
                )),
        decreases n - i,
    {
        let name_matches = str_eq(symbols[i].name.as_str(), node_ref.hash.as_str());
        let kind_matches = node_ref.params.matches_kind(symbols[i].kind);
        if name_matches && kind_matches {
            proof {
                lemma_flat_match_hit(symbols@, node_ref.hash@, node_ref.params.kind, 0, i as int);
            }
            return Some(&symbols[i]);
        }
        i += 1;
    }
    proof {
        lemma_flat_match_miss(symbols@, node_ref.hash@, node_ref.params.kind, 0);
    }
    None
}

/// The `<path>:<line>` rendering of a resolved location, the line number
/// one-based.
pub open spec fn location_text(path: Seq<char>, line: u32) -> Seq<char> {
    path + seq![':'] + dec_digits((line + 1) as nat)
}

/// What the resolver reports for a matched symbol: its hover documentation
/// (possibly empty) and where it stands.
#[derive(Debug)]
pub struct LspData {
    pub hover: String,
    pub location: String,
}

impl Default for LspData {
    /// An empty result: no hover text, no location.
    fn default() -> (r: LspData)
        ensures
            r.hover@ == Seq::<char>::empty(),
            r.location@ == Seq::<char>::empty(),
    {
        LspData { hover: String::new(), location: String::new() }
    }
}

impl LspData {
    /// Package a hover answer: markdown content yields the content together
    /// with a `<path>:<line>` location, the zero-based line made one-based;
    /// any other answer yields the empty result.
    pub fn from_hover(markdown: Option<&str>, path: &str, line: u32) -> (r: LspData)
        requires
            line < 0xffff_ffffu32,
        ensures
            markdown matches Some(m) ==> (r.hover@ == m@ && r.location@ == location_text(
                path@,
                line,
            )),
            markdown is None ==> (r.hover@ == Seq::<char>::empty() && r.location@
                == Seq::<char>::empty()),
    {
        match markdown {
            Some(m) => {
                let mut location = String::from_str(path);
                location.push(':');
                let digits = u32_to_string(line + 1);
                location.append(digits.as_str());
                proof {
                    assert(path@.push(':') + dec_digits((line + 1) as nat) =~= location_text(
                        path@,
                        line,
                    ));
                }
                LspData { hover: String::from_str(m), location }
            },
            None => LspData { hover: String::new(), location: String::new() },
        }
    }
}

} // verus!
