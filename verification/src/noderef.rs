//! The reference descriptor: `<schema> ":" ["//"] <path> ["?" <query>] ["#" <fragment>]`.
//!
//! Recognized schemas are `lsp` and `file`; any other schema yields an
//! `Unknown` descriptor carrying the raw text, which callers report as
//! unresolvable. The query holds at most a `kind` key, whose value must be
//! one of the standard symbol-kind tags; the fragment is a percent-encoded,
//! `/`-delimited symbol path.

use vstd::prelude::*;

use crate::chars::{
    find_char_spec, lemma_find_char_props, split_once_spec, split_once_str, str_eq,
};
use crate::normalize::trim_spec;
use crate::normalize::trim_str;
use vstd::string::StrSliceExecFns;
use vstd::string::StringExecFns;

verus! {

/// The schema of a reference.
#[derive(Clone, Copy, Debug, PartialEq, Eq, Structural)]
pub enum RefType {
    Lsp,
    File,
    Unknown,
}

/// A symbol-kind tag, mirroring the standard symbol kinds of the protocol.
#[derive(Clone, Copy, Debug, PartialEq, Eq, Structural)]
pub enum KindMarker {
    File,
    Module,
    Namespace,
    Package,
    Class,
    Method,
    Property,
    Field,
    Constructor,
    Enum,
    Interface,
    Function,
    Variable,
    Constant,
    String,
    Number,
    Boolean,
    Array,
    Object,
    Key,
    Null,
    EnumMember,
    Struct,
    Event,
    Operator,
    TypeParameter,
}

/// Why a reference failed to parse.
#[derive(Clone, Copy, Debug, PartialEq, Eq, Structural)]
pub enum ParseError {
    /// The reference has no `:`, so no schema.
    MissingSchema,
    /// The query is not a well-formed `kind=<tag>` assignment.
    Query,
    /// The fragment's percent-encoding does not decode.
    Fragment,
}

/// The numeric symbol-kind code a tag stands for, as the protocol assigns
/// them: `File` is 1 up through `TypeParameter` at 26.
pub open spec fn kind_code_spec(k: KindMarker) -> u32 {
    match k {
        KindMarker::File => 1,
        KindMarker::Module => 2,
        KindMarker::Namespace => 3,
        KindMarker::Package => 4,
        KindMarker::Class => 5,
        KindMarker::Method => 6,
        KindMarker::Property => 7,
        KindMarker::Field => 8,
        KindMarker::Constructor => 9,
        KindMarker::Enum => 10,
        KindMarker::Interface => 11,
        KindMarker::Function => 12,
        KindMarker::Variable => 13,
        KindMarker::Constant => 14,
        KindMarker::String => 15,
        KindMarker::Number => 16,
        KindMarker::Boolean => 17,
        KindMarker::Array => 18,
        KindMarker::Object => 19,
        KindMarker::Key => 20,
        KindMarker::Null => 21,
        KindMarker::EnumMember => 22,
        KindMarker::Struct => 23,
        KindMarker::Event => 24,
        KindMarker::Operator => 25,
        KindMarker::TypeParameter => 26,
    }
}

/// The tag a camelCase kind name denotes, if it is one of the closed set.
pub open spec fn kind_of_tag(s: Seq<char>) -> Option<KindMarker> {
    if s == "file"@ {
        Some(KindMarker::File)
    } else if s == "module"@ {
        Some(KindMarker::Module)
    } else if s == "namespace"@ {
        Some(KindMarker::Namespace)
    } else if s == "package"@ {
        Some(KindMarker::Package)
    } else if s == "class"@ {
        Some(KindMarker::Class)
    } else if s == "method"@ {
        Some(KindMarker::Method)
    } else if s == "property"@ {
        Some(KindMarker::Property)
    } else if s == "field"@ {
        Some(KindMarker::Field)
    } else if s == "constructor"@ {
        Some(KindMarker::Constructor)
    } else if s == "enum"@ {
        Some(KindMarker::Enum)
    } else if s == "interface"@ {
        Some(KindMarker::Interface)
    } else if s == "function"@ {
        Some(KindMarker::Function)
    } else if s == "variable"@ {
        Some(KindMarker::Variable)
    } else if s == "constant"@ {
        Some(KindMarker::Constant)
    } else if s == "string"@ {
        Some(KindMarker::String)
    } else if s == "number"@ {
        Some(KindMarker::Number)
    } else if s == "boolean"@ {
        Some(KindMarker::Boolean)
    } else if s == "array"@ {
        Some(KindMarker::Array)
    } else if s == "object"@ {
        Some(KindMarker::Object)
    } else if s == "key"@ {
        Some(KindMarker::Key)
    } else if s == "null"@ {
        Some(KindMarker::Null)
    } else if s == "enumMember"@ {
        Some(KindMarker::EnumMember)
    } else if s == "struct"@ {
        Some(KindMarker::Struct)
    } else if s == "event"@ {
        Some(KindMarker::Event)
    } else if s == "operator"@ {
        Some(KindMarker::Operator)
    } else if s == "typeParameter"@ {
        Some(KindMarker::TypeParameter)
    } else {
        None
    }
}

impl KindMarker {
    /// The numeric symbol-kind code this tag stands for.
    pub fn to_kind(&self) -> (r: u32)
        ensures
            r == kind_code_spec(*self),
    {
        match self {
            KindMarker::File => 1,
            KindMarker::Module => 2,
            KindMarker::Namespace => 3,
            KindMarker::Package => 4,
            KindMarker::Class => 5,
            KindMarker::Method => 6,
            KindMarker::Property => 7,
            KindMarker::Field => 8,
            KindMarker::Constructor => 9,
            KindMarker::Enum => 10,
            KindMarker::Interface => 11,
            KindMarker::Function => 12,
            KindMarker::Variable => 13,
            KindMarker::Constant => 14,
            KindMarker::String => 15,
            KindMarker::Number => 16,
            KindMarker::Boolean => 17,
            KindMarker::Array => 18,
            KindMarker::Object => 19,
            KindMarker::Key => 20,
            KindMarker::Null => 21,
            KindMarker::EnumMember => 22,
            KindMarker::Struct => 23,
            KindMarker::Event => 24,
            KindMarker::Operator => 25,
            KindMarker::TypeParameter => 26,
        }
    }
}

/// The tag a camelCase kind name denotes, if any.
fn kind_from_tag(s: &str) -> (r: Option<KindMarker>)
    ensures
        r == kind_of_tag(s@),
{
    if str_eq(s, "file") {
        Some(KindMarker::File)
    } else if str_eq(s, "module") {
        Some(KindMarker::Module)
    } else if str_eq(s, "namespace") {
        Some(KindMarker::Namespace)
    } else if str_eq(s, "package") {
        Some(KindMarker::Package)
    } else if str_eq(s, "class") {
        Some(KindMarker::Class)
    } else if str_eq(s, "method") {
        Some(KindMarker::Method)
    } else if str_eq(s, "property") {
        Some(KindMarker::Property)
    } else if str_eq(s, "field") {
        Some(KindMarker::Field)
    } else if str_eq(s, "constructor") {
        Some(KindMarker::Constructor)
    } else if str_eq(s, "enum") {
        Some(KindMarker::Enum)
    } else if str_eq(s, "interface") {
        Some(KindMarker::Interface)
    } else if str_eq(s, "function") {
        Some(KindMarker::Function)
    } else if str_eq(s, "variable") {
        Some(KindMarker::Variable)
    } else if str_eq(s, "constant") {
        Some(KindMarker::Constant)
    } else if str_eq(s, "string") {
        Some(KindMarker::String)
    } else if str_eq(s, "number") {
        Some(KindMarker::Number)
    } else if str_eq(s, "boolean") {
        Some(KindMarker::Boolean)
    } else if str_eq(s, "array") {
        Some(KindMarker::Array)
    } else if str_eq(s, "object") {
        Some(KindMarker::Object)
    } else if str_eq(s, "key") {
        Some(KindMarker::Key)
    } else if str_eq(s, "null") {
        Some(KindMarker::Null)
    } else if str_eq(s, "enumMember") {
        Some(KindMarker::EnumMember)
    } else if str_eq(s, "struct") {
        Some(KindMarker::Struct)
    } else if str_eq(s, "event") {
        Some(KindMarker::Event)
    } else if str_eq(s, "operator") {
        Some(KindMarker::Operator)
    } else if str_eq(s, "typeParameter") {
        Some(KindMarker::TypeParameter)
    } else {
        None
    }
}

/// The parameters a reference carries in its query.
#[derive(Clone, Copy, Debug)]
pub struct NodeRefParams {
    /// The symbol kind the reference is restricted to, if any.
    pub kind: Option<KindMarker>,
}

impl NodeRefParams {
    /// Whether the kind filter lets a symbol of the given numeric kind code
    /// through; a missing filter lets everything through.
    pub open spec fn kind_passes(&self, kind: u32) -> bool {
        match self.kind {
            None => true,
            Some(k) => kind_code_spec(k) == kind,
        }
    }

    /// Check whether this reference's kind filter matches the given numeric
    /// symbol-kind code.
    pub fn matches_kind(&self, kind: u32) -> (r: bool)
        ensures
            r == self.kind_passes(kind),
    {
        match &self.kind {
            None => true,
            Some(k) => k.to_kind() == kind,
        }
    }
}

/// What `urlencoding::decode` returns: a function of the input characters
/// alone, or nothing when the decoded bytes are no valid text.
pub uninterp spec fn percent_decoded(s: Seq<char>) -> Option<Seq<char>>;

/// Relies on `urlencoding::decode`: expands `%`-escapes and keeps every
/// other character (an unencoded `+` stays a `+`), failing only when the
/// decoded bytes are not valid text; an input without `%` comes back
/// unchanged; the result depends on the input characters alone.
#[verifier::external_body]
fn percent_decode(s: &str) -> (r: Option<String>)
    ensures
        r matches Some(d) ==> percent_decoded(s@) == Some(d@),
        r is None ==> percent_decoded(s@) is None,
        r is None ==> s@.contains('%'),
        r matches Some(d) ==> (!s@.contains('%') ==> d@ == s@),
{
    match urlencoding::decode(s) {
        Ok(d) => Some(d.into_owned()),
        Err(_) => None,
    }
}

/// `s` with every `+` replaced by a space, as form encoding reads it.
pub open spec fn plus_to_space(s: Seq<char>) -> Seq<char> {
    s.map_values(
        |c: char|
            if c == '+' {
                ' '
            } else {
                c
            },
    )
}

/// A form-encoded token, decoded: `+` means space, `%`-escapes are expanded.
pub open spec fn form_decoded(s: Seq<char>) -> Option<Seq<char>> {
    percent_decoded(plus_to_space(s))
}

/// Decode one form-encoded token.
fn form_decode(s: &str) -> (r: Option<String>)
    ensures
        form_decoded(s@) == (match r {
            Some(d) => Some(d@),
            None => None::<Seq<char>>,
        }),
{
    let n = s.unicode_len();
    let mut t = String::new();
    let mut i: usize = 0;
    while i < n
        invariant
            0 <= i <= n == s@.len(),
            t@ == plus_to_space(s@.subrange(0, i as int)),
        decreases n - i,
    {
        let c = s.get_char(i);
        if c == '+' {
            t.push(' ');
        } else {
            t.push(c);
        }
        proof {
            assert(plus_to_space(s@.subrange(0, i + 1)) =~= plus_to_space(
                s@.subrange(0, i as int),
            ).push(
                if s@[i as int] == '+' {
                    ' '
                } else {
                    s@[i as int]
                },
            ));
        }
        i += 1;
    }
    proof {
        assert(s@.subrange(0, n as int) =~= s@);
    }
    percent_decode(t.as_str())
}

/// One `key=value` pair of the query, applied to the kind parameter gathered
/// so far. An empty pair changes nothing; the only recognized key is `kind`,
/// given at most once, with a value from the closed tag set; anything else
/// fails the parse.
pub open spec fn parse_pair_spec(p: Seq<char>, acc: Option<KindMarker>) -> Option<
    Option<KindMarker>,
> {
    if p.len() == 0 {
        Some(acc)
    } else {
        let key = match find_char_spec(p, '=') {
            Some(i) => p.subrange(0, i),
            None => p,
        };
        let val = match find_char_spec(p, '=') {
            Some(i) => p.subrange(i + 1, p.len() as int),
            None => Seq::<char>::empty(),
        };
        match (form_decoded(key), form_decoded(val)) {
            (Some(k), Some(v)) => if k == "kind"@ && acc is None {
                match kind_of_tag(v) {
                    Some(m) => Some(Some(m)),
                    None => None,
                }
            } else {
                None
            },
            _ => None,
        }
    }
}

/// The whole query, split on `&`, folded pair by pair.
pub open spec fn parse_query_spec(q: Seq<char>, acc: Option<KindMarker>) -> Option<
    Option<KindMarker>,
>
    decreases q.len(),
    via parse_query_spec_dec
{
    match split_once_spec(q, '&') {
        Some((p, rest)) => match parse_pair_spec(p, acc) {
            Some(a2) => parse_query_spec(rest, a2),
            None => None,
        },
        None => parse_pair_spec(q, acc),
    }
}

#[via_fn]
proof fn parse_query_spec_dec(q: Seq<char>, acc: Option<KindMarker>) {
    lemma_find_char_props(q, '&');
}

/// The kind parameter the query denotes, or nothing when the query is not a
/// well-formed `kind=<tag>` assignment.
pub open spec fn parse_params_spec(q: Seq<char>) -> Option<Option<KindMarker>> {
    parse_query_spec(q, None)
}

/// One query pair, checked and folded into the kind gathered so far.
fn parse_pair(p: &str, acc: Option<KindMarker>) -> (r: Result<Option<KindMarker>, ParseError>)
    ensures
        match r {
            Ok(a2) => parse_pair_spec(p@, acc) == Some(a2),
            Err(e) => parse_pair_spec(p@, acc) is None && e == ParseError::Query,
        },
{
    let n = p.unicode_len();
    if n == 0 {
        return Ok(acc);
    }
    proof {
        lemma_find_char_props(p@, '=');
    }
    let (key, val) = match split_once_str(p, '=') {
        Some(kv) => kv,
        None => (p, ""),
    };
    proof {
        if split_once_spec(p@, '=') is None {
            reveal_strlit("");
            assert(""@ =~= Seq::<char>::empty());
        }
    }
    let kd = match form_decode(key) {
        Some(d) => d,
        None => {
            return Err(ParseError::Query);
        },
    };
    let vd = match form_decode(val) {
        Some(d) => d,
        None => {
            return Err(ParseError::Query);
        },
    };
    if !str_eq(kd.as_str(), "kind") {
        return Err(ParseError::Query);
    }
    if acc.is_some() {
        return Err(ParseError::Query);
    }
    match kind_from_tag(vd.as_str()) {
        Some(m) => Ok(Some(m)),
        None => Err(ParseError::Query),
    }
}

impl NodeRefParams {
    /// Parse a reference query string into its parameters: pairs split on
    /// `&`, the one recognized key being `kind` with a value from the closed
    /// tag set.
    pub fn from_str(line: &str) -> (r: Result<NodeRefParams, ParseError>)
        ensures
            match r {
                Ok(p) => parse_params_spec(line@) == Some(p.kind),
                Err(e) => parse_params_spec(line@) is None && e == ParseError::Query,
            },
    {
        let mut rest: &str = line;
        let mut acc: Option<KindMarker> = None;
        loop
            invariant
                parse_query_spec(line@, None) == parse_query_spec(rest@, acc),
            decreases rest@.len(),
        {
            proof {
                lemma_find_char_props(rest@, '&');
            }
            match split_once_str(rest, '&') {
                Some((p, r2)) => {
                    match parse_pair(p, acc) {
                        Ok(a2) => {
                            acc = a2;
                            rest = r2;
                        },
                        Err(e) => {
                            return Err(e);
                        },
                    }
                },
                None => {
                    match parse_pair(rest, acc) {
                        Ok(a2) => {
                            return Ok(NodeRefParams { kind: a2 });
                        },
                        Err(e) => {
                            return Err(e);
                        },
                    }
                },
            }
        }
    }
}

/// The meaning of a reference: its schema, path, kind filter and fragment.
pub ghost struct NodeRefSpec {
    pub schema: RefType,
    pub path: Seq<char>,
    pub kind: Option<KindMarker>,
    pub hash: Seq<char>,
}

/// `s` without a leading `//`, when it has one.
pub open spec fn strip_slashes(s: Seq<char>) -> Seq<char> {
    if s.len() >= 2 && s[0] == '/' && s[1] == '/' {
        s.skip(2)
    } else {
        s
    }
}

/// The path, query and fragment of what follows an `lsp:` schema: split
/// first on `?`, the tail of which splits on `#`; with no `?`, split
/// directly on `#`. Query and fragment default to empty.
pub open spec fn lsp_parts(rest: Seq<char>) -> (Seq<char>, Seq<char>, Seq<char>) {
    match split_once_spec(rest, '?') {
        Some((path, qf)) => match split_once_spec(qf, '#') {
            Some((q, f)) => (path, q, f),
            None => (path, qf, Seq::<char>::empty()),
        },
        None => match split_once_spec(rest, '#') {
            Some((path, f)) => (path, Seq::<char>::empty(), f),
            None => (rest, Seq::<char>::empty(), Seq::<char>::empty()),
        },
    }
}

/// What parsing a reference yields. The text is trimmed; a missing `:` is
/// the one hard syntax failure. An `lsp` reference parses its query and
/// percent-decoded fragment; a `file` reference keeps only its path; any
/// other schema yields an `Unknown` descriptor whose path is the trimmed
/// text itself.
pub open spec fn parse_ref_spec(raw: Seq<char>) -> Result<NodeRefSpec, ParseError> {
    let t = trim_spec(raw);
    match split_once_spec(t, ':') {
        None => Err(ParseError::MissingSchema),
        Some((sch, rest)) => if sch == "lsp"@ {
            let parts = lsp_parts(strip_slashes(rest));
            match parse_params_spec(parts.1) {
                Some(kind) => match percent_decoded(parts.2) {
                    Some(h) => Ok(
                        NodeRefSpec { schema: RefType::Lsp, path: parts.0, kind, hash: h },
                    ),
                    None => Err(ParseError::Fragment),
                },
                None => Err(ParseError::Query),
            }
        } else if sch == "file"@ {
            Ok(
                NodeRefSpec {
                    schema: RefType::File,
                    path: strip_slashes(rest),
                    kind: None,
                    hash: Seq::<char>::empty(),
                },
            )
        } else {
            Ok(NodeRefSpec { schema: RefType::Unknown, path: t, kind: None, hash: Seq::<char>::empty() })
        },
    }
}

/// A parsed reference descriptor.
#[derive(Debug)]
pub struct NodeRef {
    /// The recognized schema.
    pub schema: RefType,
    /// The path part; for an unrecognized schema, the whole trimmed text.
    pub path: String,
    /// The parameters of the query part.
    pub params: NodeRefParams,
    /// The decoded fragment: a `/`-delimited symbol path.
    pub hash: String,
}

/// `s` without a leading `//`, when it has one.
fn strip_slashes_str<'a>(s: &'a str) -> (r: &'a str)
    ensures
        r@ == strip_slashes(s@),
{
    let n = s.unicode_len();
    if n >= 2 && s.get_char(0) == '/' && s.get_char(1) == '/' {
        let r = s.substring_char(2, n);
        proof {
            assert(s@.subrange(2, n as int) =~= s@.skip(2));
        }
        r
    } else {
        s
    }
}

impl NodeRef {
    /// Whether this descriptor carries the given meaning.
    pub open spec fn denotes(&self, s: NodeRefSpec) -> bool {
        self.schema == s.schema && self.path@ == s.path && self.params.kind == s.kind
            && self.hash@ == s.hash
    }

    /// Whether resolving this reference queries a single document: an `lsp`
    /// reference with a path does; one with an empty path asks the whole
    /// workspace instead.
    pub fn is_document_scoped(&self) -> (r: bool)
        ensures
            r == (self.path@.len() > 0),
    {
        !self.path.as_str().is_empty()
    }

    /// Parse a reference. Only a reference without `:` is rejected outright;
    /// an unrecognized schema still yields a descriptor, marked `Unknown`,
    /// for callers to report as unresolvable.
    pub fn parse_ref(node_ref: &str) -> (r: Result<NodeRef, ParseError>)
        ensures
            r matches Ok(n) ==> (parse_ref_spec(node_ref@) matches Ok(s) && n.denotes(s)),
            r matches Err(e) ==> parse_ref_spec(node_ref@) == Err::<NodeRefSpec, ParseError>(e),
    {
        let t = trim_str(node_ref);
        let (sch, rest) = match split_once_str(t, ':') {
            Some(p) => p,
            None => {
                return Err(ParseError::MissingSchema);
            },
        };
        proof {
            reveal_strlit("");
            assert(""@ =~= Seq::<char>::empty());
        }
        if str_eq(sch, "lsp") {
            let stripped = strip_slashes_str(rest);
            let (path_s, query_s, frag_s): (&str, &str, &str) = match split_once_str(
                stripped,
                '?',
            ) {
                Some((p, qf)) => match split_once_str(qf, '#') {
                    Some((q, f)) => (p, q, f),
                    None => (p, qf, ""),
                },
                None => match split_once_str(stripped, '#') {
                    Some((p, f)) => (p, "", f),
                    None => (stripped, "", ""),
                },
            };
            let params = match NodeRefParams::from_str(query_s) {
                Ok(p) => p,
                Err(e) => {
                    return Err(e);
                },
            };
            let hash = match percent_decode(frag_s) {
                Some(h) => h,
                None => {
                    return Err(ParseError::Fragment);
                },
            };
            Ok(NodeRef { schema: RefType::Lsp, path: String::from_str(path_s), params, hash })
        } else if str_eq(sch, "file") {
            Ok(
                NodeRef {
                    schema: RefType::File,
                    path: String::from_str(strip_slashes_str(rest)),
                    params: NodeRefParams { kind: None },
                    hash: String::new(),
                },
            )
        } else {
            Ok(
                NodeRef {
                    schema: RefType::Unknown,
                    path: String::from_str(t),
                    params: NodeRefParams { kind: None },
                    hash: String::new(),
                },
            )
        }
    }
}

} // verus!
