//! The document adapters' common ground.
//!
//! Each format adapter turns raw bytes into a [`DocValue`] tree in two
//! steps: an outside parser builds its own tree, and a verified walk
//! converts that tree one level at a time. [`Shallow`] is the one-level
//! form the conversion consumes: the outside tree's root, destructured
//! into a scalar or into its immediate children.
use vstd::prelude::*;

use crate::doc::{DocValue, Node};
use crate::path::{locate, locate_spec, opt_text, PathScheme};

verus! {

/// A document format this crate can read.
#[derive(Clone, Copy, Debug, PartialEq, Eq, Structural)]
pub enum FormatKind {
    Toml,
    Json,
}

/// Why raw bytes failed to parse: not text, or not the format's grammar.
#[derive(Clone, Copy, Debug, PartialEq, Eq, Structural)]
pub enum ParseError {
    /// The bytes are not valid UTF-8 text.
    Encoding,
    /// The text does not follow the format's grammar.
    Syntax,
}

/// One level of an outside parser's tree: a scalar, or the immediate
/// children left in the parser's own representation `V`.
pub enum Shallow<V> {
    Null,
    Bool(bool),
    Int(i64),
    Str(String),
    Arr(Vec<V>),
    Table(Vec<(String, V)>),
    /// A scalar the document model does not track (a float, a date).
    Other,
}

/// Whether a destructured level agrees with a node model: scalars carry
/// the node's value, children line up pointwise with the node's children
/// under the format's own model function `node_fn`.
pub open spec fn shallow_matches<V>(r: Shallow<V>, node_fn: spec_fn(V) -> Node, n: Node) -> bool {
    match r {
        Shallow::Null => n is Null,
        Shallow::Bool(b) => n == Node::Bool(b),
        Shallow::Int(i) => n == Node::Int(i as int),
        Shallow::Str(s) => n == Node::Str(s@),
        Shallow::Arr(vs) => n is Arr && n->Arr_0.len() == vs@.len() && (forall|i: int|
            0 <= i < vs@.len() ==> #[trigger] n->Arr_0[i] == node_fn(vs@[i])),
        Shallow::Table(es) => n is Table && n->Table_0.len() == es@.len() && (forall|i: int|
            0 <= i < es@.len() ==> #[trigger] n->Table_0[i] == (es@[i].0@, node_fn(es@[i].1))),
        Shallow::Other => n is Other,
    }
}

/// What UTF-8 decoding makes of a byte string: its characters, or
/// nothing where the bytes are not valid UTF-8.
pub uninterp spec fn utf8_text(bytes: Seq<u8>) -> Option<Seq<char>>;

/// Relies on std::str::from_utf8: decodes exactly the valid UTF-8 byte
/// strings, and the characters are a function of the bytes alone.
#[verifier::external_body]
fn decode_utf8(bytes: &[u8]) -> (r: Option<String>)
    ensures
        r is Some <==> utf8_text(bytes@) is Some,
        r is Some ==> r->Some_0@ == utf8_text(bytes@)->Some_0,
{
    match std::str::from_utf8(bytes) {
        Ok(s) => Some(s.to_owned()),
        Err(_) => None,
    }
}

/// What parsing bytes under a format yields: the document tree's model,
/// or the error naming the step that refused the bytes.
pub open spec fn parse_spec(bytes: Seq<u8>, format: FormatKind) -> Result<Node, ParseError> {
    match utf8_text(bytes) {
        None => Err(ParseError::Encoding),
        Some(text) => {
            let d = match format {
                FormatKind::Toml => crate::toml::toml_doc(text),
                FormatKind::Json => crate::json::json_doc(text),
            };
            match d {
                None => Err(ParseError::Syntax),
                Some(n) => Ok(n),
            }
        },
    }
}

/// Parses raw bytes under a format: decodes them as UTF-8 text, then
/// reads the format's grammar. Pure: no state is shared or kept.
pub fn parse_document(bytes: &[u8], format: FormatKind) -> (r: Result<DocValue, ParseError>)
    ensures
        ({
            let ps = parse_spec(bytes@, format);
            match r {
                Ok(d) => ps == Ok::<Node, ParseError>(d@),
                Err(e) => ps == Err::<Node, ParseError>(e),
            }
        }),
{
    let text = match decode_utf8(bytes) {
        Some(t) => t,
        None => {
            return Err(ParseError::Encoding);
        },
    };
    let parsed = match format {
        FormatKind::Toml => crate::toml::parse_toml(text.as_str()),
        FormatKind::Json => crate::json::parse_json(text.as_str()),
    };
    match parsed {
        Some(d) => Ok(d),
        None => Err(ParseError::Syntax),
    }
}

/// Which format serves a file extension: `toml` and `json`, each the
/// one extension its format registers for.
pub open spec fn spec_format_for_extension(ext: Seq<char>) -> Option<FormatKind> {
    if ext == "toml"@ {
        Some(FormatKind::Toml)
    } else if ext == "json"@ {
        Some(FormatKind::Json)
    } else {
        None
    }
}

/// Which format serves a file extension.
pub fn format_for_extension(ext: &str) -> (r: Option<FormatKind>)
    ensures
        r == spec_format_for_extension(ext@),
{
    if crate::doc::str_eq(ext, "toml") {
        Some(FormatKind::Toml)
    } else if crate::doc::str_eq(ext, "json") {
        Some(FormatKind::Json)
    } else {
        None
    }
}

/// The addressing scheme a format's sub-paths use: dotted keys for
/// TOML, pointer segments for JSON.
pub open spec fn spec_scheme_of(format: FormatKind) -> PathScheme {
    match format {
        FormatKind::Toml => PathScheme::Dotted,
        FormatKind::Json => PathScheme::Pointer,
    }
}

/// The addressing scheme a format's sub-paths use.
#[verifier::when_used_as_spec(spec_scheme_of)]
pub fn scheme_of(format: FormatKind) -> (r: PathScheme)
    ensures
        r == spec_scheme_of(format),
{
    match format {
        FormatKind::Toml => PathScheme::Dotted,
        FormatKind::Json => PathScheme::Pointer,
    }
}

/// What a value source cut from a tree holds: the whole tree without a
/// sub-path, the addressed sub-tree with one, nothing where the
/// sub-path leads nowhere.
pub open spec fn extract_spec(n: Node, sub_path: Option<Seq<char>>, scheme: PathScheme) -> Option<
    Node,
> {
    match sub_path {
        None => Some(n),
        Some(p) => locate_spec(n, p, scheme),
    }
}

/// Cuts a value source out of a tree: the whole tree, or the sub-tree
/// an optional sub-path addresses. The result is detached — its own
/// storage — so it outlives any reparse of the document it came from.
pub fn extract(doc: &DocValue, sub_path: &Option<String>, scheme: PathScheme) -> (r: Option<
    DocValue,
>)
    ensures
        match r {
            Some(v) => extract_spec(doc@, opt_text(*sub_path), scheme) == Some(v@),
            None => extract_spec(doc@, opt_text(*sub_path), scheme) is None,
        },
{
    match sub_path {
        None => Some(doc.deep_clone()),
        Some(p) => match locate(doc, p.as_str(), scheme) {
            Some(v) => Some(v.deep_clone()),
            None => None,
        },
    }
}

} // verus!
