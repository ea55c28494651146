//! The structured-payload collaborators: parsing a payload as a JSON
//! document and locating nodes in it with path expressions. The outside
//! crates do that work; the library sees documents and selectors as opaque
//! values and reads scalar node content through its own node type.
//!
//! Path expressions holding a filter form (`[?(...)]`) are refused before
//! the outside parser ever sees them: the filter machinery of the path
//! crate can abort on such paths (its parser reads a filter's numeral with
//! a panicking conversion, and its evaluator leaves order comparisons
//! unimplemented), and this library promises not to. The filter opener is
//! the only place a `?` can occur in the path grammar, so the check is a
//! single character scan.

use vstd::prelude::*;
use crate::topic::str_contains_char;
use crate::value::JsonNode;

verus! {

#[verifier::external_type_specification]
#[verifier::external_body]
pub struct ExJsonValue(serde_json::Value);

#[verifier::external_type_specification]
#[verifier::external_body]
pub struct ExSelector(jsonpath::Selector);

/// Whether a filter-free path expression is well-formed, as jsonpath's
/// parser decides it; the decision depends on the expression alone.
pub uninterp spec fn path_compiles(path: Seq<char>) -> bool;

/// Whether a text parses as a JSON document, as serde_json decides it;
/// the decision depends on the text alone.
pub uninterp spec fn json_parses(text: Seq<char>) -> bool;

/// A path expression free of filter forms: in the path grammar the
/// character `?` occurs only in the filter opener `[?(`, so its absence
/// is exactly the absence of filters.
pub open spec fn spec_filter_free(path: Seq<char>) -> bool {
    !path.contains('?')
}

/// Reports whether a path expression avoids the filter forms.
pub fn path_filter_free(path: &str) -> (r: bool)
    ensures
        r == spec_filter_free(path@),
{
    !str_contains_char(path, '?')
}

/// Relies on jsonpath's Selector::new: on a filter-free expression it
/// returns, and it succeeds exactly when the expression is well-formed.
/// The filter-free demand keeps out the one aborting path, the panicking
/// numeral conversion inside the parser's filter handling; index and
/// slice numerals are converted with proper error returns.
#[verifier::external_body]
fn selector_new(path: &str) -> (r: Option<jsonpath::Selector>)
    requires
        spec_filter_free(path@),
    ensures
        r is Some <==> path_compiles(path@),
{
    jsonpath::Selector::new(path).ok()
}

/// Relies on serde_json's from_str: parsing succeeds exactly when the
/// text is a well-formed JSON document.
#[verifier::external_body]
pub(crate) fn parse_json(text: &str) -> (r: Option<serde_json::Value>)
    ensures
        r is Some <==> json_parses(text@),
{
    serde_json::from_str(text).ok()
}

/// Why a path expression was refused.
#[derive(Clone, Copy, Debug, PartialEq, Eq, Structural)]
pub enum PathError {
    /// The expression uses a filter form, which this library refuses.
    UnsupportedFilter,
    /// The expression does not compile.
    Invalid,
}

/// A compiled selector paired with the path it was compiled from. The
/// fields are private and the one constructor checks the path, so every
/// value of this type holds a selector built from a filter-free path.
/// The view is that path.
pub struct CheckedSelector {
    selector: jsonpath::Selector,
    path: String,
}

impl View for CheckedSelector {
    type V = Seq<char>;

    closed spec fn view(&self) -> Seq<char> {
        self.path@
    }
}

impl CheckedSelector {
    /// Compiles a path expression, refusing filter forms before the
    /// outside parser sees them.
    pub fn new(path: &str) -> (r: Result<CheckedSelector, PathError>)
        ensures
            r is Ok <==> spec_filter_free(path@) && path_compiles(path@),
            r matches Ok(cs) ==> cs@ == path@,
            r matches Err(e) ==> (e is UnsupportedFilter <==> !spec_filter_free(path@)),
    {
        if !path_filter_free(path) {
            return Err(PathError::UnsupportedFilter);
        }
        match selector_new(path) {
            Some(selector) => Ok(CheckedSelector { selector, path: path.to_owned() }),
            None => Err(PathError::Invalid),
        }
    }

    /// Relies on jsonpath's Selector::find: hands back the first node the
    /// selector matches in document order, if any. Every selector this
    /// type holds comes from a filter-free path, and on such a selector
    /// the traversal returns on every document: its only aborting code,
    /// the unimplemented order comparisons and the traversal's one bare
    /// unwrap, is reached only through a filter criterion.
    #[verifier::external_body]
    pub(crate) fn select_first(&self, doc: &serde_json::Value) -> (r: Option<serde_json::Value>) {
        self.selector.find(doc).next().cloned()
    }
}

/// Relies on serde_json's Value: tells the node kinds apart and reads one
/// scalar node's content (as_i64, as_u64, and the textual form of a
/// number) into the library's node type.
#[verifier::external_body]
pub(crate) fn node_of(v: &serde_json::Value) -> (r: JsonNode) {
    match v {
        serde_json::Value::Bool(b) => JsonNode::Bool(*b),
        serde_json::Value::Number(n) => JsonNode::Number {
            repr: n.to_string(),
            as_signed: n.as_i64(),
            as_unsigned: n.as_u64(),
        },
        serde_json::Value::String(s) => JsonNode::Text(s.clone()),
        _ => JsonNode::Other,
    }
}

} // verus!
