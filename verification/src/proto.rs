//! The LDAP protocol values that the directory logic reads and produces.
use vstd::prelude::*;
use crate::text::{copy_str, views};

verus! {

/// LDAP result codes (RFC 4511) used by the directory.
#[derive(Clone, Copy, Debug, PartialEq, Eq, Structural)]
pub enum LdapResultCode {
    Success,
    OperationsError,
    ProtocolError,
    CompareFalse,
    CompareTrue,
    ConstraintViolation,
    InvalidAttributeSyntax,
    NoSuchObject,
    InvalidDNSyntax,
    InsufficentAccessRights,
    UnwillingToPerform,
    Other,
}

/// An LDAP failure: a result code and a human-readable message.
#[derive(Clone, Debug, PartialEq, Eq)]
pub struct LdapError {
    pub code: LdapResultCode,
    pub message: String,
}

impl LdapError {
    /// The text shown for the error: its message.
    pub fn to_string(&self) -> (r: String)
        ensures
            r@ == self.message@,
    {
        self.message.clone()
    }
}

/// The outcome of an LDAP operation.
pub type LdapResult<T> = Result<T, LdapError>;

/// An attribute of a search result entry: its type and raw values.
#[derive(Clone, Debug, PartialEq, Eq)]
pub struct LdapPartialAttribute {
    pub atype: String,
    pub vals: Vec<Vec<u8>>,
}

/// One entry returned by a search.
#[derive(Clone, Debug, PartialEq, Eq)]
pub struct LdapSearchResultEntry {
    pub dn: String,
    pub attributes: Vec<LdapPartialAttribute>,
}

/// The result part of an LDAP response.
#[derive(Clone, Debug, PartialEq, Eq)]
pub struct LdapResultOp {
    pub code: LdapResultCode,
    pub matcheddn: String,
    pub message: String,
    pub referral: Vec<String>,
}

/// The LDAP responses that the directory logic produces.
#[derive(Clone, Debug, PartialEq, Eq)]
pub enum LdapOp {
    SearchResultEntry(LdapSearchResultEntry),
    SearchResultDone(LdapResultOp),
    CompareResult(LdapResultOp),
    AddResponse(LdapResultOp),
    ModifyResponse(LdapResultOp),
    ExtendedResponse(LdapResultOp),
    BindResponse(LdapResultOp),
}

/// Search scope of a request.
#[derive(Clone, Copy, Debug, PartialEq, Eq, Structural)]
pub enum LdapSearchScope {
    Base,
    OneLevel,
    Subtree,
    Children,
}

/// The parts of a substring assertion.
#[derive(Clone, Debug, PartialEq, Eq)]
pub struct SubstringFilter {
    pub initial: Option<String>,
    pub any: Vec<String>,
    pub final_: Option<String>,
}

/// An LDAP search filter (RFC 4515). The filters that searches refuse, approximate and
/// extensible matches, also carry the text that the sender's LDAP library shows for the
/// whole filter (its `{:?}`), which the refusal quotes.
#[derive(Debug, PartialEq, Eq)]
pub enum LdapFilter {
    And(Vec<LdapFilter>),
    Or(Vec<LdapFilter>),
    Not(Box<LdapFilter>),
    Equality(String, String),
    Substring(String, SubstringFilter),
    GreaterOrEqual(String, String),
    LessOrEqual(String, String),
    Present(String),
    Approx(String, String, String),
    Extensible(String),
}

/// A compare request: does entry `dn` hold value `val` for attribute `atype`?
#[derive(Clone, Debug, PartialEq, Eq)]
pub struct LdapCompareRequest {
    pub dn: String,
    pub atype: String,
    pub val: Vec<u8>,
}

/// The kind of change in a modify request.
#[derive(Clone, Copy, Debug, PartialEq, Eq, Structural)]
pub enum LdapModifyType {
    Add,
    Delete,
    Replace,
    Increment,
}

/// One change of a modify request.
#[derive(Clone, Debug, PartialEq, Eq)]
pub struct LdapModify {
    pub operation: LdapModifyType,
    pub modification: LdapPartialAttribute,
}

/// A search response that only reports the end of the search.
pub fn make_search_error(code: LdapResultCode, message: String) -> (r: LdapOp)
    ensures
        r matches LdapOp::SearchResultDone(res) && res.code == code && res.matcheddn@.len() == 0
            && res.message == message && res.referral@.len() == 0,
{
    LdapOp::SearchResultDone(
        LdapResultOp {
            code,
            matcheddn: String::new(),
            message,
            referral: Vec::new(),
        },
    )
}

/// The end of a successful search.
pub fn make_search_success() -> (r: LdapOp)
    ensures
        r matches LdapOp::SearchResultDone(res) && res.code == LdapResultCode::Success
            && res.matcheddn@.len() == 0 && res.message@.len() == 0 && res.referral@.len() == 0,
{
    make_search_error(LdapResultCode::Success, String::new())
}

/// The UTF-8 bytes of a string (`str::as_bytes`, copied).
pub fn utf8_bytes(s: &str) -> (r: Vec<u8>)
    ensures
        r@ == vstd::utf8::encode_utf8(s@),
{
    s.as_bytes_vec()
}

/// An attribute of a result entry as plain values: its type and its values.
pub open spec fn attr_view(a: LdapPartialAttribute) -> (Seq<char>, Seq<Seq<u8>>) {
    (a.atype@, a.vals@.map_values(|v: Vec<u8>| v@))
}

/// The attributes of a result entry as plain values.
pub open spec fn attrs_view(a: Seq<LdapPartialAttribute>) -> Seq<(Seq<char>, Seq<Seq<u8>>)> {
    a.map_values(|x: LdapPartialAttribute| attr_view(x))
}

/// An attribute with the UTF-8 bytes of the given texts as values.
pub open spec fn text_attr(name: Seq<char>, vals: Seq<Seq<char>>) -> (Seq<char>, Seq<Seq<u8>>) {
    (name, vals.map_values(|v: Seq<char>| vstd::utf8::encode_utf8(v)))
}

/// The views of a list of byte strings.
pub open spec fn byte_views(v: Seq<Vec<u8>>) -> Seq<Seq<u8>> {
    v.map_values(|b: Vec<u8>| b@)
}

/// The UTF-8 encodings of a list of texts.
pub open spec fn encoded(t: Seq<Seq<char>>) -> Seq<Seq<u8>> {
    t.map_values(|s: Seq<char>| vstd::utf8::encode_utf8(s))
}

/// An attribute whose values are the UTF-8 bytes of the given texts.
pub fn text_attribute(name: &str, vals: &Vec<String>) -> (r: LdapPartialAttribute)
    ensures
        attr_view(r) == text_attr(name@, views(vals@)),
{
    LdapPartialAttribute { atype: copy_str(name), vals: texts_bytes(vals) }
}

/// The UTF-8 bytes of each text.
pub fn texts_bytes(vals: &Vec<String>) -> (r: Vec<Vec<u8>>)
    ensures
        byte_views(r@) == encoded(views(vals@)),
{
    let ghost tv = views(vals@);
    let mut out: Vec<Vec<u8>> = Vec::new();
    let mut i: usize = 0;
    while i < vals.len()
        invariant
            i <= vals@.len(),
            tv == views(vals@),
            out@.map_values(|v: Vec<u8>| v@) == tv.take(i as int).map_values(|v: Seq<char>| vstd::utf8::encode_utf8(v)),
        decreases vals@.len() - i,
    {
        let b = utf8_bytes(vals[i].as_str());
        let ghost before = out@;
        out.push(b);
        assert(tv.take(i + 1) =~= tv.take(i as int).push(tv[i as int]));
        assert(out@ == before.push(b));
        assert(out@.map_values(|v: Vec<u8>| v@) =~= before.map_values(|v: Vec<u8>| v@).push(b@));
        assert(tv.take(i + 1).map_values(|v: Seq<char>| vstd::utf8::encode_utf8(v)) =~= tv.take(
            i as int,
        ).map_values(|v: Seq<char>| vstd::utf8::encode_utf8(v)).push(vstd::utf8::encode_utf8(tv[i as int])));
        i += 1;
    }
    assert(tv.take(tv.len() as int) =~= tv);
    out
}

/// A search request: where to search, how deep, for what, and which attributes to return.
#[derive(Debug, PartialEq, Eq)]
pub struct LdapSearchRequest {
    pub base: String,
    pub scope: LdapSearchScope,
    pub filter: LdapFilter,
    pub attrs: Vec<String>,
}

/// An add request: the DN of the new entry and its attributes.
#[derive(Clone, Debug, PartialEq, Eq)]
pub struct LdapAddRequest {
    pub dn: String,
    pub attributes: Vec<LdapPartialAttribute>,
}

} // verus!
