//! Shared configuration of the LDAP layer.
use vstd::prelude::*;
use crate::dn::{dn_error, dn_pieces, dn_string, dn_text, pairs_view, parse_distinguished_name, parse_dn};
use crate::proto::{LdapError, LdapResultCode};
use crate::text::{lemma_lower_idempotent, lower, to_ascii_lowercase};
use crate::types::AttributeName;

verus! {

/// The base DN of the directory, in parsed and in text form, and the attributes
/// that are never served for users and for groups.
pub struct LdapInfo {
    pub base_dn: Vec<(String, String)>,
    pub base_dn_str: String,
    pub ignored_user_attributes: Vec<AttributeName>,
    pub ignored_group_attributes: Vec<AttributeName>,
}

proof fn lemma_dn_pieces_lower(s: Seq<char>)
    ensures
        dn_pieces(lower(s)) == dn_pieces(s),
        parse_dn(lower(s)) == parse_dn(s),
{
    lemma_lower_idempotent(s);
}

impl LdapInfo {
    /// Parses the base DN (case is folded, items trimmed) and keeps its canonical text.
    pub fn new(
        base_dn: &str,
        ignored_user_attributes: Vec<AttributeName>,
        ignored_group_attributes: Vec<AttributeName>,
    ) -> (r: Result<LdapInfo, LdapError>)
        ensures
            match r {
                Ok(info) => {
                    &&& parse_dn(base_dn@) == Some(pairs_view(info.base_dn@))
                    &&& info.base_dn_str@ == dn_text(pairs_view(info.base_dn@))
                    &&& info.ignored_user_attributes == ignored_user_attributes
                    &&& info.ignored_group_attributes == ignored_group_attributes
                },
                Err(e) => {
                    &&& parse_dn(base_dn@) is None
                    &&& e.code == LdapResultCode::InvalidDNSyntax
                    &&& e.message@ == dn_error(dn_pieces(base_dn@))
                },
            },
    {
        let lowered = to_ascii_lowercase(base_dn);
        proof {
            lemma_dn_pieces_lower(base_dn@);
        }
        let parsed = parse_distinguished_name(lowered.as_str());
        match parsed {
            Ok(base) => {
                let base_dn_str = dn_string(base.as_slice());
                Ok(LdapInfo { base_dn: base, base_dn_str, ignored_user_attributes, ignored_group_attributes })
            },
            Err(e) => Err(e),
        }
    }
}

} // verus!
