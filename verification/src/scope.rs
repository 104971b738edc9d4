//! Where a search request points: the root, an OU container, a user or group
//! leaf, or nowhere; and the synthetic entries that stand for OUs.
use vstd::prelude::*;
use crate::dn::{
    dn_string, dn_target, dn_text, get_user_or_group_id_from_distinguished_name,
    internal_ou_of, internal_ou_to_ldap_rdn_chain, is_container_dn, is_subtree, is_subtree_spec,
    ou_values, pair_view, pairs_view, rdn_chain_of, DnTarget, UserOrGroupName,
    DEFAULT_PRIMARY_USER_OU,
};
use crate::proto::{
    attrs_view, text_attr, utf8_bytes, LdapFilter, LdapOp, LdapPartialAttribute,
    LdapSearchResultEntry, LdapSearchScope,
};
use crate::text::{copy_str, eq_ic, lower, push_str, str_eq, to_ascii_lowercase, views};

verus! {

/// What a search base points at.
#[derive(Clone, Copy, Debug, PartialEq, Eq, Structural)]
pub enum SearchScope {
    Root,
    Container,
    LeafUser,
    LeafGroup,
    Invalid,
    Unknown,
}

/// Whether a DN is an allowed OU container: its OU path is one of the allowed OUs
/// (up to ASCII case) and it holds nothing but OU pairs below the base.
pub open spec fn is_container_spec(
    dn: Seq<(Seq<char>, Seq<char>)>,
    base: Seq<(Seq<char>, Seq<char>)>,
    allowed: Seq<Seq<char>>,
) -> bool {
    (exists|i: int| 0 <= i < allowed.len() && #[trigger] eq_ic(allowed[i], internal_ou_of(dn)))
        && dn.len() == base.len() + ou_values(dn).len()
}

/// What a search for base `dn` with `scope` points at.
pub open spec fn search_scope_of(
    base: Seq<(Seq<char>, Seq<char>)>,
    dn: Seq<(Seq<char>, Seq<char>)>,
    scope: LdapSearchScope,
    allowed: Seq<Seq<char>>,
) -> SearchScope {
    if !is_subtree_spec(dn, base) {
        SearchScope::Invalid
    } else if dn == base {
        SearchScope::Root
    } else if (scope == LdapSearchScope::OneLevel || scope == LdapSearchScope::Subtree) && dn.len()
        == base.len() + 1 {
        SearchScope::Container
    } else if scope == LdapSearchScope::Base && dn.len() > base.len() && dn_target(dn_text(dn), base) is User {
        SearchScope::LeafUser
    } else if scope == LdapSearchScope::Base && dn.len() > base.len() && dn_target(dn_text(dn), base) is Group {
        SearchScope::LeafGroup
    } else if is_container_spec(dn, base, allowed) {
        SearchScope::Container
    } else {
        SearchScope::Unknown
    }
}

/// Exact equality of two DNs.
fn pairs_equal(a: &[(String, String)], b: &[(String, String)]) -> (r: bool)
    ensures
        r == (pairs_view(a@) == pairs_view(b@)),
{
    if a.len() != b.len() {
        assert(pairs_view(a@).len() != pairs_view(b@).len());
        return false;
    }
    let mut i: usize = 0;
    while i < a.len()
        invariant
            i <= a@.len(),
            a@.len() == b@.len(),
            forall|j: int| 0 <= j < i ==> pair_view(a@[j]) == pair_view(b@[j]),
        decreases a@.len() - i,
    {
        if !str_eq(a[i].0.as_str(), b[i].0.as_str()) || !str_eq(a[i].1.as_str(), b[i].1.as_str()) {
            assert(pairs_view(a@)[i as int] != pairs_view(b@)[i as int]);
            return false;
        }
        i += 1;
    }
    assert(pairs_view(a@) =~= pairs_view(b@));
    true
}

/// Decides what a search base (already parsed) points at.
pub fn get_search_scope(
    base_dn: &[(String, String)],
    dn_parts: &[(String, String)],
    ldap_scope: &LdapSearchScope,
    allowed_ous: &[String],
) -> (r: SearchScope)
    ensures
        r == search_scope_of(pairs_view(base_dn@), pairs_view(dn_parts@), *ldap_scope, views(allowed_ous@)),
{
    let ghost b = pairs_view(base_dn@);
    let ghost d = pairs_view(dn_parts@);
    if !is_subtree(dn_parts, base_dn) {
        return SearchScope::Invalid;
    }
    if pairs_equal(dn_parts, base_dn) {
        return SearchScope::Root;
    }
    if (*ldap_scope == LdapSearchScope::OneLevel || *ldap_scope == LdapSearchScope::Subtree)
        && dn_parts.len() as u128 == base_dn.len() as u128 + 1 {
        return SearchScope::Container;
    }
    if *ldap_scope == LdapSearchScope::Base && dn_parts.len() > base_dn.len() {
        let full_dn = dn_string(dn_parts);
        match get_user_or_group_id_from_distinguished_name(full_dn.as_str(), base_dn) {
            UserOrGroupName::User(_) => return SearchScope::LeafUser,
            UserOrGroupName::Group(_) => return SearchScope::LeafGroup,
            _ => {},
        }
    }
    let c = is_container_dn(dn_parts, base_dn, allowed_ous);
    proof {
        if c {
            let i = choose|i: int|
                0 <= i < allowed_ous@.len() && #[trigger] eq_ic(allowed_ous@[i]@, internal_ou_of(d));
            assert(views(allowed_ous@)[i] == allowed_ous@[i]@);
            assert(eq_ic(views(allowed_ous@)[i], internal_ou_of(d)));
        }
        if is_container_spec(d, b, views(allowed_ous@)) {
            let i = choose|i: int|
                0 <= i < views(allowed_ous@).len() && #[trigger] eq_ic(views(allowed_ous@)[i], internal_ou_of(d));
            assert(views(allowed_ous@)[i] == allowed_ous@[i]@);
            assert(eq_ic(allowed_ous@[i]@, internal_ou_of(d)));
        }
    }
    if c {
        return SearchScope::Container;
    }
    SearchScope::Unknown
}

/// The DN of the entry of an internal OU: its OU chain (leaf first), then the base.
pub open spec fn ou_entry_dn(ou: Seq<char>, base_dn_str: Seq<char>) -> Seq<char> {
    let ou_part = dn_text(rdn_chain_of(ou));
    if ou_part.len() == 0 {
        base_dn_str
    } else {
        ou_part + seq![','] + base_dn_str
    }
}

/// The `ou` value of the entry of an internal OU: its leaf level, or `people` for the empty OU.
pub open spec fn ou_entry_leaf(ou: Seq<char>) -> Seq<char> {
    if rdn_chain_of(ou).len() > 0 {
        rdn_chain_of(ou)[0].1
    } else {
        DEFAULT_PRIMARY_USER_OU@
    }
}

/// The attributes of the entry of an internal OU; the operational ones are added on request.
pub open spec fn ou_entry_attrs(ou: Seq<char>, base_dn_str: Seq<char>, include_operational: bool) -> Seq<
    (Seq<char>, Seq<Seq<u8>>),
> {
    let plain = seq![
        text_attr("objectClass"@, seq!["top"@, "organizationalUnit"@]),
        text_attr("ou"@, seq![ou_entry_leaf(ou)]),
    ];
    if include_operational {
        plain + seq![
            text_attr("hasSubordinates"@, seq!["TRUE"@]),
            text_attr("structuralObjectClass"@, seq!["organizationalUnit"@]),
            text_attr("subschemaSubentry"@, seq!["cn=Subschema,"@ + base_dn_str]),
        ]
    } else {
        plain
    }
}

/// An attribute whose values are the UTF-8 bytes of the given strings.
fn make_attr(name: &str, vals: Vec<Vec<u8>>) -> (r: LdapPartialAttribute)
    ensures
        r.atype@ == name@,
        r.vals == vals,
{
    LdapPartialAttribute { atype: copy_str(name), vals }
}

fn one_text(a: &str) -> (r: Vec<Vec<u8>>)
    ensures
        r@.map_values(|v: Vec<u8>| v@) == seq![a@].map_values(|v: Seq<char>| vstd::utf8::encode_utf8(v)),
{
    let mut r: Vec<Vec<u8>> = Vec::new();
    r.push(utf8_bytes(a));
    assert(r@.map_values(|v: Vec<u8>| v@) =~= seq![a@].map_values(
        |v: Seq<char>| vstd::utf8::encode_utf8(v),
    ));
    r
}

/// The synthetic entry that stands for an internal OU under the base DN.
pub fn make_ou_entry(ou_str: &str, base_dn_str: &str, include_operational_attributes: bool) -> (r:
    LdapSearchResultEntry)
    ensures
        r.dn@ == ou_entry_dn(ou_str@, base_dn_str@),
        attrs_view(r.attributes@) == ou_entry_attrs(ou_str@, base_dn_str@, include_operational_attributes),
{
    let rdn_chain = internal_ou_to_ldap_rdn_chain(ou_str);
    let ou_part = dn_string(rdn_chain.as_slice());
    let dn = if ou_part.as_str().is_empty() {
        copy_str(base_dn_str)
    } else {
        let mut d = copy_str(ou_part.as_str());
        crate::text::push_char(&mut d, ',');
        push_str(&mut d, base_dn_str);
        d
    };
    let leaf = if rdn_chain.len() > 0 {
        assert(pairs_view(rdn_chain@)[0] == pair_view(rdn_chain@[0]));
        copy_str(rdn_chain[0].1.as_str())
    } else {
        copy_str(DEFAULT_PRIMARY_USER_OU)
    };
    let mut classes: Vec<Vec<u8>> = Vec::new();
    classes.push(utf8_bytes("top"));
    classes.push(utf8_bytes("organizationalUnit"));
    assert(classes@.map_values(|v: Vec<u8>| v@) =~= seq!["top"@, "organizationalUnit"@].map_values(
        |v: Seq<char>| vstd::utf8::encode_utf8(v),
    ));
    let mut attributes: Vec<LdapPartialAttribute> = Vec::new();
    attributes.push(make_attr("objectClass", classes));
    attributes.push(make_attr("ou", one_text(leaf.as_str())));
    if include_operational_attributes {
        attributes.push(make_attr("hasSubordinates", one_text("TRUE")));
        attributes.push(make_attr("structuralObjectClass", one_text("organizationalUnit")));
        let mut sub = copy_str("cn=Subschema,");
        push_str(&mut sub, base_dn_str);
        attributes.push(make_attr("subschemaSubentry", one_text(sub.as_str())));
    }
    assert(attrs_view(attributes@) =~= ou_entry_attrs(ou_str@, base_dn_str@, include_operational_attributes));
    LdapSearchResultEntry { dn, attributes }
}

/// One OU entry per allowed OU, in order.
pub fn build_ou_entries(allowed_ous: &[String], base_dn_str: &str, include_operational_attributes: bool) -> (r:
    Vec<LdapOp>)
    ensures
        r@.len() == allowed_ous@.len(),
        forall|i: int|
            0 <= i < r@.len() ==> (#[trigger] r@[i] matches LdapOp::SearchResultEntry(e) && e.dn@
                == ou_entry_dn(allowed_ous@[i]@, base_dn_str@) && attrs_view(e.attributes@)
                == ou_entry_attrs(allowed_ous@[i]@, base_dn_str@, include_operational_attributes)),
{
    let mut r: Vec<LdapOp> = Vec::new();
    let mut i: usize = 0;
    while i < allowed_ous.len()
        invariant
            i <= allowed_ous@.len(),
            r@.len() == i,
            forall|j: int|
                0 <= j < i ==> (#[trigger] r@[j] matches LdapOp::SearchResultEntry(e) && e.dn@
                    == ou_entry_dn(allowed_ous@[j]@, base_dn_str@) && attrs_view(e.attributes@)
                    == ou_entry_attrs(allowed_ous@[j]@, base_dn_str@, include_operational_attributes)),
        decreases allowed_ous@.len() - i,
    {
        let e = make_ou_entry(allowed_ous[i].as_str(), base_dn_str, include_operational_attributes);
        r.push(LdapOp::SearchResultEntry(e));
        i += 1;
    }
    r
}

/// Whether the synthetic entry of OU `ou` matches a filter: equality on `ou` compares
/// the OU (without ASCII case), equality on `objectClass` accepts `organizationalUnit`
/// and `top`, presence holds for the attributes an OU entry has, `and`, `or` and `not`
/// combine as usual, and every other test lets the entry through.
pub open spec fn ou_matches(ou: Seq<char>, f: LdapFilter) -> bool
    decreases f,
{
    match f {
        LdapFilter::Equality(field, value) => {
            if lower(field@) == "ou"@ {
                lower(ou) == lower(value@)
            } else if lower(field@) == "objectclass"@ {
                lower(value@) == "organizationalunit"@ || lower(value@) == "top"@
            } else {
                true
            }
        },
        LdapFilter::Present(field) => lower(field@) == "ou"@ || lower(field@) == "objectclass"@
            || lower(field@) == "hassubordinates"@ || lower(field@) == "structuralobjectclass"@,
        LdapFilter::And(fs) => forall|i: int| 0 <= i < fs@.len() ==> ou_matches(ou, #[trigger] fs@[i]),
        LdapFilter::Or(fs) => exists|i: int| 0 <= i < fs@.len() && ou_matches(ou, #[trigger] fs@[i]),
        LdapFilter::Not(b) => !ou_matches(ou, *b),
        _ => true,
    }
}

fn lower_is(s: &String, lit: &str) -> (r: bool)
    ensures
        r == (s@ == lit@),
{
    str_eq(s.as_str(), lit)
}

/// Decides whether the entry of OU `ou_str` matches a search filter.
pub fn ou_matches_filter(ou_str: &str, filter: &LdapFilter) -> (r: bool)
    ensures
        r == ou_matches(ou_str@, *filter),
    decreases filter,
{
    match filter {
        LdapFilter::Equality(field, value) => {
            let f = to_ascii_lowercase(field.as_str());
            let v = to_ascii_lowercase(value.as_str());
            if lower_is(&f, "ou") {
                let o = to_ascii_lowercase(ou_str);
                str_eq(o.as_str(), v.as_str())
            } else if lower_is(&f, "objectclass") {
                lower_is(&v, "organizationalunit") || lower_is(&v, "top")
            } else {
                true
            }
        },
        LdapFilter::Present(field) => {
            let f = to_ascii_lowercase(field.as_str());
            lower_is(&f, "ou") || lower_is(&f, "objectclass") || lower_is(&f, "hassubordinates")
                || lower_is(&f, "structuralobjectclass")
        },
        LdapFilter::And(filters) => {
            let mut i: usize = 0;
            while i < filters.len()
                invariant
                    i <= filters@.len(),
                    forall|j: int| 0 <= j < i ==> ou_matches(ou_str@, #[trigger] filters@[j]),
                    *filter == LdapFilter::And(*filters),
                decreases filters@.len() - i,
            {
                proof {
                    let ghost fs = (*filter)->And_0;
                    assert(fs == *filters);
                    assert(decreases_to!(*filter => (*filter)->And_0));
                    assert(decreases_to!(fs => fs@));
                    assert(decreases_to!(fs@ => fs@[i as int]));
                    assert(decreases_to!(*filter => filters@[i as int]));
                }
                if !ou_matches_filter(ou_str, &filters[i]) {
                    assert(!ou_matches(ou_str@, filters@[i as int]));
                    assert(!ou_matches(ou_str@, *filter));
                    return false;
                }
                i += 1;
            }
            true
        },
        LdapFilter::Or(filters) => {
            let mut i: usize = 0;
            while i < filters.len()
                invariant
                    i <= filters@.len(),
                    forall|j: int| 0 <= j < i ==> !ou_matches(ou_str@, #[trigger] filters@[j]),
                    *filter == LdapFilter::Or(*filters),
                decreases filters@.len() - i,
            {
                proof {
                    let ghost fs = (*filter)->Or_0;
                    assert(fs == *filters);
                    assert(decreases_to!(*filter => (*filter)->Or_0));
                    assert(decreases_to!(fs => fs@));
                    assert(decreases_to!(fs@ => fs@[i as int]));
                    assert(decreases_to!(*filter => filters@[i as int]));
                }
                if ou_matches_filter(ou_str, &filters[i]) {
                    assert(ou_matches(ou_str@, filters@[i as int]));
                    assert(ou_matches(ou_str@, *filter));
                    return true;
                }
                i += 1;
            }
            false
        },
        LdapFilter::Not(f) => !ou_matches_filter(ou_str, f),
        _ => true,
    }
}

/// A `not` filter matches exactly the OU entries that its operand does not match.
pub proof fn ou_not_filter_negates(ou: Seq<char>, f: LdapFilter)
    ensures
        ou_matches(ou, LdapFilter::Not(Box::new(f))) == !ou_matches(ou, f),
{
}

} // verus!
