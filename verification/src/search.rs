//! Answering search requests: what a request is answered with directly, and which
//! listings of users and groups the rest of the answer comes from.
use vstd::prelude::*;
use crate::dn::{
    direct_children, dn_target, get_direct_child_ous, get_internal_ou_from_dn_parts,
    get_user_id_from_distinguished_name, get_group_id_from_distinguished_name, internal_ou_of,
    pairs_view, parse_distinguished_name, parse_dn, DnTarget, pair_view,
};
use crate::proto::{
    attrs_view, make_search_error, make_search_success, text_attr, utf8_bytes, LdapError, LdapOp,
    LdapPartialAttribute, LdapResultCode, LdapSearchRequest, LdapSearchResultEntry, LdapSearchScope,
};
use crate::scope::{build_ou_entries, get_search_scope, make_ou_entry, ou_entry_attrs, ou_entry_dn, search_scope_of, SearchScope};
use crate::text::{copy_str, eq_ic, eq_ignore_ascii_case, lower, push_str, str_eq, to_ascii_lowercase, views};
use crate::types::{GroupName, UserId};

verus! {

/// Whether an attribute list asks for operational attributes (`+` or one of them by name).
pub open spec fn asks_operational_attrs(attrs: Seq<Seq<char>>) -> bool {
    exists|i: int| 0 <= i < attrs.len() && is_operational_request(#[trigger] attrs[i])
}

/// Whether one requested attribute is `+` or an operational attribute (without ASCII case).
pub open spec fn is_operational_request(a: Seq<char>) -> bool {
    ||| a == "+"@
    ||| eq_ic(a, "hassubordinates"@)
    ||| eq_ic(a, "structuralobjectclass"@)
    ||| eq_ic(a, "subschemasubentry"@)
    ||| eq_ic(a, "createtimestamp"@)
    ||| eq_ic(a, "modifytimestamp"@)
    ||| eq_ic(a, "pwdchangedtime"@)
    ||| eq_ic(a, "entryuuid"@)
    ||| eq_ic(a, "memberof"@)
}

fn operational_request(a: &str) -> (r: bool)
    ensures
        r == is_operational_request(a@),
{
    str_eq(a, "+") || eq_ignore_ascii_case(a, "hassubordinates") || eq_ignore_ascii_case(a, "structuralobjectclass")
        || eq_ignore_ascii_case(a, "subschemasubentry") || eq_ignore_ascii_case(a, "createtimestamp")
        || eq_ignore_ascii_case(a, "modifytimestamp") || eq_ignore_ascii_case(a, "pwdchangedtime")
        || eq_ignore_ascii_case(a, "entryuuid") || eq_ignore_ascii_case(a, "memberof")
}

/// Whether a search asks for operational attributes.
pub fn include_operational(attrs: &Vec<String>) -> (r: bool)
    ensures
        r == asks_operational_attrs(views(attrs@)),
{
    let mut i: usize = 0;
    while i < attrs.len()
        invariant
            i <= attrs@.len(),
            forall|j: int| 0 <= j < i ==> !is_operational_request(#[trigger] attrs@[j]@),
        decreases attrs@.len() - i,
    {
        if operational_request(attrs[i].as_str()) {
            assert(views(attrs@)[i as int] == attrs@[i as int]@);
            return true;
        }
        i += 1;
    }
    assert forall|j: int| 0 <= j < views(attrs@).len() implies !is_operational_request(#[trigger] views(attrs@)[j]) by {
        assert(views(attrs@)[j] == attrs@[j]@);
    }
    false
}

/// The value of the first pair whose key is `key` (without ASCII case).
pub open spec fn first_value_of(p: Seq<(Seq<char>, Seq<char>)>, key: Seq<char>) -> Option<Seq<char>>
    decreases p.len(),
{
    if p.len() == 0 {
        None
    } else if eq_ic(p[0].0, key) {
        Some(p[0].1)
    } else {
        first_value_of(p.drop_first(), key)
    }
}

fn find_value(p: &[(String, String)], key: &str) -> (r: Option<String>)
    ensures
        match (r, first_value_of(pairs_view(p@), key@)) {
            (Some(a), Some(b)) => a@ == b,
            (None, None) => true,
            _ => false,
        },
{
    let ghost pv = pairs_view(p@);
    assert(pv.skip(0) =~= pv);
    let mut i: usize = 0;
    while i < p.len()
        invariant
            i <= p@.len(),
            pv == pairs_view(p@),
            first_value_of(pv, key@) == first_value_of(pv.skip(i as int), key@),
        decreases p@.len() - i,
    {
        assert(pv.skip(i as int)[0] == pair_view(p@[i as int]));
        assert(pv.skip(i as int).drop_first() =~= pv.skip(i + 1));
        if eq_ignore_ascii_case(p[i].0.as_str(), key) {
            return Some(p[i].1.clone());
        }
        i += 1;
    }
    None
}

/// The attributes of the entry of the directory root.
pub open spec fn root_entry_attrs(base: Seq<(Seq<char>, Seq<char>)>, base_dn_str: Seq<char>) -> Seq<(Seq<char>, Seq<Seq<u8>>)> {
    let dc = match first_value_of(base, "dc"@) {
        Some(v) => v,
        None => "lldap"@,
    };
    let o = match first_value_of(base, "o"@) {
        Some(v) => v,
        None => "LLDAP Directory"@,
    };
    seq![
        text_attr("objectClass"@, seq!["top"@, "dcObject"@, "organization"@]),
        text_attr("dc"@, seq![dc]),
        text_attr("o"@, seq![o]),
        text_attr("hasSubordinates"@, seq!["TRUE"@]),
        text_attr("structuralObjectClass"@, seq!["organization"@]),
        text_attr("subschemaSubentry"@, seq!["cn=Subschema,"@ + base_dn_str]),
    ]
}

fn text_values(a: &str) -> (r: Vec<Vec<u8>>)
    ensures
        r@.map_values(|v: Vec<u8>| v@) == seq![a@].map_values(|v: Seq<char>| vstd::utf8::encode_utf8(v)),
{
    let mut r: Vec<Vec<u8>> = Vec::new();
    r.push(utf8_bytes(a));
    assert(r@.map_values(|v: Vec<u8>| v@) =~= seq![a@].map_values(|v: Seq<char>| vstd::utf8::encode_utf8(v)));
    r
}

/// The entry of the directory root (the base DN).
pub fn root_entry(base_dn: &[(String, String)], base_dn_str: &str) -> (r: LdapSearchResultEntry)
    ensures
        r.dn@ == base_dn_str@,
        attrs_view(r.attributes@) == root_entry_attrs(pairs_view(base_dn@), base_dn_str@),
{
    let dc = match find_value(base_dn, "dc") {
        Some(v) => v,
        None => copy_str("lldap"),
    };
    let o = match find_value(base_dn, "o") {
        Some(v) => v,
        None => copy_str("LLDAP Directory"),
    };
    let mut classes: Vec<Vec<u8>> = Vec::new();
    classes.push(utf8_bytes("top"));
    classes.push(utf8_bytes("dcObject"));
    classes.push(utf8_bytes("organization"));
    assert(classes@.map_values(|v: Vec<u8>| v@) =~= seq!["top"@, "dcObject"@, "organization"@].map_values(
        |v: Seq<char>| vstd::utf8::encode_utf8(v),
    ));
    let mut sub = copy_str("cn=Subschema,");
    push_str(&mut sub, base_dn_str);
    let mut attributes: Vec<LdapPartialAttribute> = Vec::new();
    attributes.push(LdapPartialAttribute { atype: copy_str("objectClass"), vals: classes });
    attributes.push(LdapPartialAttribute { atype: copy_str("dc"), vals: text_values(dc.as_str()) });
    attributes.push(LdapPartialAttribute { atype: copy_str("o"), vals: text_values(o.as_str()) });
    attributes.push(LdapPartialAttribute { atype: copy_str("hasSubordinates"), vals: text_values("TRUE") });
    attributes.push(LdapPartialAttribute { atype: copy_str("structuralObjectClass"), vals: text_values("organization") });
    attributes.push(LdapPartialAttribute { atype: copy_str("subschemaSubentry"), vals: text_values(sub.as_str()) });
    assert(attrs_view(attributes@) =~= root_entry_attrs(pairs_view(base_dn@), base_dn_str@));
    LdapSearchResultEntry { dn: copy_str(base_dn_str), attributes }
}

/// The allowed OUs strictly below `curr` at any depth (none below the root).
pub open spec fn subtree_children(curr: Seq<char>, allowed: Seq<Seq<char>>) -> Seq<Seq<char>>
    decreases allowed.len(),
{
    if allowed.len() == 0 {
        Seq::empty()
    } else {
        let r = subtree_children(curr, allowed.drop_last());
        let ou = lower(allowed.last());
        let prefix = lower(curr).push('\\');
        if curr.len() > 0 && ou.len() >= prefix.len() && ou.take(prefix.len() as int) == prefix {
            r.push(allowed.last())
        } else {
            r
        }
    }
}

fn get_subtree_child_ous(curr: &str, allowed_ous: &[String]) -> (r: Vec<String>)
    ensures
        views(r@) == subtree_children(curr@, views(allowed_ous@)),
{
    let ghost av = views(allowed_ous@);
    let mut prefix = to_ascii_lowercase(curr);
    crate::text::push_char(&mut prefix, '\\');
    let mut r: Vec<String> = Vec::new();
    let mut i: usize = 0;
    while i < allowed_ous.len()
        invariant
            i <= allowed_ous@.len(),
            av == views(allowed_ous@),
            prefix@ == lower(curr@).push('\\'),
            views(r@) == subtree_children(curr@, av.take(i as int)),
        decreases allowed_ous@.len() - i,
    {
        assert(av.take(i + 1).drop_last() =~= av.take(i as int));
        assert(av.take(i + 1).last() == allowed_ous@[i as int]@);
        let ou_l = to_ascii_lowercase(allowed_ous[i].as_str());
        if !curr.is_empty() && crate::text::starts_with(ou_l.as_str(), prefix.as_str()) {
            let ghost before = views(r@);
            r.push(allowed_ous[i].clone());
            assert(views(r@) =~= before.push(allowed_ous@[i as int]@));
        }
        i += 1;
    }
    assert(av.take(allowed_ous@.len() as int) =~= av);
    r
}

/// Which filter a listing of users or groups uses.
pub enum ListingFilter {
    /// The filter of the request.
    Request,
    /// Users whose `uid` is this one.
    Uid(UserId),
    /// Groups whose `cn` is this one.
    Cn(GroupName),
}

/// How listed entries under a container are kept: those whose DN parses and ends
/// with the (lowercased) search base, and for a one-level search only those one
/// level below it.
pub struct EntryRetention {
    pub base_lower: String,
    pub base_rdn_count: usize,
    pub one_level: bool,
}

/// The part of an answer that comes from listing users and groups.
pub struct Listing {
    /// Entries that come before the listed ones.
    pub head: Vec<LdapOp>,
    /// List users with this filter, if at all.
    pub users: Option<ListingFilter>,
    /// List groups with this filter, if at all.
    pub groups: Option<ListingFilter>,
    /// Keep only some of the listed entries.
    pub retention: Option<EntryRetention>,
    /// Answer `NoSuchObject` when the listings give no entry.
    pub not_found_when_empty: bool,
}

/// How a search request is answered.
pub enum SearchPlan {
    /// This is the whole answer.
    Answer(Vec<LdapOp>),
    /// The answer comes from listings.
    List(Listing),
}

/// Whether the responses are the OU entries of the OUs, in order.
pub open spec fn are_ou_entries(ops: Seq<LdapOp>, ous: Seq<Seq<char>>, base_dn_str: Seq<char>, include_op: bool) -> bool {
    ops.len() == ous.len() && forall|i: int|
        0 <= i < ops.len() ==> (#[trigger] ops[i] matches LdapOp::SearchResultEntry(e) && e.dn@ == ou_entry_dn(ous[i], base_dn_str)
            && attrs_view(e.attributes@) == ou_entry_attrs(ous[i], base_dn_str, include_op))
}

/// Whether a response is the end of a successful search.
pub open spec fn is_success(op: LdapOp) -> bool {
    op matches LdapOp::SearchResultDone(res) && res.code == LdapResultCode::Success && res.matcheddn@.len() == 0
        && res.message@.len() == 0 && res.referral@.len() == 0
}

/// Whether the answer is just the end of a successful search.
pub open spec fn is_empty_answer(p: SearchPlan) -> bool {
    p matches SearchPlan::Answer(v) && v@.len() == 1 && is_success(v@[0])
}

/// Whether the plan is right for a search of `request` under the base DN, with these allowed OUs.
pub open spec fn search_plan_ok(
    base: Seq<(Seq<char>, Seq<char>)>,
    base_dn_str: Seq<char>,
    request: LdapSearchRequest,
    allowed: Seq<Seq<char>>,
    p: SearchPlan,
) -> bool {
    let include_op = asks_operational_attrs(views(request.attrs@));
    match parse_dn(request.base@) {
        None => is_empty_answer(p),
        Some(dn) => match search_scope_of(base, dn, request.scope, allowed) {
            SearchScope::Root => if request.scope == LdapSearchScope::Base {
                p matches SearchPlan::Answer(v) && v@.len() == 2 && (v@[0] matches LdapOp::SearchResultEntry(e)
                    && e.dn@ == base_dn_str && attrs_view(e.attributes@) == root_entry_attrs(base, base_dn_str))
                    && is_success(v@[1])
            } else {
                p matches SearchPlan::List(l) && are_ou_entries(l.head@, direct_children(Seq::empty(), allowed), base_dn_str, include_op)
                    && (if request.scope == LdapSearchScope::Subtree {
                        (l.users matches Some(ListingFilter::Request)) && (l.groups matches Some(ListingFilter::Request))
                    } else {
                        l.users is None && l.groups is None
                    }) && l.retention is None && !l.not_found_when_empty
            },
            SearchScope::Container => {
                let internal = internal_ou_of(dn);
                if request.scope == LdapSearchScope::Base {
                    p matches SearchPlan::Answer(v) && v@.len() == 2 && are_ou_entries(v@.take(1), seq![internal], base_dn_str, include_op)
                        && is_success(v@[1])
                } else {
                    let children = if request.scope == LdapSearchScope::OneLevel {
                        direct_children(internal, allowed)
                    } else {
                        subtree_children(internal, allowed)
                    };
                    p matches SearchPlan::List(l) && are_ou_entries(l.head@, children, base_dn_str, include_op)
                        && (l.users matches Some(ListingFilter::Request)) && (l.groups matches Some(ListingFilter::Request))
                        && (l.retention matches Some(ret) && ret.base_lower@ == lower(request.base@)
                            && ret.base_rdn_count == dn.len() && ret.one_level == (request.scope == LdapSearchScope::OneLevel))
                        && !l.not_found_when_empty
                }
            },
            SearchScope::LeafUser => match dn_target(request.base@, base) {
                DnTarget::User(id) => p matches SearchPlan::List(l) && l.head@.len() == 0 && (l.users matches Some(ListingFilter::Uid(u)) && u@ == id)
                    && l.groups is None && l.retention is None && l.not_found_when_empty,
                _ => is_empty_answer(p),
            },
            SearchScope::LeafGroup => match dn_target(request.base@, base) {
                DnTarget::Group(name) => p matches SearchPlan::List(l) && l.head@.len() == 0 && l.users is None
                    && (l.groups matches Some(ListingFilter::Cn(g)) && g@ == name) && l.retention is None && l.not_found_when_empty,
                _ => is_empty_answer(p),
            },
            _ => is_empty_answer(p),
        },
    }
}

fn empty_answer() -> (p: SearchPlan)
    ensures
        is_empty_answer(p),
{
    let mut v: Vec<LdapOp> = Vec::new();
    v.push(make_search_success());
    SearchPlan::Answer(v)
}

/// Decides how a search request is answered.
pub fn do_search(
    base_dn: &[(String, String)],
    base_dn_str: &str,
    request: &LdapSearchRequest,
    allowed_ous: &[String],
) -> (p: SearchPlan)
    ensures
        search_plan_ok(pairs_view(base_dn@), base_dn_str@, *request, views(allowed_ous@), p),
{
    let dn_parts = match parse_distinguished_name(request.base.as_str()) {
        Ok(parts) => parts,
        Err(_) => return empty_answer(),
    };
    let scope = get_search_scope(base_dn, dn_parts.as_slice(), &request.scope, allowed_ous);
    let include_op = include_operational(&request.attrs);
    match scope {
        SearchScope::Root => {
            if request.scope == LdapSearchScope::Base {
                let entry = root_entry(base_dn, base_dn_str);
                let mut v: Vec<LdapOp> = Vec::new();
                v.push(LdapOp::SearchResultEntry(entry));
                v.push(make_search_success());
                return SearchPlan::Answer(v);
            }
            let top = get_direct_child_ous("", allowed_ous);
            proof {
                reveal_strlit("");
                assert(""@ =~= Seq::<char>::empty());
            }
            let head = build_ou_entries(top.as_slice(), base_dn_str, include_op);
            let subtree = request.scope == LdapSearchScope::Subtree;
            SearchPlan::List(Listing {
                head,
                users: if subtree { Some(ListingFilter::Request) } else { None },
                groups: if subtree { Some(ListingFilter::Request) } else { None },
                retention: None,
                not_found_when_empty: false,
            })
        },
        SearchScope::Container => {
            let internal_ou = get_internal_ou_from_dn_parts(dn_parts.as_slice());
            if request.scope == LdapSearchScope::Base {
                let entry = make_ou_entry(internal_ou.as_str(), base_dn_str, include_op);
                let mut v: Vec<LdapOp> = Vec::new();
                v.push(LdapOp::SearchResultEntry(entry));
                v.push(make_search_success());
                assert(v@.take(1)[0] == v@[0]);
                return SearchPlan::Answer(v);
            }
            let children = if request.scope == LdapSearchScope::OneLevel {
                get_direct_child_ous(internal_ou.as_str(), allowed_ous)
            } else {
                get_subtree_child_ous(internal_ou.as_str(), allowed_ous)
            };
            let head = build_ou_entries(children.as_slice(), base_dn_str, include_op);
            assert(pairs_view(dn_parts@).len() == dn_parts@.len());
            let retention = EntryRetention {
                base_lower: to_ascii_lowercase(request.base.as_str()),
                base_rdn_count: dn_parts.len(),
                one_level: request.scope == LdapSearchScope::OneLevel,
            };
            SearchPlan::List(Listing {
                head,
                users: Some(ListingFilter::Request),
                groups: Some(ListingFilter::Request),
                retention: Some(retention),
                not_found_when_empty: false,
            })
        },
        SearchScope::LeafUser => match get_user_id_from_distinguished_name(request.base.as_str(), base_dn, base_dn_str) {
            Ok(id) => SearchPlan::List(Listing {
                head: Vec::new(),
                users: Some(ListingFilter::Uid(id)),
                groups: None,
                retention: None,
                not_found_when_empty: true,
            }),
            Err(_) => empty_answer(),
        },
        SearchScope::LeafGroup => match get_group_id_from_distinguished_name(request.base.as_str(), base_dn, base_dn_str) {
            Ok(name) => SearchPlan::List(Listing {
                head: Vec::new(),
                users: None,
                groups: Some(ListingFilter::Cn(name)),
                retention: None,
                not_found_when_empty: true,
            }),
            Err(_) => empty_answer(),
        },
        _ => empty_answer(),
    }
}

/// Whether a listed response is kept under a retention rule: entries whose DN
/// parses, ends with the search base (without ASCII case) and, for a one-level
/// search, lies one level below it; every other response.
pub open spec fn kept_by(op: LdapOp, base_lower: Seq<char>, base_rdn_count: nat, one_level: bool) -> bool {
    match op {
        LdapOp::SearchResultEntry(e) => match parse_dn(e.dn@) {
            Some(parts) => {
                let dl = lower(e.dn@);
                let under = base_lower.len() <= dl.len() && dl.subrange(dl.len() - base_lower.len(), dl.len() as int) == base_lower;
                if one_level {
                    under && parts.len() == base_rdn_count + 1
                } else {
                    under
                }
            },
            None => false,
        },
        _ => true,
    }
}

/// The responses kept under a retention rule, in order.
pub open spec fn kept_ops(ops: Seq<LdapOp>, base_lower: Seq<char>, base_rdn_count: nat, one_level: bool) -> Seq<LdapOp>
    decreases ops.len(),
{
    if ops.len() == 0 {
        ops
    } else {
        let r = kept_ops(ops.drop_last(), base_lower, base_rdn_count, one_level);
        if kept_by(ops.last(), base_lower, base_rdn_count, one_level) {
            r.push(ops.last())
        } else {
            r
        }
    }
}

fn keep(op: &LdapOp, ret: &EntryRetention) -> (r: bool)
    ensures
        r == kept_by(*op, ret.base_lower@, ret.base_rdn_count as nat, ret.one_level),
{
    match op {
        LdapOp::SearchResultEntry(e) => match parse_distinguished_name(e.dn.as_str()) {
            Ok(parts) => {
                let dl = to_ascii_lowercase(e.dn.as_str());
                let under = crate::text::ends_with(dl.as_str(), ret.base_lower.as_str());
                if ret.one_level {
                    under && parts.len() as u128 == ret.base_rdn_count as u128 + 1
                } else {
                    under
                }
            },
            Err(_) => false,
        },
        _ => true,
    }
}

fn retain_ops(ops: Vec<LdapOp>, ret: &EntryRetention) -> (r: Vec<LdapOp>)
    ensures
        r@ == kept_ops(ops@, ret.base_lower@, ret.base_rdn_count as nat, ret.one_level),
{
    let ghost all = ops@;
    let mut ops = ops;
    let mut rev_kept: Vec<LdapOp> = Vec::new();
    let mut i: usize = ops.len();
    assert(all.take(i as int) =~= all);
    assert(rev_kept@.reverse() =~= Seq::<LdapOp>::empty());
    assert(kept_ops(all, ret.base_lower@, ret.base_rdn_count as nat, ret.one_level) + rev_kept@.reverse()
        =~= kept_ops(all, ret.base_lower@, ret.base_rdn_count as nat, ret.one_level));
    // Take the responses from the back, keeping the chosen ones; then restore the order.
    while i > 0
        invariant
            i <= all.len(),
            ops@ == all.take(i as int),
            kept_ops(all, ret.base_lower@, ret.base_rdn_count as nat, ret.one_level) == kept_ops(
                all.take(i as int),
                ret.base_lower@,
                ret.base_rdn_count as nat,
                ret.one_level,
            ) + rev_kept@.reverse(),
        decreases i,
    {
        let op = ops.pop().unwrap();
        let ghost t = all.take(i as int);
        assert(t.drop_last() =~= all.take(i - 1));
        assert(t.last() == op);
        let ghost before = rev_kept@;
        if keep(&op, ret) {
            rev_kept.push(op);
            assert(rev_kept@.reverse() =~= seq![op] + before.reverse());
        }
        i -= 1;
        assert(ops@ =~= all.take(i as int));
    }
    assert(all.take(0) =~= Seq::<LdapOp>::empty());
    let mut r: Vec<LdapOp> = Vec::new();
    let ghost target = rev_kept@.reverse();
    while rev_kept.len() > 0
        invariant
            r@ + rev_kept@.reverse() == target,
        decreases rev_kept@.len(),
    {
        let ghost before_r = r@;
        let ghost before_k = rev_kept@;
        let op = rev_kept.pop().unwrap();
        r.push(op);
        assert(before_k.reverse() =~= seq![op] + rev_kept@.reverse());
        assert(r@ + rev_kept@.reverse() =~= before_r + before_k.reverse());
    }
    assert(rev_kept@.reverse() =~= Seq::<LdapOp>::empty());
    assert(r@ =~= target);
    r
}

/// The whole answer once the listings are done: the head, the listed user entries,
/// then the listed group entries (each kept by the retention rule, if any), then
/// the end of the search; `NoSuchObject` when an empty listing means the target
/// does not exist.
pub fn finish_search(listing: Listing, user_ops: Vec<LdapOp>, group_ops: Vec<LdapOp>) -> (r: Result<Vec<LdapOp>, LdapError>)
    ensures
        listing.not_found_when_empty && user_ops@.len() + group_ops@.len() == 0 ==> (r matches Err(e)
            && e.code == LdapResultCode::NoSuchObject && e.message@.len() == 0),
        !(listing.not_found_when_empty && user_ops@.len() + group_ops@.len() == 0) ==> (r matches Ok(v) && v@.len() > 0
            && is_success(v@.last()) && v@.drop_last() == listing.head@ + match listing.retention {
                Some(ret) => kept_ops(user_ops@, ret.base_lower@, ret.base_rdn_count as nat, ret.one_level) + kept_ops(
                    group_ops@,
                    ret.base_lower@,
                    ret.base_rdn_count as nat,
                    ret.one_level,
                ),
                None => user_ops@ + group_ops@,
            }),
{
    if listing.not_found_when_empty && user_ops.len() == 0 && group_ops.len() == 0 {
        return Err(LdapError { code: LdapResultCode::NoSuchObject, message: String::new() });
    }
    let Listing { head, users: _, groups: _, retention, not_found_when_empty: _ } = listing;
    let mut results = head;
    let (mut u, mut g) = match &retention {
        Some(ret) => (retain_ops(user_ops, ret), retain_ops(group_ops, ret)),
        None => (user_ops, group_ops),
    };
    results.append(&mut u);
    results.append(&mut g);
    let ghost body = results@;
    results.push(make_search_success());
    assert(results@.drop_last() =~= body);
    Ok(results)
}

} // verus!
