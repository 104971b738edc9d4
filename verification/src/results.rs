//! The search result entries of lists of users and of groups.
use vstd::prelude::*;
use crate::attributes::{
    builtin_map, custom_keys, entry_keys, group_entry_ok, group_star, key_views, make_ldap_search_group_result_entry,
    make_ldap_search_user_result_entry, opt_user, user_entry_ok, user_star,
};
use crate::proto::LdapOp;
use crate::schema::{attr_views, AttrView, PublicSchema};
use crate::schema_manager::{asks_all, asks_operational, expanded_keys, get_schema_manager, keys_map, keys_unique, ExpandedAttributes};
use crate::text::{lower, views};
use crate::types::{Attribute, AttributeName, Group, GroupDetails, UserAndGroups, UserId};
use crate::utils::LdapInfo;

verus! {

/// Whether `ea` is the expansion of the requested attribute names `reqs` with the
/// built-in attribute map and `schema`.
pub open spec fn expansion_ok(ea: ExpandedAttributes, reqs: Seq<Seq<char>>, schema: PublicSchema) -> bool {
    &&& keys_unique(ea.attribute_keys@)
    &&& keys_map(ea.attribute_keys@) == expanded_keys(
        builtin_map(),
        attr_views(schema.0.user_attributes.attributes@),
        attr_views(schema.0.group_attributes.attributes@),
        reqs,
    )
    &&& ea.include_custom_attributes == (asks_all(reqs) || asks_operational(reqs))
    &&& ea.include_operational_attributes == asks_operational(reqs)
}

/// Whether `op` is the search result entry of `user`.
pub open spec fn user_op_ok(
    op: LdapOp,
    user: crate::types::User,
    base: Seq<char>,
    ea: ExpandedAttributes,
    groups: Option<Seq<GroupDetails>>,
    ignored: Seq<AttributeName>,
    schema: PublicSchema,
) -> bool {
    match op {
        LdapOp::SearchResultEntry(e) => user_entry_ok(e, user, base, ea, groups, ignored, schema),
        _ => false,
    }
}

/// Whether `op` is the search result entry of `group`.
pub open spec fn group_op_ok(
    op: LdapOp,
    group: Group,
    base: Seq<char>,
    ea: ExpandedAttributes,
    user_filter: Option<Seq<char>>,
    ignored: Seq<AttributeName>,
    schema: PublicSchema,
) -> bool {
    match op {
        LdapOp::SearchResultEntry(e) => group_entry_ok(e, group, base, ea, user_filter, ignored, schema),
        _ => false,
    }
}

/// The groups of a user, when they were fetched.
pub open spec fn groups_of(u: UserAndGroups) -> Option<Seq<GroupDetails>> {
    match u.groups {
        Some(g) => Some(g@),
        None => None,
    }
}

proof fn lemma_keys_map_has(v: Seq<(AttributeName, String)>, i: int)
    requires
        0 <= i < v.len(),
    ensures
        keys_map(v).dom().contains(v[i].0@),
    decreases v.len(),
{
    if i < v.len() - 1 {
        assert(v.drop_last()[i] == v[i]);
        lemma_keys_map_has(v.drop_last(), i);
    }
}

proof fn lemma_custom_keys_from(attrs: Seq<Attribute>, sa: Seq<AttrView>, j: int)
    requires
        0 <= j < custom_keys(attrs, sa).len(),
    ensures
        exists|m: int| 0 <= m < attrs.len() && custom_keys(attrs, sa)[j].0 == (#[trigger] attrs[m]).name@,
    decreases attrs.len(),
{
    let r = custom_keys(attrs.drop_last(), sa);
    if j < r.len() {
        lemma_custom_keys_from(attrs.drop_last(), sa, j);
        let m = choose|m: int| 0 <= m < attrs.drop_last().len() && r[j].0 == (#[trigger] attrs.drop_last()[m]).name@;
        assert(attrs.drop_last()[m] == attrs[m]);
    } else {
        assert(custom_keys(attrs, sa)[j].0 == attrs[attrs.len() - 1].name@);
    }
}

/// Whether no key the request expands to, nor (when custom attributes are asked
/// for) any stored attribute name of the users, is a `*` that nothing stands for.
pub open spec fn user_keys_readable(users: Seq<UserAndGroups>, reqs: Seq<Seq<char>>, schema: PublicSchema) -> bool {
    &&& forall|k: Seq<char>|
        #[trigger] expanded_keys(
            builtin_map(),
            attr_views(schema.0.user_attributes.attributes@),
            attr_views(schema.0.group_attributes.attributes@),
            reqs,
        ).dom().contains(k) ==> !user_star(schema, lower(k))
    &&& (asks_all(reqs) || asks_operational(reqs)) ==> forall|i: int, j: int|
        0 <= i < users.len() && 0 <= j < users[i].user.attributes@.len() ==> !user_star(
            schema,
            lower((#[trigger] users[i].user.attributes@[j]).name@),
        )
}

/// Whether no key the request expands to, nor (when custom attributes are asked
/// for) any stored attribute name of the groups, is a `*` that nothing stands for.
pub open spec fn group_keys_readable(groups: Seq<Group>, reqs: Seq<Seq<char>>, schema: PublicSchema) -> bool {
    &&& forall|k: Seq<char>|
        #[trigger] expanded_keys(
            builtin_map(),
            attr_views(schema.0.user_attributes.attributes@),
            attr_views(schema.0.group_attributes.attributes@),
            reqs,
        ).dom().contains(k) ==> !group_star(schema, k)
    &&& (asks_all(reqs) || asks_operational(reqs)) ==> forall|i: int, j: int|
        0 <= i < groups.len() && 0 <= j < groups[i].attributes@.len() ==> !group_star(
            schema,
            (#[trigger] groups[i].attributes@[j]).name@,
        )
}

/// A copy of an expanded request.
fn copy_expanded(ea: &ExpandedAttributes) -> (r: ExpandedAttributes)
    ensures
        key_views(r.attribute_keys@) == key_views(ea.attribute_keys@),
        r.include_custom_attributes == ea.include_custom_attributes,
        r.include_operational_attributes == ea.include_operational_attributes,
{
    let mut keys: Vec<(AttributeName, String)> = Vec::new();
    let mut i: usize = 0;
    while i < ea.attribute_keys.len()
        invariant
            i <= ea.attribute_keys@.len(),
            key_views(keys@) == key_views(ea.attribute_keys@).take(i as int),
        decreases ea.attribute_keys@.len() - i,
    {
        let ghost before = keys@;
        keys.push((ea.attribute_keys[i].0.clone(), crate::text::copy_str(ea.attribute_keys[i].1.as_str())));
        assert(key_views(keys@) =~= key_views(before).push(key_views(ea.attribute_keys@)[i as int]));
        assert(key_views(ea.attribute_keys@).take(i + 1) =~= key_views(ea.attribute_keys@).take(i as int).push(
            key_views(ea.attribute_keys@)[i as int],
        ));
        i += 1;
    }
    assert(key_views(ea.attribute_keys@).take(key_views(ea.attribute_keys@).len() as int) =~= key_views(
        ea.attribute_keys@,
    ));
    ExpandedAttributes {
        attribute_keys: keys,
        include_custom_attributes: ea.include_custom_attributes,
        include_operational_attributes: ea.include_operational_attributes,
    }
}

/// The search result entries of users, each built for the expansion of the
/// requested attribute names (the names are expanded only when there are users).
pub fn convert_users_to_ldap_op(
    users: Vec<UserAndGroups>,
    attributes: &[String],
    ldap_info: &LdapInfo,
    schema: &PublicSchema,
) -> (r: Vec<LdapOp>)
    requires
        users@.len() > 0 ==> user_keys_readable(users@, views(attributes@), *schema),
    ensures
        r@.len() == users@.len(),
        users@.len() > 0 ==> exists|ea: ExpandedAttributes|
            expansion_ok(ea, views(attributes@), *schema) && forall|i: int|
                0 <= i < users@.len() ==> user_op_ok(
                    #[trigger] r@[i],
                    users@[i].user,
                    ldap_info.base_dn_str@,
                    ea,
                    groups_of(users@[i]),
                    ldap_info.ignored_user_attributes@,
                    *schema,
                ),
{
    let mut out: Vec<LdapOp> = Vec::new();
    if users.len() == 0 {
        return out;
    }
    let ghost orig = users@;
    let ghost reqs = views(attributes@);
    let mgr = get_schema_manager();
    let ea = mgr.expand_attribute_wildcards(attributes, schema);
    let mut rest = users;
    let total: usize = rest.len();
    let mut i: usize = 0;
    while rest.len() > 0
        invariant
            i <= total,
            total == orig.len(),
            rest@ == orig.skip(i as int),
            out@.len() == i,
            expansion_ok(ea, reqs, *schema),
            reqs == views(attributes@),
            user_keys_readable(orig, reqs, *schema),
            forall|j: int|
                0 <= j < i ==> user_op_ok(
                    #[trigger] out@[j],
                    orig[j].user,
                    ldap_info.base_dn_str@,
                    ea,
                    groups_of(orig[j]),
                    ldap_info.ignored_user_attributes@,
                    *schema,
                ),
        decreases rest@.len(),
    {
        let u = rest.remove(0);
        assert(u == orig[i as int]);
        assert(rest@ =~= orig.skip(i + 1));
        let copy = copy_expanded(&ea);
        let ghost kv = entry_keys(
            copy.attribute_keys@,
            copy.include_custom_attributes,
            u.user.attributes@,
            attr_views(schema.0.user_attributes.attributes@),
        );
        assert forall|k: int| 0 <= k < kv.len() implies !user_star(*schema, lower((#[trigger] kv[k]).0)) by {
            let n = key_views(copy.attribute_keys@).len();
            if k < n {
                assert(kv[k] == key_views(ea.attribute_keys@)[k]);
                lemma_keys_map_has(ea.attribute_keys@, k);
                assert(keys_map(ea.attribute_keys@).dom().contains(ea.attribute_keys@[k].0@));
            } else {
                let sa = attr_views(schema.0.user_attributes.attributes@);
                lemma_custom_keys_from(u.user.attributes@, sa, k - n);
                let m = choose|m: int|
                    0 <= m < u.user.attributes@.len() && custom_keys(u.user.attributes@, sa)[k - n].0 == (
                    #[trigger] u.user.attributes@[m]).name@;
                assert(orig[i as int].user.attributes@[m] == u.user.attributes@[m]);
            }
        }
        let groups: Option<&[GroupDetails]> = match &u.groups {
            Some(g) => Some(g.as_slice()),
            None => None,
        };
        let e = make_ldap_search_user_result_entry(
            u.user,
            ldap_info.base_dn_str.as_str(),
            copy,
            groups,
            ldap_info.ignored_user_attributes.as_slice(),
            schema,
        );
        out.push(LdapOp::SearchResultEntry(e));
        i += 1;
    }
    out
}

/// The search result entries of groups, each built for the expansion of the
/// requested attribute names; members are restricted to `user_filter` when given.
pub fn convert_groups_to_ldap_op(
    groups: Vec<Group>,
    attributes: &[String],
    ldap_info: &LdapInfo,
    user_filter: &Option<UserId>,
    schema: &PublicSchema,
) -> (r: Vec<LdapOp>)
    requires
        groups@.len() > 0 ==> group_keys_readable(groups@, views(attributes@), *schema),
    ensures
        r@.len() == groups@.len(),
        groups@.len() > 0 ==> exists|ea: ExpandedAttributes|
            expansion_ok(ea, views(attributes@), *schema) && forall|i: int|
                0 <= i < groups@.len() ==> group_op_ok(
                    #[trigger] r@[i],
                    groups@[i],
                    ldap_info.base_dn_str@,
                    ea,
                    opt_user(*user_filter),
                    ldap_info.ignored_group_attributes@,
                    *schema,
                ),
{
    let mut out: Vec<LdapOp> = Vec::new();
    if groups.len() == 0 {
        return out;
    }
    let ghost orig = groups@;
    let ghost reqs = views(attributes@);
    let mgr = get_schema_manager();
    let ea = mgr.expand_attribute_wildcards(attributes, schema);
    let mut rest = groups;
    let total: usize = rest.len();
    let mut i: usize = 0;
    while rest.len() > 0
        invariant
            i <= total,
            total == orig.len(),
            rest@ == orig.skip(i as int),
            out@.len() == i,
            expansion_ok(ea, reqs, *schema),
            reqs == views(attributes@),
            group_keys_readable(orig, reqs, *schema),
            forall|j: int|
                0 <= j < i ==> group_op_ok(
                    #[trigger] out@[j],
                    orig[j],
                    ldap_info.base_dn_str@,
                    ea,
                    opt_user(*user_filter),
                    ldap_info.ignored_group_attributes@,
                    *schema,
                ),
        decreases rest@.len(),
    {
        let g = rest.remove(0);
        assert(g == orig[i as int]);
        assert(rest@ =~= orig.skip(i + 1));
        let copy = copy_expanded(&ea);
        let ghost kv = entry_keys(
            copy.attribute_keys@,
            copy.include_custom_attributes,
            g.attributes@,
            attr_views(schema.0.group_attributes.attributes@),
        );
        assert forall|k: int| 0 <= k < kv.len() implies !group_star(*schema, (#[trigger] kv[k]).0) by {
            let n = key_views(copy.attribute_keys@).len();
            if k < n {
                assert(kv[k] == key_views(ea.attribute_keys@)[k]);
                lemma_keys_map_has(ea.attribute_keys@, k);
                assert(keys_map(ea.attribute_keys@).dom().contains(ea.attribute_keys@[k].0@));
            } else {
                let sa = attr_views(schema.0.group_attributes.attributes@);
                lemma_custom_keys_from(g.attributes@, sa, k - n);
                let m = choose|m: int|
                    0 <= m < g.attributes@.len() && custom_keys(g.attributes@, sa)[k - n].0 == (
                    #[trigger] g.attributes@[m]).name@;
                assert(orig[i as int].attributes@[m] == g.attributes@[m]);
            }
        }
        let e = make_ldap_search_group_result_entry(
            g,
            ldap_info.base_dn_str.as_str(),
            copy,
            user_filter,
            ldap_info.ignored_group_attributes.as_slice(),
            schema,
        );
        out.push(LdapOp::SearchResultEntry(e));
        i += 1;
    }
    out
}

} // verus!
