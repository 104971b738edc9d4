//! The rules of the GraphQL mutations: what a request may do, and the storage request
//! or the new organizational unit list it turns into. Loading and saving are left to
//! the caller.
use vstd::prelude::*;
use crate::ordered::{lemma_text_lt_asymmetric, lemma_text_lt_total, lemma_text_lt_transitive, text_less, text_lt};
use crate::create::CreateGroupRequest;
use crate::graphql::{deserialize_attribute, AttributeValue};
use crate::graphql_mutation::{
    consolidate_attributes, consolidated, copy_value, field_read, find_named, first_named, lookup, names_of, opt_email,
    opt_text, others, read_ok, read_succeeds, reading_order, reads_as_text, unpack_attributes, UnpackedAttributes,
};
use crate::create::CreateUserRequest;
use crate::ordered::strictly_sorted;
use crate::types::Email;
use crate::modify::UpdateUserRequest;
use crate::schema::{AttrView, PublicSchema};
use crate::schema::{attr_views, first_answering, AttributeList};
use crate::storage::PosixSettings;
use crate::text::{folded, chars_of, copy_str, lower, push_str, str_eq, to_lowercase, trim, trim_str, unicode_lower, views};
use crate::types::{Attribute, AttributeName, AttributeValue as DomainAttributeValue, Cardinality, GroupId, GroupName, UserId};

verus! {

broadcast use vstd::seq_lib::group_to_multiset_ensures;

/// Whether the texts are in increasing order (equal texts may follow each other).
pub open spec fn sorted_texts(s: Seq<Seq<char>>) -> bool {
    forall|i: int, j: int| 0 <= i < j < s.len() ==> !text_lt(#[trigger] s[j], #[trigger] s[i])
}

/// The strings in increasing order (`slice::sort` on strings): the same strings,
/// each as many times, sorted.
pub fn sort_texts(v: Vec<String>) -> (r: Vec<String>)
    ensures
        sorted_texts(views(r@)),
        views(r@).to_multiset() == views(v@).to_multiset(),
{
    let ghost vs = views(v@);
    let mut r: Vec<String> = Vec::new();
    let mut i: usize = 0;
    assert(vs.take(0) =~= Seq::<Seq<char>>::empty());
    assert(views(r@) =~= Seq::<Seq<char>>::empty());
    while i < v.len()
        invariant
            i <= v@.len(),
            vs == views(v@),
            sorted_texts(views(r@)),
            views(r@).to_multiset() == vs.take(i as int).to_multiset(),
        decreases v@.len() - i,
    {
        let x = copy_str(v[i].as_str());
        assert(x@ == vs[i as int]);
        let ghost rs = views(r@);
        let mut p: usize = 0;
        while p < r.len() && !text_less(x.as_str(), r[p].as_str())
            invariant
                rs == views(r@),
                p <= rs.len(),
                forall|k: int| 0 <= k < p ==> !text_lt(x@, #[trigger] rs[k]),
            decreases rs.len() - p,
        {
            assert(rs[p as int] == r@[p as int]@);
            p += 1;
        }
        proof {
            if (p as int) < rs.len() {
                assert(rs[p as int] == r@[p as int]@);
                assert(text_lt(x@, rs[p as int]));
            }
        }
        r.insert(p, x);
        proof {
            let t = views(r@);
            assert(t =~= rs.insert(p as int, vs[i as int]));
            assert forall|a: int, b: int| 0 <= a < b < t.len() implies !text_lt(#[trigger] t[b], #[trigger] t[a]) by {
                if b < p {
                    assert(t[a] == rs[a] && t[b] == rs[b]);
                } else if b == p {
                    assert(t[a] == rs[a]);
                } else if a == p {
                    assert(t[b] == rs[b - 1]);
                    if text_lt(rs[b - 1], vs[i as int]) {
                        lemma_text_lt_transitive(rs[b - 1], vs[i as int], rs[p as int]);
                        crate::ordered::lemma_text_lt_irreflexive(rs[p as int]);
                    }
                } else if a < p {
                    assert(t[a] == rs[a] && t[b] == rs[b - 1]);
                } else {
                    assert(t[a] == rs[a - 1] && t[b] == rs[b - 1]);
                }
            }
            vstd::seq_lib::to_multiset_insert(rs, p as int, vs[i as int]);
            assert(vs.take(i + 1) =~= vs.take(i as int).push(vs[i as int]));
        }
        i += 1;
    }
    assert(vs.take(v@.len() as int) =~= vs);
    r
}

/// Whether a character may stand in an OU name: ASCII letters and digits, `-` and `_`.
pub open spec fn ou_char(c: char) -> bool {
    ('a' <= c && c <= 'z') || ('A' <= c && c <= 'Z') || ('0' <= c && c <= '9') || c == '-' || c == '_'
}

/// Whether a text is a valid level of an OU name: 2 to 64 characters, each allowed,
/// neither the first nor the last a `-` or `_`.
pub open spec fn ou_level_ok(s: Seq<char>) -> bool {
    &&& 2 <= s.len() <= 64
    &&& forall|k: int| 0 <= k < s.len() ==> ou_char(#[trigger] s[k])
    &&& s[0] != '-' && s[0] != '_'
    &&& s.last() != '-' && s.last() != '_'
}

fn ou_level_valid(s: &str) -> (r: bool)
    ensures
        r == ou_level_ok(s@),
{
    let v = chars_of(s);
    if v.len() < 2 || v.len() > 64 {
        return false;
    }
    let mut k: usize = 0;
    while k < v.len()
        invariant
            v@ == s@,
            k <= v@.len(),
            forall|j: int| 0 <= j < k ==> ou_char(#[trigger] v@[j]),
        decreases v@.len() - k,
    {
        let c = v[k];
        if !(('a' <= c && c <= 'z') || ('A' <= c && c <= 'Z') || ('0' <= c && c <= '9') || c == '-' || c == '_') {
            return false;
        }
        k += 1;
    }
    let first = v[0];
    let last = v[v.len() - 1];
    first != '-' && first != '_' && last != '-' && last != '_'
}

/// The index of the first `\` of a text, if any.
pub open spec fn first_backslash(s: Seq<char>) -> Option<int> {
    if exists|k: int| 0 <= k < s.len() && s[k] == '\\' {
        Some(choose|k: int| 0 <= k < s.len() && s[k] == '\\' && forall|j: int| 0 <= j < k ==> s[j] != '\\')
    } else {
        None
    }
}

/// A name split at its first `\` (`splitn(2, '\\')`): the primary level, and the
/// rest when there is a `\`.
pub open spec fn split_levels(s: Seq<char>) -> (Seq<char>, Option<Seq<char>>) {
    match first_backslash(s) {
        Some(k) => (s.take(k), Some(s.skip(k + 1))),
        None => (s, None),
    }
}

proof fn lemma_first_backslash(s: Seq<char>, k: int)
    requires
        0 <= k < s.len(),
        s[k] == '\\',
        forall|j: int| 0 <= j < k ==> s[j] != '\\',
    ensures
        first_backslash(s) == Some(k),
{
    assert(exists|m: int| 0 <= m < s.len() && s[m] == '\\');
    let c = choose|m: int| 0 <= m < s.len() && s[m] == '\\' && forall|j: int| 0 <= j < m ==> s[j] != '\\';
    assert(0 <= c < s.len() && s[c] == '\\' && forall|j: int| 0 <= j < c ==> s[j] != '\\') by {
        assert(0 <= k < s.len() && s[k] == '\\' && forall|j: int| 0 <= j < k ==> s[j] != '\\');
    }
    if c < k {
        assert(s[c] != '\\');
    }
    if k < c {
        assert(s[k] != '\\');
    }
}

/// Splits a name at its first `\`.
fn split_levels_of(s: &str) -> (r: (String, Option<String>))
    ensures
        r.0@ == split_levels(s@).0,
        match (r.1, split_levels(s@).1) {
            (Some(a), Some(b)) => a@ == b,
            (None, None) => true,
            _ => false,
        },
{
    let v = chars_of(s);
    let mut k: usize = 0;
    while k < v.len() && v[k] != '\\'
        invariant
            v@ == s@,
            k <= v@.len(),
            forall|j: int| 0 <= j < k ==> v@[j] != '\\',
        decreases v@.len() - k,
    {
        k += 1;
    }
    if k == v.len() {
        proof {
            assert(!(exists|m: int| 0 <= m < s@.len() && s@[m] == '\\'));
        }
        (copy_str(s), None)
    } else {
        proof {
            lemma_first_backslash(s@, k as int);
        }
        let mut a = crate::text::empty_string();
        crate::text::push_chars(&mut a, &v, 0, k);
        let mut b = crate::text::empty_string();
        crate::text::push_chars(&mut b, &v, k + 1, v.len());
        assert(a@ =~= s@.take(k as int));
        assert(b@ =~= s@.skip(k + 1));
        (a, Some(b))
    }
}

/// Whether a lowercased name is one of the built-in OUs (`all`, `people`, `groups`).
pub open spec fn builtin_ou(lowered: Seq<char>) -> bool {
    lowered == "all"@ || lowered == "people"@ || lowered == "groups"@
}

fn is_builtin_ou(lowered: &str) -> (r: bool)
    ensures
        r == builtin_ou(lowered@),
{
    str_eq(lowered, "all") || str_eq(lowered, "people") || str_eq(lowered, "groups")
}

/// Whether one of the OUs equals `name` once both are lowercased.
pub open spec fn has_ou(current: Seq<Seq<char>>, name: Seq<char>) -> bool {
    exists|i: int| 0 <= i < current.len() && unicode_lower(#[trigger] current[i]) == unicode_lower(name)
}

fn holds_ou(current: &Vec<String>, name: &str) -> (r: bool)
    ensures
        r == has_ou(views(current@), name@),
{
    let lname = to_lowercase(name);
    let mut i: usize = 0;
    while i < current.len()
        invariant
            i <= current@.len(),
            lname@ == unicode_lower(name@),
            forall|j: int| 0 <= j < i ==> unicode_lower(#[trigger] views(current@)[j]) != unicode_lower(name@),
        decreases current@.len() - i,
    {
        let l = to_lowercase(current[i].as_str());
        assert(views(current@)[i as int] == current@[i as int]@);
        if str_eq(l.as_str(), lname.as_str()) {
            return true;
        }
        i += 1;
    }
    false
}

/// Why an OU named `name` cannot be added to the OUs `current`, if it cannot.
pub open spec fn create_ou_error(name: Seq<char>, current: Seq<Seq<char>>) -> Option<Seq<char>> {
    let lowered = unicode_lower(trim(name));
    let (primary, secondary) = split_levels(name);
    if lowered.len() == 0 || builtin_ou(lowered) {
        Some("Invalid OU name (cannot be empty or built-in)"@)
    } else if !ou_level_ok(primary) {
        Some(
            "Invalid primary OU name: 2-64 characters, only a-z A-Z 0-9 - _ allowed. No spaces or special characters."@,
        )
    } else if secondary matches Some(sec) && !ou_level_ok(sec) {
        Some(
            "Invalid secondary OU name: 2-64 characters, only a-z A-Z 0-9 - _ allowed. No spaces or special characters."@,
        )
    } else if has_ou(current, name) {
        Some("Organizational Unit '"@ + name + "' already exists"@)
    } else if secondary is Some && !has_ou(current, primary) {
        Some("Primary OU '"@ + primary + "' does not exist. Create it first before adding a secondary."@)
    } else {
        None
    }
}

/// The OU list after adding the OU `name` (a primary OU, or `primary\secondary`
/// under an existing primary one): the list with the name, sorted; or why the name
/// cannot be added.
pub fn create_ou(name: &str, current_ous: Vec<String>) -> (r: Result<Vec<String>, String>)
    ensures
        match create_ou_error(name@, views(current_ous@)) {
            Some(m) => r matches Err(e) && e@ == m,
            None => r matches Ok(v) && sorted_texts(views(v@)) && views(v@).to_multiset() == views(
                current_ous@,
            ).push(name@).to_multiset(),
        },
{
    let trimmed = trim_str(name);
    let lowered = to_lowercase(trimmed.as_str());
    if lowered.as_str().is_empty() || is_builtin_ou(lowered.as_str()) {
        return Err(copy_str("Invalid OU name (cannot be empty or built-in)"));
    }
    let (primary, secondary) = split_levels_of(name);
    if !ou_level_valid(primary.as_str()) {
        return Err(
            copy_str(
                "Invalid primary OU name: 2-64 characters, only a-z A-Z 0-9 - _ allowed. No spaces or special characters.",
            ),
        );
    }
    match &secondary {
        Some(sec) => {
            if !ou_level_valid(sec.as_str()) {
                return Err(
                    copy_str(
                        "Invalid secondary OU name: 2-64 characters, only a-z A-Z 0-9 - _ allowed. No spaces or special characters.",
                    ),
                );
            }
        },
        None => {},
    }
    if holds_ou(&current_ous, name) {
        let mut m = copy_str("Organizational Unit '");
        push_str(&mut m, name);
        push_str(&mut m, "' already exists");
        return Err(m);
    }
    if secondary.is_some() && !holds_ou(&current_ous, primary.as_str()) {
        let mut m = copy_str("Primary OU '");
        push_str(&mut m, primary.as_str());
        push_str(&mut m, "' does not exist. Create it first before adding a secondary.");
        return Err(m);
    }
    let mut list = current_ous;
    let ghost before = views(list@);
    list.push(copy_str(name));
    assert(views(list@) =~= before.push(name@));
    Ok(sort_texts(list))
}

/// Whether an OU is a secondary OU of the (lowercased) primary OU `lowered`.
pub open spec fn is_child_of(ou: Seq<char>, lowered: Seq<char>) -> bool {
    split_levels(ou).1 is Some && unicode_lower(split_levels(ou).0) == lowered
}

/// The OUs that are not `lowered` once lowercased, in order.
pub open spec fn without_ou(current: Seq<Seq<char>>, lowered: Seq<char>) -> Seq<Seq<char>>
    decreases current.len(),
{
    if current.len() == 0 {
        current
    } else {
        let r = without_ou(current.drop_last(), lowered);
        if unicode_lower(current.last()) == lowered {
            r
        } else {
            r.push(current.last())
        }
    }
}

/// Why the OU `name` cannot be removed from the OUs `current`, if it cannot.
pub open spec fn delete_ou_error(name: Seq<char>, current: Seq<Seq<char>>) -> Option<Seq<char>> {
    let lowered = unicode_lower(trim(name));
    if lowered == "people"@ || lowered == "groups"@ || lowered == "all"@ {
        Some("Cannot delete built-in OU 'people', 'groups', or 'All'"@)
    } else if exists|i: int| 0 <= i < current.len() && is_child_of(#[trigger] current[i], lowered) {
        Some(
            "Cannot delete primary OU '"@ + name
                + "' because it still contains secondary OUs. Delete the secondary OUs first."@,
        )
    } else {
        None
    }
}

/// The OU list after removing the OU `name` (compared once lowercased and trimmed);
/// built-in OUs and primary OUs that still hold secondary ones cannot be removed.
pub fn delete_ou(name: &str, current_ous: Vec<String>) -> (r: Result<Vec<String>, String>)
    ensures
        match delete_ou_error(name@, views(current_ous@)) {
            Some(m) => r matches Err(e) && e@ == m,
            None => r matches Ok(v) && views(v@) == without_ou(views(current_ous@), unicode_lower(trim(name@))),
        },
{
    let trimmed = trim_str(name);
    let lowered = to_lowercase(trimmed.as_str());
    if str_eq(lowered.as_str(), "people") || str_eq(lowered.as_str(), "groups") || str_eq(lowered.as_str(), "all") {
        return Err(copy_str("Cannot delete built-in OU 'people', 'groups', or 'All'"));
    }
    let ghost cur = views(current_ous@);
    let mut i: usize = 0;
    while i < current_ous.len()
        invariant
            i <= current_ous@.len(),
            cur == views(current_ous@),
            lowered@ == unicode_lower(trim(name@)),
            !(lowered@ == "people"@ || lowered@ == "groups"@ || lowered@ == "all"@),
            forall|j: int| 0 <= j < i ==> !is_child_of(#[trigger] cur[j], lowered@),
        decreases current_ous@.len() - i,
    {
        let (primary, secondary) = split_levels_of(current_ous[i].as_str());
        assert(cur[i as int] == current_ous@[i as int]@);
        if secondary.is_some() {
            let lp = to_lowercase(primary.as_str());
            if str_eq(lp.as_str(), lowered.as_str()) {
                assert(is_child_of(cur[i as int], lowered@));
                let mut m = copy_str("Cannot delete primary OU '");
                push_str(&mut m, name);
                push_str(&mut m, "' because it still contains secondary OUs. Delete the secondary OUs first.");
                return Err(m);
            }
        }
        i += 1;
    }
    let mut kept: Vec<String> = Vec::new();
    let mut k: usize = 0;
    while k < current_ous.len()
        invariant
            k <= current_ous@.len(),
            cur == views(current_ous@),
            views(kept@) == without_ou(cur.take(k as int), lowered@),
        decreases current_ous@.len() - k,
    {
        assert(cur.take(k + 1).drop_last() =~= cur.take(k as int));
        assert(cur.take(k + 1).last() == current_ous@[k as int]@);
        let l = to_lowercase(current_ous[k].as_str());
        if !str_eq(l.as_str(), lowered.as_str()) {
            let ghost before = views(kept@);
            kept.push(copy_str(current_ous[k].as_str()));
            assert(views(kept@) =~= before.push(current_ous@[k as int]@));
        }
        k += 1;
    }
    assert(cur.take(cur.len() as int) =~= cur);
    Ok(kept)
}

/// A change of a group.
pub struct UpdateGroupRequest {
    pub group_id: GroupId,
    pub display_name: Option<GroupName>,
    pub delete_attributes: Vec<AttributeName>,
    pub insert_attributes: Vec<Attribute>,
}

/// The attribute that puts an entry in the OU `ou`.
pub open spec fn is_ou_assignment(a: Attribute, ou: Seq<char>) -> bool {
    &&& a.name@ == "ou"@
    &&& (a.value matches DomainAttributeValue::String(Cardinality::Singleton(s)) && s@ == ou)
}

fn ou_assignment(ou: &str) -> (r: Attribute)
    ensures
        is_ou_assignment(r, ou@),
{
    proof {
        reveal_strlit("ou");
        crate::text::lemma_lower_len("ou"@);
        assert(lower("ou"@) =~= "ou"@);
    }
    Attribute { name: AttributeName::new("ou"), value: DomainAttributeValue::String(Cardinality::Singleton(copy_str(ou))) }
}

/// Refuses moving users (`users`) or groups to the built-in OU `All`.
pub fn check_ou_move_target(new_ou: &str, users: bool) -> (r: Result<(), String>)
    ensures
        unicode_lower(trim(new_ou@)) == "all"@ ==> (r matches Err(m) && m@ == if users {
            "Cannot move users to built-in OU 'All'"@
        } else {
            "Cannot move groups to built-in OU 'All'"@
        }),
        unicode_lower(trim(new_ou@)) != "all"@ ==> r is Ok,
{
    let t = trim_str(new_ou);
    let l = to_lowercase(t.as_str());
    if str_eq(l.as_str(), "all") {
        if users {
            Err(copy_str("Cannot move users to built-in OU 'All'"))
        } else {
            Err(copy_str("Cannot move groups to built-in OU 'All'"))
        }
    } else {
        Ok(())
    }
}

/// The change that moves user `user_id` to the OU `new_ou`.
pub fn user_ou_update(user_id: &str, new_ou: &str) -> (r: UpdateUserRequest)
    ensures
        r.user_id@ == lower(user_id@),
        r.email is None,
        r.display_name is None,
        r.delete_attributes@.len() == 0,
        r.insert_attributes@.len() == 1,
        is_ou_assignment(r.insert_attributes@[0], new_ou@),
{
    let mut inserts: Vec<Attribute> = Vec::new();
    inserts.push(ou_assignment(new_ou));
    UpdateUserRequest {
        user_id: UserId::new(user_id),
        email: None,
        display_name: None,
        delete_attributes: Vec::new(),
        insert_attributes: inserts,
    }
}

/// The change that moves group `group_id` to the OU `new_ou`.
pub fn group_ou_update(group_id: i32, new_ou: &str) -> (r: UpdateGroupRequest)
    ensures
        r.group_id == GroupId(group_id),
        r.display_name is None,
        r.delete_attributes@.len() == 0,
        r.insert_attributes@.len() == 1,
        is_ou_assignment(r.insert_attributes@[0], new_ou@),
{
    let mut inserts: Vec<Attribute> = Vec::new();
    inserts.push(ou_assignment(new_ou));
    UpdateGroupRequest {
        group_id: GroupId(group_id),
        display_name: None,
        delete_attributes: Vec::new(),
        insert_attributes: inserts,
    }
}

/// Refuses an administrator's removal of their own membership of the admin group (id 1).
pub fn check_group_membership_removal(current_user: &UserId, user_id: &UserId, group_id: i32) -> (r: Result<(), String>)
    ensures
        current_user@ == user_id@ && group_id == 1 ==> (r matches Err(m) && m@
            == "Cannot remove admin rights for current user"@),
        !(current_user@ == user_id@ && group_id == 1) ==> r is Ok,
{
    if str_eq(current_user.as_str(), user_id.as_str()) && group_id == 1 {
        Err(copy_str("Cannot remove admin rights for current user"))
    } else {
        Ok(())
    }
}

/// The names of groups, as written.
pub open spec fn group_name_views(s: Seq<GroupName>) -> Seq<Seq<char>> {
    s.map_values(|g: GroupName| g@)
}

/// Whether one of the groups has the name `name`, ignoring case as group names do.
pub open spec fn in_group_named(groups: Seq<Seq<char>>, name: Seq<char>) -> bool {
    exists|i: int| 0 <= i < groups.len() && folded(#[trigger] groups[i]) == folded(name)
}

/// Whether adding a user to the group `target` is refused: a member of `lldap_disabled`
/// cannot join `lldap_admin`, nor a member of `lldap_admin` join `lldap_disabled`.
pub open spec fn membership_addition_refused(groups: Seq<Seq<char>>, target: Seq<char>) -> bool {
    ||| (target == "lldap_admin"@ && in_group_named(groups, "lldap_disabled"@))
    ||| (target == "lldap_disabled"@ && in_group_named(groups, "lldap_admin"@))
}

fn member_of_named(groups: &[GroupName], name: &str) -> (r: bool)
    ensures
        r == in_group_named(group_name_views(groups@), name@),
{
    let target = GroupName::new(name);
    let mut i: usize = 0;
    while i < groups.len()
        invariant
            i <= groups@.len(),
            target@ == name@,
            forall|j: int| 0 <= j < i ==> folded(#[trigger] group_name_views(groups@)[j]) != folded(name@),
        decreases groups@.len() - i,
    {
        if groups[i] == target {
            assert(group_name_views(groups@)[i as int] == groups@[i as int]@);
            return true;
        }
        assert(group_name_views(groups@)[i as int] == groups@[i as int]@);
        i += 1;
    }
    false
}

/// Checks that a user in the groups `user_groups` may be added to the group `target`.
pub fn check_group_membership_addition(user_groups: &[GroupName], target: &GroupName) -> (r: Result<(), String>)
    ensures
        membership_addition_refused(group_name_views(user_groups@), target@) ==> (r matches Err(m) && m@
            == "A user cannot be in both lldap_admin and lldap_disabled groups"@),
        !membership_addition_refused(group_name_views(user_groups@), target@) ==> r is Ok,
{
    let has_admin = member_of_named(user_groups, "lldap_admin");
    let has_disabled = member_of_named(user_groups, "lldap_disabled");
    let to_admin = str_eq(target.as_str(), "lldap_admin");
    let to_disabled = str_eq(target.as_str(), "lldap_disabled");
    if (to_admin && has_disabled) || (to_disabled && has_admin) {
        Err(copy_str("A user cannot be in both lldap_admin and lldap_disabled groups"))
    } else {
        Ok(())
    }
}

/// Whether the groups include both `lldap_admin` and `lldap_disabled` (by their names).
pub open spec fn in_admin_and_disabled(groups: Seq<Seq<char>>) -> bool {
    (exists|i: int| 0 <= i < groups.len() && #[trigger] groups[i] == "lldap_admin"@)
        && (exists|i: int| 0 <= i < groups.len() && #[trigger] groups[i] == "lldap_disabled"@)
}

/// A user is never put in both `lldap_admin` and `lldap_disabled`: an addition that the
/// check lets through, to a user who was not in both, leaves the user not in both.
pub proof fn membership_addition_keeps_admin_and_disabled_apart(groups: Seq<Seq<char>>, target: Seq<char>)
    requires
        !in_admin_and_disabled(groups),
        !membership_addition_refused(groups, target),
    ensures
        !in_admin_and_disabled(groups.push(target)),
{
    reveal_strlit("lldap_admin");
    reveal_strlit("lldap_disabled");
    let g2 = groups.push(target);
    assert("lldap_admin"@ != "lldap_disabled"@) by {
        assert("lldap_admin"@[6] != "lldap_disabled"@[6]);
    }
    if in_admin_and_disabled(g2) {
        let i = choose|i: int| 0 <= i < g2.len() && #[trigger] g2[i] == "lldap_admin"@;
        let j = choose|j: int| 0 <= j < g2.len() && #[trigger] g2[j] == "lldap_disabled"@;
        if i == groups.len() {
            assert(j < groups.len());
            assert(groups[j] == "lldap_disabled"@);
            assert(in_group_named(groups, "lldap_disabled"@));
        } else if j == groups.len() {
            assert(groups[i] == "lldap_admin"@);
            assert(in_group_named(groups, "lldap_admin"@));
        } else {
            assert(groups[i] == "lldap_admin"@);
            assert(groups[j] == "lldap_disabled"@);
        }
    }
}

/// The groups of a user after adding the user to the group `target`: refused, with the
/// groups unchanged, when that would put the user in both `lldap_admin` and
/// `lldap_disabled`; otherwise the groups with `target` added.
pub fn add_user_to_group(user_groups: Vec<GroupName>, target: GroupName) -> (r: Result<Vec<GroupName>, String>)
    ensures
        membership_addition_refused(group_name_views(user_groups@), target@) ==> (r matches Err(m) && m@
            == "A user cannot be in both lldap_admin and lldap_disabled groups"@),
        !membership_addition_refused(group_name_views(user_groups@), target@) ==> (r matches Ok(v)
            && group_name_views(v@) == group_name_views(user_groups@).push(target@)),
{
    match check_group_membership_addition(user_groups.as_slice(), &target) {
        Err(m) => Err(m),
        Ok(()) => {
            let mut v = user_groups;
            let ghost before = v@;
            v.push(target);
            assert(group_name_views(v@) =~= group_name_views(before).push(target@));
            Ok(v)
        },
    }
}

/// Adding users to groups never puts a user in both `lldap_admin` and `lldap_disabled`:
/// from groups without both, an addition either is refused or gives groups without both.
pub proof fn add_user_to_group_keeps_admin_and_disabled_apart(user_groups: Seq<GroupName>, target: GroupName, r: Result<Vec<GroupName>, String>)
    requires
        !in_admin_and_disabled(group_name_views(user_groups)),
        membership_addition_refused(group_name_views(user_groups), target@) ==> (r matches Err(m) && m@
            == "A user cannot be in both lldap_admin and lldap_disabled groups"@),
        !membership_addition_refused(group_name_views(user_groups), target@) ==> (r matches Ok(v)
            && group_name_views(v@) == group_name_views(user_groups).push(target@)),
    ensures
        r matches Ok(v) ==> !in_admin_and_disabled(group_name_views(v@)),
{
    if !membership_addition_refused(group_name_views(user_groups), target@) {
        membership_addition_keeps_admin_and_disabled_apart(group_name_views(user_groups), target@);
    }
}

/// Whether a group with the name `name`, ignoring case, is among the existing groups:
/// group names are unique up to case, so such a name cannot be taken again.
pub fn group_name_taken(existing: &[GroupName], name: &GroupName) -> (r: bool)
    ensures
        r == in_group_named(group_name_views(existing@), name@),
{
    member_of_named(existing, name.as_str())
}

/// Refuses the deletion of the user who asks for it.
pub fn check_user_deletion(current_user: &UserId, user_id: &UserId) -> (r: Result<(), String>)
    ensures
        current_user@ == user_id@ ==> (r matches Err(m) && m@ == "Cannot delete current user"@),
        current_user@ != user_id@ ==> r is Ok,
{
    if str_eq(current_user.as_str(), user_id.as_str()) {
        Err(copy_str("Cannot delete current user"))
    } else {
        Ok(())
    }
}

/// Refuses the deletion of the admin group (id 1).
pub fn check_group_deletion(group_id: i32) -> (r: Result<(), String>)
    ensures
        group_id == 1 ==> (r matches Err(m) && m@ == "Cannot delete admin group"@),
        group_id != 1 ==> r is Ok,
{
    if group_id == 1 {
        Err(copy_str("Cannot delete admin group"))
    } else {
        Ok(())
    }
}

/// The POSIX settings as an administrator sends them.
pub struct PosixSettingsInput {
    pub user_uidnumber_assign: bool,
    pub user_uidnumber_start: i32,
    pub user_uidnumber_max: i32,
    pub user_gidnumber_assign: bool,
    pub user_gidnumber_start: i32,
    pub user_loginshell_assign: bool,
    pub user_loginshell_default: String,
    pub user_homedirectory_assign: bool,
    pub user_homedirectory_prefix: String,
    pub group_gidnumber_assign: bool,
    pub group_gidnumber_start: i32,
    pub group_gidnumber_max: i32,
}

/// Why POSIX settings are refused, if they are: each enabled assignment must have
/// its numbers between 3000 and 60000.
pub open spec fn posix_settings_error(i: PosixSettingsInput) -> Option<Seq<char>> {
    let out = |v: i32| v < 3000 || v > 60000;
    if i.user_uidnumber_assign && (out(i.user_uidnumber_start) || out(i.user_uidnumber_max)) {
        Some("user_uidnumber must be between 3000 and 60000"@)
    } else if i.user_gidnumber_assign && out(i.user_gidnumber_start) {
        Some("user_gidnumber_start must be between 3000 and 60000"@)
    } else if i.group_gidnumber_assign && (out(i.group_gidnumber_start) || out(i.group_gidnumber_max)) {
        Some("group_gidnumber must be between 3000 and 60000"@)
    } else {
        None
    }
}

fn out_of_posix_range(v: i32) -> (r: bool)
    ensures
        r == (v < 3000 || v > 60000),
{
    v < 3000 || v > 60000
}

/// The POSIX settings to store, or why they are refused.
pub fn validate_posix_settings(input: PosixSettingsInput) -> (r: Result<PosixSettings, String>)
    ensures
        match posix_settings_error(input) {
            Some(m) => r matches Err(e) && e@ == m,
            None => r matches Ok(s) && {
                &&& s.user_uidnumber_assign == input.user_uidnumber_assign
                &&& s.user_uidnumber_start == input.user_uidnumber_start
                &&& s.user_uidnumber_max == input.user_uidnumber_max
                &&& s.user_gidnumber_assign == input.user_gidnumber_assign
                &&& s.user_gidnumber_start == input.user_gidnumber_start
                &&& s.user_loginshell_assign == input.user_loginshell_assign
                &&& s.user_loginshell_default == input.user_loginshell_default
                &&& s.user_homedirectory_assign == input.user_homedirectory_assign
                &&& s.user_homedirectory_prefix == input.user_homedirectory_prefix
                &&& s.group_gidnumber_assign == input.group_gidnumber_assign
                &&& s.group_gidnumber_start == input.group_gidnumber_start
                &&& s.group_gidnumber_max == input.group_gidnumber_max
            },
        },
{
    if input.user_uidnumber_assign && (out_of_posix_range(input.user_uidnumber_start) || out_of_posix_range(
        input.user_uidnumber_max,
    )) {
        return Err(copy_str("user_uidnumber must be between 3000 and 60000"));
    }
    if input.user_gidnumber_assign && out_of_posix_range(input.user_gidnumber_start) {
        return Err(copy_str("user_gidnumber_start must be between 3000 and 60000"));
    }
    if input.group_gidnumber_assign && (out_of_posix_range(input.group_gidnumber_start) || out_of_posix_range(
        input.group_gidnumber_max,
    )) {
        return Err(copy_str("group_gidnumber must be between 3000 and 60000"));
    }
    Ok(
        PosixSettings {
            user_uidnumber_assign: input.user_uidnumber_assign,
            user_uidnumber_start: input.user_uidnumber_start as i64,
            user_uidnumber_max: input.user_uidnumber_max as i64,
            user_gidnumber_assign: input.user_gidnumber_assign,
            user_gidnumber_start: input.user_gidnumber_start as i64,
            user_loginshell_assign: input.user_loginshell_assign,
            user_loginshell_default: input.user_loginshell_default,
            user_homedirectory_assign: input.user_homedirectory_assign,
            user_homedirectory_prefix: input.user_homedirectory_prefix,
            group_gidnumber_assign: input.group_gidnumber_assign,
            group_gidnumber_start: input.group_gidnumber_start as i64,
            group_gidnumber_max: input.group_gidnumber_max as i64,
        },
    )
}

/// Refuses a new attribute of one entry kind whose name (or alias) the other kind's
/// schema `other` already knows; `other_kind` names that kind (`user` or `group`).
pub fn check_attribute_name_free(other: &AttributeList, name: &str, other_kind: &str) -> (r: Result<(), String>)
    ensures
        first_answering(attr_views(other.attributes@), name@) is Some ==> (r matches Err(m) && m@ == "Attribute '"@
            + name@ + "' already exists in the "@ + other_kind@
            + " schema. Duplicate names are not allowed across user and group attributes."@),
        first_answering(attr_views(other.attributes@), name@) is None ==> r is Ok,
{
    match other.get_by_name_or_alias(name) {
        Some(_) => {
            let mut m = copy_str("Attribute '");
            push_str(&mut m, name);
            push_str(&mut m, "' already exists in the ");
            push_str(&mut m, other_kind);
            push_str(&mut m, " schema. Duplicate names are not allowed across user and group attributes.");
            Err(m)
        },
        None => Ok(()),
    }
}

/// Why the attribute `name` (lowercased) cannot be deleted from a schema, if it
/// cannot: it must be defined there and not built in.
pub open spec fn attribute_deletion_error(list: AttributeList, name: Seq<char>) -> Option<Seq<char>> {
    match first_answering(attr_views(list.attributes@), lower(name)) {
        None => Some("Attribute "@ + lower(name) + " is not defined in the schema"@),
        Some(i) => if list.attributes@[i].is_hardcoded {
            Some("Permission denied: Attribute "@ + lower(name) + " cannot be deleted"@)
        } else {
            None
        },
    }
}

/// The attribute to delete from a schema (its lowercased name), or why it cannot be.
pub fn check_attribute_deletion(list: &AttributeList, name: &str) -> (r: Result<AttributeName, String>)
    ensures
        match attribute_deletion_error(*list, name@) {
            Some(m) => r matches Err(e) && e@ == m,
            None => r matches Ok(n) && n@ == lower(name@),
        },
{
    let n = AttributeName::new(name);
    match list.get_attribute_schema(n.as_str()) {
        None => {
            let mut m = copy_str("Attribute ");
            push_str(&mut m, n.as_str());
            push_str(&mut m, " is not defined in the schema");
            Err(m)
        },
        Some(s) => {
            if s.is_hardcoded {
                let mut m = copy_str("Permission denied: Attribute ");
                push_str(&mut m, n.as_str());
                push_str(&mut m, " cannot be deleted");
                Err(m)
            } else {
                Ok(n)
            }
        },
    }
}

/// The attributes sent under names other than `n`, in order.
pub open spec fn without_named(attrs: Seq<AttributeValue>, n: Seq<char>) -> Seq<AttributeValue>
    decreases attrs.len(),
{
    if attrs.len() == 0 {
        Seq::empty()
    } else {
        let r = without_named(attrs.drop_last(), n);
        if attrs.last().name@ == n {
            r
        } else {
            r.push(attrs.last())
        }
    }
}

/// Copies of the attributes sent under names other than `n`, in order.
fn drop_named(attrs: &Vec<AttributeValue>, n: &str) -> (r: Vec<AttributeValue>)
    ensures
        r@.len() == without_named(attrs@, n@).len(),
        forall|j: int|
            0 <= j < r@.len() ==> (#[trigger] r@[j]).name@ == without_named(attrs@, n@)[j].name@ && views(r@[j].value@)
                == views(without_named(attrs@, n@)[j].value@),
{
    let mut r: Vec<AttributeValue> = Vec::new();
    let mut i: usize = 0;
    while i < attrs.len()
        invariant
            i <= attrs@.len(),
            r@.len() == without_named(attrs@.take(i as int), n@).len(),
            forall|j: int|
                0 <= j < r@.len() ==> (#[trigger] r@[j]).name@ == without_named(attrs@.take(i as int), n@)[j].name@
                    && views(r@[j].value@) == views(without_named(attrs@.take(i as int), n@)[j].value@),
        decreases attrs@.len() - i,
    {
        assert(attrs@.take(i + 1).drop_last() =~= attrs@.take(i as int));
        assert(attrs@.take(i + 1).last() == attrs@[i as int]);
        if !str_eq(attrs[i].name.as_str(), n) {
            let ghost before = r@;
            r.push(copy_value(&attrs[i]));
            assert forall|j: int| 0 <= j < r@.len() implies (#[trigger] r@[j]).name@ == without_named(
                attrs@.take(i + 1),
                n@,
            )[j].name@ && views(r@[j].value@) == views(without_named(attrs@.take(i + 1), n@)[j].value@) by {
                if j < before.len() {
                    assert(r@[j] == before[j]);
                }
            }
        }
        i += 1;
    }
    assert(attrs@.take(attrs@.len() as int) =~= attrs@);
    r
}

/// Whether `r` is what reading the attributes sent in order gives: all of them, or
/// the error of the first that cannot be read.
pub open spec fn reads_all(sa: Seq<AttrView>, attrs: Seq<AttributeValue>, is_admin: bool, r: Result<Vec<Attribute>, String>) -> bool {
    match r {
        Ok(v) => v@.len() == attrs.len() && forall|j: int|
            0 <= j < attrs.len() ==> read_ok(sa, attrs[j], is_admin, Ok(#[trigger] v@[j])),
        Err(m) => exists|k: int|
            0 <= k < attrs.len() && read_ok(sa, #[trigger] attrs[k], is_admin, Err(m)) && forall|j: int|
                0 <= j < k ==> read_succeeds(sa, #[trigger] attrs[j], is_admin),
    }
}

/// Reads the attributes sent, in order, with the schema attributes `list`.
fn read_all(list: &AttributeList, attrs: &Vec<AttributeValue>, is_admin: bool) -> (r: Result<Vec<Attribute>, String>)
    ensures
        reads_all(attr_views(list.attributes@), attrs@, is_admin, r),
{
    let ghost sa = attr_views(list.attributes@);
    let mut out: Vec<Attribute> = Vec::new();
    let mut i: usize = 0;
    while i < attrs.len()
        invariant
            i <= attrs@.len(),
            sa == attr_views(list.attributes@),
            out@.len() == i,
            forall|j: int| 0 <= j < i ==> read_ok(sa, attrs@[j], is_admin, Ok(#[trigger] out@[j])),
        decreases attrs@.len() - i,
    {
        match deserialize_attribute(list, copy_value(&attrs[i]), is_admin) {
            Ok(a) => {
                let ghost before = out@;
                out.push(a);
                assert forall|j: int| 0 <= j < i + 1 implies read_ok(sa, attrs@[j], is_admin, Ok(#[trigger] out@[j])) by {
                    if j < i {
                        assert(out@[j] == before[j]);
                    }
                }
            },
            Err(m) => {
                assert forall|j: int| 0 <= j < i implies read_succeeds(sa, #[trigger] attrs@[j], is_admin) by {
                    assert(read_ok(sa, attrs@[j], is_admin, Ok(out@[j])));
                }
                return Err(m);
            },
        }
        i += 1;
    }
    Ok(out)
}

/// The OU that the attributes sent name: the first value of the first attribute named
/// `ou`, else `default`.
pub open spec fn ou_sent(attrs: Seq<AttributeValue>, default: Seq<char>) -> Seq<char> {
    match first_named(attrs, "ou"@) {
        Some(a) => if a.value@.len() > 0 {
            a.value@[0]@
        } else {
            default
        },
        None => default,
    }
}

fn ou_of_sent(attrs: &Vec<AttributeValue>, default: &str) -> (r: String)
    ensures
        r@ == ou_sent(attrs@, default@),
{
    let mut i: usize = 0;
    assert(attrs@.skip(0) =~= attrs@);
    while i < attrs.len()
        invariant
            i <= attrs@.len(),
            first_named(attrs@, "ou"@) == first_named(attrs@.skip(i as int), "ou"@),
        decreases attrs@.len() - i,
    {
        assert(attrs@.skip(i as int)[0] == attrs@[i as int]);
        if str_eq(attrs[i].name.as_str(), "ou") {
            if attrs[i].value.len() > 0 {
                return copy_str(attrs[i].value[0].as_str());
            } else {
                return copy_str(default);
            }
        }
        assert(attrs@.skip(i as int).drop_first() =~= attrs@.skip(i + 1));
        i += 1;
    }
    copy_str(default)
}

/// The group that a group-creating mutation asks for: the attributes sent other than
/// `ou`, each read with the group schema, then `ou` set to the OU sent (or `groups`);
/// or the error of the first attribute that cannot be read.
pub fn group_create_request(display_name: &str, attributes: Option<Vec<AttributeValue>>, schema: &PublicSchema) -> (r:
    Result<CreateGroupRequest, String>)
    ensures
        ({
            let sent = match attributes {
                Some(v) => v@,
                None => Seq::empty(),
            };
            let sa = attr_views(schema.0.group_attributes.attributes@);
            let rest = without_named(sent, "ou"@);
            match r {
                Ok(req) => {
                    &&& req.display_name@ == display_name@
                    &&& req.attributes@.len() == rest.len() + 1
                    &&& forall|j: int|
                        0 <= j < rest.len() ==> read_ok(sa, rest[j], true, Ok(#[trigger] req.attributes@[j]))
                    &&& is_ou_assignment(req.attributes@.last(), ou_sent(sent, "groups"@))
                },
                Err(m) => reads_all(sa, rest, true, Err(m)),
            }
        }),
{
    let sent = match attributes {
        Some(v) => v,
        None => Vec::new(),
    };
    let ou_value = ou_of_sent(&sent, "groups");
    let rest = drop_named(&sent, "ou");
    let ghost expected = without_named(sent@, "ou"@);
    let list = schema.group_attributes();
    let mut read = match read_all(list, &rest, true) {
        Ok(v) => v,
        Err(m) => {
            proof {
                lemma_reads_same(attr_views(list.attributes@), rest@, expected, true, Err(m));
            }
            return Err(m);
        },
    };
    proof {
        lemma_reads_same(attr_views(list.attributes@), rest@, expected, true, Ok(read));
    }
    let ghost before = read@;
    read.push(ou_assignment(ou_value.as_str()));
    assert forall|j: int| 0 <= j < expected.len() implies read_ok(
        attr_views(schema.0.group_attributes.attributes@),
        expected[j],
        true,
        Ok(#[trigger] read@[j]),
    ) by {
        assert(read@[j] == before[j]);
    }
    Ok(CreateGroupRequest { display_name: GroupName::new(display_name), attributes: read })
}

/// Reading copies (same names and texts) gives what reading the originals gives.
proof fn lemma_reads_same(
    sa: Seq<AttrView>,
    copies: Seq<AttributeValue>,
    originals: Seq<AttributeValue>,
    is_admin: bool,
    r: Result<Vec<Attribute>, String>,
)
    requires
        copies.len() == originals.len(),
        forall|j: int|
            0 <= j < copies.len() ==> (#[trigger] copies[j]).name@ == originals[j].name@ && views(copies[j].value@)
                == views(originals[j].value@),
        reads_all(sa, copies, is_admin, r),
    ensures
        reads_all(sa, originals, is_admin, r),
{
    match r {
        Ok(v) => {
            assert forall|j: int| 0 <= j < originals.len() implies read_ok(sa, originals[j], is_admin, Ok(#[trigger] v@[j])) by {
                assert(read_ok(sa, copies[j], is_admin, Ok(v@[j])));
            }
        },
        Err(m) => {
            let k = choose|k: int|
                0 <= k < copies.len() && read_ok(sa, #[trigger] copies[k], is_admin, Err(m)) && forall|j: int|
                    0 <= j < k ==> read_succeeds(sa, #[trigger] copies[j], is_admin);
            assert(read_ok(sa, originals[k], is_admin, Err(m))) by {
                assert(read_ok(sa, copies[k], is_admin, Err(m)));
            }
            assert forall|j: int| 0 <= j < k implies read_succeeds(sa, #[trigger] originals[j], is_admin) by {
                assert(read_succeeds(sa, copies[j], is_admin));
                let x = choose|x: Attribute| #[trigger] read_ok(sa, copies[j], is_admin, Ok(x));
                assert(read_ok(sa, originals[j], is_admin, Ok(x)));
            }
        },
    }
}

/// The new name of a group: the one given, else the first value of the first
/// attribute sent as `displayname`.
pub open spec fn new_group_name(display_name: Option<Seq<char>>, inserts: Seq<AttributeValue>) -> Option<Seq<char>> {
    match display_name {
        Some(d) => Some(d),
        None => match first_named(inserts, "displayname"@) {
            Some(a) => Some(a.value@[0]@),
            None => None,
        },
    }
}

/// The attribute names to remove, lowercased, other than those that are exactly `n`.
pub open spec fn removals_except(names: Seq<Seq<char>>, n: Seq<char>) -> Seq<Seq<char>>
    decreases names.len(),
{
    if names.len() == 0 {
        Seq::empty()
    } else {
        let r = removals_except(names.drop_last(), n);
        if names.last() == n {
            r
        } else {
            r.push(lower(names.last()))
        }
    }
}

fn removal_names(names: &Vec<String>, n: &str) -> (r: Vec<AttributeName>)
    ensures
        r@.map_values(|a: AttributeName| a@) == removals_except(views(names@), n@),
{
    let ghost vs = views(names@);
    let mut r: Vec<AttributeName> = Vec::new();
    let mut i: usize = 0;
    while i < names.len()
        invariant
            i <= names@.len(),
            vs == views(names@),
            r@.map_values(|a: AttributeName| a@) == removals_except(vs.take(i as int), n@),
        decreases names@.len() - i,
    {
        assert(vs.take(i + 1).drop_last() =~= vs.take(i as int));
        assert(vs.take(i + 1).last() == names@[i as int]@);
        if !str_eq(names[i].as_str(), n) {
            let ghost before = r@.map_values(|a: AttributeName| a@);
            r.push(AttributeName::new(names[i].as_str()));
            assert(r@.map_values(|a: AttributeName| a@) =~= before.push(lower(names@[i as int]@)));
        }
        i += 1;
    }
    assert(vs.take(vs.len() as int) =~= vs);
    r
}

/// The texts of an optional list of strings.
pub open spec fn opt_texts(o: Option<Vec<String>>) -> Seq<Seq<char>> {
    match o {
        Some(v) => views(v@),
        None => Seq::empty(),
    }
}

/// The attributes of an optional list.
pub open spec fn opt_attrs(o: Option<Vec<AttributeValue>>) -> Seq<AttributeValue> {
    match o {
        Some(v) => v@,
        None => Seq::empty(),
    }
}

/// Whether a group rename needs a value that was not sent: the rename comes from a
/// `displayname` attribute that carries no value.
pub open spec fn rename_lacks_value(display_name: Option<String>, inserts: Seq<AttributeValue>) -> bool {
    display_name is None && (first_named(inserts, "displayname"@) matches Some(a) && a.value@.len() == 0)
}

/// The change that a group-updating mutation asks for: the new name (given, or sent
/// as `displayname`; the admin group, id 1, cannot be renamed), the attributes sent
/// other than `displayname` read with the group schema, and the names to remove
/// other than `displayname`.
pub fn group_update_request(
    group_id: i32,
    display_name: Option<String>,
    insert_attributes: Option<Vec<AttributeValue>>,
    remove_attributes: Option<Vec<String>>,
    schema: &PublicSchema,
) -> (r: Result<UpdateGroupRequest, String>)
    requires
        !rename_lacks_value(display_name, opt_attrs(insert_attributes)),
    ensures
        ({
            let inserts = opt_attrs(insert_attributes);
            let new_name = new_group_name(
                match display_name {
                    Some(d) => Some(d@),
                    None => None,
                },
                inserts,
            );
            let sa = attr_views(schema.0.group_attributes.attributes@);
            let rest = without_named(inserts, "displayname"@);
            if group_id == 1 && new_name is Some {
                r matches Err(m) && m@ == "Cannot change lldap_admin group name"@
            } else {
                match r {
                    Ok(req) => {
                        &&& req.group_id == GroupId(group_id)
                        &&& (match (req.display_name, new_name) {
                            (Some(g), Some(n)) => g@ == n,
                            (None, None) => true,
                            _ => false,
                        })
                        &&& req.insert_attributes@.len() == rest.len()
                        &&& forall|j: int|
                            0 <= j < rest.len() ==> read_ok(sa, rest[j], true, Ok(#[trigger] req.insert_attributes@[j]))
                        &&& req.delete_attributes@.map_values(|a: AttributeName| a@) == removals_except(
                            opt_texts(remove_attributes),
                            "displayname"@,
                        )
                    },
                    Err(m) => reads_all(sa, rest, true, Err(m)),
                }
            }
        }),
{
    let inserts = match insert_attributes {
        Some(v) => v,
        None => Vec::new(),
    };
    let new_name: Option<String> = match display_name {
        Some(d) => Some(d),
        None => match find_named(&inserts, "displayname") {
            Some(i) => Some(copy_str(inserts[i].value[0].as_str())),
            None => None,
        },
    };
    if group_id == 1 && new_name.is_some() {
        return Err(copy_str("Cannot change lldap_admin group name"));
    }
    let rest = drop_named(&inserts, "displayname");
    let ghost expected = without_named(inserts@, "displayname"@);
    let list = schema.group_attributes();
    let read = match read_all(list, &rest, true) {
        Ok(v) => v,
        Err(m) => {
            proof {
                lemma_reads_same(attr_views(list.attributes@), rest@, expected, true, Err(m));
            }
            return Err(m);
        },
    };
    proof {
        lemma_reads_same(attr_views(list.attributes@), rest@, expected, true, Ok(read));
    }
    let removes = match remove_attributes {
        Some(v) => v,
        None => Vec::new(),
    };
    let deletes = removal_names(&removes, "displayname");
    let display = match new_name {
        Some(n) => Some(GroupName::new(n.as_str())),
        None => None,
    };
    Ok(UpdateGroupRequest { group_id: GroupId(group_id), display_name: display, delete_attributes: deletes, insert_attributes: read })
}

/// Whether `c` is what gathering the attributes sent with the dedicated fields gives
/// (see `consolidate_attributes`).
pub open spec fn is_consolidation(
    c: Seq<AttributeValue>,
    attrs: Seq<AttributeValue>,
    first_name: Option<Seq<char>>,
    last_name: Option<Seq<char>>,
    avatar: Option<Seq<char>>,
) -> bool {
    &&& strictly_sorted(names_of(c))
    &&& forall|k: Seq<char>| #[trigger] lookup(c, k) == consolidated(attrs, first_name, last_name, avatar, k)
}

/// The attributes of a list other than those named exactly `n`, moved out in order.
fn take_without_named(attrs: Vec<AttributeValue>, n: &str) -> (r: Vec<AttributeValue>)
    ensures
        r@ == without_named(attrs@, n@),
{
    let ghost all = attrs@;
    let total = attrs.len();
    let mut rest = attrs;
    let mut r: Vec<AttributeValue> = Vec::new();
    let mut i: usize = 0;
    while rest.len() > 0
        invariant
            all.len() == total,
            i <= all.len(),
            rest@ == all.skip(i as int),
            r@ == without_named(all.take(i as int), n@),
        decreases rest@.len(),
    {
        assert(all.skip(i as int).len() == all.len() - i);
        let a = rest.remove(0);
        assert(a == all[i as int]);
        assert(all.take(i + 1).drop_last() =~= all.take(i as int));
        assert(all.take(i + 1).last() == a);
        if !str_eq(a.name.as_str(), n) {
            r.push(a);
        }
        i += 1;
        assert(rest@ =~= all.skip(i as int));
    }
    assert(all.take(i as int) =~= all);
    r
}

/// Whether every read of the attributes succeeds.
pub open spec fn all_read(sa: Seq<AttrView>, attrs: Seq<AttributeValue>, is_admin: bool) -> bool {
    forall|j: int| 0 <= j < attrs.len() ==> read_succeeds(sa, #[trigger] attrs[j], is_admin)
}

/// Whether `m` is the error of the first attribute of `order` that cannot be read.
pub open spec fn first_read_error(sa: Seq<AttrView>, order: Seq<AttributeValue>, is_admin: bool, m: String) -> bool {
    exists|k: int|
        0 <= k < order.len() && read_ok(sa, #[trigger] order[k], is_admin, Err(m)) && forall|j: int|
            0 <= j < k ==> read_succeeds(sa, #[trigger] order[j], is_admin)
}

/// Whether the unpacked attributes are what reading `sent` gives (see `unpack_attributes`).
pub open spec fn unpacked_from(sa: Seq<AttrView>, sent: Seq<AttributeValue>, is_admin: bool, u: UnpackedAttributes) -> bool {
    &&& field_read(sa, first_named(sent, "mail"@), is_admin, opt_email(u.email))
    &&& field_read(sa, first_named(sent, "display_name"@), is_admin, opt_text(u.display_name))
    &&& u.attributes@.len() == others(sent).len()
    &&& forall|j: int| 0 <= j < u.attributes@.len() ==> read_ok(sa, others(sent)[j], is_admin, Ok(#[trigger] u.attributes@[j]))
}

/// Every attribute that unpacking reads was read successfully.
proof fn lemma_unpacked_all_read(sa: Seq<AttrView>, sent: Seq<AttributeValue>, is_admin: bool, u: UnpackedAttributes)
    requires
        unpacked_from(sa, sent, is_admin, u),
    ensures
        all_read(sa, reading_order(sent), is_admin),
{
    let order = reading_order(sent);
    let mail = crate::graphql_mutation::opt_seq(first_named(sent, "mail"@));
    let disp = crate::graphql_mutation::opt_seq(first_named(sent, "display_name"@));
    assert forall|j: int| 0 <= j < order.len() implies read_succeeds(sa, #[trigger] order[j], is_admin) by {
        if j < mail.len() {
            assert(order[j] == mail[j]);
        } else if j < mail.len() + disp.len() {
            assert(order[j] == disp[j - mail.len()]);
        } else {
            let jj = j - mail.len() - disp.len();
            assert(order[j] == others(sent)[jj]);
            assert(read_ok(sa, others(sent)[jj], is_admin, Ok(u.attributes@[jj])));
        }
    }
}

/// The user that a user-creating mutation asks for: the attributes sent, gathered
/// with the dedicated fields; the OU named by them (or `people`); the other gathered
/// attributes read with the user schema (mail and display name into their fields);
/// the e-mail address given, else the one sent, which is required.
pub fn user_create_request(
    user_id: &str,
    email: Option<String>,
    display_name: Option<String>,
    first_name: Option<String>,
    last_name: Option<String>,
    avatar: Option<String>,
    attributes: Option<Vec<AttributeValue>>,
    schema: &PublicSchema,
) -> (r: Result<CreateUserRequest, String>)
    requires
        reads_as_text(attr_views(schema.0.user_attributes.attributes@), "mail"@, true),
        reads_as_text(attr_views(schema.0.user_attributes.attributes@), "display_name"@, true),
    ensures
        exists|c: Seq<AttributeValue>|
            #[trigger] is_consolidation(
                c,
                opt_attrs(attributes),
                opt_text(first_name),
                opt_text(last_name),
                opt_text(avatar),
            ) && ({
                let sa = attr_views(schema.0.user_attributes.attributes@);
                let rest = without_named(c, "ou"@);
                match r {
                    Ok(req) => exists|u: UnpackedAttributes|
                        #[trigger] unpacked_from(sa, rest, true, u) && {
                            &&& req.user_id@ == lower(user_id@)
                            &&& req.email@ == match email {
                                Some(e) => e@,
                                None => opt_email(u.email)->0,
                            }
                            &&& (email is None ==> u.email is Some)
                            &&& opt_text(req.display_name) == match display_name {
                                Some(d) => Some(d@),
                                None => opt_text(u.display_name),
                            }
                            &&& req.attributes@.len() == u.attributes@.len() + 1
                            &&& req.attributes@.take(u.attributes@.len() as int) == u.attributes@
                            &&& is_ou_assignment(req.attributes@.last(), ou_sent(c, "people"@))
                        },
                    Err(m) => first_read_error(sa, reading_order(rest), true, m) || (email is None
                        && first_named(rest, "mail"@) is None && all_read(sa, reading_order(rest), true)
                        && m@ == "Email is required when creating a new user"@),
                }
            }),
{
    let sent = match attributes {
        Some(v) => v,
        None => Vec::new(),
    };
    let c = consolidate_attributes(sent, first_name, last_name, avatar);
    let ghost cv = c@;
    let ou_value = ou_of_sent(&c, "people");
    let rest = take_without_named(c, "ou");
    let ghost rv = rest@;
    let unpacked = unpack_attributes(rest, schema, true);
    let u = match unpacked {
        Ok(u) => u,
        Err(m) => {
            assert(is_consolidation(cv, opt_attrs(attributes), opt_text(first_name), opt_text(last_name), opt_text(avatar)));
            return Err(m);
        },
    };
    let ghost uu = u;
    proof {
        lemma_unpacked_all_read(attr_views(schema.0.user_attributes.attributes@), rv, true, uu);
    }
    let UnpackedAttributes { email: sent_email, display_name: sent_display, attributes: read } = u;
    let final_email = match email {
        Some(e) => Email::new(e.as_str()),
        None => match sent_email {
            Some(e) => e,
            None => {
                proof {
                    assert(is_consolidation(cv, opt_attrs(attributes), opt_text(first_name), opt_text(last_name), opt_text(avatar)));
                }
                return Err(copy_str("Email is required when creating a new user"));
            },
        },
    };
    let final_display = match display_name {
        Some(d) => Some(d),
        None => sent_display,
    };
    let mut attrs = read;
    let ghost head = attrs@;
    attrs.push(ou_assignment(ou_value.as_str()));
    assert(attrs@.take(head.len() as int) =~= head);
    let req = CreateUserRequest { user_id: UserId::new(user_id), email: final_email, display_name: final_display, attributes: attrs };
    assert(unpacked_from(attr_views(schema.0.user_attributes.attributes@), rv, true, uu));
    assert(is_consolidation(cv, opt_attrs(attributes), opt_text(first_name), opt_text(last_name), opt_text(avatar)));
    Ok(req)
}

/// The texts other than those exactly `n`, in order.
pub open spec fn texts_without(names: Seq<Seq<char>>, n: Seq<char>) -> Seq<Seq<char>>
    decreases names.len(),
{
    if names.len() == 0 {
        Seq::empty()
    } else {
        let r = texts_without(names.drop_last(), n);
        if names.last() == n {
            r
        } else {
            r.push(names.last())
        }
    }
}

/// The attributes whose name is not one of `removed` (compared exactly), in order.
pub open spec fn not_removed(attrs: Seq<AttributeValue>, removed: Seq<Seq<char>>) -> Seq<AttributeValue>
    decreases attrs.len(),
{
    if attrs.len() == 0 {
        Seq::empty()
    } else {
        let r = not_removed(attrs.drop_last(), removed);
        if removed.contains(attrs.last().name@) {
            r
        } else {
            r.push(attrs.last())
        }
    }
}

/// The names an update removes from storage: those asked for, other than `mail` and
/// the display name (in any case), lowercased.
pub open spec fn stored_removals(names: Seq<Seq<char>>) -> Seq<Seq<char>>
    decreases names.len(),
{
    if names.len() == 0 {
        Seq::empty()
    } else {
        let r = stored_removals(names.drop_last());
        let n = names.last();
        if n != "mail"@ && unicode_lower(n) != "displayname"@ {
            r.push(lower(n))
        } else {
            r
        }
    }
}

fn strings_without(names: Vec<String>, n: &str) -> (r: Vec<String>)
    ensures
        views(r@) == texts_without(views(names@), n@),
{
    let ghost vs = views(names@);
    let mut r: Vec<String> = Vec::new();
    let mut i: usize = 0;
    while i < names.len()
        invariant
            i <= names@.len(),
            vs == views(names@),
            views(r@) == texts_without(vs.take(i as int), n@),
        decreases names@.len() - i,
    {
        assert(vs.take(i + 1).drop_last() =~= vs.take(i as int));
        assert(vs.take(i + 1).last() == names@[i as int]@);
        if !str_eq(names[i].as_str(), n) {
            let ghost before = views(r@);
            r.push(copy_str(names[i].as_str()));
            assert(views(r@) =~= before.push(names@[i as int]@));
        }
        i += 1;
    }
    assert(vs.take(vs.len() as int) =~= vs);
    r
}

fn holds_text(names: &Vec<String>, t: &str) -> (r: bool)
    ensures
        r == views(names@).contains(t@),
{
    let mut i: usize = 0;
    while i < names.len()
        invariant
            i <= names@.len(),
            forall|j: int| 0 <= j < i ==> views(names@)[j] != t@,
        decreases names@.len() - i,
    {
        assert(views(names@)[i as int] == names@[i as int]@);
        if str_eq(names[i].as_str(), t) {
            return true;
        }
        i += 1;
    }
    false
}

fn take_not_removed(attrs: Vec<AttributeValue>, removed: &Vec<String>) -> (r: Vec<AttributeValue>)
    ensures
        r@ == not_removed(attrs@, views(removed@)),
{
    let ghost all = attrs@;
    let total = attrs.len();
    let mut rest = attrs;
    let mut r: Vec<AttributeValue> = Vec::new();
    let mut i: usize = 0;
    while rest.len() > 0
        invariant
            all.len() == total,
            i <= all.len(),
            rest@ == all.skip(i as int),
            r@ == not_removed(all.take(i as int), views(removed@)),
        decreases rest@.len(),
    {
        assert(all.skip(i as int).len() == all.len() - i);
        let a = rest.remove(0);
        assert(a == all[i as int]);
        assert(all.take(i + 1).drop_last() =~= all.take(i as int));
        assert(all.take(i + 1).last() == a);
        if !holds_text(removed, a.name.as_str()) {
            r.push(a);
        }
        i += 1;
        assert(rest@ =~= all.skip(i as int));
    }
    assert(all.take(i as int) =~= all);
    r
}

fn removals_to_store(names: &Vec<String>) -> (r: Vec<AttributeName>)
    ensures
        r@.map_values(|a: AttributeName| a@) == stored_removals(views(names@)),
{
    let ghost vs = views(names@);
    let mut r: Vec<AttributeName> = Vec::new();
    let mut i: usize = 0;
    while i < names.len()
        invariant
            i <= names@.len(),
            vs == views(names@),
            r@.map_values(|a: AttributeName| a@) == stored_removals(vs.take(i as int)),
        decreases names@.len() - i,
    {
        assert(vs.take(i + 1).drop_last() =~= vs.take(i as int));
        assert(vs.take(i + 1).last() == names@[i as int]@);
        let l = to_lowercase(names[i].as_str());
        if !str_eq(names[i].as_str(), "mail") && !str_eq(l.as_str(), "displayname") {
            let ghost before = r@.map_values(|a: AttributeName| a@);
            r.push(AttributeName::new(names[i].as_str()));
            assert(r@.map_values(|a: AttributeName| a@) =~= before.push(lower(names@[i as int]@)));
        }
        i += 1;
    }
    assert(vs.take(vs.len() as int) =~= vs);
    r
}

/// The change that a user-updating mutation asks for: the attributes sent, gathered
/// with the dedicated fields, other than those also asked to be removed, read with the
/// user schema (mail and display name into their fields); the removals other than
/// `ou`, and, in storage, other than mail and the display name; the e-mail address and
/// display name given, else those sent.
pub fn user_update_request(
    user_id: &str,
    email: Option<String>,
    display_name: Option<String>,
    first_name: Option<String>,
    last_name: Option<String>,
    avatar: Option<String>,
    insert_attributes: Option<Vec<AttributeValue>>,
    remove_attributes: Option<Vec<String>>,
    schema: &PublicSchema,
    is_admin: bool,
) -> (r: Result<UpdateUserRequest, String>)
    requires
        reads_as_text(attr_views(schema.0.user_attributes.attributes@), "mail"@, is_admin),
        reads_as_text(attr_views(schema.0.user_attributes.attributes@), "display_name"@, is_admin),
    ensures
        exists|c: Seq<AttributeValue>|
            #[trigger] is_consolidation(
                c,
                opt_attrs(insert_attributes),
                opt_text(first_name),
                opt_text(last_name),
                opt_text(avatar),
            ) && ({
                let sa = attr_views(schema.0.user_attributes.attributes@);
                let removed = texts_without(opt_texts(remove_attributes), "ou"@);
                let sent = not_removed(c, removed);
                match r {
                    Ok(req) => exists|u: UnpackedAttributes|
                        #[trigger] unpacked_from(sa, sent, is_admin, u) && {
                            &&& req.user_id@ == lower(user_id@)
                            &&& opt_email(req.email) == match email {
                                Some(e) => Some(e@),
                                None => opt_email(u.email),
                            }
                            &&& opt_text(req.display_name) == match display_name {
                                Some(d) => Some(d@),
                                None => opt_text(u.display_name),
                            }
                            &&& req.delete_attributes@.map_values(|a: AttributeName| a@) == stored_removals(removed)
                            &&& req.insert_attributes@ == u.attributes@
                        },
                    Err(m) => first_read_error(sa, reading_order(sent), is_admin, m),
                }
            }),
{
    let inserts = match insert_attributes {
        Some(v) => v,
        None => Vec::new(),
    };
    let c = consolidate_attributes(inserts, first_name, last_name, avatar);
    let ghost cv = c@;
    let removes = match remove_attributes {
        Some(v) => v,
        None => Vec::new(),
    };
    let deletes = strings_without(removes, "ou");
    let sent = take_not_removed(c, &deletes);
    let ghost sv = sent@;
    let u = match unpack_attributes(sent, schema, is_admin) {
        Ok(u) => u,
        Err(m) => {
            assert(is_consolidation(cv, opt_attrs(insert_attributes), opt_text(first_name), opt_text(last_name), opt_text(avatar)));
            return Err(m);
        },
    };
    let ghost uu = u;
    let UnpackedAttributes { email: sent_email, display_name: sent_display, attributes: read } = u;
    let final_email = match email {
        Some(e) => Some(Email::new(e.as_str())),
        None => sent_email,
    };
    let final_display = match display_name {
        Some(d) => Some(d),
        None => sent_display,
    };
    let stored = removals_to_store(&deletes);
    let req = UpdateUserRequest {
        user_id: UserId::new(user_id),
        email: final_email,
        display_name: final_display,
        delete_attributes: stored,
        insert_attributes: read,
    };
    assert(unpacked_from(attr_views(schema.0.user_attributes.attributes@), sv, is_admin, uu));
    assert(is_consolidation(cv, opt_attrs(insert_attributes), opt_text(first_name), opt_text(last_name), opt_text(avatar)));
    Ok(req)
}

} // verus!
