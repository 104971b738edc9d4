//! LDAP add: the request that creates a user or a group from an add request.
use vstd::prelude::*;
use crate::deserialize::{deserialize_attribute_value, deserialize_rel};
use crate::dn::{
    dn_error, dn_pieces, dn_target, get_internal_ou_from_dn_parts,
    get_user_or_group_id_from_distinguished_name, internal_ou_of, pairs_view, parse_distinguished_name,
    parse_dn, target_error_message, DnTarget, UserOrGroupName,
};
use crate::proto::{LdapAddRequest, LdapError, LdapPartialAttribute, LdapResultCode};
use crate::schema::AttributeType;
use crate::text::{concat, copy_str, eq_ic, eq_ignore_ascii_case, from_utf8, lower, push_str, str_eq, to_ascii_lowercase, utf8_error_debug, views};
use crate::types::{Attribute, AttributeName, AttributeValue, Cardinality, Email, GroupName, UserId};
use crate::utils::LdapInfo;
use vstd::utf8::{decode_utf8, valid_utf8};

verus! {

/// A new user.
pub struct CreateUserRequest {
    pub user_id: UserId,
    pub email: Email,
    pub display_name: Option<String>,
    pub attributes: Vec<Attribute>,
}

/// A new group.
pub struct CreateGroupRequest {
    pub display_name: GroupName,
    pub attributes: Vec<Attribute>,
}

/// What an add request creates.
pub enum CreateRequest {
    User(CreateUserRequest),
    Group(CreateGroupRequest),
}

/// The error message for an attribute of an add request that is not a single value.
pub open spec fn attribute_error_message(a: LdapPartialAttribute) -> Seq<char> {
    if a.vals@.len() > 1 {
        "Expected a single value for attribute "@ + a.atype@
    } else {
        "Missing value for attribute "@ + lower(a.atype@)
    }
}

/// The attributes of an add request other than `objectClass`, in order.
pub open spec fn non_class_attrs(attrs: Seq<LdapPartialAttribute>) -> Seq<LdapPartialAttribute>
    decreases attrs.len(),
{
    if attrs.len() == 0 {
        attrs
    } else {
        let r = non_class_attrs(attrs.drop_last());
        if eq_ic(attrs.last().atype@, "objectclass"@) {
            r
        } else {
            r.push(attrs.last())
        }
    }
}

/// Whether an attribute holds exactly one value.
pub open spec fn single_valued(a: LdapPartialAttribute) -> bool {
    a.vals@.len() == 1
}

/// The index of the first attribute that is not single-valued.
pub open spec fn first_bad_attr(attrs: Seq<LdapPartialAttribute>) -> Option<int>
    decreases attrs.len(),
{
    if attrs.len() == 0 {
        None
    } else {
        match first_bad_attr(attrs.drop_last()) {
            Some(i) => Some(i),
            None => if single_valued(attrs.last()) {
                None
            } else {
                Some(attrs.len() - 1)
            },
        }
    }
}

/// The values by lowercased name (a later attribute with a name replaces an earlier one).
pub open spec fn value_map(attrs: Seq<LdapPartialAttribute>) -> Map<Seq<char>, Seq<u8>>
    decreases attrs.len(),
{
    if attrs.len() == 0 {
        Map::empty()
    } else {
        value_map(attrs.drop_last()).insert(lower(attrs.last().atype@), attrs.last().vals@[0]@)
    }
}

/// The text of the value of an attribute: `None` when absent, an error when it is not UTF-8.
pub open spec fn text_of(m: Map<Seq<char>, Seq<u8>>, name: Seq<char>) -> Option<Result<Seq<char>, Seq<char>>> {
    if m.dom().contains(name) {
        if valid_utf8(m[name]) {
            Some(Ok(decode_utf8(m[name])))
        } else {
            Some(Err("Attribute value is invalid UTF-8: "@ + utf8_error_debug(m[name])))
        }
    } else {
        None
    }
}

/// The text of the first of two attributes that is present.
pub open spec fn text_of_either(m: Map<Seq<char>, Seq<u8>>, a: Seq<char>, b: Seq<char>) -> Option<Result<Seq<char>, Seq<char>>> {
    match text_of(m, a) {
        Some(t) => Some(t),
        None => text_of(m, b),
    }
}

/// Whether `e` is a constraint violation with message `m`.
pub open spec fn violation(e: LdapError, m: Seq<char>) -> bool {
    e.code == LdapResultCode::ConstraintViolation && e.message@ == m
}

/// The error of a text lookup, if it failed.
pub open spec fn error_of(t: Option<Result<Seq<char>, Seq<char>>>) -> Option<Seq<char>> {
    match t {
        Some(Err(m)) => Some(m),
        _ => None,
    }
}

/// Whether `av` is a possible reading of the avatar text, when there is one.
pub open spec fn avatar_read(avatar: Option<Result<Seq<char>, Seq<char>>>, av: Result<AttributeValue, String>) -> bool {
    match avatar {
        Some(Ok(t)) => deserialize_rel(seq![t], AttributeType::Avatar, false, av),
        _ => true,
    }
}

/// What an add request gives for user `user_id` in OU `ou` once the given name,
/// surname and avatar texts have been read, the avatar text having been read as
/// the attribute value `av`.
pub open spec fn after_avatar(
    user_id: Seq<char>,
    m: Map<Seq<char>, Seq<u8>>,
    ou: Seq<char>,
    av: Result<AttributeValue, String>,
    r: Result<CreateUserRequest, LdapError>,
) -> bool {
    let given = text_of(m, "givenname"@);
    let sn = text_of(m, "sn"@);
    let avatar = text_of_either(m, "avatar"@, "jpegphoto"@);
    let mail = text_of_either(m, "mail"@, "email"@);
    let cn = text_of(m, "cn"@);
    match (avatar, av) {
        (Some(Ok(_)), Err(msg)) => r matches Err(e) && violation(e, "Invalid avatar value: "@ + msg@),
        _ => match (error_of(mail), error_of(cn)) {
            (Some(msg), _) => r matches Err(e) && violation(e, msg),
            (None, Some(msg)) => r matches Err(e) && violation(e, msg),
            (None, None) => r matches Ok(req) && {
                &&& req.user_id@ == user_id
                &&& req.email@ == (match mail {
                    Some(Ok(t)) => t,
                    _ => Seq::<char>::empty(),
                })
                &&& match (req.display_name, cn) {
                    (Some(a), Some(Ok(b))) => a@ == b,
                    (None, None) => true,
                    _ => false,
                }
                &&& user_attributes_are(req.attributes@, given, sn, avatar, av, ou)
            },
        },
    }
}

/// Whether `r` is the user that an add request with these attributes creates in OU
/// `ou`: `objectClass` is skipped; every other attribute must hold one value; given
/// name, surname and avatar (or `jpegPhoto`) become attributes, the OU is recorded,
/// `mail` (or `email`) is the address (empty when absent) and `cn` the display
/// name; the first problem found, in that order, is reported instead.
pub open spec fn create_user_ok(
    user_id: Seq<char>,
    attrs: Seq<LdapPartialAttribute>,
    ou: Seq<char>,
    r: Result<CreateUserRequest, LdapError>,
) -> bool {
    let kept = non_class_attrs(attrs);
    let m = value_map(kept);
    let avatar = text_of_either(m, "avatar"@, "jpegphoto"@);
    match first_bad_attr(kept) {
        Some(i) => r matches Err(e) && violation(e, attribute_error_message(kept[i])),
        None => match (error_of(text_of(m, "givenname"@)), error_of(text_of(m, "sn"@)), error_of(avatar)) {
            (Some(msg), _, _) => r matches Err(e) && violation(e, msg),
            (None, Some(msg), _) => r matches Err(e) && violation(e, msg),
            (None, None, Some(msg)) => r matches Err(e) && violation(e, msg),
            (None, None, None) => exists|av: Result<AttributeValue, String>|
                #[trigger] avatar_read(avatar, av) && after_avatar(user_id, m, ou, av, r),
        },
    }
}

/// Whether attribute `v` is the expected (name, text, value): a text expects a
/// single string value.
pub open spec fn attr_matches(v: Attribute, e: (Seq<char>, Option<Seq<char>>, Option<AttributeValue>)) -> bool {
    v.name@ == e.0 && match (e.1, e.2) {
        (Some(t), _) => v.value matches AttributeValue::String(Cardinality::Singleton(s)) && s@ == t,
        (None, Some(x)) => v.value == x,
        _ => false,
    }
}

/// Whether the attributes match the expected ones, in order.
pub open spec fn attrs_match(v: Seq<Attribute>, exp: Seq<(Seq<char>, Option<Seq<char>>, Option<AttributeValue>)>) -> bool {
    v.len() == exp.len() && forall|i: int| 0 <= i < v.len() ==> attr_matches(#[trigger] v[i], exp[i])
}

/// The attributes a new user expects when the text `t` is present.
pub open spec fn text_entry(name: Seq<char>, t: Option<Result<Seq<char>, Seq<char>>>) -> Seq<(Seq<char>, Option<Seq<char>>, Option<AttributeValue>)> {
    match t {
        Some(Ok(s)) => seq![(lower(name), Some(s), None::<AttributeValue>)],
        _ => Seq::empty(),
    }
}

/// Whether the attributes of a new user are the given name, the surname and the
/// avatar (those present), then the OU.
pub open spec fn user_attributes_are(
    v: Seq<Attribute>,
    given: Option<Result<Seq<char>, Seq<char>>>,
    sn: Option<Result<Seq<char>, Seq<char>>>,
    avatar: Option<Result<Seq<char>, Seq<char>>>,
    av: Result<AttributeValue, String>,
    ou: Seq<char>,
) -> bool {
    let c = match (avatar, av) {
        (Some(Ok(_)), Ok(x)) => seq![(lower("avatar"@), None::<Seq<char>>, Some(x))],
        _ => Seq::empty(),
    };
    attrs_match(
        v,
        text_entry("first_name"@, given) + text_entry("last_name"@, sn) + c + seq![(lower("ou"@), Some(ou), None::<AttributeValue>)],
    )
}

/// Where `v` points into `attrs`: entry `j` is the lowercased name and the index of
/// the `j`-th attribute of `kept`.
pub open spec fn indexes_attrs(v: Seq<(String, usize)>, attrs: Seq<LdapPartialAttribute>, kept: Seq<LdapPartialAttribute>) -> bool {
    &&& v.len() == kept.len()
    &&& forall|j: int| 0 <= j < v.len() ==> {
        &&& (#[trigger] v[j]).1 < attrs.len()
        &&& attrs[v[j].1 as int] == kept[j]
        &&& v[j].0@ == lower(kept[j].atype@)
    }
}

proof fn lemma_first_bad_range(s: Seq<LdapPartialAttribute>)
    ensures
        first_bad_attr(s) matches Some(j) ==> 0 <= j < s.len() && !single_valued(s[j]),
        first_bad_attr(s) is None ==> forall|j: int| 0 <= j < s.len() ==> single_valued(#[trigger] s[j]),
    decreases s.len(),
{
    if s.len() > 0 {
        lemma_first_bad_range(s.drop_last());
        if first_bad_attr(s) is None {
            assert forall|j: int| 0 <= j < s.len() implies single_valued(#[trigger] s[j]) by {
                if j < s.len() - 1 {
                    assert(s[j] == s.drop_last()[j]);
                }
            }
        }
    }
}

proof fn lemma_bad_prefix(attrs: Seq<LdapPartialAttribute>, k: int, j: int)
    requires
        0 <= k <= attrs.len(),
        first_bad_attr(non_class_attrs(attrs.take(k))) == Some(j),
    ensures
        first_bad_attr(non_class_attrs(attrs)) == Some(j),
        j < non_class_attrs(attrs.take(k)).len(),
        non_class_attrs(attrs)[j] == non_class_attrs(attrs.take(k))[j],
    decreases attrs.len() - k,
{
    lemma_first_bad_range(non_class_attrs(attrs.take(k)));
    if k == attrs.len() {
        assert(attrs.take(k) =~= attrs);
    } else {
        let s = non_class_attrs(attrs.take(k));
        assert(attrs.take(k + 1).drop_last() =~= attrs.take(k));
        let t = non_class_attrs(attrs.take(k + 1));
        if t != s {
            assert(t == s.push(attrs[k]));
            assert(t.drop_last() =~= s);
        }
        lemma_bad_prefix(attrs, k + 1, j);
    }
}

proof fn lemma_value_map_last(kept: Seq<LdapPartialAttribute>, j: int, name: Seq<char>)
    requires
        0 <= j < kept.len(),
        lower(kept[j].atype@) == name,
        forall|k: int| j < k < kept.len() ==> lower(#[trigger] kept[k].atype@) != name,
    ensures
        value_map(kept).dom().contains(name),
        value_map(kept)[name] == kept[j].vals@[0]@,
    decreases kept.len(),
{
    if j < kept.len() - 1 {
        let d = kept.drop_last();
        assert(lower(kept[kept.len() - 1].atype@) != name);
        assert forall|k: int| j < k < d.len() implies lower(#[trigger] d[k].atype@) != name by {
            assert(d[k] == kept[k]);
        }
        lemma_value_map_last(d, j, name);
    }
}

proof fn lemma_value_map_absent(kept: Seq<LdapPartialAttribute>, name: Seq<char>)
    requires
        forall|k: int| 0 <= k < kept.len() ==> lower(#[trigger] kept[k].atype@) != name,
    ensures
        !value_map(kept).dom().contains(name),
    decreases kept.len(),
{
    if kept.len() > 0 {
        let d = kept.drop_last();
        assert(lower(kept[kept.len() - 1].atype@) != name);
        assert forall|k: int| 0 <= k < d.len() implies lower(#[trigger] d[k].atype@) != name by {
            assert(d[k] == kept[k]);
        }
        lemma_value_map_absent(d, name);
    }
}

fn constraint_violation(message: String) -> (e: LdapError)
    ensures
        violation(e, message@),
{
    LdapError { code: LdapResultCode::ConstraintViolation, message }
}

/// The attributes of an add request other than `objectClass`, as (lowercased name,
/// index) pairs; the first one that does not hold exactly one value is an error.
fn kept_attributes(attrs: &Vec<LdapPartialAttribute>) -> (r: Result<Vec<(String, usize)>, LdapError>)
    ensures
        match first_bad_attr(non_class_attrs(attrs@)) {
            Some(i) => r matches Err(e) && violation(e, attribute_error_message(non_class_attrs(attrs@)[i])),
            None => r matches Ok(v) && indexes_attrs(v@, attrs@, non_class_attrs(attrs@)),
        },
{
    let mut v: Vec<(String, usize)> = Vec::new();
    let mut i: usize = 0;
    while i < attrs.len()
        invariant
            i <= attrs@.len(),
            first_bad_attr(non_class_attrs(attrs@.take(i as int))) is None,
            indexes_attrs(v@, attrs@, non_class_attrs(attrs@.take(i as int))),
        decreases attrs@.len() - i,
    {
        let a = &attrs[i];
        let ghost before = non_class_attrs(attrs@.take(i as int));
        proof {
            assert(attrs@.take(i + 1).drop_last() =~= attrs@.take(i as int));
            assert(attrs@.take(i + 1).last() == attrs@[i as int]);
        }
        if eq_ignore_ascii_case(a.atype.as_str(), "objectclass") {
            assert(non_class_attrs(attrs@.take(i + 1)) == before);
        } else {
            let ghost after = before.push(attrs@[i as int]);
            assert(non_class_attrs(attrs@.take(i + 1)) == after);
            assert(after.drop_last() =~= before);
            if a.vals.len() != 1 {
                let message = if a.vals.len() > 1 {
                    concat("Expected a single value for attribute ", a.atype.as_str())
                } else {
                    let lowered = to_ascii_lowercase(a.atype.as_str());
                    concat("Missing value for attribute ", lowered.as_str())
                };
                proof {
                    assert(first_bad_attr(after) == Some(before.len() as int));
                    lemma_bad_prefix(attrs@, i + 1, before.len() as int);
                }
                return Err(constraint_violation(message));
            }
            let name = to_ascii_lowercase(a.atype.as_str());
            v.push((name, i));
            assert(first_bad_attr(after) is None);
        }
        i += 1;
    }
    assert(attrs@.take(attrs@.len() as int) =~= attrs@);
    Ok(v)
}

/// Where the value of the attribute named `name` (already lowercase) stands: the
/// last attribute with that name wins.
fn find_value(
    v: &Vec<(String, usize)>,
    name: &str,
    Ghost(attrs): Ghost<Seq<LdapPartialAttribute>>,
    Ghost(kept): Ghost<Seq<LdapPartialAttribute>>,
) -> (r: Option<usize>)
    requires
        indexes_attrs(v@, attrs, kept),
        forall|j: int| 0 <= j < kept.len() ==> single_valued(#[trigger] kept[j]),
    ensures
        match r {
            Some(idx) => {
                &&& idx < attrs.len()
                &&& single_valued(attrs[idx as int])
                &&& value_map(kept).dom().contains(name@)
                &&& value_map(kept)[name@] == attrs[idx as int].vals@[0]@
            },
            None => !value_map(kept).dom().contains(name@),
        },
{
    let mut j: usize = v.len();
    while j > 0
        invariant
            j <= v@.len(),
            indexes_attrs(v@, attrs, kept),
            forall|k: int| 0 <= k < kept.len() ==> single_valued(#[trigger] kept[k]),
            forall|k: int| j <= k < kept.len() ==> lower(#[trigger] kept[k].atype@) != name@,
        decreases j,
    {
        j -= 1;
        if str_eq(v[j].0.as_str(), name) {
            proof {
                lemma_value_map_last(kept, j as int, name@);
                let e = v@[j as int];
                assert(attrs[e.1 as int] == kept[j as int]);
                assert(single_valued(kept[j as int]));
            }
            return Some(v[j].1);
        }
    }
    proof {
        lemma_value_map_absent(kept, name@);
    }
    None
}

/// The text of the value of the attribute named `name`.
fn text_value(
    v: &Vec<(String, usize)>,
    attrs: &Vec<LdapPartialAttribute>,
    name: &str,
    Ghost(kept): Ghost<Seq<LdapPartialAttribute>>,
) -> (r: Option<Result<String, LdapError>>)
    requires
        indexes_attrs(v@, attrs@, kept),
        forall|j: int| 0 <= j < kept.len() ==> single_valued(#[trigger] kept[j]),
    ensures
        match text_of(value_map(kept), name@) {
            None => r is None,
            Some(Ok(t)) => r matches Some(Ok(s)) && s@ == t,
            Some(Err(m)) => r matches Some(Err(e)) && violation(e, m),
        },
{
    match find_value(v, name, Ghost(attrs@), Ghost(kept)) {
        None => None,
        Some(idx) => match from_utf8(attrs[idx].vals[0].as_slice()) {
            Ok(s) => Some(Ok(s)),
            Err(m) => Some(Err(constraint_violation(concat("Attribute value is invalid UTF-8: ", m.as_str())))),
        },
    }
}

/// The text of the first of two attributes that is present.
fn text_value_either(
    v: &Vec<(String, usize)>,
    attrs: &Vec<LdapPartialAttribute>,
    a: &str,
    b: &str,
    Ghost(kept): Ghost<Seq<LdapPartialAttribute>>,
) -> (r: Option<Result<String, LdapError>>)
    requires
        indexes_attrs(v@, attrs@, kept),
        forall|j: int| 0 <= j < kept.len() ==> single_valued(#[trigger] kept[j]),
    ensures
        match text_of_either(value_map(kept), a@, b@) {
            None => r is None,
            Some(Ok(t)) => r matches Some(Ok(s)) && s@ == t,
            Some(Err(m)) => r matches Some(Err(e)) && violation(e, m),
        },
{
    match text_value(v, attrs, a, Ghost(kept)) {
        None => text_value(v, attrs, b, Ghost(kept)),
        found => found,
    }
}

/// A single-string attribute value.
fn text_attribute(name: &str, t: String) -> (r: Attribute)
    ensures
        attr_matches(r, (lower(name@), Some(t@), None::<AttributeValue>)),
{
    Attribute { name: AttributeName::new(name), value: AttributeValue::String(Cardinality::Singleton(t)) }
}

/// The user that an LDAP add request creates: user `user_id` in OU `internal_ou`,
/// with the add request's attributes (`objectClass` skipped, each other attribute
/// single-valued): given name and surname, avatar (or `jpegPhoto`), then the OU,
/// as attributes; `mail` (or `email`) as address; `cn` as display name.
pub fn create_user_request(
    user_id: UserId,
    attributes: &Vec<LdapPartialAttribute>,
    internal_ou: &str,
) -> (r: Result<CreateUserRequest, LdapError>)
    ensures
        create_user_ok(user_id@, attributes@, internal_ou@, r),
{
    let ghost kept = non_class_attrs(attributes@);
    let ghost m = value_map(kept);
    let pairs = match kept_attributes(attributes) {
        Ok(p) => p,
        Err(e) => return Err(e),
    };
    proof {
        lemma_first_bad_range(kept);
    }
    let given = match text_value(&pairs, attributes, "givenname", Ghost(kept)) {
        Some(Err(e)) => return Err(e),
        Some(Ok(t)) => Some(t),
        None => None,
    };
    let sn = match text_value(&pairs, attributes, "sn", Ghost(kept)) {
        Some(Err(e)) => return Err(e),
        Some(Ok(t)) => Some(t),
        None => None,
    };
    let avatar = match text_value_either(&pairs, attributes, "avatar", "jpegphoto", Ghost(kept)) {
        Some(Err(e)) => return Err(e),
        Some(Ok(t)) => Some(t),
        None => None,
    };
    let ghost avatar_text = text_of_either(m, "avatar"@, "jpegphoto"@);
    let ghost mut av: Result<AttributeValue, String> = arbitrary();
    let avatar_value: Option<AttributeValue> = match avatar {
        Some(t) => {
            let ghost tv = t@;
            let one = vec![t];
            assert(views(one@) =~= seq![tv]);
            let d = deserialize_attribute_value(one.as_slice(), AttributeType::Avatar, false);
            proof {
                av = d;
                assert(avatar_read(avatar_text, av));
            }
            match d {
                Ok(x) => Some(x),
                Err(msg) => {
                    let e = constraint_violation(concat("Invalid avatar value: ", msg.as_str()));
                    assert(after_avatar(user_id@, m, internal_ou@, av, Err(e)));
                    return Err(e);
                },
            }
        },
        None => None,
    };
    assert(avatar_read(avatar_text, av));
    let mail = match text_value_either(&pairs, attributes, "mail", "email", Ghost(kept)) {
        Some(Err(e)) => {
            assert(after_avatar(user_id@, m, internal_ou@, av, Err(e)));
            return Err(e);
        },
        Some(Ok(t)) => Some(t),
        None => None,
    };
    let display_name = match text_value(&pairs, attributes, "cn", Ghost(kept)) {
        Some(Err(e)) => {
            assert(after_avatar(user_id@, m, internal_ou@, av, Err(e)));
            return Err(e);
        },
        Some(Ok(t)) => Some(t),
        None => None,
    };
    let ghost given_text = text_of(m, "givenname"@);
    let ghost sn_text = text_of(m, "sn"@);
    let ghost c = match (avatar_text, av) {
        (Some(Ok(_)), Ok(x)) => seq![(lower("avatar"@), None::<Seq<char>>, Some(x))],
        _ => Seq::empty(),
    };
    let mut out: Vec<Attribute> = Vec::new();
    let ghost mut exp: Seq<(Seq<char>, Option<Seq<char>>, Option<AttributeValue>)> = Seq::empty();
    match given {
        Some(t) => {
            out.push(text_attribute("first_name", t));
        },
        None => {},
    }
    proof {
        exp = text_entry("first_name"@, given_text);
        assert(attrs_match(out@, exp));
    }
    match sn {
        Some(t) => {
            out.push(text_attribute("last_name", t));
        },
        None => {},
    }
    proof {
        exp = exp + text_entry("last_name"@, sn_text);
        assert(attrs_match(out@, exp)) by {
            assert forall|i: int| 0 <= i < out@.len() implies attr_matches(#[trigger] out@[i], exp[i]) by {}
        }
    }
    match avatar_value {
        Some(x) => {
            out.push(Attribute { name: AttributeName::new("avatar"), value: x });
        },
        None => {},
    }
    proof {
        exp = exp + c;
        assert(attrs_match(out@, exp)) by {
            assert forall|i: int| 0 <= i < out@.len() implies attr_matches(#[trigger] out@[i], exp[i]) by {}
        }
    }
    out.push(text_attribute("ou", copy_str(internal_ou)));
    proof {
        exp = exp + seq![(lower("ou"@), Some(internal_ou@), None::<AttributeValue>)];
        assert(attrs_match(out@, exp)) by {
            assert forall|i: int| 0 <= i < out@.len() implies attr_matches(#[trigger] out@[i], exp[i]) by {}
        }
    }
    let email = match mail {
        Some(t) => Email::new(t.as_str()),
        None => Email::new(""),
    };
    proof {
        reveal_strlit("");
    }
    let req = CreateUserRequest { user_id, email, display_name, attributes: out };
    proof {
        let mail_text = text_of_either(m, "mail"@, "email"@);
        assert(req.email@ == (match mail_text {
            Some(Ok(t)) => t,
            _ => Seq::<char>::empty(),
        }));
        assert(match (req.display_name, text_of(m, "cn"@)) {
            (Some(a), Some(Ok(b))) => a@ == b,
            (None, None) => true,
            _ => false,
        });
        assert(exp =~= text_entry("first_name"@, given_text) + text_entry("last_name"@, sn_text) + c
            + seq![(lower("ou"@), Some(internal_ou@), None::<AttributeValue>)]);
        assert(user_attributes_are(req.attributes@, given_text, sn_text, avatar_text, av, internal_ou@));
    }
    assert(after_avatar(user_id@, m, internal_ou@, av, Ok(req)));
    Ok(req)
}

/// Whether `g` is the group an add request creates: named `name`, its one attribute
/// the OU.
pub open spec fn group_request_ok(g: CreateGroupRequest, name: Seq<char>, ou: Seq<char>) -> bool {
    &&& g.display_name@ == name
    &&& attrs_match(g.attributes@, seq![(lower("ou"@), Some(ou), None::<AttributeValue>)])
}

/// The group that an LDAP add request creates: group `group_name` with its OU as
/// attribute (the request's other attributes are not read).
pub fn create_group_request(group_name: GroupName, internal_ou: &str) -> (r: CreateGroupRequest)
    ensures
        group_request_ok(r, group_name@, internal_ou@),
{
    let mut attributes: Vec<Attribute> = Vec::new();
    attributes.push(text_attribute("ou", copy_str(internal_ou)));
    CreateGroupRequest { display_name: group_name, attributes }
}

/// The user part of a result, when it is not a group.
pub open spec fn user_result(r: Result<CreateRequest, LdapError>) -> Option<Result<CreateUserRequest, LdapError>> {
    match r {
        Ok(CreateRequest::User(u)) => Some(Ok(u)),
        Err(e) => Some(Err(e)),
        _ => None,
    }
}

/// The formats that an add request's DN may take.
pub open spec fn add_dn_formats(base: Seq<char>) -> Seq<char> {
    "\"uid=id,ou=people,"@ + base + "\" or \"cn=id,ou=groups,"@ + base + "\""@
}

/// What an LDAP add request creates: the DN names a user (`uid=..`) or a group
/// (`cn=..`) under an OU chain below the base; the OU chain becomes the entry's
/// internal OU.
pub fn create_user_or_group(ldap_info: &LdapInfo, request: LdapAddRequest) -> (r: Result<CreateRequest, LdapError>)
    ensures
        match parse_dn(request.dn@) {
            None => r matches Err(e) && e.code == LdapResultCode::InvalidDNSyntax
                && e.message@ == dn_error(dn_pieces(request.dn@)),
            Some(p) => match dn_target(request.dn@, pairs_view(ldap_info.base_dn@)) {
                DnTarget::User(u) => user_result(r) matches Some(ur)
                    && create_user_ok(u, request.attributes@, internal_ou_of(p), ur),
                DnTarget::Group(g) => r matches Ok(CreateRequest::Group(req))
                    && group_request_ok(req, g, internal_ou_of(p)),
                t => r matches Err(e) && e.code == LdapResultCode::InvalidDNSyntax
                    && e.message@ == target_error_message(t, request.dn@, add_dn_formats(ldap_info.base_dn_str@)),
            },
        },
{
    let dn_parts = match parse_distinguished_name(request.dn.as_str()) {
        Ok(p) => p,
        Err(e) => return Err(e),
    };
    let internal_ou = get_internal_ou_from_dn_parts(dn_parts.as_slice());
    match get_user_or_group_id_from_distinguished_name(request.dn.as_str(), ldap_info.base_dn.as_slice()) {
        UserOrGroupName::User(user_id) => {
            let r = create_user_request(user_id, &request.attributes, internal_ou.as_str());
            match r {
                Ok(u) => Ok(CreateRequest::User(u)),
                Err(e) => Err(e),
            }
        },
        UserOrGroupName::Group(group_name) => {
            Ok(CreateRequest::Group(create_group_request(group_name, internal_ou.as_str())))
        },
        err => {
            let base = ldap_info.base_dn_str.as_str();
            let mut expected = copy_str("\"uid=id,ou=people,");
            push_str(&mut expected, base);
            push_str(&mut expected, "\" or \"cn=id,ou=groups,");
            push_str(&mut expected, base);
            push_str(&mut expected, "\"");
            Err(err.into_ldap_error(request.dn.as_str(), expected))
        },
    }
}


/// The stored attribute that holds `value` as a single text, at some position.
pub open spec fn stores_text(attrs: Seq<Attribute>, name: Seq<char>, value: Seq<char>) -> bool {
    exists|k: int|
        0 <= k < attrs.len() && (#[trigger] attrs[k]).name@ == name
            && (attrs[k].value matches AttributeValue::String(Cardinality::Singleton(x)) && x@ == value)
}

/// A user created by LDAP add keeps its given name and surname in the stored attributes
/// that LDAP modify writes for `givenName` and `sn`: the `givenName` of the request is
/// the value of that given-name attribute (`first_name`), the `sn` that of the surname
/// attribute (`last_name`).
pub proof fn created_names_are_stored_where_modify_writes_them(
    user_id: Seq<char>,
    attrs: Seq<LdapPartialAttribute>,
    ou: Seq<char>,
    r: Result<CreateUserRequest, LdapError>,
    given: Seq<char>,
    surname: Seq<char>,
)
    requires
        create_user_ok(user_id, attrs, ou, r),
        r is Ok,
    ensures
        text_of(value_map(non_class_attrs(attrs)), "givenname"@) == Some(Ok::<Seq<char>, Seq<char>>(given)) ==> stores_text(
            r->Ok_0.attributes@,
            crate::modify::value_target("givenname"@)->Some_0.0,
            given,
        ),
        text_of(value_map(non_class_attrs(attrs)), "sn"@) == Some(Ok::<Seq<char>, Seq<char>>(surname)) ==> stores_text(
            r->Ok_0.attributes@,
            crate::modify::value_target("sn"@)->Some_0.0,
            surname,
        ),
{
    reveal_strlit("givenname");
    reveal_strlit("sn");
    reveal_strlit("first_name");
    reveal_strlit("last_name");
    assert(lower("first_name"@) =~= "first_name"@);
    assert(lower("last_name"@) =~= "last_name"@);
    assert(crate::modify::value_target("givenname"@)->Some_0.0 == "first_name"@);
    reveal_strlit("given_name");
    assert("sn"@.len() == 2 && "givenname"@.len() == 9 && "given_name"@.len() == 10);
    assert(crate::modify::value_target("sn"@)->Some_0.0 == "last_name"@);
    let kept = non_class_attrs(attrs);
    let m = value_map(kept);
    let avatar = text_of_either(m, "avatar"@, "jpegphoto"@);
    let av = choose|av: Result<AttributeValue, String>| #[trigger] avatar_read(avatar, av) && after_avatar(user_id, m, ou, av, r);
    let req = r->Ok_0;
    let g = text_of(m, "givenname"@);
    let sn = text_of(m, "sn"@);
    let c = match (avatar, av) {
        (Some(Ok(_)), Ok(x)) => seq![(lower("avatar"@), None::<Seq<char>>, Some(x))],
        _ => Seq::empty(),
    };
    let exp = text_entry("first_name"@, g) + text_entry("last_name"@, sn) + c + seq![(lower("ou"@), Some(ou), None::<AttributeValue>)];
    assert(attrs_match(req.attributes@, exp));
    if g == Some(Ok::<Seq<char>, Seq<char>>(given)) {
        assert(attr_matches(req.attributes@[0], exp[0]));
    }
    if sn == Some(Ok::<Seq<char>, Seq<char>>(surname)) {
        let k = text_entry("first_name"@, g).len() as int;
        assert(exp[k] == (lower("last_name"@), Some(surname), None::<AttributeValue>));
        assert(attr_matches(req.attributes@[k], exp[k]));
    }
}

} // verus!
