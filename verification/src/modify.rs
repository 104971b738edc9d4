//! LDAP modify on users: password changes and profile attributes (names, mail,
//! avatar, SSH keys), as a decision on each change.
//!
//! Carrying a decision out (setting the password, reading the current SSH keys,
//! updating the user) is left to the caller.
use vstd::prelude::*;
use crate::deserialize::{deserialize_attribute_value, deserialize_rel};
use crate::proto::{LdapError, LdapModify, LdapModifyType, LdapResultCode};
use crate::schema::AttributeType;
use crate::text::{copy_str, decimal, lower, push_decimal, push_str, str_eq, to_ascii_lowercase, views};
use crate::types::{Attribute, AttributeName, AttributeValue, Cardinality, Email, UserId};
use vstd::utf8::{decode_utf8, valid_utf8};

verus! {

/// A change of a user's profile.
pub struct UpdateUserRequest {
    pub user_id: UserId,
    pub email: Option<Email>,
    pub display_name: Option<String>,
    pub delete_attributes: Vec<AttributeName>,
    pub insert_attributes: Vec<Attribute>,
}

/// What to do for one change of a modify request.
pub enum ModifyStep {
    /// Set the user's password to these bytes.
    ChangePassword { user_id: UserId, password: Vec<u8> },
    /// The user's current SSH keys are needed to decide.
    ReadSshKeys,
    /// Apply this profile change.
    UpdateUser(UpdateUserRequest),
}

/// The texts of the values that are valid UTF-8, in order.
pub open spec fn utf8_texts(vals: Seq<Seq<u8>>) -> Seq<Seq<char>>
    decreases vals.len(),
{
    if vals.len() == 0 {
        Seq::empty()
    } else {
        let r = utf8_texts(vals.drop_last());
        if valid_utf8(vals.last()) {
            r.push(decode_utf8(vals.last()))
        } else {
            r
        }
    }
}

/// The raw values of an attribute change.
pub open spec fn raw_values(m: LdapModify) -> Seq<Seq<u8>> {
    m.modification.vals@.map_values(|v: Vec<u8>| v@)
}

fn texts_of(vals: &Vec<Vec<u8>>) -> (r: Vec<String>)
    ensures
        views(r@) == utf8_texts(vals@.map_values(|v: Vec<u8>| v@)),
{
    let ghost rv = vals@.map_values(|v: Vec<u8>| v@);
    let mut r: Vec<String> = Vec::new();
    let mut i: usize = 0;
    while i < vals.len()
        invariant
            i <= vals@.len(),
            rv == vals@.map_values(|v: Vec<u8>| v@),
            views(r@) == utf8_texts(rv.take(i as int)),
        decreases vals@.len() - i,
    {
        assert(rv.take(i + 1).drop_last() =~= rv.take(i as int));
        assert(rv.take(i + 1).last() == vals@[i as int]@);
        match crate::text::from_utf8(vals[i].as_slice()) {
            Ok(t) => {
                let ghost before = views(r@);
                r.push(t);
                assert(views(r@) =~= before.push(decode_utf8(vals@[i as int]@)));
            },
            Err(_) => {},
        }
        i += 1;
    }
    assert(rv.take(vals@.len() as int) =~= rv);
    r
}

/// How `{:?}` shows a kind of change.
pub open spec fn modify_type_text(t: LdapModifyType) -> Seq<char> {
    match t {
        LdapModifyType::Add => "Add"@,
        LdapModifyType::Delete => "Delete"@,
        LdapModifyType::Replace => "Replace"@,
        LdapModifyType::Increment => "Increment"@,
    }
}

fn modify_type_name(t: LdapModifyType) -> (r: &'static str)
    ensures
        r@ == modify_type_text(t),
{
    match t {
        LdapModifyType::Add => "Add",
        LdapModifyType::Delete => "Delete",
        LdapModifyType::Replace => "Replace",
        LdapModifyType::Increment => "Increment",
    }
}

/// A profile attribute that takes read values: the stored attribute, its type, whether
/// it is a list, and the name shown in errors.
pub open spec fn value_target(a: Seq<char>) -> Option<(Seq<char>, AttributeType, bool, Seq<char>)> {
    if a == "givenname"@ || a == "given_name"@ {
        Some(("first_name"@, AttributeType::String, false, "first_name"@))
    } else if a == "sn"@ || a == "surname"@ {
        Some(("last_name"@, AttributeType::String, false, "last_name"@))
    } else if a == "avatar"@ || a == "jpegphoto"@ || a == "jpeg_photo"@ {
        Some(("avatar"@, AttributeType::Avatar, false, "avatar"@))
    } else if a == "sshpublickey"@ || a == "ssh_public_key"@ {
        Some(("sshpublickey"@, AttributeType::String, true, "sshPublicKey"@))
    } else {
        None
    }
}

/// The list of attributes that LDAP modify supports, as the refusal of another one names them.
pub open spec fn supported_attributes_note() -> Seq<char> {
    " (supported: givenName, sn, cn, mail, avatar, sshPublicKey, userPassword)"@
}

/// Whether a lowercased attribute is the display name.
pub open spec fn is_display_name_attr(a: Seq<char>) -> bool {
    a == "cn"@ || a == "commonname"@ || a == "displayname"@
}

/// Whether a lowercased attribute is the e-mail address.
pub open spec fn is_mail_attr(a: Seq<char>) -> bool {
    a == "mail"@ || a == "email"@
}

/// Whether a lowercased attribute is the SSH keys.
pub open spec fn is_ssh_attr(a: Seq<char>) -> bool {
    a == "sshpublickey"@ || a == "ssh_public_key"@
}

/// Whether the request changes only the listed fields of the user.
pub open spec fn update_is(
    req: UpdateUserRequest,
    user_id: Seq<char>,
    email: Option<Seq<char>>,
    display_name: Option<Seq<char>>,
    deletes: Seq<Seq<char>>,
    inserts: Seq<(Seq<char>, AttributeValue)>,
) -> bool {
    &&& req.user_id@ == user_id
    &&& (match (req.email, email) {
        (Some(a), Some(b)) => a@ == b,
        (None, None) => true,
        _ => false,
    })
    &&& (match (req.display_name, display_name) {
        (Some(a), Some(b)) => a@ == b,
        (None, None) => true,
        _ => false,
    })
    &&& req.delete_attributes@.map_values(|n: AttributeName| n@) == deletes
    &&& req.insert_attributes@.map_values(|a: Attribute| (a.name@, a.value)) == inserts
}

/// The step for values read as the given attribute: insert them, or report why they
/// cannot be read.
pub open spec fn insert_step(
    user_id: Seq<char>,
    name: Seq<char>,
    typ: AttributeType,
    is_list: bool,
    label: Seq<char>,
    texts: Seq<Seq<char>>,
    r: Result<ModifyStep, LdapError>,
) -> bool {
    exists|o: Result<AttributeValue, String>|
        #[trigger] deserialize_rel(texts, typ, is_list, o) && match o {
            Ok(v) => r matches Ok(ModifyStep::UpdateUser(req)) && update_is(req, user_id, None, None, seq![], seq![(name, v)]),
            Err(e) => r matches Err(err) && err.code == LdapResultCode::ConstraintViolation
                && err.message@ == "Invalid "@ + label + " value: "@ + e@,
        }
}

/// The step for values of a profile attribute that takes read values.
pub open spec fn value_step(user_id: Seq<char>, a: Seq<char>, texts: Seq<Seq<char>>, r: Result<ModifyStep, LdapError>) -> bool {
    if a == "givenname"@ || a == "given_name"@ {
        insert_step(user_id, "first_name"@, AttributeType::String, false, "first_name"@, texts, r)
    } else if a == "sn"@ || a == "surname"@ {
        insert_step(user_id, "last_name"@, AttributeType::String, false, "last_name"@, texts, r)
    } else if a == "avatar"@ || a == "jpegphoto"@ || a == "jpeg_photo"@ {
        insert_step(user_id, "avatar"@, AttributeType::Avatar, false, "avatar"@, texts, r)
    } else {
        insert_step(user_id, "sshpublickey"@, AttributeType::String, true, "sshPublicKey"@, texts, r)
    }
}

/// The keys after adding new ones: the current keys, then each new key not yet there.
pub open spec fn merged_keys(existing: Seq<Seq<char>>, new_keys: Seq<Seq<char>>) -> Seq<Seq<char>>
    decreases new_keys.len(),
{
    if new_keys.len() == 0 {
        existing
    } else {
        let m = merged_keys(existing, new_keys.drop_last());
        if m.contains(new_keys.last()) {
            m
        } else {
            m.push(new_keys.last())
        }
    }
}

/// The current keys that are not among the ones to delete, in order.
pub open spec fn remaining_keys(existing: Seq<Seq<char>>, deleted: Seq<Seq<char>>) -> Seq<Seq<char>>
    decreases existing.len(),
{
    if existing.len() == 0 {
        existing
    } else {
        let r = remaining_keys(existing.drop_last(), deleted);
        if deleted.contains(existing.last()) {
            r
        } else {
            r.push(existing.last())
        }
    }
}

/// The step for one change to the profile of `user_id`, made by `cred_user`
/// (`can_change` tells whether the credentials allow changing that user's password
/// and attributes); `keys` are the user's current SSH keys when already read.
pub open spec fn modify_step_ok(
    user_id: Seq<char>,
    cred_user: Seq<char>,
    can_change: bool,
    change: LdapModify,
    keys: Option<Seq<Seq<char>>>,
    r: Result<ModifyStep, LdapError>,
) -> bool {
    let atype = change.modification.atype@;
    let a = lower(atype);
    let op = change.operation;
    let vals = raw_values(change);
    let texts = utf8_texts(vals);
    if a == "userpassword"@ {
        if op != LdapModifyType::Replace {
            r matches Err(e) && e.code == LdapResultCode::UnwillingToPerform && e.message@ == "Unsupported operation: `"@
                + modify_type_text(op) + "` for `"@ + atype + "`"@
        } else if !can_change {
            r matches Err(e) && e.code == LdapResultCode::InsufficentAccessRights && e.message@ == "User `"@ + cred_user
                + "` cannot modify the password of user `"@ + user_id + "`"@
        } else if vals.len() == 1 {
            r matches Ok(ModifyStep::ChangePassword { user_id: u, password: p }) && u@ == user_id && p@ == vals[0]
        } else {
            r matches Err(e) && e.code == LdapResultCode::InvalidAttributeSyntax && e.message@
                == "Wrong number of values for password attribute: "@ + decimal(vals.len())
        }
    } else if !can_change {
        r matches Err(e) && e.code == LdapResultCode::InsufficentAccessRights && e.message@ == "User `"@ + cred_user
            + "` cannot modify attributes of user `"@ + user_id + "`"@
    } else if op == LdapModifyType::Delete && (is_mail_attr(a) || is_display_name_attr(a)) {
        r matches Err(e) && e.code == LdapResultCode::InsufficentAccessRights && e.message@ == "Deletion of `"@ + atype
            + "` is not allowed via LDAP Modify (use GraphQL or protected path)"@
    } else if op == LdapModifyType::Replace || op == LdapModifyType::Add {
        if texts.len() == 0 {
            r matches Err(e) && e.code == LdapResultCode::InvalidAttributeSyntax && e.message@ == "No values provided for "@
                + atype
        } else if op == LdapModifyType::Add && is_ssh_attr(a) {
            match keys {
                None => r matches Ok(ModifyStep::ReadSshKeys),
                Some(existing) => value_step(user_id, a, merged_keys(existing, texts), r),
            }
        } else if is_display_name_attr(a) {
            r matches Ok(ModifyStep::UpdateUser(req)) && update_is(req, user_id, None, Some(texts[0]), seq![], seq![])
        } else if is_mail_attr(a) {
            r matches Ok(ModifyStep::UpdateUser(req)) && update_is(req, user_id, Some(texts[0]), None, seq![], seq![])
        } else if value_target(a) is Some && !(op == LdapModifyType::Add && is_ssh_attr(a)) {
            value_step(user_id, a, texts, r)
        } else if op == LdapModifyType::Replace && a == "ou"@ {
            r matches Err(e) && e.code == LdapResultCode::UnwillingToPerform && e.message@
                == "Direct modification of 'ou' via LDAP Modify is not supported."@
        } else if op == LdapModifyType::Replace {
            r matches Err(e) && e.code == LdapResultCode::UnwillingToPerform && e.message@
                == "Unsupported attribute for LDAP Modify: "@ + atype + supported_attributes_note()
        } else {
            r matches Err(e) && e.code == LdapResultCode::UnwillingToPerform && e.message@ == "Add not supported for "@
                + atype
        }
    } else if op == LdapModifyType::Delete {
        if is_ssh_attr(a) {
            if texts.len() == 0 {
                r matches Ok(ModifyStep::UpdateUser(req)) && update_is(req, user_id, None, None, seq!["sshpublickey"@], seq![])
            } else {
                match keys {
                    None => r matches Ok(ModifyStep::ReadSshKeys),
                    Some(existing) => if remaining_keys(existing, texts).len() == 0 {
                        r matches Ok(ModifyStep::UpdateUser(req)) && update_is(req, user_id, None, None, seq!["sshpublickey"@], seq![])
                    } else {
                        value_step(user_id, a, remaining_keys(existing, texts), r)
                    },
                }
            }
        } else if a == "givenname"@ || a == "given_name"@ {
            r matches Ok(ModifyStep::UpdateUser(req)) && update_is(req, user_id, None, None, seq!["first_name"@], seq![])
        } else if a == "sn"@ || a == "surname"@ {
            r matches Ok(ModifyStep::UpdateUser(req)) && update_is(req, user_id, None, None, seq!["last_name"@], seq![])
        } else if a == "avatar"@ || a == "jpegphoto"@ || a == "jpeg_photo"@ {
            r matches Ok(ModifyStep::UpdateUser(req)) && update_is(req, user_id, None, None, seq!["avatar"@], seq![])
        } else {
            r matches Err(e) && e.code == LdapResultCode::UnwillingToPerform && e.message@ == "Deletion not supported for "@
                + atype
        }
    } else {
        r matches Err(e) && e.code == LdapResultCode::UnwillingToPerform && e.message@ == "Unsupported operation: `"@
            + modify_type_text(op) + "` for `"@ + atype + "`"@
    }
}

fn lowered_is(a: &String, lit: &str) -> (r: bool)
    ensures
        r == (a@ == lit@),
{
    str_eq(a.as_str(), lit)
}

fn no_names() -> (r: Vec<AttributeName>)
    ensures
        r@.map_values(|n: AttributeName| n@) == Seq::<Seq<char>>::empty(),
{
    let r: Vec<AttributeName> = Vec::new();
    assert(r@.map_values(|n: AttributeName| n@) =~= Seq::<Seq<char>>::empty());
    r
}

fn no_attributes() -> (r: Vec<Attribute>)
    ensures
        r@.map_values(|a: Attribute| (a.name@, a.value)) == Seq::<(Seq<char>, AttributeValue)>::empty(),
{
    let r: Vec<Attribute> = Vec::new();
    assert(r@.map_values(|a: Attribute| (a.name@, a.value)) =~= Seq::<(Seq<char>, AttributeValue)>::empty());
    r
}

fn delete_only(user_id: &UserId, name: &str) -> (r: ModifyStep)
    requires
        lower(name@) == name@,
    ensures
        r matches ModifyStep::UpdateUser(req) && update_is(req, user_id@, None, None, seq![name@], seq![]),
{
    let mut d: Vec<AttributeName> = Vec::new();
    d.push(AttributeName::new(name));
    assert(d@.map_values(|n: AttributeName| n@) =~= seq![lower(name@)]);
    ModifyStep::UpdateUser(UpdateUserRequest {
        user_id: user_id.clone(),
        email: None,
        display_name: None,
        delete_attributes: d,
        insert_attributes: no_attributes(),
    })
}

fn insert_values(
    user_id: &UserId,
    name: &str,
    typ: AttributeType,
    is_list: bool,
    label: &str,
    texts: &Vec<String>,
) -> (r: Result<ModifyStep, LdapError>)
    requires
        lower(name@) == name@,
    ensures
        insert_step(user_id@, name@, typ, is_list, label@, views(texts@), r),
{
    let o = deserialize_attribute_value(texts.as_slice(), typ, is_list);
    let ghost og = o;
    let r = match o {
        Ok(v) => {
            let ghost vg = v;
            let mut ins: Vec<Attribute> = Vec::new();
            ins.push(Attribute { name: AttributeName::new(name), value: v });
            assert(ins@.map_values(|a: Attribute| (a.name@, a.value)) =~= seq![(lower(name@), vg)]);
            Ok(ModifyStep::UpdateUser(UpdateUserRequest {
                user_id: user_id.clone(),
                email: None,
                display_name: None,
                delete_attributes: no_names(),
                insert_attributes: ins,
            }))
        },
        Err(e) => {
            let mut m = copy_str("Invalid ");
            push_str(&mut m, label);
            push_str(&mut m, " value: ");
            push_str(&mut m, e.as_str());
            Err(LdapError { code: LdapResultCode::ConstraintViolation, message: m })
        },
    };
    assert(deserialize_rel(views(texts@), typ, is_list, og));
    r
}

fn holds_text(list: &Vec<String>, t: &String) -> (r: bool)
    ensures
        r == views(list@).contains(t@),
{
    let mut i: usize = 0;
    while i < list.len()
        invariant
            i <= list@.len(),
            forall|j: int| 0 <= j < i ==> list@[j]@ != t@,
        decreases list@.len() - i,
    {
        if str_eq(list[i].as_str(), t.as_str()) {
            assert(views(list@)[i as int] == t@);
            return true;
        }
        i += 1;
    }
    assert forall|j: int| 0 <= j < views(list@).len() implies views(list@)[j] != t@ by {
        assert(views(list@)[j] == list@[j]@);
    }
    false
}

fn merge_keys(existing: &Vec<String>, new_keys: &Vec<String>) -> (r: Vec<String>)
    ensures
        views(r@) == merged_keys(views(existing@), views(new_keys@)),
{
    let ghost nv = views(new_keys@);
    let mut r: Vec<String> = Vec::new();
    let mut i: usize = 0;
    while i < existing.len()
        invariant
            i <= existing@.len(),
            views(r@) == views(existing@).take(i as int),
        decreases existing@.len() - i,
    {
        let ghost before = views(r@);
        r.push(existing[i].clone());
        assert(views(r@) =~= before.push(existing@[i as int]@));
        assert(views(existing@).take(i + 1) =~= views(existing@).take(i as int).push(existing@[i as int]@));
        i += 1;
    }
    assert(views(existing@).take(existing@.len() as int) =~= views(existing@));
    let mut k: usize = 0;
    while k < new_keys.len()
        invariant
            k <= new_keys@.len(),
            nv == views(new_keys@),
            views(r@) == merged_keys(views(existing@), nv.take(k as int)),
        decreases new_keys@.len() - k,
    {
        assert(nv.take(k + 1).drop_last() =~= nv.take(k as int));
        assert(nv.take(k + 1).last() == new_keys@[k as int]@);
        if !holds_text(&r, &new_keys[k]) {
            let ghost before = views(r@);
            r.push(new_keys[k].clone());
            assert(views(r@) =~= before.push(new_keys@[k as int]@));
        }
        k += 1;
    }
    assert(nv.take(new_keys@.len() as int) =~= nv);
    r
}

fn remaining(existing: &Vec<String>, deleted: &Vec<String>) -> (r: Vec<String>)
    ensures
        views(r@) == remaining_keys(views(existing@), views(deleted@)),
{
    let ghost ev = views(existing@);
    let mut r: Vec<String> = Vec::new();
    let mut i: usize = 0;
    while i < existing.len()
        invariant
            i <= existing@.len(),
            ev == views(existing@),
            views(r@) == remaining_keys(ev.take(i as int), views(deleted@)),
        decreases existing@.len() - i,
    {
        assert(ev.take(i + 1).drop_last() =~= ev.take(i as int));
        assert(ev.take(i + 1).last() == existing@[i as int]@);
        if !holds_text(deleted, &existing[i]) {
            let ghost before = views(r@);
            r.push(existing[i].clone());
            assert(views(r@) =~= before.push(existing@[i as int]@));
        }
        i += 1;
    }
    assert(ev.take(existing@.len() as int) =~= ev);
    r
}

fn user_message(prefix: &str, cred_user: &str, middle: &str, user_id: &UserId) -> (r: String)
    ensures
        r@ == prefix@ + cred_user@ + middle@ + user_id@ + "`"@,
{
    let mut m = copy_str(prefix);
    push_str(&mut m, cred_user);
    push_str(&mut m, middle);
    push_str(&mut m, user_id.as_str());
    push_str(&mut m, "`");
    m
}

/// The refusal of a modify request whose credentials cannot read user `user_id`.
pub fn no_read_access_error(cred_user: &str, user_id: &UserId) -> (e: LdapError)
    ensures
        e.code == LdapResultCode::InsufficentAccessRights,
        e.message@ == "User `"@ + cred_user@ + "` cannot modify user `"@ + user_id@ + "`"@,
{
    error(LdapResultCode::InsufficentAccessRights, user_message("User `", cred_user, "` cannot modify user `", user_id))
}

/// The refusal of a modify request whose credentials cannot write user `user_id`.
pub fn no_write_access_error(cred_user: &str, user_id: &UserId) -> (e: LdapError)
    ensures
        e.code == LdapResultCode::InsufficentAccessRights,
        e.message@ == "User `"@ + cred_user@ + "` cannot modify user `"@ + user_id@ + "` (no write permission)"@,
{
    let mut m = user_message("User `", cred_user, "` cannot modify user `", user_id);
    push_str(&mut m, " (no write permission)");
    proof {
        reveal_strlit("`");
        reveal_strlit(" (no write permission)");
        reveal_strlit("` (no write permission)");
        assert("`"@ + " (no write permission)"@ =~= "` (no write permission)"@);
        assert(m@ =~= "User `"@ + cred_user@ + "` cannot modify user `"@ + user_id@ + "` (no write permission)"@);
    }
    error(LdapResultCode::InsufficentAccessRights, m)
}

fn error(code: LdapResultCode, message: String) -> (e: LdapError)
    ensures
        e.code == code,
        e.message == message,
{
    LdapError { code, message }
}

fn unsupported_operation(op: LdapModifyType, atype: &String) -> (e: LdapError)
    ensures
        e.code == LdapResultCode::UnwillingToPerform,
        e.message@ == "Unsupported operation: `"@ + modify_type_text(op) + "` for `"@ + atype@ + "`"@,
{
    let mut m = copy_str("Unsupported operation: `");
    push_str(&mut m, modify_type_name(op));
    push_str(&mut m, "` for `");
    push_str(&mut m, atype.as_str());
    push_str(&mut m, "`");
    error(LdapResultCode::UnwillingToPerform, m)
}

fn prefixed(prefix: &str, atype: &String) -> (r: String)
    ensures
        r@ == prefix@ + atype@,
{
    let mut m = copy_str(prefix);
    push_str(&mut m, atype.as_str());
    m
}

/// Decides what one change of a modify request on user `user_id` does.
/// `can_change_password` tells whether the credentials of `credentials_user` allow
/// changing this user's password and profile; `current_ssh_keys` are the user's SSH
/// keys once read (a change that needs them asks for them first).
pub fn handle_modify_change(
    user_id: &UserId,
    credentials_user: &str,
    can_change_password: bool,
    change: &LdapModify,
    current_ssh_keys: Option<Vec<String>>,
) -> (r: Result<ModifyStep, LdapError>)
    ensures
        modify_step_ok(
            user_id@,
            credentials_user@,
            can_change_password,
            *change,
            match current_ssh_keys {
                Some(k) => Some(views(k@)),
                None => None,
            },
            r,
        ),
{
    proof {
        lemma_stored_names_lowercase();
    }
    let atype = &change.modification.atype;
    let a = to_ascii_lowercase(atype.as_str());
    let op = change.operation;
    let vals = &change.modification.vals;
    proof {
        assert(vals@.map_values(|v: Vec<u8>| v@) == raw_values(*change));
    }
    if lowered_is(&a, "userpassword") {
        if op != LdapModifyType::Replace {
            return Err(unsupported_operation(op, atype));
        }
        if !can_change_password {
            return Err(error(
                LdapResultCode::InsufficentAccessRights,
                user_message("User `", credentials_user, "` cannot modify the password of user `", user_id),
            ));
        }
        if vals.len() == 1 {
            return Ok(ModifyStep::ChangePassword { user_id: user_id.clone(), password: vals[0].clone() });
        }
        let mut m = copy_str("Wrong number of values for password attribute: ");
        push_decimal(&mut m, vals.len() as u64);
        return Err(error(LdapResultCode::InvalidAttributeSyntax, m));
    }
    if !can_change_password {
        return Err(error(
            LdapResultCode::InsufficentAccessRights,
            user_message("User `", credentials_user, "` cannot modify attributes of user `", user_id),
        ));
    }
    let is_mail = lowered_is(&a, "mail") || lowered_is(&a, "email");
    let is_display = lowered_is(&a, "cn") || lowered_is(&a, "commonname") || lowered_is(&a, "displayname");
    let is_ssh = lowered_is(&a, "sshpublickey") || lowered_is(&a, "ssh_public_key");
    let is_given = lowered_is(&a, "givenname") || lowered_is(&a, "given_name");
    let is_sn = lowered_is(&a, "sn") || lowered_is(&a, "surname");
    let is_avatar = lowered_is(&a, "avatar") || lowered_is(&a, "jpegphoto") || lowered_is(&a, "jpeg_photo");
    if op == LdapModifyType::Delete && (is_mail || is_display) {
        let mut m = copy_str("Deletion of `");
        push_str(&mut m, atype.as_str());
        push_str(&mut m, "` is not allowed via LDAP Modify (use GraphQL or protected path)");
        return Err(error(LdapResultCode::InsufficentAccessRights, m));
    }
    let texts = texts_of(vals);
    if op == LdapModifyType::Replace || op == LdapModifyType::Add {
        if texts.len() == 0 {
            return Err(error(LdapResultCode::InvalidAttributeSyntax, prefixed("No values provided for ", atype)));
        }
        if op == LdapModifyType::Add && is_ssh {
            proof {
                lemma_ssh_names_distinct(a@);
            }
            return match current_ssh_keys {
                None => Ok(ModifyStep::ReadSshKeys),
                Some(existing) => {
                    let merged = merge_keys(&existing, &texts);
                    let r = insert_values(user_id, "sshpublickey", AttributeType::String, true, "sshPublicKey", &merged);
                    r
                },
            };
        }
        if is_display {
            let ghost t0 = views(texts@)[0];
            return Ok(ModifyStep::UpdateUser(UpdateUserRequest {
                user_id: user_id.clone(),
                email: None,
                display_name: Some(texts[0].clone()),
                delete_attributes: no_names(),
                insert_attributes: no_attributes(),
            }));
        }
        if is_mail {
            return Ok(ModifyStep::UpdateUser(UpdateUserRequest {
                user_id: user_id.clone(),
                email: Some(Email::new(texts[0].as_str())),
                display_name: None,
                delete_attributes: no_names(),
                insert_attributes: no_attributes(),
            }));
        }
        if is_given {
            return insert_values(user_id, "first_name", AttributeType::String, false, "first_name", &texts);
        }
        if is_sn {
            return insert_values(user_id, "last_name", AttributeType::String, false, "last_name", &texts);
        }
        if is_avatar {
            return insert_values(user_id, "avatar", AttributeType::Avatar, false, "avatar", &texts);
        }
        if is_ssh {
            return insert_values(user_id, "sshpublickey", AttributeType::String, true, "sshPublicKey", &texts);
        }
        if op == LdapModifyType::Replace && lowered_is(&a, "ou") {
            return Err(error(
                LdapResultCode::UnwillingToPerform,
                copy_str("Direct modification of 'ou' via LDAP Modify is not supported."),
            ));
        }
        if op == LdapModifyType::Replace {
            let mut m = prefixed("Unsupported attribute for LDAP Modify: ", atype);
            push_str(&mut m, " (supported: givenName, sn, cn, mail, avatar, sshPublicKey, userPassword)");
            return Err(error(LdapResultCode::UnwillingToPerform, m));
        }
        return Err(error(LdapResultCode::UnwillingToPerform, prefixed("Add not supported for ", atype)));
    }
    if op == LdapModifyType::Delete {
        if is_ssh {
            proof {
                lemma_ssh_names_distinct(a@);
            }
            if texts.len() == 0 {
                return Ok(delete_only(user_id, "sshpublickey"));
            }
            return match current_ssh_keys {
                None => Ok(ModifyStep::ReadSshKeys),
                Some(existing) => {
                    let rest = remaining(&existing, &texts);
                    if rest.len() == 0 {
                        Ok(delete_only(user_id, "sshpublickey"))
                    } else {
                        insert_values(user_id, "sshpublickey", AttributeType::String, true, "sshPublicKey", &rest)
                    }
                },
            };
        }
        if is_given {
            return Ok(delete_only(user_id, "first_name"));
        }
        if is_sn {
            return Ok(delete_only(user_id, "last_name"));
        }
        if is_avatar {
            return Ok(delete_only(user_id, "avatar"));
        }
        return Err(error(LdapResultCode::UnwillingToPerform, prefixed("Deletion not supported for ", atype)));
    }
    Err(unsupported_operation(op, atype))
}

proof fn lemma_stored_names_lowercase()
    ensures
        lower("first_name"@) == "first_name"@,
        lower("last_name"@) == "last_name"@,
        lower("avatar"@) == "avatar"@,
        lower("sshpublickey"@) == "sshpublickey"@,
{
    reveal_strlit("first_name");
    reveal_strlit("last_name");
    reveal_strlit("avatar");
    reveal_strlit("sshpublickey");
    assert(lower("first_name"@) =~= "first_name"@);
    assert(lower("last_name"@) =~= "last_name"@);
    assert(lower("avatar"@) =~= "avatar"@);
    assert(lower("sshpublickey"@) =~= "sshpublickey"@);
}

/// The SSH key attribute names differ from the other profile attribute names.
proof fn lemma_ssh_names_distinct(a: Seq<char>)
    requires
        is_ssh_attr(a),
    ensures
        !(a == "givenname"@ || a == "given_name"@),
        !(a == "sn"@ || a == "surname"@),
        !(a == "avatar"@ || a == "jpegphoto"@ || a == "jpeg_photo"@),
{
    reveal_strlit("sshpublickey");
    reveal_strlit("ssh_public_key");
    reveal_strlit("givenname");
    reveal_strlit("given_name");
    reveal_strlit("sn");
    reveal_strlit("surname");
    reveal_strlit("avatar");
    reveal_strlit("jpegphoto");
    reveal_strlit("jpeg_photo");
    assert("sshpublickey"@.len() == 12);
    assert("ssh_public_key"@.len() == 14);
    assert("givenname"@.len() == 9);
    assert("given_name"@.len() == 10);
    assert("sn"@.len() == 2);
    assert("surname"@.len() == 7);
    assert("avatar"@.len() == 6);
    assert("jpegphoto"@.len() == 9);
    assert("jpeg_photo"@.len() == 10);
}

/// The SSH keys among a user's attributes: those of the first attribute named
/// `sshpublickey` (one key or a list of keys); none otherwise.
pub open spec fn ssh_keys_of(attrs: Seq<Attribute>) -> Seq<Seq<char>>
    decreases attrs.len(),
{
    if attrs.len() == 0 {
        Seq::empty()
    } else if attrs[0].name@ == "sshpublickey"@ {
        match attrs[0].value {
            AttributeValue::String(Cardinality::Unbounded(l)) => views(l@),
            AttributeValue::String(Cardinality::Singleton(k)) => seq![k@],
            _ => Seq::empty(),
        }
    } else {
        ssh_keys_of(attrs.drop_first())
    }
}

fn copy_all(l: &Vec<String>) -> (r: Vec<String>)
    ensures
        views(r@) == views(l@),
{
    let mut r: Vec<String> = Vec::new();
    let mut i: usize = 0;
    while i < l.len()
        invariant
            i <= l@.len(),
            views(r@) == views(l@).take(i as int),
        decreases l@.len() - i,
    {
        let ghost before = views(r@);
        r.push(l[i].clone());
        assert(views(r@) =~= before.push(l@[i as int]@));
        assert(views(l@).take(i + 1) =~= views(l@).take(i as int).push(l@[i as int]@));
        i += 1;
    }
    assert(views(l@).take(l@.len() as int) =~= views(l@));
    r
}

/// The current SSH keys of a user, from its attributes.
pub fn existing_ssh_keys(attributes: &Vec<Attribute>) -> (r: Vec<String>)
    ensures
        views(r@) == ssh_keys_of(attributes@),
{
    assert(attributes@.skip(0) =~= attributes@);
    let mut i: usize = 0;
    while i < attributes.len()
        invariant
            i <= attributes@.len(),
            ssh_keys_of(attributes@) == ssh_keys_of(attributes@.skip(i as int)),
        decreases attributes@.len() - i,
    {
        assert(attributes@.skip(i as int)[0] == attributes@[i as int]);
        assert(attributes@.skip(i as int).drop_first() =~= attributes@.skip(i + 1));
        if str_eq(attributes[i].name.as_str(), "sshpublickey") {
            return match &attributes[i].value {
                AttributeValue::String(Cardinality::Unbounded(l)) => copy_all(l),
                AttributeValue::String(Cardinality::Singleton(k)) => {
                    let mut r: Vec<String> = Vec::new();
                    r.push(k.clone());
                    assert(views(r@) =~= seq![k@]);
                    r
                },
                _ => {
                    let r: Vec<String> = Vec::new();
                    assert(views(r@) =~= Seq::<Seq<char>>::empty());
                    r
                },
            };
        }
        i += 1;
    }
    let r: Vec<String> = Vec::new();
    assert(views(r@) =~= Seq::<Seq<char>>::empty());
    r
}

/// Whether a user has Kerberos sync enabled: an attribute `kerberossync` holding the single integer 1.
pub open spec fn kerberos_sync_on(attrs: Seq<Attribute>) -> bool {
    exists|i: int|
        0 <= i < attrs.len() && (#[trigger] attrs[i]).name@ == "kerberossync"@ && attrs[i].value
            == AttributeValue::Integer(Cardinality::Singleton(1i64))
}

/// Whether the attributes of a user turn Kerberos sync on.
pub fn kerberos_sync_enabled(attributes: &Vec<Attribute>) -> (r: bool)
    ensures
        r == kerberos_sync_on(attributes@),
{
    let mut i: usize = 0;
    while i < attributes.len()
        invariant
            i <= attributes@.len(),
            forall|j: int|
                0 <= j < i ==> !((#[trigger] attributes@[j]).name@ == "kerberossync"@ && attributes@[j].value
                    == AttributeValue::Integer(Cardinality::Singleton(1i64))),
        decreases attributes@.len() - i,
    {
        let a = &attributes[i];
        if str_eq(a.name.as_str(), "kerberossync") {
            match &a.value {
                AttributeValue::Integer(Cardinality::Singleton(v)) => {
                    if *v == 1 {
                        return true;
                    }
                },
                _ => {},
            }
        }
        i += 1;
    }
    false
}

/// The user a modify request names, or an `InvalidDNSyntax` error explaining why the
/// DN names no user.
pub fn modify_request_user(dn: &str, base_dn: &[(String, String)], base_dn_str: &str) -> (r: Result<UserId, LdapError>)
    ensures
        match crate::dn::dn_target(dn@, crate::dn::pairs_view(base_dn@)) {
            crate::dn::DnTarget::User(id) => r matches Ok(u) && u@ == id,
            t => r matches Err(e) && e.code == LdapResultCode::InvalidDNSyntax && e.message@ == "Invalid username: "@
                + crate::dn::target_error_message(t, dn@, crate::dn::user_dn_format(base_dn_str@)),
        },
{
    match crate::dn::get_user_id_from_distinguished_name(dn, base_dn, base_dn_str) {
        Ok(u) => Ok(u),
        Err(e) => {
            let mut m = copy_str("Invalid username: ");
            push_str(&mut m, e.message.as_str());
            Err(LdapError { code: LdapResultCode::InvalidDNSyntax, message: m })
        },
    }
}

/// Whether one of the group names is the administrators' group `lldap_admin`
/// (without ASCII case).
pub fn is_admin_member(group_names: &Vec<crate::types::GroupName>) -> (r: bool)
    ensures
        r == exists|i: int| 0 <= i < group_names@.len() && #[trigger] crate::text::eq_ic(group_names@[i]@, "lldap_admin"@),
{
    let mut i: usize = 0;
    while i < group_names.len()
        invariant
            i <= group_names@.len(),
            forall|j: int| 0 <= j < i ==> !crate::text::eq_ic(#[trigger] group_names@[j]@, "lldap_admin"@),
        decreases group_names@.len() - i,
    {
        if crate::text::eq_ignore_ascii_case(group_names[i].as_str(), "lldap_admin") {
            return true;
        }
        i += 1;
    }
    false
}


/// Deleting an LDAP attribute and replacing it address one stored attribute: when a
/// `Delete` of an attribute removes stored attributes and a `Replace` of the same
/// attribute (any case) writes some, the `Delete` removes exactly the one attribute that
/// the `Replace` writes (`givenName` and `first_name`, `sn` and `last_name`, ...).
pub proof fn delete_and_replace_address_one_attribute(
    user_id: Seq<char>,
    cred_user: Seq<char>,
    del: LdapModify,
    rep: LdapModify,
    keys: Option<Seq<Seq<char>>>,
    rd: Result<ModifyStep, LdapError>,
    rr: Result<ModifyStep, LdapError>,
)
    requires
        del.operation == LdapModifyType::Delete,
        rep.operation == LdapModifyType::Replace,
        lower(del.modification.atype@) == lower(rep.modification.atype@),
        modify_step_ok(user_id, cred_user, true, del, keys, rd),
        modify_step_ok(user_id, cred_user, true, rep, keys, rr),
        rd matches Ok(ModifyStep::UpdateUser(d)) && d.delete_attributes@.len() > 0,
        rr matches Ok(ModifyStep::UpdateUser(p)) && p.insert_attributes@.len() > 0,
    ensures
        ({
            let (d, p) = (rd->Ok_0->UpdateUser_0, rr->Ok_0->UpdateUser_0);
            &&& d.delete_attributes@.len() == 1
            &&& p.insert_attributes@.len() == 1
            &&& d.delete_attributes@[0]@ == p.insert_attributes@[0].name@
        }),
{
    reveal_strlit("givenname");
    reveal_strlit("given_name");
    reveal_strlit("sn");
    reveal_strlit("surname");
    reveal_strlit("avatar");
    reveal_strlit("jpegphoto");
    reveal_strlit("jpeg_photo");
    reveal_strlit("sshpublickey");
    reveal_strlit("ssh_public_key");
    let fam = seq!["givenname"@, "given_name"@, "sn"@, "surname"@, "avatar"@, "jpegphoto"@, "jpeg_photo"@, "sshpublickey"@, "ssh_public_key"@];
    assert(fam[0][0] == 'g' && fam[1][0] == 'g' && fam[5][0] == 'j' && fam[6][0] == 'j');
    assert(fam[2].len() == 2 && fam[3].len() == 7 && fam[4].len() == 6 && fam[7].len() == 12 && fam[8].len() == 14);
    assert(fam[0].len() == 9 && fam[1].len() == 10 && fam[5].len() == 9 && fam[6].len() == 10);
    let a = lower(del.modification.atype@);
    let d = rd->Ok_0->UpdateUser_0;
    let p = rr->Ok_0->UpdateUser_0;
    let texts = utf8_texts(raw_values(rep));
    let dn = d.delete_attributes@.map_values(|n: AttributeName| n@);
    let pn = p.insert_attributes@.map_values(|x: Attribute| (x.name@, x.value));
    assert(dn[0] == d.delete_attributes@[0]@);
    assert(pn[0] == (p.insert_attributes@[0].name@, p.insert_attributes@[0].value));
    let (name, typ, is_list) = if a == "givenname"@ || a == "given_name"@ {
        ("first_name"@, AttributeType::String, false)
    } else if a == "sn"@ || a == "surname"@ {
        ("last_name"@, AttributeType::String, false)
    } else if a == "avatar"@ || a == "jpegphoto"@ || a == "jpeg_photo"@ {
        ("avatar"@, AttributeType::Avatar, false)
    } else {
        ("sshpublickey"@, AttributeType::String, true)
    };
    let label = if a == "givenname"@ || a == "given_name"@ {
        "first_name"@
    } else if a == "sn"@ || a == "surname"@ {
        "last_name"@
    } else if a == "avatar"@ || a == "jpegphoto"@ || a == "jpeg_photo"@ {
        "avatar"@
    } else {
        "sshPublicKey"@
    };
    assert(value_target(a) is Some);
    assert(value_step(user_id, a, texts, rr));
    assert(insert_step(user_id, name, typ, is_list, label, texts, rr));
    let o = choose|o: Result<AttributeValue, String>|
        #[trigger] deserialize_rel(texts, typ, is_list, o) && match o {
            Ok(v) => rr matches Ok(ModifyStep::UpdateUser(req)) && update_is(req, user_id, None, None, seq![], seq![(name, v)]),
            Err(e) => rr matches Err(err) && err.code == LdapResultCode::ConstraintViolation
                && err.message@ == "Invalid "@ + label + " value: "@ + e@,
        };
    assert(pn =~= seq![(name, o->Ok_0)]);
    let dtexts = utf8_texts(raw_values(del));
    if is_ssh_attr(a) && dtexts.len() > 0 {
        if let Some(existing) = keys {
            let rest = remaining_keys(existing, dtexts);
            if rest.len() > 0 {
                assert(value_step(user_id, a, rest, rd));
                assert(insert_step(user_id, name, typ, is_list, label, rest, rd));
                let o2 = choose|o: Result<AttributeValue, String>|
                    #[trigger] deserialize_rel(rest, typ, is_list, o) && match o {
                        Ok(v) => rd matches Ok(ModifyStep::UpdateUser(req)) && update_is(req, user_id, None, None, seq![], seq![(name, v)]),
                        Err(e) => rd matches Err(err) && err.code == LdapResultCode::ConstraintViolation
                            && err.message@ == "Invalid "@ + label + " value: "@ + e@,
                    };
                assert(dn.len() == 0);
            }
        }
    }
    if a == "givenname"@ || a == "given_name"@ {
        assert(!is_ssh_attr(a));
        assert(update_is(d, user_id, None, None, seq!["first_name"@], seq![]));
    } else if a == "sn"@ || a == "surname"@ {
        assert(update_is(d, user_id, None, None, seq!["last_name"@], seq![]));
    } else if a == "avatar"@ || a == "jpegphoto"@ || a == "jpeg_photo"@ {
        assert(update_is(d, user_id, None, None, seq!["avatar"@], seq![]));
    } else {
        assert(is_ssh_attr(a));
        assert(update_is(d, user_id, None, None, seq!["sshpublickey"@], seq![]));
    }
    assert(dn =~= seq![name]);
    assert(d.delete_attributes@.len() == dn.len());
    assert(p.insert_attributes@.len() == pn.len());
    assert(d.delete_attributes@[0]@ == name);
    assert(p.insert_attributes@[0].name@ == name);
}

} // verus!
