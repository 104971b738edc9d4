//! The rules of the GraphQL API: how the attribute values that clients send are
//! checked and read, and how stored values are shown to them.
use vstd::prelude::*;
use vstd::utf8::encode_utf8;
use crate::images::{avatar_error_text, base64_decode, base64_error_text, base64_standard_decoded, process_avatar_input, AvatarError};
use crate::proto::utf8_bytes;
use crate::schema::{attr_views, first_answering, AttrView, AttributeList, AttributeSchema, AttributeType, PublicSchema};
use crate::storage::{deserialize_attribute_value, json_string_array, stored_value, strings_to_json};
use crate::text::{
    concat, copy_str, eq_ic, eq_ignore_ascii_case, is_whitespace, is_ws, lower, push_str, str_eq, starts_with,
    to_lowercase, trim, trim_str, unicode_lower, views,
};
use crate::types::{Attribute, AttributeName, AttributeValue as DomainAttributeValue, Cardinality, Email, Serialized};

verus! {

/// An attribute as a GraphQL client sends it: a name and its values as texts.
#[derive(Clone, Debug, PartialEq, Eq)]
pub struct AttributeValue {
    pub name: String,
    pub value: Vec<String>,
}

/// The first word of a text: its characters up to the first whitespace.
pub open spec fn first_word(s: Seq<char>) -> Seq<char>
    decreases s.len(),
{
    if s.len() == 0 || is_ws(s[0]) {
        Seq::empty()
    } else {
        seq![s[0]] + first_word(s.drop_first())
    }
}

/// Whether `s` starts with `p`.
pub open spec fn begins(s: Seq<char>, p: Seq<char>) -> bool {
    p.len() <= s.len() && s.subrange(0, p.len() as int) == p
}

/// Why a text is not an SSH public key, if it is not: it is checked trimmed; it
/// must not be empty, must start with a known key type, must hold a space, and
/// must not exceed 4096 bytes.
pub open spec fn ssh_key_problem(key: Seq<char>) -> Option<Seq<char>> {
    let t = trim(key);
    if t.len() == 0 {
        Some("SSH public key cannot be empty"@)
    } else if !(begins(t, "ssh-"@) || begins(t, "ecdsa-"@) || begins(t, "sk-"@) || begins(t, "ssh-ed25519"@)) {
        Some(
            "Invalid SSH public key format. Expected to start with ssh-, ecdsa-, sk-, or ssh-ed25519. Got: '"@
                + first_word(t) + "'"@,
        )
    } else if !t.contains(' ') {
        Some("Invalid SSH public key: missing space after key type"@)
    } else if encode_utf8(t).len() > 4096 {
        Some("SSH public key is too long (max 4096 characters)"@)
    } else {
        None
    }
}

/// The first word of a text.
fn first_word_of(s: &str) -> (r: String)
    ensures
        r@ == first_word(s@),
{
    let v = crate::text::chars_of(s);
    let mut i: usize = 0;
    while i < v.len() && !is_whitespace(v[i])
        invariant
            v@ == s@,
            i <= v@.len(),
            forall|k: int| 0 <= k < i ==> !is_ws(v@[k]),
        decreases v@.len() - i,
    {
        i += 1;
    }
    proof {
        lemma_first_word(s@, i as int);
    }
    let mut r = crate::text::empty_string();
    crate::text::push_chars(&mut r, &v, 0, i);
    assert(r@ =~= s@.subrange(0, i as int));
    r
}

proof fn lemma_first_word(s: Seq<char>, i: int)
    requires
        0 <= i <= s.len(),
        forall|k: int| 0 <= k < i ==> !is_ws(s[k]),
        i == s.len() || is_ws(s[i]),
    ensures
        first_word(s) == s.subrange(0, i),
    decreases i,
{
    if i == 0 {
        assert(s.subrange(0, 0) =~= Seq::<char>::empty());
    } else {
        let t = s.drop_first();
        assert forall|k: int| 0 <= k < i - 1 implies !is_ws(t[k]) by {
            assert(t[k] == s[k + 1]);
        }
        if i - 1 < t.len() {
            assert(t[i - 1] == s[i]);
        }
        lemma_first_word(t, i - 1);
        assert(seq![s[0]] + t.subrange(0, i - 1) =~= s.subrange(0, i));
    }
}

/// Checks an SSH public key.
pub fn validate_ssh_public_key(key: &str) -> (r: Result<(), String>)
    ensures
        match ssh_key_problem(key@) {
            Some(m) => r matches Err(e) && e@ == m,
            None => r is Ok,
        },
{
    let t = trim_str(key);
    proof {
        reveal_strlit("");
        if t@.len() == 0 {
            assert(t@ =~= ""@);
        }
    }
    if str_eq(t.as_str(), "") {
        return Err(copy_str("SSH public key cannot be empty"));
    }
    let ts = t.as_str();
    if !(starts_with(ts, "ssh-") || starts_with(ts, "ecdsa-") || starts_with(ts, "sk-") || starts_with(ts, "ssh-ed25519")) {
        let mut m = copy_str(
            "Invalid SSH public key format. Expected to start with ssh-, ecdsa-, sk-, or ssh-ed25519. Got: '",
        );
        let w = first_word_of(ts);
        push_str(&mut m, w.as_str());
        push_str(&mut m, "'");
        return Err(m);
    }
    if !crate::text::contains_char(ts, ' ') {
        return Err(copy_str("Invalid SSH public key: missing space after key type"));
    }
    if utf8_bytes(ts).len() > 4096 {
        return Err(copy_str("SSH public key is too long (max 4096 characters)"));
    }
    Ok(())
}

/// The name a schema resolves an attribute name to: the name of the attribute
/// found under it (exact name or alias), else the name itself.
pub open spec fn resolved_name(attrs: Seq<AttrView>, name: Seq<char>) -> Seq<char> {
    match first_answering(attrs, name) {
        Some(i) => attrs[i].name,
        None => name,
    }
}

/// The first text, or the empty text.
pub open spec fn first_value(vals: Seq<Seq<char>>) -> Seq<char> {
    if vals.len() > 0 {
        vals[0]
    } else {
        Seq::empty()
    }
}

/// The problem of the first text that is not an SSH public key.
pub open spec fn first_key_problem(keys: Seq<Seq<char>>) -> Option<Seq<char>>
    decreases keys.len(),
{
    if keys.len() == 0 {
        None
    } else {
        match first_key_problem(keys.drop_last()) {
            Some(m) => Some(m),
            None => ssh_key_problem(keys.last()),
        }
    }
}

/// Whether an attribute name stands for the avatar.
pub open spec fn is_avatar_name(name: Seq<char>) -> bool {
    eq_ic(name, "avatar"@) || eq_ic(name, "jpegphoto"@)
}

/// Whether `r` is the attribute `name` with texts `vals` is read as, for the schema
/// attributes `attrs`: the name resolves to the schema attribute (stored under its
/// lowercased name), which must exist and be writable by the caller; SSH keys must
/// be valid; an avatar is the base64 of a picture, re-encoded as an avatar JPEG;
/// other values are read as stored texts (a JSON array for lists).
pub open spec fn graphql_attribute_ok(
    attrs: Seq<AttrView>,
    name: Seq<char>,
    vals: Seq<Seq<char>>,
    is_admin: bool,
    r: Result<Attribute, String>,
) -> bool {
    let canonical = lower(resolved_name(attrs, name));
    match first_answering(attrs, canonical) {
        None => r matches Err(m) && m@ == "Attribute "@ + name + " is not defined in the schema"@,
        Some(i) => {
            let a = attrs[i];
            if a.is_readonly {
                r matches Err(m) && m@ == "Permission denied: Attribute "@ + name + " is read-only"@
            } else if !is_admin && !a.is_editable {
                r matches Err(m) && m@ == "Permission denied: Attribute "@ + name
                    + " is not editable by regular users"@
            } else if eq_ic(name, "sshpublickey"@) && a.is_list && first_key_problem(vals) is Some {
                r matches Err(m) && m@ == "Invalid SSH public key: "@ + first_key_problem(vals)->0
            } else if is_avatar_name(name) && !a.is_list {
                let v = trim(first_value(vals));
                if v.len() == 0 {
                    r matches Ok(attr) && attr.name@ == canonical && stored_value(
                        Seq::empty(),
                        a.attribute_type,
                        false,
                        attr.value,
                    )
                } else {
                    match base64_standard_decoded(v) {
                        None => r matches Err(m) && m@ == "Invalid base64 avatar data: "@ + base64_error_text(v),
                        Some(_) => {
                            ||| (r matches Ok(attr) && attr.name@ == canonical && exists|j: Seq<u8>|
                                #[trigger] crate::images::avatar_output_shape(j) && stored_value(
                                    j,
                                    a.attribute_type,
                                    false,
                                    attr.value,
                                ))
                            ||| (r matches Err(m) && exists|e: AvatarError|
                                m@ == "Invalid avatar upload: "@ + #[trigger] avatar_error_text(e))
                        },
                    }
                }
            } else {
                let bytes = if a.is_list {
                    encode_utf8(json_string_array(vals))
                } else {
                    encode_utf8(first_value(vals))
                };
                r matches Ok(attr) && attr.name@ == canonical && stored_value(
                    bytes,
                    a.attribute_type,
                    a.is_list,
                    attr.value,
                )
            }
        },
    }
}

/// The first of the texts, or the empty text.
fn first_text(vals: &Vec<String>) -> (r: String)
    ensures
        r@ == first_value(views(vals@)),
{
    if vals.len() > 0 {
        copy_str(vals[0].as_str())
    } else {
        String::new()
    }
}

/// The problem of the first text that is not an SSH public key.
fn first_bad_key(keys: &Vec<String>) -> (r: Option<String>)
    ensures
        match first_key_problem(views(keys@)) {
            Some(m) => r matches Some(x) && x@ == m,
            None => r is None,
        },
{
    let ghost kv = views(keys@);
    let mut i: usize = 0;
    assert(kv.take(0) =~= Seq::<Seq<char>>::empty());
    while i < keys.len()
        invariant
            i <= keys@.len(),
            kv == views(keys@),
            first_key_problem(kv.take(i as int)) is None,
        decreases keys@.len() - i,
    {
        assert(kv.take(i + 1).drop_last() =~= kv.take(i as int));
        assert(kv.take(i + 1).last() == keys@[i as int]@);
        match validate_ssh_public_key(keys[i].as_str()) {
            Err(m) => {
                proof {
                    lemma_key_problem_prefix(kv, i as int + 1);
                }
                return Some(m);
            },
            Ok(()) => {},
        }
        i += 1;
    }
    assert(kv.take(kv.len() as int) =~= kv);
    None
}

proof fn lemma_key_problem_prefix(keys: Seq<Seq<char>>, k: int)
    requires
        0 <= k <= keys.len(),
        first_key_problem(keys.take(k)) is Some,
    ensures
        first_key_problem(keys) == first_key_problem(keys.take(k)),
    decreases keys.len() - k,
{
    if k == keys.len() {
        assert(keys.take(k) =~= keys);
    } else {
        assert(keys.take(k + 1).drop_last() =~= keys.take(k));
        lemma_key_problem_prefix(keys, k + 1);
    }
}

/// The name a schema resolves an attribute name to.
fn resolve_name(list: &AttributeList, name: &str) -> (r: String)
    ensures
        r@ == resolved_name(attr_views(list.attributes@), name@),
{
    proof {
        crate::schema::lemma_first_answering(attr_views(list.attributes@), name@);
    }
    match list.get_by_name_or_alias(name) {
        Some(a) => {
            let ghost i = first_answering(attr_views(list.attributes@), name@)->0;
            assert(attr_views(list.attributes@)[i] == list.attributes@[i]@);
            copy_str(a.name.as_str())
        },
        None => copy_str(name),
    }
}

fn error(prefix: &str, name: &str, suffix: &str) -> (r: String)
    ensures
        r@ == prefix@ + name@ + suffix@,
{
    let mut m = copy_str(prefix);
    push_str(&mut m, name);
    push_str(&mut m, suffix);
    m
}

/// Reads an attribute that a GraphQL client sent (see `graphql_attribute_ok`).
pub fn deserialize_attribute(attribute_schema: &AttributeList, attribute: AttributeValue, is_admin: bool) -> (r: Result<
    Attribute,
    String,
>)
    ensures
        graphql_attribute_ok(
            attr_views(attribute_schema.attributes@),
            attribute.name@,
            views(attribute.value@),
            is_admin,
            r,
        ),
{
    let ghost sa = attr_views(attribute_schema.attributes@);
    let canonical = resolve_name(attribute_schema, attribute.name.as_str());
    let attribute_name = AttributeName::new(canonical.as_str());
    proof {
        crate::schema::lemma_first_answering(sa, attribute_name@);
    }
    let attr_schema = match attribute_schema.get_attribute_schema(attribute_name.as_str()) {
        Some(a) => a,
        None => return Err(error("Attribute ", attribute.name.as_str(), " is not defined in the schema")),
    };
    let ghost i = first_answering(sa, attribute_name@)->0;
    assert(sa[i] == attr_schema@);
    if attr_schema.is_readonly {
        return Err(error("Permission denied: Attribute ", attribute.name.as_str(), " is read-only"));
    }
    if !is_admin && !attr_schema.is_editable {
        return Err(error("Permission denied: Attribute ", attribute.name.as_str(), " is not editable by regular users"));
    }
    if eq_ignore_ascii_case(attribute.name.as_str(), "sshpublickey") && attr_schema.is_list {
        match first_bad_key(&attribute.value) {
            Some(m) => return Err(concat("Invalid SSH public key: ", m.as_str())),
            None => {},
        }
    }
    let is_avatar = eq_ignore_ascii_case(attribute.name.as_str(), "avatar") || eq_ignore_ascii_case(
        attribute.name.as_str(),
        "jpegphoto",
    );
    let serialized: Vec<u8> = if is_avatar && !attr_schema.is_list {
        let first = first_text(&attribute.value);
        let val = trim_str(first.as_str());
        proof {
            reveal_strlit("");
            if val@.len() == 0 {
                assert(val@ =~= ""@);
            }
        }
        if str_eq(val.as_str(), "") {
            Vec::new()
        } else {
            match base64_decode(val.as_str()) {
                Ok(raw) => match process_avatar_input(raw.as_slice()) {
                    Ok(jpeg) => jpeg,
                    Err(e) => {
                        let m = concat("Invalid avatar upload: ", e.to_string().as_str());
                        assert(m@ == "Invalid avatar upload: "@ + avatar_error_text(e));
                        return Err(m);
                    },
                },
                Err(e) => return Err(concat("Invalid base64 avatar data: ", e.as_str())),
            }
        }
    } else if attr_schema.is_list {
        match strings_to_json(&attribute.value) {
            Ok(v) => v,
            Err(_) => {
                proof {
                    assert(false);
                }
                Vec::new()
            },
        }
    } else {
        utf8_bytes(first_text(&attribute.value).as_str())
    };
    let value = deserialize_attribute_value(&Serialized(serialized), attr_schema.attribute_type, attr_schema.is_list);
    Ok(Attribute { name: attribute_name, value })
}

/// Whether the stored attributes turn Kerberos synchronisation on: the first one
/// named like the schema's `kerberossync` attribute (its name when the user schema
/// knows it) holds the integer 1, or the text `1` or (in any case) `true`.
pub open spec fn kerberos_sync_requested(schema: PublicSchema, attrs: Seq<Attribute>) -> bool {
    let ua = attr_views(schema.0.user_attributes.attributes@);
    let kerb = match first_answering(ua, "kerberossync"@) {
        Some(i) => ua[i].name,
        None => "kerberossync"@,
    };
    match crate::attributes::first_index(attrs, crate::attributes::has_name(kerb)) {
        Some(k) => match attrs[k].value {
            DomainAttributeValue::Integer(Cardinality::Singleton(i)) => i == 1,
            DomainAttributeValue::String(Cardinality::Singleton(s)) => s@ == "1"@ || unicode_lower(s@) == "true"@,
            _ => false,
        },
        None => false,
    }
}

/// Whether the attributes turn Kerberos synchronisation on.
pub fn extract_kerberos_sync(schema: &PublicSchema, attrs: &[Attribute]) -> (r: bool)
    ensures
        r == kerberos_sync_requested(*schema, attrs@),
{
    let ghost ua = attr_views(schema.0.user_attributes.attributes@);
    let kerb = resolve_name(&schema.0.user_attributes, "kerberossync");
    let kerb_name = AttributeName::new(kerb.as_str());
    let ghost p = crate::attributes::has_name(kerb@);
    let mut i: usize = 0;
    while i < attrs.len()
        invariant
            i <= attrs@.len(),
            p == crate::attributes::has_name(kerb@),
            ua == attr_views(schema.0.user_attributes.attributes@),
            kerb@ == resolved_name(ua, "kerberossync"@),
            forall|j: int| 0 <= j < i ==> !p(#[trigger] attrs@[j]),
        decreases attrs@.len() - i,
    {
        if str_eq(attrs[i].name.as_str(), kerb.as_str()) {
            proof {
                crate::attributes::lemma_first_index_at(attrs@, p, i as int);
            }
            return match &attrs[i].value {
                DomainAttributeValue::Integer(Cardinality::Singleton(v)) => *v == 1,
                DomainAttributeValue::String(Cardinality::Singleton(s)) => {
                    str_eq(s.as_str(), "1") || str_eq(to_lowercase(s.as_str()).as_str(), "true")
                },
                _ => false,
            };
        }
        i += 1;
    }
    proof {
        crate::attributes::lemma_first_index_none(attrs@, p);
    }
    false
}

} // verus!
