//! The rules of the SQL storage: how attribute values are stored, which
//! attributes a new or updated entity stores under which name, and the checks and
//! assignments of POSIX numbers. The database work itself is the caller's.
use vstd::prelude::*;
use vstd::utf8::encode_utf8;
use crate::proto::utf8_bytes;
use crate::schema::{attr_views, first_answering, AttributeList, PublicSchema};
use crate::text::{
    decimal, digits_value, has_sign, is_digit, is_negative, unsigned_part, concat, copy_str, from_utf8, int_string, int_text, join, lower, parse_int, parse_int_spec, push_str, str_eq,
    trim, trim_str, views,
};
use crate::types::{Attribute, AttributeName, AttributeValue, Avatar, Cardinality, DateTime, Serialized, UserId};
use crate::schema::AttributeType;
use crate::images::avatar_output_shape;

verus! {

/// A lowercase hexadecimal digit.
pub open spec fn hex_digit(n: int) -> char {
    if n < 10 {
        (48 + n) as char
    } else {
        (87 + n) as char
    }
}

/// How JSON writes a character inside a string: quote and backslash escaped,
/// control characters as `\b \t \n \f \r` or `\u00xx`, others as they are.
pub open spec fn json_char(c: char) -> Seq<char> {
    if c == '"' {
        seq!['\\', '"']
    } else if c == '\\' {
        seq!['\\', '\\']
    } else if c == '\u{8}' {
        seq!['\\', 'b']
    } else if c == '\t' {
        seq!['\\', 't']
    } else if c == '\n' {
        seq!['\\', 'n']
    } else if c == '\u{c}' {
        seq!['\\', 'f']
    } else if c == '\r' {
        seq!['\\', 'r']
    } else if (c as int) < 0x20 {
        seq!['\\', 'u', '0', '0', hex_digit((c as int) / 16), hex_digit((c as int) % 16)]
    } else {
        seq![c]
    }
}

/// A text with each character as JSON writes it in a string.
pub open spec fn json_escaped(s: Seq<char>) -> Seq<char>
    decreases s.len(),
{
    if s.len() == 0 {
        Seq::empty()
    } else {
        json_escaped(s.drop_last()) + json_char(s.last())
    }
}

/// A JSON string.
pub open spec fn json_string(s: Seq<char>) -> Seq<char> {
    seq!['"'] + json_escaped(s) + seq!['"']
}

/// A JSON array of strings, written compactly.
pub open spec fn json_string_array(l: Seq<Seq<char>>) -> Seq<char> {
    seq!['['] + join(l.map_values(|s: Seq<char>| json_string(s)), seq![',']) + seq![']']
}

/// The compact JSON of a list of strings (`serde_json::to_vec`), which writes
/// `[`, the strings in order separated by `,`, then `]`, each string quoted with
/// `"` and `\` escaped, the control characters as `\b \t \n \f \r` or `\u00xx`
/// with lowercase hexadecimal digits, and every other character as it is. Claimed too:
/// it succeeds, as serialising a sequence of strings has no way to fail (serde_json
/// fails only where a `Serialize` impl does, or on a map with keys that are not strings).
#[verifier::external_body]
pub(crate) fn strings_to_json(list: &Vec<String>) -> (r: Result<Vec<u8>, String>)
    ensures
        r is Ok,
        r matches Ok(v) ==> v@ == encode_utf8(json_string_array(views(list@))),
{
    match serde_json::to_vec(list) {
        Ok(v) => Ok(v),
        Err(e) => Err(e.to_string()),
    }
}

/// The bytes a value is stored as: a text as UTF-8, a list of texts as a JSON
/// array, an integer in decimal, a picture as it is, an instant as its seconds
/// since the epoch in decimal; nothing for other lists.
pub open spec fn db_bytes(v: AttributeValue) -> Seq<u8> {
    match v {
        AttributeValue::String(Cardinality::Singleton(s)) => encode_utf8(s@),
        AttributeValue::String(Cardinality::Unbounded(l)) => encode_utf8(json_string_array(views(l@))),
        AttributeValue::Integer(Cardinality::Singleton(i)) => encode_utf8(int_text(i as int)),
        AttributeValue::Avatar(Cardinality::Singleton(p)) => p.0@,
        AttributeValue::DateTime(Cardinality::Singleton(d)) => encode_utf8(int_text(d.secs as int)),
        _ => Seq::empty(),
    }
}

/// A copy of a byte string.
fn copy_bytes(b: &Vec<u8>) -> (r: Vec<u8>)
    ensures
        r@ == b@,
{
    let mut r: Vec<u8> = Vec::new();
    let mut i: usize = 0;
    while i < b.len()
        invariant
            i <= b@.len(),
            r@ == b@.take(i as int),
        decreases b@.len() - i,
    {
        r.push(b[i]);
        assert(b@.take(i + 1) =~= b@.take(i as int).push(b@[i as int]));
        i += 1;
    }
    assert(b@.take(b@.len() as int) =~= b@);
    r
}

/// The bytes a value is stored as.
pub fn attribute_value_to_db_bytes(value: &AttributeValue) -> (r: Vec<u8>)
    ensures
        r@ == db_bytes(*value),
{
    match value {
        AttributeValue::String(Cardinality::Singleton(s)) => utf8_bytes(s.as_str()),
        AttributeValue::String(Cardinality::Unbounded(list)) => match strings_to_json(list) {
            Ok(v) => v,
            Err(_) => {
                proof {
                    assert(false);
                }
                Vec::new()
            },
        },
        AttributeValue::Integer(Cardinality::Singleton(i)) => utf8_bytes(int_string(*i).as_str()),
        AttributeValue::Avatar(Cardinality::Singleton(p)) => copy_bytes(&p.0),
        AttributeValue::DateTime(Cardinality::Singleton(dt)) => utf8_bytes(int_string(dt.secs).as_str()),
        _ => Vec::new(),
    }
}

/// Whether the storage writes an attribute that the schema marks read-only
/// (those that OU operations and Kerberos synchronisation maintain).
pub open spec fn backend_writable(name: Seq<char>) -> bool {
    name == "ou"@ || name == "kerberossync"@ || name == "allowedous"@ || name == "krb_principal_name"@
}

/// Whether the storage writes a read-only attribute.
pub fn is_backend_writable_readonly_attribute(name: &str) -> (r: bool)
    ensures
        r == backend_writable(name@),
{
    str_eq(name, "ou") || str_eq(name, "kerberossync") || str_eq(name, "allowedous") || str_eq(
        name,
        "krb_principal_name",
    )
}

/// The lowest and highest POSIX number a user or group may be given.
pub open spec fn posix_range(v: int) -> bool {
    3000 <= v <= 60000
}

/// A check on a POSIX number: a failure already found, or the database lookup of
/// whether another entity holds the number.
pub enum PosixCheck {
    Invalid(String),
    Taken(String, i64),
}

/// A POSIX check as plain values.
pub enum PosixCheckView {
    Invalid(Seq<char>),
    Taken(Seq<char>, int),
}

/// The checks as plain values.
pub open spec fn check_views(v: Seq<PosixCheck>) -> Seq<PosixCheckView> {
    v.map_values(
        |c: PosixCheck|
            match c {
                PosixCheck::Invalid(m) => PosixCheckView::Invalid(m@),
                PosixCheck::Taken(n, x) => PosixCheckView::Taken(n@, x as int),
            },
    )
}

/// Whether an attribute name is a POSIX number.
pub open spec fn is_posix_number(name: Seq<char>) -> bool {
    name == "uidnumber"@ || name == "gidnumber"@
}

/// The message for a POSIX number out of range.
pub open spec fn range_message(name: Seq<char>) -> Seq<char> {
    name + " must be between 3000 and 60000"@
}

/// The checks of the POSIX numbers of a new entity, in attribute order: each
/// single integer `uidnumber` or `gidnumber` must be 0 or in range, then must not
/// be taken; the checks end at the first number out of range.
pub open spec fn creation_checks(attrs: Seq<Attribute>) -> Seq<PosixCheckView>
    decreases attrs.len(),
{
    if attrs.len() == 0 {
        Seq::empty()
    } else {
        let r = creation_checks(attrs.drop_last());
        let a = attrs.last();
        if r.len() > 0 && r.last() is Invalid {
            r
        } else {
            match a.value {
                AttributeValue::Integer(Cardinality::Singleton(v)) => if is_posix_number(a.name@) {
                    if v != 0 && !posix_range(v as int) {
                        r.push(PosixCheckView::Invalid(range_message(a.name@)))
                    } else {
                        r.push(PosixCheckView::Taken(a.name@, v as int))
                    }
                } else {
                    r
                },
                _ => r,
            }
        }
    }
}

fn push_check(v: &mut Vec<PosixCheck>, c: PosixCheck)
    ensures
        check_views(final(v)@) == check_views(old(v)@).push(
            match c {
                PosixCheck::Invalid(m) => PosixCheckView::Invalid(m@),
                PosixCheck::Taken(n, x) => PosixCheckView::Taken(n@, x as int),
            },
        ),
{
    let ghost before = v@;
    v.push(c);
    assert(check_views(v@) =~= check_views(before).push(
        match c {
            PosixCheck::Invalid(m) => PosixCheckView::Invalid(m@),
            PosixCheck::Taken(n, x) => PosixCheckView::Taken(n@, x as int),
        },
    ));
}

/// The checks of the POSIX numbers of a new user or group; the caller runs them in
/// order and stops at the first failure (a number out of range, or taken).
pub fn posix_creation_checks(attributes: &[Attribute]) -> (r: Vec<PosixCheck>)
    ensures
        check_views(r@) == creation_checks(attributes@),
{
    let mut out: Vec<PosixCheck> = Vec::new();
    let mut i: usize = 0;
    let mut stopped = false;
    while i < attributes.len()
        invariant
            i <= attributes@.len(),
            check_views(out@) == creation_checks(attributes@.take(i as int)),
            stopped == (check_views(out@).len() > 0 && check_views(out@).last() is Invalid),
        decreases attributes@.len() - i,
    {
        let a = &attributes[i];
        assert(attributes@.take(i + 1).drop_last() =~= attributes@.take(i as int));
        assert(attributes@.take(i + 1).last() == attributes@[i as int]);
        if !stopped {
            match &a.value {
                AttributeValue::Integer(Cardinality::Singleton(v)) => {
                    let name = a.name.as_str();
                    if str_eq(name, "uidnumber") || str_eq(name, "gidnumber") {
                        if *v != 0 && !(3000 <= *v && *v <= 60000) {
                            push_check(&mut out, PosixCheck::Invalid(concat(name, " must be between 3000 and 60000")));
                            stopped = true;
                        } else {
                            push_check(&mut out, PosixCheck::Taken(copy_str(name), *v));
                        }
                    }
                },
                _ => {},
            }
        }
        i += 1;
    }
    assert(attributes@.take(attributes@.len() as int) =~= attributes@);
    out
}

/// The message for a POSIX number that another entity holds.
pub open spec fn taken_message(v: int) -> Seq<char> {
    "Number "@ + int_text(v) + " is already assigned to another user/group"@
}

/// The error for a POSIX number that another entity holds.
pub fn number_taken_error(value: i64) -> (r: String)
    ensures
        r@ == taken_message(value as int),
{
    let mut m = copy_str("Number ");
    let n = int_string(value);
    push_str(&mut m, n.as_str());
    push_str(&mut m, " is already assigned to another user/group");
    m
}

/// The number a stored POSIX value holds when it is updated: its text, trimmed,
/// as a decimal `i64`, else 0; `None` when the bytes are not UTF-8.
pub open spec fn stored_number(b: Seq<u8>) -> Option<int> {
    if vstd::utf8::valid_utf8(b) {
        match parse_int_spec(trim(vstd::utf8::decode_utf8(b)), i64::MIN as int, i64::MAX as int) {
            Some(v) => Some(v),
            None => Some(0),
        }
    } else {
        None
    }
}

/// The checks of the POSIX numbers of an update, in row order: each stored
/// `uidnumber` or `gidnumber` must be in range, then must not be taken; the checks
/// end at the first number out of range.
pub open spec fn update_checks(rows: Seq<(Seq<char>, Seq<u8>)>) -> Seq<PosixCheckView>
    decreases rows.len(),
{
    if rows.len() == 0 {
        Seq::empty()
    } else {
        let r = update_checks(rows.drop_last());
        let (name, b) = rows.last();
        if r.len() > 0 && r.last() is Invalid {
            r
        } else {
            match stored_number(b) {
                Some(v) => if is_posix_number(name) {
                    if !posix_range(v) {
                        r.push(PosixCheckView::Invalid(range_message(name)))
                    } else {
                        r.push(PosixCheckView::Taken(name, v))
                    }
                } else {
                    r
                },
                None => r,
            }
        }
    }
}

/// Stored rows as plain values.
pub open spec fn row_views(rows: Seq<(AttributeName, Vec<u8>)>) -> Seq<(Seq<char>, Seq<u8>)> {
    rows.map_values(|r: (AttributeName, Vec<u8>)| (r.0@, r.1@))
}

/// The checks of the POSIX numbers of the rows an update stores.
pub fn posix_update_checks(rows: &[(AttributeName, Vec<u8>)]) -> (r: Vec<PosixCheck>)
    ensures
        check_views(r@) == update_checks(row_views(rows@)),
{
    let ghost rv = row_views(rows@);
    let mut out: Vec<PosixCheck> = Vec::new();
    let mut i: usize = 0;
    let mut stopped = false;
    while i < rows.len()
        invariant
            i <= rows@.len(),
            rv == row_views(rows@),
            check_views(out@) == update_checks(rv.take(i as int)),
            stopped == (check_views(out@).len() > 0 && check_views(out@).last() is Invalid),
        decreases rows@.len() - i,
    {
        assert(rv.take(i + 1).drop_last() =~= rv.take(i as int));
        assert(rv.take(i + 1).last() == rv[i as int]);
        if !stopped {
            let name = rows[i].0.as_str();
            match from_utf8(rows[i].1.as_slice()) {
                Ok(text) => {
                    let t = trim_str(text.as_str());
                    let v: i64 = match parse_int(t.as_str(), i64::MIN, i64::MAX) {
                        Some(x) => x,
                        None => 0,
                    };
                    if str_eq(name, "uidnumber") || str_eq(name, "gidnumber") {
                        if !(3000 <= v && v <= 60000) {
                            push_check(&mut out, PosixCheck::Invalid(concat(name, " must be between 3000 and 60000")));
                            stopped = true;
                        } else {
                            push_check(&mut out, PosixCheck::Taken(copy_str(name), v));
                        }
                    }
                },
                Err(_) => {},
            }
        }
        i += 1;
    }
    assert(rv.take(rv.len() as int) =~= rv);
    out
}

/// Whether an attribute is named exactly `name`.
pub open spec fn has_attr_named(attrs: Seq<Attribute>, name: Seq<char>) -> bool {
    exists|i: int| 0 <= i < attrs.len() && (#[trigger] attrs[i]).name@ == name
}

/// Whether an attribute is named exactly `name`.
fn has_attribute(attrs: &Vec<Attribute>, name: &str) -> (r: bool)
    ensures
        r == has_attr_named(attrs@, name@),
{
    let mut i: usize = 0;
    while i < attrs.len()
        invariant
            i <= attrs@.len(),
            forall|j: int| 0 <= j < i ==> (#[trigger] attrs@[j]).name@ != name@,
        decreases attrs@.len() - i,
    {
        if str_eq(attrs[i].name.as_str(), name) {
            assert(attrs@[i as int].name@ == name@);
            return true;
        }
        i += 1;
    }
    false
}

/// A plain attribute value: an integer or a text.
pub enum PlainValue {
    Int(int),
    Text(Seq<char>),
}

/// Whether attribute `a` is named `lower(name)` and holds the single value `v`.
pub open spec fn holds_plain(a: Attribute, name: Seq<char>, v: PlainValue) -> bool {
    a.name@ == lower(name) && match v {
        PlainValue::Int(n) => a.value matches AttributeValue::Integer(Cardinality::Singleton(x)) && x as int == n,
        PlainValue::Text(t) => a.value matches AttributeValue::String(Cardinality::Singleton(x)) && x@ == t,
    }
}

/// Whether `r` is `attrs` followed by the attributes of `added`, in order.
pub open spec fn extended_by(r: Seq<Attribute>, attrs: Seq<Attribute>, added: Seq<(Seq<char>, PlainValue)>) -> bool {
    &&& r.len() == attrs.len() + added.len()
    &&& r.take(attrs.len() as int) == attrs
    &&& forall|k: int| 0 <= k < added.len() ==> holds_plain(#[trigger] r[attrs.len() + k], added[k].0, added[k].1)
}

/// `(name, v)` when no attribute is named `name` and `wanted` holds.
pub open spec fn unless_named(
    attrs: Seq<Attribute>,
    wanted: bool,
    name: Seq<char>,
    v: PlainValue,
) -> Seq<(Seq<char>, PlainValue)> {
    if wanted && !has_attr_named(attrs, name) {
        seq![(name, v)]
    } else {
        Seq::empty()
    }
}

fn push_plain(v: &mut Vec<Attribute>, a: Attribute, Ghost(attrs): Ghost<Seq<Attribute>>, Ghost(added): Ghost<Seq<(Seq<char>, PlainValue)>>, Ghost(x): Ghost<(Seq<char>, PlainValue)>)
    requires
        extended_by(old(v)@, attrs, added),
        holds_plain(a, x.0, x.1),
    ensures
        extended_by(final(v)@, attrs, added.push(x)),
{
    let ghost before = v@;
    v.push(a);
    assert(v@.take(attrs.len() as int) =~= before.take(attrs.len() as int));
    assert forall|k: int| 0 <= k < added.push(x).len() implies holds_plain(
        #[trigger] v@[attrs.len() + k],
        added.push(x)[k].0,
        added.push(x)[k].1,
    ) by {
        if k < added.len() {
            assert(v@[attrs.len() + k] == before[attrs.len() + k]);
        }
    }
}

/// The attributes of a new user or group with its OU recorded: `ou` with the
/// default OU is added when no attribute is named `ou`.
pub fn with_default_ou(attributes: Vec<Attribute>, default_ou: &str) -> (r: Vec<Attribute>)
    ensures
        extended_by(r@, attributes@, unless_named(attributes@, true, "ou"@, PlainValue::Text(default_ou@))),
{
    let ghost attrs = attributes@;
    let mut out = attributes;
    assert(out@.take(attrs.len() as int) =~= attrs);
    assert(extended_by(out@, attrs, Seq::empty()));
    if !has_attribute(&out, "ou") {
        push_plain(
            &mut out,
            Attribute {
                name: AttributeName::new("ou"),
                value: AttributeValue::String(Cardinality::Singleton(copy_str(default_ou))),
            },
            Ghost(attrs),
            Ghost(Seq::empty()),
            Ghost(("ou"@, PlainValue::Text(default_ou@))),
        );
        assert(Seq::<(Seq<char>, PlainValue)>::empty().push(("ou"@, PlainValue::Text(default_ou@))) =~= seq![
            ("ou"@, PlainValue::Text(default_ou@)),
        ]);
    }
    out
}

/// The POSIX assignment settings.
pub struct PosixSettings {
    pub user_uidnumber_assign: bool,
    pub user_uidnumber_start: i64,
    pub user_uidnumber_max: i64,
    pub user_gidnumber_assign: bool,
    pub user_gidnumber_start: i64,
    pub user_loginshell_assign: bool,
    pub user_loginshell_default: String,
    pub user_homedirectory_assign: bool,
    pub user_homedirectory_prefix: String,
    pub group_gidnumber_assign: bool,
    pub group_gidnumber_start: i64,
    pub group_gidnumber_max: i64,
}

/// Whether a new user needs a free `uidnumber` from the database.
pub fn needs_uid_number(attributes: &Vec<Attribute>, settings: &PosixSettings) -> (r: bool)
    ensures
        r == (settings.user_uidnumber_assign && !has_attr_named(attributes@, "uidnumber"@)),
{
    settings.user_uidnumber_assign && !has_attribute(attributes, "uidnumber")
}

/// Whether a new group needs a free `gidnumber` from the database.
pub fn needs_gid_number(attributes: &Vec<Attribute>, settings: &PosixSettings) -> (r: bool)
    ensures
        r == (settings.group_gidnumber_assign && !has_attr_named(attributes@, "gidnumber"@)),
{
    settings.group_gidnumber_assign && !has_attribute(attributes, "gidnumber")
}

/// The POSIX attributes a new user is given when it has none: `uidnumber` (the
/// free number `next_uid`), `gidnumber`, `loginshell` and `homedirectory`
/// (prefix, `/`, user id), each when its setting asks for it.
pub open spec fn user_posix_additions(
    attrs: Seq<Attribute>,
    s: PosixSettings,
    next_uid: int,
    user_id: Seq<char>,
) -> Seq<(Seq<char>, PlainValue)> {
    unless_named(attrs, s.user_uidnumber_assign, "uidnumber"@, PlainValue::Int(next_uid)) + unless_named(
        attrs,
        s.user_gidnumber_assign,
        "gidnumber"@,
        PlainValue::Int(s.user_gidnumber_start as int),
    ) + unless_named(attrs, s.user_loginshell_assign, "loginshell"@, PlainValue::Text(s.user_loginshell_default@))
        + unless_named(
        attrs,
        s.user_homedirectory_assign,
        "homedirectory"@,
        PlainValue::Text(s.user_homedirectory_prefix@ + "/"@ + user_id),
    )
}

pub(crate) proof fn lemma_has_named_extended(r: Seq<Attribute>, attrs: Seq<Attribute>, added: Seq<(Seq<char>, PlainValue)>, name: Seq<char>)
    requires
        extended_by(r, attrs, added),
        forall|k: int| 0 <= k < added.len() ==> lower((#[trigger] added[k]).0) != name,
    ensures
        has_attr_named(r, name) == has_attr_named(attrs, name),
{
    if has_attr_named(r, name) {
        let i = choose|i: int| 0 <= i < r.len() && (#[trigger] r[i]).name@ == name;
        if i >= attrs.len() {
            assert(holds_plain(r[attrs.len() + (i - attrs.len())], added[i - attrs.len()].0, added[i - attrs.len()].1));
        } else {
            assert(r.take(attrs.len() as int)[i] == attrs[i]);
        }
    }
    if has_attr_named(attrs, name) {
        let i = choose|i: int| 0 <= i < attrs.len() && (#[trigger] attrs[i]).name@ == name;
        assert(r.take(attrs.len() as int)[i] == r[i]);
    }
}

/// A single-integer attribute.
fn int_attribute(name: &str, v: i64) -> (r: Attribute)
    ensures
        holds_plain(r, name@, PlainValue::Int(v as int)),
{
    Attribute { name: AttributeName::new(name), value: AttributeValue::Integer(Cardinality::Singleton(v)) }
}

/// A single-text attribute.
fn text_attribute(name: &str, t: String) -> (r: Attribute)
    ensures
        holds_plain(r, name@, PlainValue::Text(t@)),
{
    Attribute { name: AttributeName::new(name), value: AttributeValue::String(Cardinality::Singleton(t)) }
}

/// The attributes of a new user with the POSIX attributes it is given (see
/// `user_posix_additions`); `next_uid` is used only when a `uidnumber` is given.
pub fn assign_user_posix(
    attributes: Vec<Attribute>,
    settings: &PosixSettings,
    next_uid: i64,
    user_id: &UserId,
) -> (r: Vec<Attribute>)
    ensures
        extended_by(r@, attributes@, user_posix_additions(attributes@, *settings, next_uid as int, user_id@)),
{
    let ghost attrs = attributes@;
    let mut out = attributes;
    let ghost mut added: Seq<(Seq<char>, PlainValue)> = Seq::empty();
    assert(out@.take(attrs.len() as int) =~= attrs);
    proof {
        reveal_strlit("uidnumber");
        reveal_strlit("gidnumber");
        reveal_strlit("loginshell");
        reveal_strlit("homedirectory");
    }
    if settings.user_uidnumber_assign && !has_attribute(&out, "uidnumber") {
        proof {
            lemma_has_named_extended(out@, attrs, added, "uidnumber"@);
        }
        push_plain(&mut out, int_attribute("uidnumber", next_uid), Ghost(attrs), Ghost(added), Ghost(("uidnumber"@, PlainValue::Int(next_uid as int))));
        proof {
            added = added.push(("uidnumber"@, PlainValue::Int(next_uid as int)));
        }
    } else {
        proof {
            lemma_has_named_extended(out@, attrs, added, "uidnumber"@);
        }
    }
    assert(added =~= unless_named(attrs, settings.user_uidnumber_assign, "uidnumber"@, PlainValue::Int(next_uid as int)));
    let ghost a1 = added;
    proof {
        assert forall|k: int| 0 <= k < added.len() implies lower((#[trigger] added[k]).0) != "gidnumber"@ by {
            assert(lower("uidnumber"@)[0] != "gidnumber"@[0]);
        }
        lemma_has_named_extended(out@, attrs, added, "gidnumber"@);
    }
    if settings.user_gidnumber_assign && !has_attribute(&out, "gidnumber") {
        push_plain(&mut out, int_attribute("gidnumber", settings.user_gidnumber_start), Ghost(attrs), Ghost(added), Ghost(("gidnumber"@, PlainValue::Int(settings.user_gidnumber_start as int))));
        proof {
            added = added.push(("gidnumber"@, PlainValue::Int(settings.user_gidnumber_start as int)));
        }
    }
    assert(added =~= a1 + unless_named(attrs, settings.user_gidnumber_assign, "gidnumber"@, PlainValue::Int(settings.user_gidnumber_start as int)));
    let ghost a2 = added;
    proof {
        assert forall|k: int| 0 <= k < added.len() implies lower((#[trigger] added[k]).0) != "loginshell"@ by {
            assert(lower("uidnumber"@)[0] != "loginshell"@[0]);
            assert(lower("gidnumber"@)[0] != "loginshell"@[0]);
        }
        lemma_has_named_extended(out@, attrs, added, "loginshell"@);
    }
    if settings.user_loginshell_assign && !has_attribute(&out, "loginshell") {
        push_plain(&mut out, text_attribute("loginshell", copy_str(settings.user_loginshell_default.as_str())), Ghost(attrs), Ghost(added), Ghost(("loginshell"@, PlainValue::Text(settings.user_loginshell_default@))));
        proof {
            added = added.push(("loginshell"@, PlainValue::Text(settings.user_loginshell_default@)));
        }
    }
    assert(added =~= a2 + unless_named(attrs, settings.user_loginshell_assign, "loginshell"@, PlainValue::Text(settings.user_loginshell_default@)));
    let ghost a3 = added;
    proof {
        assert forall|k: int| 0 <= k < added.len() implies lower((#[trigger] added[k]).0) != "homedirectory"@ by {
            assert(lower("uidnumber"@)[0] != "homedirectory"@[0]);
            assert(lower("gidnumber"@)[0] != "homedirectory"@[0]);
            assert(lower("loginshell"@)[0] != "homedirectory"@[0]);
        }
        lemma_has_named_extended(out@, attrs, added, "homedirectory"@);
    }
    if settings.user_homedirectory_assign && !has_attribute(&out, "homedirectory") {
        let mut home = copy_str(settings.user_homedirectory_prefix.as_str());
        push_str(&mut home, "/");
        push_str(&mut home, user_id.as_str());
        let ghost h = home@;
        push_plain(&mut out, text_attribute("homedirectory", home), Ghost(attrs), Ghost(added), Ghost(("homedirectory"@, PlainValue::Text(h))));
        proof {
            added = added.push(("homedirectory"@, PlainValue::Text(h)));
        }
    }
    assert(added =~= a3 + unless_named(attrs, settings.user_homedirectory_assign, "homedirectory"@, PlainValue::Text(settings.user_homedirectory_prefix@ + "/"@ + user_id@)));
    out
}

/// The attributes of a new group with a `gidnumber` (the free number `next_gid`)
/// when it has none and the settings ask for it.
pub fn assign_group_gid(attributes: Vec<Attribute>, settings: &PosixSettings, next_gid: i64) -> (r: Vec<Attribute>)
    ensures
        extended_by(
            r@,
            attributes@,
            unless_named(attributes@, settings.group_gidnumber_assign, "gidnumber"@, PlainValue::Int(next_gid as int)),
        ),
{
    let ghost attrs = attributes@;
    let mut out = attributes;
    assert(out@.take(attrs.len() as int) =~= attrs);
    assert(extended_by(out@, attrs, Seq::empty()));
    if settings.group_gidnumber_assign && !has_attribute(&out, "gidnumber") {
        push_plain(&mut out, int_attribute("gidnumber", next_gid), Ghost(attrs), Ghost(Seq::empty()), Ghost(("gidnumber"@, PlainValue::Int(next_gid as int))));
        assert(Seq::<(Seq<char>, PlainValue)>::empty().push(("gidnumber"@, PlainValue::Int(next_gid as int))) =~= seq![("gidnumber"@, PlainValue::Int(next_gid as int))]);
    }
    out
}

/// The name a schema stores an attribute under: the lowercased name of the
/// attribute found under it (exact name or alias), else the name itself.
pub open spec fn canonical_in(attrs: Seq<crate::schema::AttrView>, name: Seq<char>) -> Seq<char> {
    match first_answering(attrs, name) {
        Some(i) => lower(attrs[i].name),
        None => name,
    }
}

/// The name a schema stores an attribute under.
fn canonical_name(list: &AttributeList, name: &AttributeName) -> (r: AttributeName)
    ensures
        r@ == canonical_in(attr_views(list.attributes@), name@),
{
    proof {
        crate::schema::lemma_first_answering(attr_views(list.attributes@), name@);
    }
    match list.get_by_name_or_alias(name.as_str()) {
        Some(a) => {
            let ghost i = first_answering(attr_views(list.attributes@), name@)->0;
            assert(attr_views(list.attributes@)[i] == list.attributes@[i]@);
            AttributeName::new(a.name.as_str())
        },
        None => name.clone(),
    }
}

/// The stored name of a user attribute in the built-in schema.
pub fn canonical_user_attribute_name(name: &str) -> (r: AttributeName)
    ensures
        first_answering(crate::schema::builtin_user_attributes(), name@) is Some ==> r@ == canonical_in(crate::schema::builtin_user_attributes(), name@),
        first_answering(crate::schema::builtin_user_attributes(), name@) is None ==> r@ == lower(name@),
{
    let schema = PublicSchema::get();
    let n = AttributeName::new(name);
    proof {
        crate::schema::lemma_first_answering(attr_views(schema.0.user_attributes.attributes@), name@);
    }
    match schema.0.user_attributes.get_by_name_or_alias(name) {
        Some(a) => {
            let ghost i = first_answering(attr_views(schema.0.user_attributes.attributes@), name@)->0;
            assert(attr_views(schema.0.user_attributes.attributes@)[i] == schema.0.user_attributes.attributes@[i]@);
            AttributeName::new(a.name.as_str())
        },
        None => n,
    }
}

/// The stored name of a group attribute in the built-in schema.
pub fn canonical_group_attribute_name(name: &str) -> (r: AttributeName)
    ensures
        first_answering(crate::schema::builtin_group_attributes(), name@) is Some ==> r@ == canonical_in(crate::schema::builtin_group_attributes(), name@),
        first_answering(crate::schema::builtin_group_attributes(), name@) is None ==> r@ == lower(name@),
{
    let schema = PublicSchema::get();
    let n = AttributeName::new(name);
    proof {
        crate::schema::lemma_first_answering(attr_views(schema.0.group_attributes.attributes@), name@);
    }
    match schema.0.group_attributes.get_by_name_or_alias(name) {
        Some(a) => {
            let ghost i = first_answering(attr_views(schema.0.group_attributes.attributes@), name@)->0;
            assert(attr_views(schema.0.group_attributes.attributes@)[i] == schema.0.group_attributes.attributes@[i]@);
            AttributeName::new(a.name.as_str())
        },
        None => n,
    }
}

/// The rows a new user stores: each attribute the schema knows, under its stored
/// name, with its stored bytes (the others are not stored).
pub open spec fn new_user_rows(attrs: Seq<Attribute>, schema_attrs: Seq<crate::schema::AttrView>) -> Seq<(Seq<char>, Seq<u8>)>
    decreases attrs.len(),
{
    if attrs.len() == 0 {
        Seq::empty()
    } else {
        let r = new_user_rows(attrs.drop_last(), schema_attrs);
        let a = attrs.last();
        if first_answering(schema_attrs, a.name@) is Some {
            r.push((canonical_in(schema_attrs, a.name@), db_bytes(a.value)))
        } else {
            r
        }
    }
}

fn push_row(v: &mut Vec<(AttributeName, Vec<u8>)>, n: AttributeName, b: Vec<u8>)
    ensures
        row_views(final(v)@) == row_views(old(v)@).push((n@, b@)),
{
    let ghost before = v@;
    v.push((n, b));
    assert(row_views(v@) =~= row_views(before).push((n@, b@)));
}

/// The rows a new user stores.
pub fn user_attribute_rows(attributes: &Vec<Attribute>, schema: &PublicSchema) -> (r: Vec<(AttributeName, Vec<u8>)>)
    ensures
        row_views(r@) == new_user_rows(attributes@, attr_views(schema.0.user_attributes.attributes@)),
{
    let list = &schema.0.user_attributes;
    let ghost sa = attr_views(list.attributes@);
    let mut out: Vec<(AttributeName, Vec<u8>)> = Vec::new();
    let mut i: usize = 0;
    while i < attributes.len()
        invariant
            i <= attributes@.len(),
            sa == attr_views(list.attributes@),
            row_views(out@) == new_user_rows(attributes@.take(i as int), sa),
        decreases attributes@.len() - i,
    {
        let a = &attributes[i];
        assert(attributes@.take(i + 1).drop_last() =~= attributes@.take(i as int));
        assert(attributes@.take(i + 1).last() == attributes@[i as int]);
        if list.get_attribute_type(a.name.as_str()).is_some() {
            let n = canonical_name(list, &a.name);
            push_row(&mut out, n, attribute_value_to_db_bytes(&a.value));
        }
        i += 1;
    }
    assert(attributes@.take(attributes@.len() as int) =~= attributes@);
    out
}

/// The rows a new group stores, or the first attribute the schema does not know
/// and the storage does not write.
pub open spec fn new_group_rows(attrs: Seq<Attribute>, schema_attrs: Seq<crate::schema::AttrView>) -> Result<
    Seq<(Seq<char>, Seq<u8>)>,
    Seq<char>,
>
    decreases attrs.len(),
{
    if attrs.len() == 0 {
        Ok(Seq::empty())
    } else {
        match new_group_rows(attrs.drop_last(), schema_attrs) {
            Ok(r) => {
                let a = attrs.last();
                if first_answering(schema_attrs, a.name@) is Some || backend_writable(a.name@) {
                    Ok(r.push((canonical_in(schema_attrs, a.name@), db_bytes(a.value))))
                } else {
                    Err("Group attribute name "@ + a.name@ + " doesn't exist in the schema"@)
                }
            },
            Err(e) => Err(e),
        }
    }
}

/// Rows or an error, as plain values.
pub open spec fn rows_result_view(r: Result<Vec<(AttributeName, Vec<u8>)>, String>) -> Result<
    Seq<(Seq<char>, Seq<u8>)>,
    Seq<char>,
> {
    match r {
        Ok(v) => Ok(row_views(v@)),
        Err(m) => Err(m@),
    }
}

/// The rows a new group stores.
pub fn group_attribute_rows(attributes: &Vec<Attribute>, schema: &PublicSchema) -> (r: Result<
    Vec<(AttributeName, Vec<u8>)>,
    String,
>)
    ensures
        rows_result_view(r) == new_group_rows(attributes@, attr_views(schema.0.group_attributes.attributes@)),
{
    let list = &schema.0.group_attributes;
    let ghost sa = attr_views(list.attributes@);
    let mut out: Vec<(AttributeName, Vec<u8>)> = Vec::new();
    let mut i: usize = 0;
    assert(row_views(out@) =~= Seq::<(Seq<char>, Seq<u8>)>::empty());
    assert(attributes@.take(0) =~= Seq::<Attribute>::empty());
    while i < attributes.len()
        invariant
            i <= attributes@.len(),
            sa == attr_views(list.attributes@),
            sa == attr_views(schema.0.group_attributes.attributes@),
            new_group_rows(attributes@.take(i as int), sa) == Ok::<Seq<(Seq<char>, Seq<u8>)>, Seq<char>>(row_views(out@)),
        decreases attributes@.len() - i,
    {
        let a = &attributes[i];
        assert(attributes@.take(i + 1).drop_last() =~= attributes@.take(i as int));
        assert(attributes@.take(i + 1).last() == attributes@[i as int]);
        if list.get_attribute_type(a.name.as_str()).is_some() || is_backend_writable_readonly_attribute(a.name.as_str()) {
            let n = canonical_name(list, &a.name);
            push_row(&mut out, n, attribute_value_to_db_bytes(&a.value));
        } else {
            let mut m = copy_str("Group attribute name ");
            push_str(&mut m, a.name.as_str());
            push_str(&mut m, " doesn't exist in the schema");
            proof {
                lemma_group_rows_err(attributes@, sa, i as int + 1, m@);
            }
            return Err(m);
        }
        i += 1;
    }
    assert(attributes@.take(attributes@.len() as int) =~= attributes@);
    Ok(out)
}

proof fn lemma_group_rows_err(attrs: Seq<Attribute>, sa: Seq<crate::schema::AttrView>, k: int, m: Seq<char>)
    requires
        0 <= k <= attrs.len(),
        new_group_rows(attrs.take(k), sa) == Err::<Seq<(Seq<char>, Seq<u8>)>, Seq<char>>(m),
    ensures
        new_group_rows(attrs, sa) == Err::<Seq<(Seq<char>, Seq<u8>)>, Seq<char>>(m),
    decreases attrs.len() - k,
{
    if k == attrs.len() {
        assert(attrs.take(k) =~= attrs);
    } else {
        assert(attrs.take(k + 1).drop_last() =~= attrs.take(k));
        lemma_group_rows_err(attrs, sa, k + 1, m);
    }
}

/// What to do next while looking for a free POSIX number.
pub enum NumberSearch {
    Check(i64),
    Exhausted(String),
}

/// The first candidate for a free POSIX number in `[start, max]` (`kind` names the
/// number, such as `uidNumber`).
pub fn first_number_candidate(kind: &str, start: i64, max: i64) -> (r: NumberSearch)
    ensures
        start > max ==> (r matches NumberSearch::Exhausted(m) && m@ == kind@ + " start ("@ + int_text(start as int)
            + ") > max ("@ + int_text(max as int) + ")"@),
        start <= max ==> r == NumberSearch::Check(start),
{
    if start > max {
        let mut m = copy_str(kind);
        push_str(&mut m, " start (");
        push_str(&mut m, int_string(start).as_str());
        push_str(&mut m, ") > max (");
        push_str(&mut m, int_string(max).as_str());
        push_str(&mut m, ")");
        NumberSearch::Exhausted(m)
    } else {
        NumberSearch::Check(start)
    }
}

/// The candidate after `taken` (which another entity holds), or the end of the
/// range `[start, max]`.
pub fn next_number_candidate(kind: &str, start: i64, max: i64, taken: i64) -> (r: NumberSearch)
    ensures
        taken < max ==> r == NumberSearch::Check((taken + 1) as i64),
        taken >= max ==> (r matches NumberSearch::Exhausted(m) && m@ == "No available "@ + kind@ + " in range "@
            + int_text(start as int) + "-"@ + int_text(max as int) + " (all taken)"@),
{
    if taken < max {
        NumberSearch::Check(taken + 1)
    } else {
        let mut m = copy_str("No available ");
        push_str(&mut m, kind);
        push_str(&mut m, " in range ");
        push_str(&mut m, int_string(start).as_str());
        push_str(&mut m, "-");
        push_str(&mut m, int_string(max).as_str());
        push_str(&mut m, " (all taken)");
        NumberSearch::Exhausted(m)
    }
}

/// Whether a `kerberossync` value turns synchronisation on: the text `1`, `true`
/// or `TRUE` (trimmed), or the integer 1.
pub open spec fn kerberos_sync_on(v: AttributeValue) -> bool {
    match v {
        AttributeValue::String(Cardinality::Singleton(s)) => {
            let t = trim(s@);
            t == "1"@ || t == "true"@ || t == "TRUE"@
        },
        AttributeValue::Integer(Cardinality::Singleton(i)) => i == 1,
        _ => false,
    }
}

/// What an update says of Kerberos synchronisation: the value of its last
/// attribute named `kerberossync`, if any.
pub open spec fn kerberos_sync_change(attrs: Seq<Attribute>) -> Option<bool>
    decreases attrs.len(),
{
    if attrs.len() == 0 {
        None
    } else if attrs.last().name@ == "kerberossync"@ {
        Some(kerberos_sync_on(attrs.last().value))
    } else {
        kerberos_sync_change(attrs.drop_last())
    }
}

/// The rows an update of a user stores, or the first attribute the schema does
/// not know and the storage does not write.
pub open spec fn update_rows(attrs: Seq<Attribute>, schema_attrs: Seq<crate::schema::AttrView>) -> Result<
    Seq<(Seq<char>, Seq<u8>)>,
    Seq<char>,
>
    decreases attrs.len(),
{
    if attrs.len() == 0 {
        Ok(Seq::empty())
    } else {
        match update_rows(attrs.drop_last(), schema_attrs) {
            Ok(r) => {
                let a = attrs.last();
                if first_answering(schema_attrs, a.name@) is Some || backend_writable(a.name@) {
                    Ok(r.push((canonical_in(schema_attrs, a.name@), db_bytes(a.value))))
                } else {
                    Err("User attribute name "@ + a.name@ + " doesn't exist in the schema"@)
                }
            },
            Err(e) => Err(e),
        }
    }
}

/// The stored name of a user attribute in the built-in schema.
pub open spec fn builtin_user_canonical(name: Seq<char>) -> Seq<char> {
    match first_answering(crate::schema::builtin_user_attributes(), name) {
        Some(i) => lower(crate::schema::builtin_user_attributes()[i].name),
        None => lower(name),
    }
}

/// The attributes an update removes: the stored names of the deleted ones, except
/// those the update stores anew.
pub open spec fn kept_removals(deletes: Seq<AttributeName>, rows: Seq<(Seq<char>, Seq<u8>)>) -> Seq<Seq<char>>
    decreases deletes.len(),
{
    if deletes.len() == 0 {
        Seq::empty()
    } else {
        let r = kept_removals(deletes.drop_last(), rows);
        let c = builtin_user_canonical(deletes.last()@);
        if exists|k: int| 0 <= k < rows.len() && (#[trigger] rows[k]).0 == c {
            r
        } else {
            r.push(c)
        }
    }
}

/// The names of a list of attribute names.
pub open spec fn name_views(v: Seq<AttributeName>) -> Seq<Seq<char>> {
    v.map_values(|n: AttributeName| n@)
}

proof fn lemma_update_rows_err(attrs: Seq<Attribute>, sa: Seq<crate::schema::AttrView>, k: int, m: Seq<char>)
    requires
        0 <= k <= attrs.len(),
        update_rows(attrs.take(k), sa) == Err::<Seq<(Seq<char>, Seq<u8>)>, Seq<char>>(m),
    ensures
        update_rows(attrs, sa) == Err::<Seq<(Seq<char>, Seq<u8>)>, Seq<char>>(m),
    decreases attrs.len() - k,
{
    if k == attrs.len() {
        assert(attrs.take(k) =~= attrs);
    } else {
        assert(attrs.take(k + 1).drop_last() =~= attrs.take(k));
        lemma_update_rows_err(attrs, sa, k + 1, m);
    }
}

/// Whether one of the rows stores name `n`.
fn stores_name(rows: &Vec<(AttributeName, Vec<u8>)>, n: &AttributeName) -> (r: bool)
    ensures
        r == exists|k: int| 0 <= k < row_views(rows@).len() && (#[trigger] row_views(rows@)[k]).0 == n@,
{
    let ghost rv = row_views(rows@);
    let mut i: usize = 0;
    while i < rows.len()
        invariant
            i <= rows@.len(),
            rv == row_views(rows@),
            forall|k: int| 0 <= k < i ==> (#[trigger] rv[k]).0 != n@,
        decreases rows@.len() - i,
    {
        if rows[i].0.same_as(n) {
            assert(rv[i as int].0 == n@);
            return true;
        }
        i += 1;
    }
    false
}

/// Whether `r` is what an update of a user stores and removes.
pub open spec fn changes_ok(
    r: Result<(Vec<(AttributeName, Vec<u8>)>, Vec<AttributeName>, Option<bool>), String>,
    inserts: Seq<Attribute>,
    deletes: Seq<AttributeName>,
    schema_attrs: Seq<crate::schema::AttrView>,
) -> bool {
    match r {
        Ok((rows, removed, kerb)) => {
            &&& update_rows(inserts, schema_attrs) == Ok::<Seq<(Seq<char>, Seq<u8>)>, Seq<char>>(row_views(rows@))
            &&& name_views(removed@) == kept_removals(deletes, row_views(rows@))
            &&& kerb == kerberos_sync_change(inserts)
        },
        Err(m) => update_rows(inserts, schema_attrs) == Err::<Seq<(Seq<char>, Seq<u8>)>, Seq<char>>(m@),
    }
}

/// Whether a `kerberossync` value turns synchronisation on.
fn sync_on(v: &AttributeValue) -> (r: bool)
    ensures
        r == kerberos_sync_on(*v),
{
    match v {
        AttributeValue::String(Cardinality::Singleton(s)) => {
            let t = trim_str(s.as_str());
            str_eq(t.as_str(), "1") || str_eq(t.as_str(), "true") || str_eq(t.as_str(), "TRUE")
        },
        AttributeValue::Integer(Cardinality::Singleton(i)) => *i == 1,
        _ => false,
    }
}

/// What an update of a user stores (each inserted attribute the schema knows, or
/// that the storage writes, under its stored name), which stored attributes it
/// removes (the deleted ones by their stored name in the built-in schema, except
/// those it stores anew), and what it says of Kerberos synchronisation; an error
/// for the first inserted attribute nothing knows.
pub fn compute_user_attribute_changes(
    insert_attributes: &Vec<Attribute>,
    delete_attributes: &Vec<AttributeName>,
    schema: &PublicSchema,
) -> (r: Result<(Vec<(AttributeName, Vec<u8>)>, Vec<AttributeName>, Option<bool>), String>)
    ensures
        changes_ok(r, insert_attributes@, delete_attributes@, attr_views(schema.0.user_attributes.attributes@)),
{
    let list = &schema.0.user_attributes;
    let ghost sa = attr_views(list.attributes@);
    let mut rows: Vec<(AttributeName, Vec<u8>)> = Vec::new();
    let mut kerb: Option<bool> = None;
    let mut i: usize = 0;
    assert(row_views(rows@) =~= Seq::<(Seq<char>, Seq<u8>)>::empty());
    assert(insert_attributes@.take(0) =~= Seq::<Attribute>::empty());
    while i < insert_attributes.len()
        invariant
            i <= insert_attributes@.len(),
            sa == attr_views(list.attributes@),
            sa == attr_views(schema.0.user_attributes.attributes@),
            update_rows(insert_attributes@.take(i as int), sa) == Ok::<Seq<(Seq<char>, Seq<u8>)>, Seq<char>>(row_views(rows@)),
            kerb == kerberos_sync_change(insert_attributes@.take(i as int)),
        decreases insert_attributes@.len() - i,
    {
        let a = &insert_attributes[i];
        assert(insert_attributes@.take(i + 1).drop_last() =~= insert_attributes@.take(i as int));
        assert(insert_attributes@.take(i + 1).last() == insert_attributes@[i as int]);
        if str_eq(a.name.as_str(), "kerberossync") {
            kerb = Some(sync_on(&a.value));
        }
        if list.get_attribute_type(a.name.as_str()).is_some() || is_backend_writable_readonly_attribute(a.name.as_str()) {
            let n = canonical_name(list, &a.name);
            push_row(&mut rows, n, attribute_value_to_db_bytes(&a.value));
        } else {
            let mut m = copy_str("User attribute name ");
            push_str(&mut m, a.name.as_str());
            push_str(&mut m, " doesn't exist in the schema");
            proof {
                lemma_update_rows_err(insert_attributes@, sa, i as int + 1, m@);
            }
            return Err(m);
        }
        i += 1;
    }
    assert(insert_attributes@.take(insert_attributes@.len() as int) =~= insert_attributes@);
    let ghost rv = row_views(rows@);
    let mut removed: Vec<AttributeName> = Vec::new();
    let mut k: usize = 0;
    while k < delete_attributes.len()
        invariant
            k <= delete_attributes@.len(),
            rv == row_views(rows@),
            name_views(removed@) == kept_removals(delete_attributes@.take(k as int), rv),
        decreases delete_attributes@.len() - k,
    {
        assert(delete_attributes@.take(k + 1).drop_last() =~= delete_attributes@.take(k as int));
        assert(delete_attributes@.take(k + 1).last() == delete_attributes@[k as int]);
        let c = canonical_user_attribute_name(delete_attributes[k].as_str());
        assert(c@ == builtin_user_canonical(delete_attributes@[k as int]@));
        if !stores_name(&rows, &c) {
            let ghost before = removed@;
            removed.push(c);
            assert(name_views(removed@) =~= name_views(before).push(builtin_user_canonical(delete_attributes@[k as int]@)));
        }
        k += 1;
    }
    assert(delete_attributes@.take(delete_attributes@.len() as int) =~= delete_attributes@);
    Ok((rows, removed, kerb))
}

/// The texts a stored JSON array of strings holds, when the bytes are one.
pub uninterp spec fn json_strings(bytes: Seq<u8>) -> Option<Seq<Seq<char>>>;

/// Reads a JSON array of strings (`serde_json::from_slice::<Vec<String>>`).
#[verifier::external_body]
fn parse_json_strings(bytes: &[u8]) -> (r: Option<Vec<String>>)
    ensures
        match r {
            Some(v) => json_strings(bytes@) == Some(views(v@)),
            None => json_strings(bytes@) is None,
        },
{
    match serde_json::from_slice::<Vec<String>>(bytes) {
        Ok(v) => Some(v),
        Err(_) => None,
    }
}

/// The instant that bincode reads from stored bytes, when they hold one.
pub uninterp spec fn bincode_instant(bytes: Seq<u8>) -> Option<DateTime>;

/// The instants that bincode reads from stored bytes, when they hold a list of them.
pub uninterp spec fn bincode_instants(bytes: Seq<u8>) -> Option<Seq<DateTime>>;

/// Reads an instant (`bincode::deserialize::<chrono::NaiveDateTime>`), taken as UTC.
#[verifier::external_body]
fn decode_instant(bytes: &[u8]) -> (r: Option<DateTime>)
    ensures
        r == bincode_instant(bytes@),
{
    match bincode::deserialize::<chrono::NaiveDateTime>(bytes) {
        Ok(d) => Some(DateTime { secs: d.and_utc().timestamp(), nanos: d.and_utc().timestamp_subsec_nanos() }),
        Err(_) => None,
    }
}

/// Reads a list of instants (`bincode::deserialize::<Vec<chrono::NaiveDateTime>>`),
/// each taken as UTC.
#[verifier::external_body]
fn decode_instants(bytes: &[u8]) -> (r: Option<Vec<DateTime>>)
    ensures
        match r {
            Some(v) => bincode_instants(bytes@) == Some(v@),
            None => bincode_instants(bytes@) is None,
        },
{
    match bincode::deserialize::<Vec<chrono::NaiveDateTime>>(bytes) {
        Ok(l) => Some(
            l.iter().map(
                |d| DateTime { secs: d.and_utc().timestamp(), nanos: d.and_utc().timestamp_subsec_nanos() },
            ).collect(),
        ),
        Err(_) => None,
    }
}

/// The text of stored bytes: their UTF-8 text, or nothing when they are not UTF-8.
pub open spec fn stored_text(b: Seq<u8>) -> Seq<char> {
    if vstd::utf8::valid_utf8(b) {
        vstd::utf8::decode_utf8(b)
    } else {
        Seq::empty()
    }
}

/// The integer of stored bytes: their text as a decimal `i64`, else 0.
pub open spec fn stored_int(b: Seq<u8>) -> int {
    match parse_int_spec(stored_text(b), i64::MIN as int, i64::MAX as int) {
        Some(v) => v,
        None => 0,
    }
}

/// Whether `a` is an avatar made from stored bytes `b`: a picture re-encoded as an
/// avatar JPEG, or nothing.
pub open spec fn avatar_from(b: Seq<u8>, a: Avatar) -> bool {
    avatar_output_shape(a.0@) && (b.len() == 0 ==> a.0@.len() == 0)
}

/// Whether `r` is the value that stored bytes `b` hold as an attribute of type
/// `typ` (a list when `is_list`): texts (a JSON array for lists, else a single
/// text), integers, instants (bincode; the epoch, or no instant, when unreadable)
/// and avatars.
pub open spec fn stored_value(b: Seq<u8>, typ: AttributeType, is_list: bool, r: AttributeValue) -> bool {
    match typ {
        AttributeType::String => if is_list {
            r matches AttributeValue::String(Cardinality::Unbounded(l)) && views(l@) == match json_strings(b) {
                Some(texts) => texts,
                None => seq![stored_text(b)],
            }
        } else {
            r matches AttributeValue::String(Cardinality::Singleton(s)) && s@ == stored_text(b)
        },
        AttributeType::Integer => if is_list {
            r matches AttributeValue::Integer(Cardinality::Unbounded(l)) && l@.len() == 1 && l@[0] as int
                == stored_int(b)
        } else {
            r matches AttributeValue::Integer(Cardinality::Singleton(i)) && i as int == stored_int(b)
        },
        AttributeType::DateTime => if is_list {
            r matches AttributeValue::DateTime(Cardinality::Unbounded(l)) && l@ == match bincode_instants(b) {
                Some(ds) => ds,
                None => Seq::empty(),
            }
        } else {
            r matches AttributeValue::DateTime(Cardinality::Singleton(d)) && d == match bincode_instant(b) {
                Some(x) => x,
                None => DateTime { secs: 0, nanos: 0 },
            }
        },
        AttributeType::Avatar => if is_list {
            r matches AttributeValue::Avatar(Cardinality::Unbounded(l)) && l@.len() == 1 && avatar_from(b, l@[0])
        } else {
            r matches AttributeValue::Avatar(Cardinality::Singleton(a)) && avatar_from(b, a)
        },
    }
}

/// The text of stored bytes.
fn text_of_stored(b: &Vec<u8>) -> (r: String)
    ensures
        r@ == stored_text(b@),
{
    match from_utf8(b.as_slice()) {
        Ok(s) => s,
        Err(_) => String::new(),
    }
}

/// The value that stored bytes hold as an attribute of type `typ`.
pub fn deserialize_attribute_value(value: &Serialized, typ: AttributeType, is_list: bool) -> (r: AttributeValue)
    ensures
        stored_value(value.0@, typ, is_list, r),
{
    match typ {
        AttributeType::String => {
            if is_list {
                match parse_json_strings(value.0.as_slice()) {
                    Some(list) => AttributeValue::String(Cardinality::Unbounded(list)),
                    None => {
                        let mut l: Vec<String> = Vec::new();
                        l.push(text_of_stored(&value.0));
                        assert(views(l@) =~= seq![stored_text(value.0@)]);
                        AttributeValue::String(Cardinality::Unbounded(l))
                    },
                }
            } else {
                AttributeValue::String(Cardinality::Singleton(text_of_stored(&value.0)))
            }
        },
        AttributeType::Integer => {
            let t = text_of_stored(&value.0);
            let i: i64 = match parse_int(t.as_str(), i64::MIN, i64::MAX) {
                Some(x) => x,
                None => 0,
            };
            if is_list {
                let mut l: Vec<i64> = Vec::new();
                l.push(i);
                AttributeValue::Integer(Cardinality::Unbounded(l))
            } else {
                AttributeValue::Integer(Cardinality::Singleton(i))
            }
        },
        AttributeType::DateTime => {
            if is_list {
                match decode_instants(value.0.as_slice()) {
                    Some(l) => AttributeValue::DateTime(Cardinality::Unbounded(l)),
                    None => AttributeValue::DateTime(Cardinality::Unbounded(Vec::new())),
                }
            } else {
                match decode_instant(value.0.as_slice()) {
                    Some(d) => AttributeValue::DateTime(Cardinality::Singleton(d)),
                    None => AttributeValue::DateTime(Cardinality::Singleton(DateTime { secs: 0, nanos: 0 })),
                }
            }
        },
        AttributeType::Avatar => {
            let a = Avatar::new(copy_bytes(&value.0));
            if is_list {
                let mut l: Vec<Avatar> = Vec::new();
                l.push(a);
                AttributeValue::Avatar(Cardinality::Unbounded(l))
            } else {
                AttributeValue::Avatar(Cardinality::Singleton(a))
            }
        },
    }
}

/// The attribute that stored bytes hold under `name`, read with the type the
/// schema gives the name; an error when the schema does not know the name.
pub fn deserialize_attribute(name: AttributeName, value: &Serialized, schema: &AttributeList) -> (r: Result<
    Attribute,
    String,
>)
    ensures
        match first_answering(attr_views(schema.attributes@), name@) {
            Some(i) => r matches Ok(a) && a.name == name && stored_value(
                value.0@,
                schema.attributes@[i].attribute_type,
                schema.attributes@[i].is_list,
                a.value,
            ),
            None => r matches Err(m) && m@ == "Unable to find schema for attribute named '"@ + name@ + "'"@,
        },
{
    match schema.get_attribute_type(name.as_str()) {
        Some((typ, is_list)) => Ok(Attribute { name, value: deserialize_attribute_value(value, typ, is_list) }),
        None => {
            let mut m = copy_str("Unable to find schema for attribute named '");
            push_str(&mut m, name.as_str());
            push_str(&mut m, "'");
            Err(m)
        },
    }
}

/// The type of an attribute value.
pub open spec fn value_type(v: AttributeValue) -> AttributeType {
    match v {
        AttributeValue::String(_) => AttributeType::String,
        AttributeValue::Integer(_) => AttributeType::Integer,
        AttributeValue::Avatar(_) => AttributeType::Avatar,
        AttributeValue::DateTime(_) => AttributeType::DateTime,
    }
}

proof fn lemma_decimal_digits(n: nat)
    ensures
        decimal(n).len() > 0,
        forall|k: int| 0 <= k < decimal(n).len() ==> is_digit(#[trigger] decimal(n)[k]),
        digits_value(decimal(n)) == n,
    decreases n,
{
    let c = ((n % 10) + 48) as char;
    assert(c as int == (n % 10) + 48);
    if n < 10 {
        assert(decimal(n) == seq![c]);
        assert(seq![c].drop_last() =~= Seq::<char>::empty());
        assert(digits_value(seq![c]) == digits_value(seq![c].drop_last()) * 10 + (c as int - '0' as int));
    } else {
        lemma_decimal_digits(n / 10);
        let d = decimal(n / 10);
        assert(decimal(n) == d.push(c));
        assert(d.push(c).drop_last() =~= d);
        assert(digits_value(d.push(c)) == digits_value(d) * 10 + (c as int - '0' as int));
        assert((n / 10) * 10 + n % 10 == n);
        assert forall|k: int| 0 <= k < decimal(n).len() implies is_digit(#[trigger] decimal(n)[k]) by {
            if k < d.len() {
                assert(decimal(n)[k] == d[k]);
            }
        }
    }
}

proof fn lemma_int_text_parses(i: i64)
    ensures
        parse_int_spec(int_text(i as int), i64::MIN as int, i64::MAX as int) == Some(i as int),
{
    if i < 0 {
        let d = decimal((-i) as nat);
        lemma_decimal_digits((-i) as nat);
        let t = int_text(i as int);
        assert(t == seq!['-'] + d);
        assert(has_sign(t) && is_negative(t));
        assert(unsigned_part(t) =~= d);
    } else {
        let d = decimal(i as nat);
        lemma_decimal_digits(i as nat);
        assert(is_digit(d[0]));
        assert(!has_sign(d));
    }
}

/// A single text reads back, from the bytes it is stored as, as the same text;
/// a single integer as the same number.
pub proof fn stored_single_value_reads_back(v: AttributeValue, r: AttributeValue)
    requires
        v matches AttributeValue::String(Cardinality::Singleton(_)) || v matches AttributeValue::Integer(
            Cardinality::Singleton(_),
        ),
        stored_value(db_bytes(v), value_type(v), false, r),
    ensures
        match (v, r) {
            (
                AttributeValue::String(Cardinality::Singleton(a)),
                AttributeValue::String(Cardinality::Singleton(b)),
            ) => a@ == b@,
            (
                AttributeValue::Integer(Cardinality::Singleton(a)),
                AttributeValue::Integer(Cardinality::Singleton(b)),
            ) => a == b,
            _ => false,
        },
{
    match v {
        AttributeValue::String(Cardinality::Singleton(a)) => {
            vstd::utf8::encode_utf8_valid_utf8(a@);
            vstd::utf8::encode_utf8_decode_utf8(a@);
        },
        AttributeValue::Integer(Cardinality::Singleton(a)) => {
            vstd::utf8::encode_utf8_valid_utf8(int_text(a as int));
            vstd::utf8::encode_utf8_decode_utf8(int_text(a as int));
            lemma_int_text_parses(a);
        },
        _ => {},
    }
}

} // verus!
