//! How the GraphQL mutations gather the attributes of a new user: the attributes sent,
//! one per name, with the dedicated name and avatar fields as fallbacks.
use vstd::prelude::*;
use crate::graphql::{deserialize_attribute, graphql_attribute_ok, is_avatar_name, resolved_name, AttributeValue};
use crate::schema::{attr_views, first_answering, AttrView, AttributeType, PublicSchema};
use crate::types::{Attribute, AttributeValue as DomainAttributeValue, Cardinality, Email};
use crate::text::{eq_ic, lemma_lower_len, lower_char};
use crate::ordered::{
    lemma_insert_at, lemma_insert_sorted, lemma_text_lt_asymmetric, lemma_text_lt_irreflexive, lemma_text_lt_total,
    lemma_text_lt_transitive, strictly_sorted, text_less, text_lt,
};
use crate::text::{copy_str, lower, str_eq, to_ascii_lowercase, trim, trim_str, views};

verus! {

/// The names of a list of attributes.
pub open spec fn names_of(s: Seq<AttributeValue>) -> Seq<Seq<char>> {
    s.map_values(|a: AttributeValue| a.name@)
}

/// The values of the first attribute named `k`, if there is one.
pub open spec fn lookup(s: Seq<AttributeValue>, k: Seq<char>) -> Option<Seq<Seq<char>>>
    decreases s.len(),
{
    if s.len() == 0 {
        None
    } else if s[0].name@ == k {
        Some(views(s[0].value@))
    } else {
        lookup(s.drop_first(), k)
    }
}

/// The values of the last attribute sent whose name is `k` up to ASCII case.
pub open spec fn provided(attrs: Seq<AttributeValue>, k: Seq<char>) -> Option<Seq<Seq<char>>>
    decreases attrs.len(),
{
    if attrs.len() == 0 {
        None
    } else if lower(attrs.last().name@) == k {
        Some(views(attrs.last().value@))
    } else {
        provided(attrs.drop_last(), k)
    }
}

/// The value of a dedicated field under its attribute name: `first_name`,
/// `last_name`, and `avatar` unless it is blank.
pub open spec fn field_value(
    k: Seq<char>,
    first_name: Option<Seq<char>>,
    last_name: Option<Seq<char>>,
    avatar: Option<Seq<char>>,
) -> Option<Seq<Seq<char>>> {
    if k == "first_name"@ {
        match first_name {
            Some(v) => Some(seq![v]),
            None => None,
        }
    } else if k == "last_name"@ {
        match last_name {
            Some(v) => Some(seq![v]),
            None => None,
        }
    } else if k == "avatar"@ {
        match avatar {
            Some(v) => if trim(v).len() > 0 {
                Some(seq![v])
            } else {
                None
            },
            None => None,
        }
    } else {
        None
    }
}

/// The values gathered under name `k`: those sent, else the dedicated field's.
pub open spec fn consolidated(
    attrs: Seq<AttributeValue>,
    first_name: Option<Seq<char>>,
    last_name: Option<Seq<char>>,
    avatar: Option<Seq<char>>,
    k: Seq<char>,
) -> Option<Seq<Seq<char>>> {
    match provided(attrs, k) {
        Some(v) => Some(v),
        None => field_value(k, first_name, last_name, avatar),
    }
}

proof fn lemma_sorted_tail(s: Seq<AttributeValue>)
    requires
        strictly_sorted(names_of(s)),
        s.len() > 0,
    ensures
        strictly_sorted(names_of(s.drop_first())),
{
    let t = names_of(s.drop_first());
    assert forall|a: int, b: int| 0 <= a < b < t.len() implies text_lt(#[trigger] t[a], #[trigger] t[b]) by {
        assert(t[a] == names_of(s)[a + 1] && t[b] == names_of(s)[b + 1]);
    }
}

/// In a list with distinct (sorted) names, each name finds its own entry.
proof fn lemma_lookup_at(s: Seq<AttributeValue>, i: int)
    requires
        strictly_sorted(names_of(s)),
        0 <= i < s.len(),
    ensures
        lookup(s, s[i].name@) == Some(views(s[i].value@)),
    decreases i,
{
    if i > 0 {
        assert(names_of(s)[0] == s[0].name@ && names_of(s)[i] == s[i].name@);
        lemma_text_lt_asymmetric(s[0].name@, s[i].name@);
        lemma_sorted_tail(s);
        assert(s.drop_first()[i - 1] == s[i]);
        lemma_lookup_at(s.drop_first(), i - 1);
    }
}

/// A name that no entry has finds nothing.
proof fn lemma_lookup_absent(s: Seq<AttributeValue>, k: Seq<char>)
    requires
        forall|i: int| 0 <= i < s.len() ==> (#[trigger] s[i]).name@ != k,
    ensures
        lookup(s, k) is None,
    decreases s.len(),
{
    if s.len() > 0 {
        assert forall|i: int| 0 <= i < s.drop_first().len() implies (#[trigger] s.drop_first()[i]).name@ != k by {
            assert(s.drop_first()[i] == s[i + 1]);
        }
        lemma_lookup_absent(s.drop_first(), k);
    }
}

/// Sets the values under `name` in a list sorted by name: a new name is put in its
/// place; an existing one gets the new values when `replace` is set.
fn put(out: &mut Vec<AttributeValue>, name: String, value: Vec<String>, replace: bool)
    requires
        strictly_sorted(names_of(old(out)@)),
    ensures
        strictly_sorted(names_of(final(out)@)),
        forall|k: Seq<char>|
            #[trigger] lookup(final(out)@, k) == if k == name@ {
                if replace || lookup(old(out)@, k) is None {
                    Some(views(value@))
                } else {
                    lookup(old(out)@, k)
                }
            } else {
                lookup(old(out)@, k)
            },
{
    let ghost s = out@;
    let ghost ns = names_of(s);
    let ghost x = AttributeValue { name, value };
    let mut j: usize = 0;
    while j < out.len() && text_less(out[j].name.as_str(), name.as_str())
        invariant
            s == out@,
            ns == names_of(s),
            strictly_sorted(ns),
            j <= s.len(),
            forall|m: int| 0 <= m < j ==> text_lt(#[trigger] ns[m], name@),
        decreases s.len() - j,
    {
        assert(ns[j as int] == out@[j as int].name@);
        j += 1;
    }
    proof {
        if (j as int) < s.len() {
            assert(ns[j as int] == s[j as int].name@);
        }
        lemma_insert_at(ns, name@, j as int);
    }
    if j < out.len() && str_eq(out[j].name.as_str(), name.as_str()) {
        proof {
            lemma_lookup_at(s, j as int);
        }
        if replace {
            out.set(j, AttributeValue { name, value });
            proof {
                let t = out@;
                assert(names_of(t) =~= ns);
                assert forall|k: Seq<char>| #[trigger] lookup(t, k) == if k == x.name@ {
                    Some(views(x.value@))
                } else {
                    lookup(s, k)
                } by {
                    if k == x.name@ {
                        lemma_lookup_at(t, j as int);
                    } else {
                        if exists|i: int| 0 <= i < t.len() && (#[trigger] t[i]).name@ == k {
                            let i = choose|i: int| 0 <= i < t.len() && (#[trigger] t[i]).name@ == k;
                            assert(i != j);
                            assert(t[i] == s[i]);
                            lemma_lookup_at(t, i);
                            lemma_lookup_at(s, i);
                        } else {
                            assert forall|i: int| 0 <= i < s.len() implies (#[trigger] s[i]).name@ != k by {
                                if i != j {
                                    assert(t[i] == s[i]);
                                } else {
                                    assert(t[i].name@ == x.name@);
                                    assert(s[i].name@ == ns[i]);
                                }
                            }
                            lemma_lookup_absent(t, k);
                            lemma_lookup_absent(s, k);
                        }
                    }
                }
            }
        }
        return;
    }
    proof {
        if (j as int) < s.len() {
            lemma_text_lt_total(name@, ns[j as int]);
        }
    }
    out.insert(j, AttributeValue { name, value });
    proof {
        let t = out@;
        assert(names_of(t) =~= ns.insert(j as int, x.name@));
        lemma_insert_sorted(ns, x.name@);
        assert forall|i: int| 0 <= i < s.len() implies (#[trigger] s[i]).name@ != x.name@ by {
            assert(s[i].name@ == ns[i]);
            if i < j {
                lemma_text_lt_asymmetric(ns[i], x.name@);
            } else {
                if i > j {
                    lemma_text_lt_transitive(x.name@, ns[j as int], ns[i]);
                }
                lemma_text_lt_asymmetric(x.name@, ns[i]);
            }
        }
        lemma_lookup_absent(s, x.name@);
        assert forall|k: Seq<char>| #[trigger] lookup(t, k) == if k == x.name@ {
            Some(views(x.value@))
        } else {
            lookup(s, k)
        } by {
            if k == x.name@ {
                assert(t[j as int] == x);
                lemma_lookup_at(t, j as int);
            } else {
                if exists|i: int| 0 <= i < t.len() && (#[trigger] t[i]).name@ == k {
                    let i = choose|i: int| 0 <= i < t.len() && (#[trigger] t[i]).name@ == k;
                    let i2 = if i < j { i } else { i - 1 };
                    assert(i != j);
                    assert(t[i] == s[i2]);
                    lemma_lookup_at(t, i);
                    lemma_lookup_at(s, i2);
                } else {
                    assert forall|i: int| 0 <= i < s.len() implies (#[trigger] s[i]).name@ != k by {
                        if i < j {
                            assert(t[i] == s[i]);
                        } else {
                            assert(t[i + 1] == s[i]);
                        }
                    }
                    lemma_lookup_absent(t, k);
                    lemma_lookup_absent(s, k);
                }
            }
        }
    }
}

/// The text of an optional string.
pub open spec fn opt_text(o: Option<String>) -> Option<Seq<char>> {
    match o {
        Some(s) => Some(s@),
        None => None,
    }
}

pub(crate) fn copy_texts(v: &Vec<String>) -> (r: Vec<String>)
    ensures
        views(r@) == views(v@),
{
    let mut r: Vec<String> = Vec::new();
    let mut i: usize = 0;
    while i < v.len()
        invariant
            i <= v@.len(),
            views(r@) == views(v@).take(i as int),
        decreases v@.len() - i,
    {
        let ghost before = views(r@);
        r.push(copy_str(v[i].as_str()));
        assert(views(r@) =~= before.push(v@[i as int]@));
        assert(views(v@).take(i + 1) =~= views(v@).take(i as int).push(v@[i as int]@));
        i += 1;
    }
    assert(views(v@).take(v@.len() as int) =~= views(v@));
    r
}

/// The attributes of a new user from those sent and the dedicated fields: one
/// attribute per name (lowercased; the last one sent wins), then `first_name`,
/// `last_name` and a non-blank `avatar` where no attribute of that name was sent;
/// ordered by name.
pub fn consolidate_attributes(
    attributes: Vec<AttributeValue>,
    first_name: Option<String>,
    last_name: Option<String>,
    avatar: Option<String>,
) -> (r: Vec<AttributeValue>)
    ensures
        strictly_sorted(names_of(r@)),
        forall|k: Seq<char>|
            #[trigger] lookup(r@, k) == consolidated(
                attributes@,
                opt_text(first_name),
                opt_text(last_name),
                opt_text(avatar),
                k,
            ),
{
    let ghost attrs = attributes@;
    let mut out: Vec<AttributeValue> = Vec::new();
    let mut i: usize = 0;
    assert(names_of(out@) =~= Seq::<Seq<char>>::empty());
    while i < attributes.len()
        invariant
            attrs == attributes@,
            i <= attrs.len(),
            strictly_sorted(names_of(out@)),
            forall|k: Seq<char>| #[trigger] lookup(out@, k) == provided(attrs.take(i as int), k),
        decreases attrs.len() - i,
    {
        let ghost before = out@;
        let name = to_ascii_lowercase(attributes[i].name.as_str());
        let value = copy_texts(&attributes[i].value);
        put(&mut out, name, value, true);
        proof {
            assert(attrs.take(i + 1).drop_last() =~= attrs.take(i as int));
            assert(attrs.take(i + 1).last() == attrs[i as int]);
            assert forall|k: Seq<char>| #[trigger] lookup(out@, k) == provided(attrs.take(i + 1), k) by {
                assert(lookup(before, k) == provided(attrs.take(i as int), k));
            }
        }
        i += 1;
    }
    assert(attrs.take(attrs.len() as int) =~= attrs);
    let ghost c0 = out@;
    proof {
        reveal_strlit("first_name");
        reveal_strlit("last_name");
        reveal_strlit("avatar");
        assert("first_name"@[0] != "last_name"@[0]);
        assert("first_name"@[0] != "avatar"@[0]);
        assert("last_name"@[0] != "avatar"@[0]);
    }
    match first_name {
        Some(v) => {
            let mut vals: Vec<String> = Vec::new();
            vals.push(v);
            put(&mut out, copy_str("first_name"), vals, false);
        },
        None => {},
    }
    let ghost c1 = out@;
    match last_name {
        Some(v) => {
            let mut vals: Vec<String> = Vec::new();
            vals.push(v);
            put(&mut out, copy_str("last_name"), vals, false);
        },
        None => {},
    }
    let ghost c2 = out@;
    match avatar {
        Some(v) => {
            let t = trim_str(v.as_str());
            if !t.as_str().is_empty() {
                let mut vals: Vec<String> = Vec::new();
                vals.push(v);
                put(&mut out, copy_str("avatar"), vals, false);
            }
        },
        None => {},
    }
    proof {
        assert forall|k: Seq<char>| #[trigger] lookup(out@, k) == consolidated(
            attrs,
            opt_text(first_name),
            opt_text(last_name),
            opt_text(avatar),
            k,
        ) by {
            assert(lookup(c0, k) == provided(attrs, k));
            assert(lookup(c1, k) == lookup(c0, k) || k == "first_name"@);
            assert(lookup(c2, k) == lookup(c1, k) || k == "last_name"@);
            assert(lookup(out@, k) == lookup(c2, k) || k == "avatar"@);
        }
    }
    out
}

/// What the user-creating mutations read from the attributes sent: the e-mail
/// address, the display name, and the other attributes.
pub struct UnpackedAttributes {
    pub email: Option<Email>,
    pub display_name: Option<String>,
    pub attributes: Vec<Attribute>,
}

/// The first attribute sent under exactly the name `n`.
pub open spec fn first_named(attrs: Seq<AttributeValue>, n: Seq<char>) -> Option<AttributeValue>
    decreases attrs.len(),
{
    if attrs.len() == 0 {
        None
    } else if attrs[0].name@ == n {
        Some(attrs[0])
    } else {
        first_named(attrs.drop_first(), n)
    }
}

/// Whether a name sent is read into a dedicated field.
pub open spec fn is_field_name(n: Seq<char>) -> bool {
    n == "mail"@ || n == "display_name"@
}

/// The attributes sent under other names, in order.
pub open spec fn others(attrs: Seq<AttributeValue>) -> Seq<AttributeValue>
    decreases attrs.len(),
{
    if attrs.len() == 0 {
        Seq::empty()
    } else {
        let r = others(attrs.drop_last());
        if is_field_name(attrs.last().name@) {
            r
        } else {
            r.push(attrs.last())
        }
    }
}

/// An optional attribute as a list of at most one.
pub open spec fn opt_seq(o: Option<AttributeValue>) -> Seq<AttributeValue> {
    match o {
        Some(a) => seq![a],
        None => Seq::empty(),
    }
}

/// The order in which the attributes sent are read.
pub open spec fn reading_order(attrs: Seq<AttributeValue>) -> Seq<AttributeValue> {
    opt_seq(first_named(attrs, "mail"@)) + opt_seq(first_named(attrs, "display_name"@)) + others(attrs)
}

/// Whether `r` is how an attribute sent is read (see `graphql_attribute_ok`).
pub open spec fn read_ok(sa: Seq<AttrView>, a: AttributeValue, is_admin: bool, r: Result<Attribute, String>) -> bool {
    graphql_attribute_ok(sa, a.name@, views(a.value@), is_admin, r)
}

/// Whether an attribute sent can be read.
pub open spec fn read_succeeds(sa: Seq<AttrView>, a: AttributeValue, is_admin: bool) -> bool {
    exists|x: Attribute| #[trigger] read_ok(sa, a, is_admin, Ok(x))
}

/// Whether a successful read of the name gives a single text: the attribute it
/// resolves to is refused to the caller, or is a single text.
pub open spec fn reads_as_text(sa: Seq<AttrView>, n: Seq<char>, is_admin: bool) -> bool {
    match first_answering(sa, lower(resolved_name(sa, n))) {
        Some(i) => sa[i].is_readonly || (!is_admin && !sa[i].is_editable) || (sa[i].attribute_type
            == AttributeType::String && !sa[i].is_list),
        None => true,
    }
}

/// The field read from the attribute sent for it, if one was sent.
pub open spec fn field_read(sa: Seq<AttrView>, sent: Option<AttributeValue>, is_admin: bool, out: Option<Seq<char>>) -> bool {
    match sent {
        None => out is None,
        Some(a) => exists|x: Attribute|
            #[trigger] read_ok(sa, a, is_admin, Ok(x)) && (x.value matches DomainAttributeValue::String(
                Cardinality::Singleton(s),
            ) && out == Some(s@)),
    }
}

/// The text of an optional e-mail address.
pub open spec fn opt_email(o: Option<Email>) -> Option<Seq<char>> {
    match o {
        Some(e) => Some(e@),
        None => None,
    }
}

pub(crate) fn copy_value(a: &AttributeValue) -> (r: AttributeValue)
    ensures
        r.name@ == a.name@,
        views(r.value@) == views(a.value@),
{
    AttributeValue { name: copy_str(a.name.as_str()), value: copy_texts(&a.value) }
}

pub(crate) fn find_named(attrs: &Vec<AttributeValue>, n: &str) -> (r: Option<usize>)
    ensures
        match first_named(attrs@, n@) {
            Some(a) => r matches Some(i) && i < attrs@.len() && attrs@[i as int] == a,
            None => r is None,
        },
{
    let mut i: usize = 0;
    assert(attrs@.skip(0) =~= attrs@);
    while i < attrs.len()
        invariant
            i <= attrs@.len(),
            first_named(attrs@, n@) == first_named(attrs@.skip(i as int), n@),
        decreases attrs@.len() - i,
    {
        assert(attrs@.skip(i as int)[0] == attrs@[i as int]);
        if str_eq(attrs[i].name.as_str(), n) {
            return Some(i);
        }
        assert(attrs@.skip(i as int).drop_first() =~= attrs@.skip(i + 1));
        i += 1;
    }
    None
}

proof fn lemma_first_named(attrs: Seq<AttributeValue>, n: Seq<char>)
    ensures
        first_named(attrs, n) matches Some(a) ==> a.name@ == n,
    decreases attrs.len(),
{
    if attrs.len() > 0 && attrs[0].name@ != n {
        lemma_first_named(attrs.drop_first(), n);
    }
}

/// A successful read of a name that reads as text gives a single text.
proof fn lemma_text_read(sa: Seq<AttrView>, n: Seq<char>, vals: Seq<Seq<char>>, is_admin: bool, x: Attribute)
    requires
        reads_as_text(sa, n, is_admin),
        !is_avatar_name(n),
        !eq_ic(n, "sshpublickey"@),
        graphql_attribute_ok(sa, n, vals, is_admin, Ok(x)),
    ensures
        x.value matches DomainAttributeValue::String(Cardinality::Singleton(_)),
{
}

/// The field names are neither the avatar nor the SSH keys.
proof fn lemma_field_names()
    ensures
        !is_avatar_name("mail"@),
        !eq_ic("mail"@, "sshpublickey"@),
        !is_avatar_name("display_name"@),
        !eq_ic("display_name"@, "sshpublickey"@),
        "mail"@ != "display_name"@,
{
    reveal_strlit("mail");
    reveal_strlit("display_name");
    reveal_strlit("sshpublickey");
    reveal_strlit("avatar");
    reveal_strlit("jpegphoto");
    lemma_lower_len("mail"@);
    lemma_lower_len("display_name"@);
    lemma_lower_len("sshpublickey"@);
    lemma_lower_len("avatar"@);
    lemma_lower_len("jpegphoto"@);
    assert(crate::text::lower("display_name"@)[0] != crate::text::lower("sshpublickey"@)[0]);
    assert(crate::text::lower("display_name"@)[0] != crate::text::lower("avatar"@)[0]);
    assert(crate::text::lower("mail"@)[0] != crate::text::lower("avatar"@)[0]);
}

proof fn lemma_others_prefix(a: Seq<AttributeValue>, i: int)
    requires
        0 <= i <= a.len(),
    ensures
        others(a.take(i)).len() <= others(a).len(),
        others(a).take(others(a.take(i)).len() as int) == others(a.take(i)),
    decreases a.len() - i,
{
    if i == a.len() {
        assert(a.take(i) =~= a);
    } else {
        lemma_others_prefix(a.drop_last(), i);
        assert(a.drop_last().take(i) =~= a.take(i));
        let r = others(a.drop_last());
        if !is_field_name(a.last().name@) {
            assert(r.push(a.last()).take(others(a.take(i)).len() as int) =~= r.take(others(a.take(i)).len() as int));
        }
    }
}

/// Reads the attributes sent to a user-creating mutation: `mail` and `display_name`
/// (the first of each name) into their fields, the rest as attributes, each read with
/// the schema's user attributes; the first read that fails gives the error.
pub fn unpack_attributes(attributes: Vec<AttributeValue>, schema: &PublicSchema, is_admin: bool) -> (r: Result<
    UnpackedAttributes,
    String,
>)
    requires
        reads_as_text(attr_views(schema.0.user_attributes.attributes@), "mail"@, is_admin),
        reads_as_text(attr_views(schema.0.user_attributes.attributes@), "display_name"@, is_admin),
    ensures
        match r {
            Ok(u) => {
                let sa = attr_views(schema.0.user_attributes.attributes@);
                &&& field_read(sa, first_named(attributes@, "mail"@), is_admin, opt_email(u.email))
                &&& field_read(sa, first_named(attributes@, "display_name"@), is_admin, opt_text(u.display_name))
                &&& u.attributes@.len() == others(attributes@).len()
                &&& forall|j: int|
                    0 <= j < u.attributes@.len() ==> read_ok(sa, others(attributes@)[j], is_admin, Ok(#[trigger] u.attributes@[j]))
            },
            Err(m) => {
                let sa = attr_views(schema.0.user_attributes.attributes@);
                let order = reading_order(attributes@);
                exists|k: int|
                    0 <= k < order.len() && read_ok(sa, #[trigger] order[k], is_admin, Err(m)) && forall|j: int| 0 <= j < k ==> read_succeeds(sa, #[trigger] order[j], is_admin)
            },
        },
{
    let ghost attrs = attributes@;
    let ghost sa = attr_views(schema.0.user_attributes.attributes@);
    let ghost order = reading_order(attrs);
    let user_schema = schema.user_attributes();
    proof {
        lemma_field_names();
        lemma_first_named(attrs, "mail"@);
        lemma_first_named(attrs, "display_name"@);
    }
    let ghost mut done: Seq<AttributeValue> = Seq::empty();
    let email = match find_named(&attributes, "mail") {
        Some(i) => match deserialize_attribute(user_schema, copy_value(&attributes[i]), is_admin) {
            Ok(a) => {
                proof {
                    lemma_text_read(sa, "mail"@, views(attrs[i as int].value@), is_admin, a);
                    assert(read_ok(sa, attrs[i as int], is_admin, Ok(a)));
                    done = seq![attrs[i as int]];
                }
                match a.value.into_string() {
                    Some(s) => Some(Email::new(s.as_str())),
                    None => {
                        proof {
                            assert(false);
                        }
                        None
                    },
                }
            },
            Err(m) => {
                proof {
                    assert(order[0] == attrs[i as int]);
                }
                return Err(m);
            },
        },
        None => None,
    };
    let ghost mail_part = done;
    assert(mail_part == opt_seq(first_named(attrs, "mail"@)));
    let display_name = match find_named(&attributes, "display_name") {
        Some(i) => match deserialize_attribute(user_schema, copy_value(&attributes[i]), is_admin) {
            Ok(a) => {
                proof {
                    lemma_text_read(sa, "display_name"@, views(attrs[i as int].value@), is_admin, a);
                    assert(read_ok(sa, attrs[i as int], is_admin, Ok(a)));
                    done = done.push(attrs[i as int]);
                }
                match a.value.into_string() {
                    Some(s) => Some(s),
                    None => {
                        proof {
                            assert(false);
                        }
                        None
                    },
                }
            },
            Err(m) => {
                proof {
                    let k = mail_part.len() as int;
                    assert(order[k] == attrs[i as int]);
                    assert forall|j: int| 0 <= j < k implies read_succeeds(sa, #[trigger] order[j], is_admin) by {
                        assert(order[j] == mail_part[j]);
                    }
                }
                return Err(m);
            },
        },
        None => None,
    };
    assert(done == mail_part + opt_seq(first_named(attrs, "display_name"@)));
    let ghost head = done;
    assert(forall|j: int| 0 <= j < head.len() ==> read_succeeds(sa, #[trigger] head[j], is_admin));
    let mut out: Vec<Attribute> = Vec::new();
    let mut i: usize = 0;
    while i < attributes.len()
        invariant
            attrs == attributes@,
            sa == attr_views(schema.0.user_attributes.attributes@),
            *user_schema == schema.0.user_attributes,
            order == reading_order(attrs),
            order == head + others(attrs),
            i <= attrs.len(),
            out@.len() == others(attrs.take(i as int)).len(),
            forall|j: int| 0 <= j < head.len() ==> read_succeeds(sa, #[trigger] head[j], is_admin),
            forall|j: int|
                0 <= j < out@.len() ==> read_ok(sa, others(attrs.take(i as int))[j], is_admin, Ok(#[trigger] out@[j])),
        decreases attrs.len() - i,
    {
        assert(attrs.take(i + 1).drop_last() =~= attrs.take(i as int));
        assert(attrs.take(i + 1).last() == attrs[i as int]);
        let name = attributes[i].name.as_str();
        if !(str_eq(name, "mail") || str_eq(name, "display_name")) {
            proof {
                lemma_others_prefix(attrs, i as int);
                lemma_others_prefix(attrs, i + 1);
            }
            match deserialize_attribute(user_schema, copy_value(&attributes[i]), is_admin) {
                Ok(a) => {
                    let ghost before = out@;
                    out.push(a);
                    proof {
                        assert(others(attrs.take(i + 1)) == others(attrs.take(i as int)).push(attrs[i as int]));
                        assert forall|j: int| 0 <= j < out@.len() implies read_ok(
                            sa,
                            others(attrs.take(i + 1))[j],
                            is_admin,
                            Ok(#[trigger] out@[j]),
                        ) by {
                            if j < before.len() {
                                assert(out@[j] == before[j]);
                            }
                        }
                    }
                },
                Err(m) => {
                    proof {
                        let k = (head.len() + others(attrs.take(i as int)).len()) as int;
                        let oi = others(attrs.take(i + 1));
                        assert(oi == others(attrs.take(i as int)).push(attrs[i as int]));
                        assert(others(attrs)[others(attrs.take(i as int)).len() as int] == oi[oi.len() - 1]);
                        assert(order[k] == attrs[i as int]);
                        assert forall|j: int| 0 <= j < k implies read_succeeds(sa, #[trigger] order[j], is_admin) by {
                            if j < head.len() {
                                assert(order[j] == head[j]);
                            } else {
                                let jj = j - head.len();
                                assert(order[j] == others(attrs)[jj]);
                                assert(others(attrs)[jj] == others(attrs.take(i as int))[jj]);
                                assert(read_ok(sa, order[j], is_admin, Ok(out@[jj])));
                            }
                        }
                    }
                    return Err(m);
                },
            }
        } else {
            assert(others(attrs.take(i + 1)) == others(attrs.take(i as int)));
        }
        i += 1;
    }
    assert(attrs.take(attrs.len() as int) =~= attrs);
    Ok(UnpackedAttributes { email, display_name, attributes: out })
}

} // verus!
