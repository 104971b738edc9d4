//! The object classes that the GraphQL schema query lists for users and groups.
use vstd::prelude::*;
use crate::text::copy_str;
use crate::types::LdapObjectClass;

verus! {

/// An object class as the schema query shows it, and whether it is built in.
#[derive(Clone)]
pub struct ObjectClassInfo {
    object_class: String,
    is_hardcoded: bool,
}

impl ObjectClassInfo {
    /// The name of the class.
    pub closed spec fn class_view(&self) -> Seq<char> {
        self.object_class@
    }

    /// Whether the class is built in.
    pub closed spec fn hardcoded_view(&self) -> bool {
        self.is_hardcoded
    }

    /// The name of the class.
    pub fn object_class(&self) -> (r: &str)
        ensures
            r@ == self.class_view(),
    {
        self.object_class.as_str()
    }

    /// Whether the class is built in, not added by an administrator.
    pub fn is_hardcoded(&self) -> (r: bool)
        ensures
            r == self.hardcoded_view(),
    {
        self.is_hardcoded
    }
}

/// The names of a list of object classes.
pub open spec fn names_of(v: Seq<LdapObjectClass>) -> Seq<Seq<char>> {
    v.map_values(|c: LdapObjectClass| c.0@)
}

/// The classes that administrators added, by name.
pub fn extra_ldap_object_classes(extra_classes: &Vec<LdapObjectClass>) -> (r: Vec<String>)
    ensures
        r@.len() == extra_classes@.len(),
        forall|i: int| 0 <= i < r@.len() ==> #[trigger] r@[i]@ == extra_classes@[i].0@,
{
    let mut r: Vec<String> = Vec::new();
    let mut i: usize = 0;
    while i < extra_classes.len()
        invariant
            i <= extra_classes@.len(),
            r@.len() == i,
            forall|j: int| 0 <= j < i ==> #[trigger] r@[j]@ == extra_classes@[j].0@,
        decreases extra_classes@.len() - i,
    {
        r.push(copy_str(extra_classes[i].0.as_str()));
        i += 1;
    }
    r
}

/// All object classes of an entry kind: the built-in ones, marked as such, then the
/// added ones.
pub fn ldap_object_classes(default_classes: &Vec<LdapObjectClass>, extra_classes: &Vec<LdapObjectClass>) -> (r: Vec<
    ObjectClassInfo,
>)
    ensures
        r@.len() == default_classes@.len() + extra_classes@.len(),
        forall|i: int|
            0 <= i < default_classes@.len() ==> (#[trigger] r@[i]).class_view() == default_classes@[i].0@
                && r@[i].hardcoded_view(),
        forall|i: int|
            0 <= i < extra_classes@.len() ==> (#[trigger] r@[default_classes@.len() + i]).class_view()
                == extra_classes@[i].0@ && !r@[default_classes@.len() + i].hardcoded_view(),
{
    let mut all: Vec<ObjectClassInfo> = Vec::new();
    let mut i: usize = 0;
    while i < default_classes.len()
        invariant
            i <= default_classes@.len(),
            all@.len() == i,
            forall|j: int|
                0 <= j < i ==> (#[trigger] all@[j]).class_view() == default_classes@[j].0@ && all@[j].hardcoded_view(),
        decreases default_classes@.len() - i,
    {
        all.push(ObjectClassInfo { object_class: copy_str(default_classes[i].0.as_str()), is_hardcoded: true });
        i += 1;
    }
    let n = default_classes.len();
    let mut k: usize = 0;
    while k < extra_classes.len()
        invariant
            n == default_classes@.len(),
            k <= extra_classes@.len(),
            all@.len() == n + k,
            forall|j: int|
                0 <= j < n ==> (#[trigger] all@[j]).class_view() == default_classes@[j].0@ && all@[j].hardcoded_view(),
            forall|j: int|
                0 <= j < k ==> (#[trigger] all@[n + j]).class_view() == extra_classes@[j].0@ && !all@[n
                    + j].hardcoded_view(),
        decreases extra_classes@.len() - k,
    {
        all.push(ObjectClassInfo { object_class: copy_str(extra_classes[k].0.as_str()), is_hardcoded: false });
        assert(all@[n + k as int].class_view() == extra_classes@[k as int].0@);
        k += 1;
    }
    all
}

} // verus!
