use klldap::graphql::AttributeValue;
use klldap::mutations::{
    add_user_to_group, check_attribute_deletion, check_attribute_name_free, check_group_membership_addition, group_name_taken, check_group_deletion, check_group_membership_removal,
    check_ou_move_target, check_user_deletion, create_ou, delete_ou, group_create_request, group_ou_update,
    group_update_request, sort_texts, user_create_request, user_ou_update, user_update_request, validate_posix_settings,
    PosixSettingsInput,
};
use klldap::schema::PublicSchema;
use klldap::types::{AttributeValue as DomainValue, Cardinality, GroupId, UserId};

fn strings(v: &[&str]) -> Vec<String> {
    v.iter().map(|s| s.to_string()).collect()
}

fn av(name: &str, value: &str) -> AttributeValue {
    AttributeValue { name: name.to_string(), value: vec![value.to_string()] }
}

#[test]
fn ou_creation() {
    assert_eq!(create_ou("office", strings(&["people", "groups"])), Ok(strings(&["groups", "office", "people"])));
    assert_eq!(
        create_ou("people\\home", strings(&["people", "groups"])),
        Ok(strings(&["groups", "people", "people\\home"]))
    );
    assert_eq!(create_ou(" People ", vec![]), Err("Invalid OU name (cannot be empty or built-in)".to_string()));
    assert_eq!(create_ou("  ", vec![]), Err("Invalid OU name (cannot be empty or built-in)".to_string()));
    assert_eq!(
        create_ou("a", vec![]),
        Err("Invalid primary OU name: 2-64 characters, only a-z A-Z 0-9 - _ allowed. No spaces or special characters.".to_string())
    );
    assert_eq!(
        create_ou("office\\-x", strings(&["office"])),
        Err("Invalid secondary OU name: 2-64 characters, only a-z A-Z 0-9 - _ allowed. No spaces or special characters.".to_string())
    );
    assert_eq!(create_ou("Office", strings(&["office"])), Err("Organizational Unit 'Office' already exists".to_string()));
    assert_eq!(
        create_ou("lab\\bench", strings(&["office"])),
        Err("Primary OU 'lab' does not exist. Create it first before adding a secondary.".to_string())
    );
}

#[test]
fn ou_deletion() {
    assert_eq!(delete_ou("Office", strings(&["people", "office", "groups"])), Ok(strings(&["people", "groups"])));
    assert_eq!(
        delete_ou("people", strings(&["people"])),
        Err("Cannot delete built-in OU 'people', 'groups', or 'All'".to_string())
    );
    assert_eq!(
        delete_ou("lab", strings(&["lab", "lab\\bench"])),
        Err("Cannot delete primary OU 'lab' because it still contains secondary OUs. Delete the secondary OUs first.".to_string())
    );
}

#[test]
fn sorting_texts() {
    assert_eq!(sort_texts(strings(&["b", "a", "B", "a"])), strings(&["B", "a", "a", "b"]));
}

#[test]
fn moves_and_guards() {
    assert_eq!(check_ou_move_target(" ALL ", true), Err("Cannot move users to built-in OU 'All'".to_string()));
    assert_eq!(check_ou_move_target("all", false), Err("Cannot move groups to built-in OU 'All'".to_string()));
    assert_eq!(check_ou_move_target("office", true), Ok(()));
    let u = user_ou_update("Bob", "office");
    assert_eq!(u.user_id, UserId::new("bob"));
    assert_eq!(u.insert_attributes[0].name.as_str(), "ou");
    assert_eq!(u.insert_attributes[0].value, DomainValue::String(Cardinality::Singleton("office".to_string())));
    let g = group_ou_update(4, "office");
    assert_eq!(g.group_id, GroupId(4));
    assert_eq!(g.insert_attributes.len(), 1);
    assert_eq!(
        check_group_membership_removal(&UserId::new("admin"), &UserId::new("admin"), 1),
        Err("Cannot remove admin rights for current user".to_string())
    );
    assert_eq!(check_group_membership_removal(&UserId::new("admin"), &UserId::new("bob"), 1), Ok(()));
    assert_eq!(check_user_deletion(&UserId::new("admin"), &UserId::new("admin")), Err("Cannot delete current user".to_string()));
    assert_eq!(check_group_deletion(1), Err("Cannot delete admin group".to_string()));
    assert_eq!(check_group_deletion(2), Ok(()));
}

fn posix(uid_assign: bool, uid_start: i32) -> PosixSettingsInput {
    PosixSettingsInput {
        user_uidnumber_assign: uid_assign,
        user_uidnumber_start: uid_start,
        user_uidnumber_max: 60000,
        user_gidnumber_assign: false,
        user_gidnumber_start: 0,
        user_loginshell_assign: true,
        user_loginshell_default: "/bin/bash".to_string(),
        user_homedirectory_assign: false,
        user_homedirectory_prefix: "/home".to_string(),
        group_gidnumber_assign: false,
        group_gidnumber_start: 0,
        group_gidnumber_max: 0,
    }
}

#[test]
fn posix_settings_ranges() {
    let s = validate_posix_settings(posix(true, 3000)).ok().unwrap();
    assert_eq!(s.user_uidnumber_start, 3000);
    assert_eq!(s.user_loginshell_default, "/bin/bash");
    assert_eq!(
        validate_posix_settings(posix(true, 10)).err().unwrap(),
        "user_uidnumber must be between 3000 and 60000"
    );
    assert!(validate_posix_settings(posix(false, 10)).is_ok());
}

#[test]
fn schema_attribute_rules() {
    let schema = PublicSchema::get();
    assert_eq!(
        check_attribute_name_free(schema.group_attributes(), "displayname", "group"),
        Err("Attribute 'displayname' already exists in the group schema. Duplicate names are not allowed across user and group attributes.".to_string())
    );
    assert_eq!(check_attribute_name_free(schema.group_attributes(), "hobby", "group"), Ok(()));
    assert_eq!(
        check_attribute_deletion(schema.user_attributes(), "Mail").err().unwrap(),
        "Permission denied: Attribute mail cannot be deleted"
    );
    assert_eq!(
        check_attribute_deletion(schema.user_attributes(), "Hobby").err().unwrap(),
        "Attribute hobby is not defined in the schema"
    );
}

#[test]
fn group_requests() {
    let schema = PublicSchema::get();
    let req = group_create_request("staff", Some(vec![av("ou", "office"), av("gidnumber", "3001")]), &schema).ok().unwrap();
    assert_eq!(req.display_name.as_str(), "staff");
    assert_eq!(req.attributes.len(), 2);
    assert_eq!(req.attributes[0].value, DomainValue::Integer(Cardinality::Singleton(3001)));
    assert_eq!(req.attributes[1].value, DomainValue::String(Cardinality::Singleton("office".to_string())));
    let req = group_create_request("staff", None, &schema).ok().unwrap();
    assert_eq!(req.attributes[0].value, DomainValue::String(Cardinality::Singleton("groups".to_string())));
    assert!(group_create_request("staff", Some(vec![av("nosuch", "x")]), &schema).is_err());

    assert_eq!(
        group_update_request(1, None, Some(vec![av("displayname", "x")]), None, &schema).err().unwrap(),
        "Cannot change lldap_admin group name"
    );
    let upd = group_update_request(2, None, Some(vec![av("displayname", "new"), av("gidnumber", "3002")]), Some(strings(&["displayname", "GidNumber"])), &schema)
        .ok()
        .unwrap();
    assert_eq!(upd.display_name.map(|g| g.as_str().to_string()), Some("new".to_string()));
    assert_eq!(upd.insert_attributes.len(), 1);
    assert_eq!(upd.delete_attributes.len(), 1);
    assert_eq!(upd.delete_attributes[0].as_str(), "gidnumber");
}

#[test]
fn user_requests() {
    let schema = PublicSchema::get();
    let req = user_create_request(
        "Bob",
        None,
        None,
        Some("Bob".to_string()),
        None,
        None,
        Some(vec![av("mail", "bob@example.com"), av("display_name", "Bobby")]),
        &schema,
    )
    .ok()
    .unwrap();
    assert_eq!(req.user_id, UserId::new("bob"));
    assert_eq!(req.email.as_str(), "bob@example.com");
    assert_eq!(req.display_name, Some("Bobby".to_string()));
    assert_eq!(req.attributes.len(), 2);
    assert_eq!(req.attributes[0].name.as_str(), "firstname");
    assert_eq!(req.attributes[1].value, DomainValue::String(Cardinality::Singleton("people".to_string())));
    let e = user_create_request("bob", None, None, None, None, None, None, &schema).err().unwrap();
    assert_eq!(e, "Email is required when creating a new user");

    let upd = user_update_request(
        "bob",
        Some("new@example.com".to_string()),
        None,
        None,
        Some("Smith".to_string()),
        None,
        Some(vec![av("first_name", "B")]),
        Some(strings(&["first_name", "ou", "mail", "DisplayName", "avatar"])),
        &schema,
        false,
    )
    .ok()
    .unwrap();
    assert_eq!(upd.email.map(|e| e.as_str().to_string()), Some("new@example.com".to_string()));
    assert_eq!(upd.insert_attributes.len(), 1);
    assert_eq!(upd.insert_attributes[0].name.as_str(), "lastname");
    let removed: Vec<&str> = upd.delete_attributes.iter().map(|a| a.as_str()).collect();
    assert_eq!(removed, vec!["first_name", "avatar"]);
}

#[test]
fn admin_and_disabled_stay_apart() {
    check_names();
}

fn names(v: &[&str]) -> Vec<klldap::types::GroupName> {
    v.iter().map(|n| klldap::types::GroupName::new(n)).collect()
}

fn check_names() {
    let msg = "A user cannot be in both lldap_admin and lldap_disabled groups".to_string();
    let admin = klldap::types::GroupName::new("lldap_admin");
    let disabled = klldap::types::GroupName::new("lldap_disabled");
    assert_eq!(check_group_membership_addition(&names(&["LLDAP_Disabled"]), &admin), Err(msg.clone()));
    assert_eq!(check_group_membership_addition(&names(&["staff", "lldap_admin"]), &disabled), Err(msg));
    assert_eq!(check_group_membership_addition(&names(&["staff"]), &admin), Ok(()));
    assert_eq!(check_group_membership_addition(&names(&["lldap_admin"]), &klldap::types::GroupName::new("staff")), Ok(()));
}

#[test]
fn group_names_are_unique_ignoring_case() {
    let existing = names(&["New Group", "staff"]);
    assert!(group_name_taken(&existing, &klldap::types::GroupName::new("neW group")));
    assert!(!group_name_taken(&existing, &klldap::types::GroupName::new("other")));
}

#[test]
fn adding_to_groups_keeps_admin_and_disabled_apart() {
    let groups = names(&["staff"]);
    let after = add_user_to_group(groups, klldap::types::GroupName::new("lldap_admin")).unwrap();
    assert_eq!(after.len(), 2);
    assert_eq!(
        add_user_to_group(after, klldap::types::GroupName::new("lldap_disabled")),
        Err("A user cannot be in both lldap_admin and lldap_disabled groups".to_string())
    );
}
