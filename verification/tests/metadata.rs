use klldap::types::{Avatar, DateTime, Uuid};
use klldap::sql_tables::{can_migrate_from, last_schema_version, migration_start, ConfigLocation, PrivateKeyHash, SchemaVersion};

#[test]
fn schema_versions() {
    assert_eq!(last_schema_version(), SchemaVersion(12));
    assert_eq!(migration_start(None), SchemaVersion(1));
    assert_eq!(migration_start(Some(SchemaVersion(5))), SchemaVersion(5));
    assert!(can_migrate_from(SchemaVersion(12)));
    assert!(!can_migrate_from(SchemaVersion(127)));
    assert!(SchemaVersion(3) < SchemaVersion(4));
}

#[test]
fn private_key_hash_storage_round_trip() {
    let mut bytes = [0u8; 32];
    for (i, b) in bytes.iter_mut().enumerate() {
        *b = (i * 7) as u8;
    }
    let h = PrivateKeyHash(bytes);
    let stored = h.to_stored_bytes();
    assert_eq!(stored, bytes.to_vec());
    assert_eq!(PrivateKeyHash::from_stored_bytes(&stored), h);
}

#[test]
fn config_locations() {
    assert_ne!(ConfigLocation::CommandLine, ConfigLocation::ConfigFile("lldap.toml".to_string()));
    assert_eq!(ConfigLocation::EnvironmentVariable("X".to_string()), ConfigLocation::EnvironmentVariable("X".to_string()));
}

#[test]
fn uuid_from_name_and_date() {
    let u = Uuid::from_name_and_date("bob", &DateTime { secs: 0, nanos: 0 }).unwrap();
    assert_eq!(u.as_str(), "346977ec-1b76-386c-94e3-4a093b9ffa30");
    let same = Uuid::from_name_and_date("bob", &DateTime { secs: 0, nanos: 0 }).unwrap();
    assert_eq!(u, same);
    let other = Uuid::from_name_and_date("bob", &DateTime { secs: 1, nanos: 0 }).unwrap();
    assert_ne!(u, other);
    assert_eq!(Uuid::from_name_and_date("bob", &DateTime { secs: i64::MAX, nanos: 0 }), None);
}

#[test]
fn uuid_text_and_empty_avatar() {
    let u = Uuid("346977ec-1b76-386c-94e3-4a093b9ffa30".to_string());
    assert_eq!(u.as_str(), u.clone().into_string().as_str());
    assert_eq!(u.to_string(), u.as_str());
    assert_eq!(Uuid::default().as_str(), "");
    assert_eq!(Avatar::default(), Avatar::null());
    assert!(Avatar::default().is_empty());
    assert!(Avatar::null().as_bytes().is_empty());
}
