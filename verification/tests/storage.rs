//! Tests for the version codec, migrations, the pool discipline and the
//! guild config store.
use glimbot::codec::{DatabaseVersion, INITIALIZE_MASK, LATEST_REVISION};
use glimbot::migrate::{GuildDb, TableId, fresh_db, get_db_version, upgrade, downgrade};
use glimbot::pool::ConnectionPool;
use glimbot::store::GuildConfigStore;
use glimbot::config::{Validator, Value, validate};
use glimbot::modules::Module;
use glimbot::{CommanderError, MigrationError};

#[test]
fn version_round_trip_concrete() {
    let v = DatabaseVersion { revision: 5, initialized: true };
    let raw = v.encode();
    assert_eq!(raw, 11);
    assert_eq!(DatabaseVersion::decode(raw), v);
    let u = DatabaseVersion { revision: 5, initialized: false };
    assert_eq!(DatabaseVersion::decode(u.encode()), u);
}

#[test]
fn version_round_trip_sweep() {
    for rev in [0u32, 1, 2, 3, 1000, 0x7FFF_FFFF] {
        for init in [false, true] {
            let v = DatabaseVersion { revision: rev, initialized: init };
            assert_eq!(DatabaseVersion::decode(v.encode()), v);
        }
    }
}

#[test]
fn version_low_bit_is_initialized() {
    assert_eq!(INITIALIZE_MASK, 1);
    assert_eq!(DatabaseVersion::decode(0), DatabaseVersion { revision: 0, initialized: false });
    assert_eq!(DatabaseVersion::decode(1), DatabaseVersion { revision: 0, initialized: true });
    assert_eq!(DatabaseVersion::decode(7), DatabaseVersion { revision: 3, initialized: true });
}

#[test]
fn fresh_file_starts_uninitialized() {
    let db = fresh_db();
    let v = get_db_version(&db);
    assert_eq!(v.revision, 0);
    assert!(!v.initialized);
    assert!(db.tables.is_empty());
}

#[test]
fn upgrade_to_latest_builds_schema() {
    let mut db = fresh_db();
    assert!(upgrade(&mut db, None).is_ok());
    let v = get_db_version(&db);
    assert_eq!(v.revision, LATEST_REVISION);
    assert!(v.initialized);
    assert_eq!(
        db.tables,
        vec![
            TableId::Guilds,
            TableId::ModuleConfig,
            TableId::RestrictedCommands,
            TableId::JoinableRoles,
        ],
    );
}

#[test]
fn upgrade_then_downgrade_restores_fresh() {
    let mut db = fresh_db();
    let original = db.clone();
    assert!(upgrade(&mut db, None).is_ok());
    assert!(downgrade(&mut db, DatabaseVersion { revision: 0, initialized: false }).is_ok());
    assert_eq!(db, original);
    assert!(!get_db_version(&db).initialized);
}

#[test]
fn upgrade_to_same_revision_is_noop() {
    let mut db = fresh_db();
    assert!(upgrade(&mut db, None).is_ok());
    let snapshot = db.clone();
    assert!(upgrade(&mut db, Some(DatabaseVersion { revision: LATEST_REVISION, initialized: true })).is_ok());
    assert_eq!(db, snapshot);
}

#[test]
fn upgrade_past_latest_is_unknown_version() {
    let mut db = fresh_db();
    let r = upgrade(&mut db, Some(DatabaseVersion { revision: LATEST_REVISION + 1, initialized: true }));
    assert_eq!(r, Err(MigrationError::UnknownVersion));
    assert_eq!(db, fresh_db());
}

#[test]
fn upgrade_below_current_is_invalid_direction() {
    let mut db = fresh_db();
    assert!(upgrade(&mut db, None).is_ok());
    let r = upgrade(&mut db, Some(DatabaseVersion { revision: 1, initialized: true }));
    assert_eq!(r, Err(MigrationError::InvalidDirection));
}

#[test]
fn downgrade_above_current_is_invalid_direction() {
    let mut db = fresh_db();
    let r = downgrade(&mut db, DatabaseVersion { revision: 2, initialized: true });
    assert_eq!(r, Err(MigrationError::InvalidDirection));
    assert_eq!(db, fresh_db());
}

#[test]
fn tampered_schema_fails_the_step() {
    let mut db = GuildDb {
        version: 0,
        tables: vec![TableId::Guilds],
        prefix: None,
        config: Vec::new(),
        restricted: Vec::new(),
        joinable: Vec::new(),
    };
    let r = upgrade(&mut db, None);
    assert_eq!(r, Err(MigrationError::StepFailed(1)));
    assert_eq!(db.tables, vec![TableId::Guilds]);
}

#[test]
fn writer_handle_is_exclusive() {
    let mut p = ConnectionPool::new(4);
    assert!(p.get_writer());
    assert!(!p.get_writer());
    assert_eq!(p.writers_live, 1);
    p.release_writer();
    assert!(p.get_writer());
    assert_eq!(p.writers_live, 1);
}

#[test]
fn reader_pool_is_bounded() {
    let mut p = ConnectionPool::new(2);
    assert!(p.get_reader());
    assert!(p.get_reader());
    assert!(!p.get_reader());
    p.release_reader();
    assert!(p.get_reader());
    assert_eq!(p.readers_live, 2);
}

#[test]
fn readers_do_not_block_the_writer() {
    let mut p = ConnectionPool::new(2);
    assert!(p.get_reader());
    assert!(p.get_writer());
    assert_eq!(p.readers_live, 1);
    assert_eq!(p.writers_live, 1);
}

#[test]
fn encounter_is_idempotent() {
    let mut s = GuildConfigStore::new();
    assert_eq!(s.encounter(7), Ok(true));
    assert_eq!(s.encounter(7), Ok(false));
    assert_eq!(s.encounter(7), Ok(false));
    assert_eq!(s.encounter(8), Ok(true));
}

#[test]
fn encounter_writes_the_default_prefix() {
    let mut s = GuildConfigStore::new();
    s.encounter(7).unwrap();
    assert_eq!(s.get_prefix(7), Some(String::from("!")));
    assert_eq!(s.get_prefix(8), None);
}

#[test]
fn get_of_unset_key_is_absent() {
    let mut s = GuildConfigStore::new();
    s.encounter(7).unwrap();
    assert_eq!(s.get(7, "admin_role"), None);
    assert_eq!(s.get(9, "admin_role"), None);
}

#[test]
fn set_then_get_round_trips() {
    let mut s = GuildConfigStore::new();
    s.encounter(7).unwrap();
    let spec = Value::new(
        String::from("admin_role"),
        String::from("help"),
        Validator::UnsignedInt,
        None,
    );
    assert!(s.set(7, "roles", &spec, String::from("42")).is_ok());
    assert_eq!(s.get(7, "admin_role"), Some(String::from("42")));
    assert!(s.set(7, "roles", &spec, String::from("43")).is_ok());
    assert_eq!(s.get(7, "admin_role"), Some(String::from("43")));
}

#[test]
fn set_validates_before_writing() {
    let mut s = GuildConfigStore::new();
    s.encounter(7).unwrap();
    let spec = Value::new(
        String::from("admin_role"),
        String::from("help"),
        Validator::UnsignedInt,
        None,
    );
    let r = s.set(7, "roles", &spec, String::from("not-a-number"));
    match r {
        Err(CommanderError::ValidationError { value, constraint }) => {
            assert_eq!(value, "not-a-number");
            assert_eq!(constraint, "admin_role");
        },
        other => panic!("expected a validation error, got {:?}", other),
    }
    assert_eq!(s.get(7, "admin_role"), None);
}

#[test]
fn set_on_unknown_guild_is_a_database_error() {
    let mut s = GuildConfigStore::new();
    let spec = Value::new(String::from("k"), String::from("h"), Validator::Any, None);
    assert!(matches!(
        s.set(7, "m", &spec, String::from("v")),
        Err(CommanderError::DatabaseError(_))
    ));
}

#[test]
fn defaults_fill_only_missing_keys() {
    let mut s = GuildConfigStore::new();
    s.encounter(7).unwrap();
    let set_spec = Value::new(String::from("a"), String::from("h"), Validator::Any, None);
    s.set(7, "m", &set_spec, String::from("kept")).unwrap();
    let m = Module::with_name(String::from("m"))
        .with_config_value(Value::new(
            String::from("a"),
            String::from("h"),
            Validator::Any,
            Some(String::from("default-a")),
        ))
        .with_config_value(Value::new(
            String::from("b"),
            String::from("h"),
            Validator::Any,
            Some(String::from("default-b")),
        ))
        .with_config_value(Value::new(String::from("c"), String::from("h"), Validator::Any, None));
    assert!(s.ensure_module_defaults(7, &m).is_ok());
    assert_eq!(s.get(7, "a"), Some(String::from("kept")));
    assert_eq!(s.get(7, "b"), Some(String::from("default-b")));
    assert_eq!(s.get(7, "c"), None);
}

#[test]
fn validators_accept_and_reject() {
    assert!(validate(&Validator::Any, ""));
    assert!(validate(&Validator::Any, "anything at all"));
    assert!(validate(&Validator::UnsignedInt, "0"));
    assert!(validate(&Validator::UnsignedInt, "18446744073709551615"));
    assert!(!validate(&Validator::UnsignedInt, "18446744073709551616"));
    assert!(!validate(&Validator::UnsignedInt, "12x"));
    assert!(!validate(&Validator::UnsignedInt, ""));
    assert!(validate(&Validator::Boolean, "true"));
    assert!(validate(&Validator::Boolean, "false"));
    assert!(!validate(&Validator::Boolean, "tru"));
    assert!(!validate(&Validator::Boolean, "True"));
}

#[test]
fn restricted_commands_are_a_per_guild_set() {
    let mut s = GuildConfigStore::new();
    s.encounter(7).unwrap();
    assert!(!s.is_restricted(7, "roles"));
    assert!(!s.is_restricted(9, "roles"));
}
