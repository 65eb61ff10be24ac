//! The migration runner. One database file exists per guild; this module
//! models such a file as a value — its encoded version marker, the tables it
//! holds, and its rows — and applies ordered up/down migration steps to move
//! it to a target schema revision. Each step stands for one transaction: the
//! stored version advances only when the step applies, and a failing step
//! leaves the database exactly as it was before that step.
use vstd::prelude::*;
use crate::codec::{DatabaseVersion, LATEST_REVISION};
use crate::MigrationError;

verus! {

/// The tables a guild database can hold, in the order the schema grows them.
#[derive(Debug, Clone, Copy, PartialEq, Eq, Structural)]
pub enum TableId {
    Guilds,
    ModuleConfig,
    RestrictedCommands,
    JoinableRoles,
}

/// One row of the module_config table: a per-guild configuration value,
/// unique per key, owned by the named module.
#[derive(Debug, Clone, PartialEq, Eq)]
pub struct ConfigRow {
    pub module: String,
    pub key: String,
    pub value: String,
}

/// Mathematical model of a [`ConfigRow`].
#[verifier::ext_equal]
pub ghost struct RowModel {
    pub module: Seq<char>,
    pub key: Seq<char>,
    pub value: Seq<char>,
}

impl View for ConfigRow {
    type V = RowModel;

    open spec fn view(&self) -> RowModel {
        RowModel { module: self.module@, key: self.key@, value: self.value@ }
    }
}

/// One guild's database file: the version marker, the schema (its tables),
/// the guild row (present once the guild was encountered; holds the command
/// prefix), and the rows of the remaining tables.
#[derive(Debug, Clone, PartialEq, Eq)]
pub struct GuildDb {
    /// The encoded (revision, initialized) marker.
    pub version: u32,
    /// The tables present, in schema order.
    pub tables: Vec<TableId>,
    /// The guild row's command prefix, if the row exists.
    pub prefix: Option<String>,
    /// Rows of the module_config table.
    pub config: Vec<ConfigRow>,
    /// Rows of the restricted_commands table.
    pub restricted: Vec<String>,
    /// Rows of the joinable_roles table.
    pub joinable: Vec<u64>,
}

/// Mathematical model of a [`GuildDb`].
#[verifier::ext_equal]
pub ghost struct DbModel {
    pub version: u32,
    pub tables: Seq<TableId>,
    pub prefix: Option<Seq<char>>,
    pub config: Seq<RowModel>,
    pub restricted: Seq<Seq<char>>,
    pub joinable: Seq<u64>,
}

impl View for GuildDb {
    type V = DbModel;

    open spec fn view(&self) -> DbModel {
        DbModel {
            version: self.version,
            tables: self.tables@,
            prefix: match self.prefix {
                Some(p) => Some(p@),
                None => None,
            },
            config: self.config@.map_values(|r: ConfigRow| r@),
            restricted: self.restricted@.map_values(|s: String| s@),
            joinable: self.joinable@,
        }
    }
}

impl DbModel {
    /// The decoded schema revision of the version marker.
    pub open spec fn revision(self) -> u32 {
        DatabaseVersion::spec_decode(self.version).revision
    }

    /// No two config rows share a key: configuration is unique per
    /// (guild, key), and one model stands for one guild's file.
    pub open spec fn unique_keys(self) -> bool {
        forall|i: int, j: int|
            0 <= i < j < self.config.len() ==> self.config[i].key != self.config[j].key
    }

    /// Well-formedness: the version marker is in range, the initialized flag
    /// tracks whether the base schema exists, the tables match the revision,
    /// and no table's rows exist before the table does.
    pub open spec fn wf(self) -> bool {
        &&& self.revision() <= LATEST_REVISION
        &&& DatabaseVersion::spec_decode(self.version).initialized == (self.revision() >= 1)
        &&& self.tables == spec_schema(self.revision() as int)
        &&& (self.prefix is Some ==> self.revision() >= 1)
        &&& (self.config.len() > 0 ==> self.revision() >= 2)
        &&& (self.restricted.len() > 0 ==> self.revision() >= 3)
        &&& (self.joinable.len() > 0 ==> self.revision() >= 3)
        &&& self.unique_keys()
    }
}

/// The tables that exist at a schema revision.
pub open spec fn spec_schema(rev: int) -> Seq<TableId> {
    if rev <= 0 {
        seq![]
    } else if rev == 1 {
        seq![TableId::Guilds]
    } else if rev == 2 {
        seq![TableId::Guilds, TableId::ModuleConfig]
    } else {
        seq![TableId::Guilds, TableId::ModuleConfig, TableId::RestrictedCommands,
            TableId::JoinableRoles]
    }
}

/// The model of a newly created file: revision 0, uninitialized, no tables,
/// no rows.
pub open spec fn spec_fresh() -> DbModel {
    DbModel {
        version: 0,
        tables: seq![],
        prefix: None,
        config: seq![],
        restricted: seq![],
        joinable: seq![],
    }
}

/// What the up-step to revision `k` does, or `None` when it cannot apply:
/// it requires the database to stand exactly at revision `k - 1` with that
/// revision's tables, creates the tables of revision `k`, and advances the
/// stored version (setting the initialized flag).
pub open spec fn spec_apply_up(m: DbModel, k: int) -> Option<DbModel> {
    if 1 <= k <= LATEST_REVISION && m.revision() + 1 == k && m.tables == spec_schema(k - 1) {
        Some(
            DbModel {
                version: (DatabaseVersion {
                    revision: k as u32,
                    initialized: true,
                }).spec_encode(),
                tables: spec_schema(k),
                ..m
            },
        )
    } else {
        None
    }
}

/// What the down-step from revision `k` does, or `None` when it cannot apply:
/// it requires the database to stand exactly at revision `k`, drops that
/// revision's tables together with their rows, and moves the stored version
/// back (clearing the initialized flag when the base schema goes).
pub open spec fn spec_apply_down(m: DbModel, k: int) -> Option<DbModel> {
    if 1 <= k <= LATEST_REVISION && m.revision() == k && m.tables == spec_schema(k) {
        Some(
            DbModel {
                version: (DatabaseVersion {
                    revision: (k - 1) as u32,
                    initialized: k - 1 >= 1,
                }).spec_encode(),
                tables: spec_schema(k - 1),
                prefix: if k == 1 { None } else { m.prefix },
                config: if k == 2 { seq![] } else { m.config },
                restricted: if k == 3 { seq![] } else { m.restricted },
                joinable: if k == 3 { seq![] } else { m.joinable },
            },
        )
    } else {
        None
    }
}

/// Runs up-steps `k ..= target` in order, stopping at the first step that
/// cannot apply. Returns the database after the steps that did apply, and the
/// failing step if one failed: no partial version advancement beyond a
/// committed step is ever recorded.
pub open spec fn spec_run_up(m: DbModel, k: int, target: int) -> (DbModel, Option<u32>)
    decreases target + 1 - k,
{
    if k > target {
        (m, None)
    } else {
        match spec_apply_up(m, k) {
            Some(m2) => spec_run_up(m2, k + 1, target),
            None => (m, Some(#[verifier::truncate] (k as u32))),
        }
    }
}

/// Runs down-steps `k, k - 1, ..., target + 1` in order, stopping at the
/// first step that cannot apply.
pub open spec fn spec_run_down(m: DbModel, k: int, target: int) -> (DbModel, Option<u32>)
    decreases k + 1 - target,
{
    if k <= target {
        (m, None)
    } else {
        match spec_apply_down(m, k) {
            Some(m2) => spec_run_down(m2, k - 1, target),
            None => (m, Some(#[verifier::truncate] (k as u32))),
        }
    }
}

/// A newly created guild database file.
pub fn fresh_db() -> (db: GuildDb)
    ensures
        db@ == spec_fresh(),
{
    let db = GuildDb {
        version: 0,
        tables: Vec::new(),
        prefix: None,
        config: Vec::new(),
        restricted: Vec::new(),
        joinable: Vec::new(),
    };
    proof {
        assert(db@ =~= spec_fresh());
    }
    db
}

/// The decoded version marker of a database.
pub fn get_db_version(db: &GuildDb) -> (v: DatabaseVersion)
    ensures
        v == DatabaseVersion::spec_decode(db@.version),
{
    DatabaseVersion::decode(db.version)
}

/// The tables of the schema at `rev`.
fn schema_tables(rev: u32) -> (v: Vec<TableId>)
    requires
        rev <= LATEST_REVISION,
    ensures
        v@ == spec_schema(rev as int),
{
    let mut v: Vec<TableId> = Vec::new();
    if rev >= 1 {
        v.push(TableId::Guilds);
    }
    if rev >= 2 {
        v.push(TableId::ModuleConfig);
    }
    if rev >= 3 {
        v.push(TableId::RestrictedCommands);
        v.push(TableId::JoinableRoles);
    }
    proof {
        assert(v@ =~= spec_schema(rev as int));
    }
    v
}

/// Element-wise table list comparison.
fn tables_eq(a: &Vec<TableId>, b: &Vec<TableId>) -> (r: bool)
    ensures
        r == (a@ == b@),
{
    if a.len() != b.len() {
        return false;
    }
    let mut i: usize = 0;
    while i < a.len()
        invariant
            a@.len() == b@.len(),
            0 <= i <= a@.len(),
            forall|j: int| 0 <= j < i ==> a@[j] == b@[j],
        decreases a@.len() - i,
    {
        if *a.get(i).unwrap() != *b.get(i).unwrap() {
            return false;
        }
        i = i + 1;
    }
    proof {
        assert(a@ =~= b@);
    }
    true
}

/// Applies the up-step to revision `k` inside its own transaction: on failure
/// the database is exactly what it was before the step.
pub fn apply_up(db: &mut GuildDb, k: u32) -> (r: Result<(), MigrationError>)
    ensures
        match spec_apply_up(old(db)@, k as int) {
            Some(m) => r is Ok && final(db)@ == m,
            None => r == Err::<(), MigrationError>(MigrationError::StepFailed(k)) && final(db)@ == old(
                db,
            )@,
        },
{
    let v = DatabaseVersion::decode(db.version);
    if !(1 <= k && k <= LATEST_REVISION && v.revision + 1 == k) {
        return Err(MigrationError::StepFailed(k));
    }
    let expected = schema_tables(k - 1);
    if !tables_eq(&db.tables, &expected) {
        return Err(MigrationError::StepFailed(k));
    }
    db.tables = schema_tables(k);
    db.version = (DatabaseVersion { revision: k, initialized: true }).encode();
    proof {
        assert(db@ =~= spec_apply_up(old(db)@, k as int).unwrap());
    }
    Ok(())
}

/// Applies the down-step from revision `k` inside its own transaction,
/// dropping that revision's tables and their rows.
pub fn apply_down(db: &mut GuildDb, k: u32) -> (r: Result<(), MigrationError>)
    ensures
        match spec_apply_down(old(db)@, k as int) {
            Some(m) => r is Ok && final(db)@ == m,
            None => r == Err::<(), MigrationError>(MigrationError::StepFailed(k)) && final(db)@ == old(
                db,
            )@,
        },
{
    let v = DatabaseVersion::decode(db.version);
    if !(1 <= k && k <= LATEST_REVISION && v.revision == k) {
        return Err(MigrationError::StepFailed(k));
    }
    let expected = schema_tables(k);
    if !tables_eq(&db.tables, &expected) {
        return Err(MigrationError::StepFailed(k));
    }
    db.tables = schema_tables(k - 1);
    db.version = (DatabaseVersion { revision: k - 1, initialized: k - 1 >= 1 }).encode();
    if k == 1 {
        db.prefix = None;
    }
    if k == 2 {
        db.config = Vec::new();
    }
    if k == 3 {
        db.restricted = Vec::new();
        db.joinable = Vec::new();
    }
    proof {
        assert(db@ =~= spec_apply_down(old(db)@, k as int).unwrap());
    }
    Ok(())
}

/// Upgrades the database to `target` (the latest known version when absent),
/// applying every up-step above the current revision and at most the target,
/// each inside its own transaction. A target outside the known range is
/// `UnknownVersion`; a target below the current revision is
/// `InvalidDirection`; the first failing step aborts the upgrade with
/// `StepFailed`, leaving the steps already committed in place and that step
/// rolled back. `target == current` is a no-op success.
pub fn upgrade(db: &mut GuildDb, target: Option<DatabaseVersion>) -> (r: Result<
    (),
    MigrationError,
>)
    ensures
        ({
            let tgt = if target is Some {
                target->0
            } else {
                DatabaseVersion { revision: LATEST_REVISION, initialized: true }
            };
            let cur = old(db)@.revision();
            if tgt.revision > LATEST_REVISION {
                r == Err::<(), MigrationError>(MigrationError::UnknownVersion) && final(db)@ == old(db)@
            } else if cur > tgt.revision {
                r == Err::<(), MigrationError>(MigrationError::InvalidDirection) && final(db)@ == old(db)@
            } else {
                let run = spec_run_up(old(db)@, cur + 1, tgt.revision as int);
                final(db)@ == run.0 && (match run.1 {
                    None => r is Ok,
                    Some(k) => r == Err::<(), MigrationError>(MigrationError::StepFailed(k)),
                })
            }
        }),
{
    let tgt = match target {
        Some(t) => t,
        None => DatabaseVersion::latest(),
    };
    if tgt.revision > LATEST_REVISION {
        return Err(MigrationError::UnknownVersion);
    }
    let cur = DatabaseVersion::decode(db.version).revision;
    if cur > tgt.revision {
        return Err(MigrationError::InvalidDirection);
    }
    let ghost start = db@;
    let mut k: u32 = cur + 1;
    while k <= tgt.revision
        invariant
            start == old(db)@,
            cur == old(db)@.revision(),
            tgt == (if target is Some {
                target->0
            } else {
                DatabaseVersion { revision: LATEST_REVISION, initialized: true }
            }),
            cur + 1 <= k <= tgt.revision + 1,
            tgt.revision <= LATEST_REVISION,
            spec_run_up(start, cur + 1, tgt.revision as int) == spec_run_up(
                db@,
                k as int,
                tgt.revision as int,
            ),
        decreases tgt.revision + 1 - k,
    {
        match apply_up(db, k) {
            Ok(()) => {},
            Err(e) => {
                return Err(e);
            },
        }
        k = k + 1;
    }
    Ok(())
}

/// Downgrades the database to `target`, applying every down-step from the
/// current revision down to just above the target, each inside its own
/// transaction. A target outside the known range is `UnknownVersion`;
/// a target above the current revision is `InvalidDirection`;
/// `target == current` is a no-op success.
pub fn downgrade(db: &mut GuildDb, target: DatabaseVersion) -> (r: Result<(), MigrationError>)
    ensures
        ({
            let cur = old(db)@.revision();
            if target.revision > LATEST_REVISION {
                r == Err::<(), MigrationError>(MigrationError::UnknownVersion) && final(db)@ == old(db)@
            } else if cur < target.revision {
                r == Err::<(), MigrationError>(MigrationError::InvalidDirection) && final(db)@ == old(db)@
            } else {
                let run = spec_run_down(old(db)@, cur as int, target.revision as int);
                final(db)@ == run.0 && (match run.1 {
                    None => r is Ok,
                    Some(k) => r == Err::<(), MigrationError>(MigrationError::StepFailed(k)),
                })
            }
        }),
{
    if target.revision > LATEST_REVISION {
        return Err(MigrationError::UnknownVersion);
    }
    let cur = DatabaseVersion::decode(db.version).revision;
    if cur < target.revision {
        return Err(MigrationError::InvalidDirection);
    }
    let ghost start = db@;
    let mut k: u32 = cur;
    while k > target.revision
        invariant
            start == old(db)@,
            cur == old(db)@.revision(),
            target.revision <= k <= cur,
            target.revision <= LATEST_REVISION,
            spec_run_down(start, cur as int, target.revision as int) == spec_run_down(
                db@,
                k as int,
                target.revision as int,
            ),
        decreases k,
    {
        match apply_down(db, k) {
            Ok(()) => {},
            Err(e) => {
                return Err(e);
            },
        }
        k = k - 1;
    }
    Ok(())
}

/// On a well-formed database standing at revision `k - 1`, the up-steps
/// `k ..= target` all apply: the run succeeds, ends at the target revision
/// with that revision's tables, keeps every row, and stays well-formed.
pub proof fn lemma_run_up_wf(m: DbModel, k: int, target: int)
    requires
        m.wf(),
        m.revision() + 1 == k,
        k - 1 <= target <= LATEST_REVISION,
    ensures
        ({
            let run = spec_run_up(m, k, target);
            &&& run.1 is None
            &&& run.0.wf()
            &&& run.0.version == (DatabaseVersion {
                revision: target as u32,
                initialized: target >= 1,
            }).spec_encode()
            &&& run.0.tables == spec_schema(target)
            &&& run.0.prefix == m.prefix
            &&& run.0.config == m.config
            &&& run.0.restricted == m.restricted
            &&& run.0.joinable == m.joinable
        }),
    decreases target + 1 - k,
{
    crate::codec::lemma_version_round_trip(
        DatabaseVersion { revision: k as u32, initialized: true },
        m.version,
    );
    if k > target {
        crate::codec::lemma_version_round_trip(
            DatabaseVersion { revision: m.revision(), initialized: m.revision() >= 1 },
            m.version,
        );
    } else {
        let m2 = spec_apply_up(m, k).unwrap();
        assert(DatabaseVersion::spec_decode(m2.version) == DatabaseVersion {
            revision: k as u32,
            initialized: true,
        }) by {
            crate::codec::lemma_version_round_trip(
                DatabaseVersion { revision: k as u32, initialized: true },
                m.version,
            );
        }
        lemma_run_up_wf(m2, k + 1, target);
    }
}

/// On a well-formed database standing at revision `k`, the down-steps
/// `k, ..., target + 1` all apply: the run succeeds, ends at the target
/// revision with that revision's tables, keeps exactly the rows of the tables
/// that survive, and stays well-formed. The initialized flag ends cleared
/// exactly when the run goes past revision 1.
pub proof fn lemma_run_down_wf(m: DbModel, k: int, target: int)
    requires
        m.wf(),
        m.revision() == k,
        0 <= target <= k,
    ensures
        ({
            let run = spec_run_down(m, k, target);
            &&& run.1 is None
            &&& run.0.wf()
            &&& run.0.version == (DatabaseVersion {
                revision: target as u32,
                initialized: target >= 1,
            }).spec_encode()
            &&& run.0.tables == spec_schema(target)
            &&& run.0.prefix == (if target >= 1 {
                m.prefix
            } else {
                None
            })
            &&& run.0.config == (if target >= 2 {
                m.config
            } else {
                Seq::<RowModel>::empty()
            })
            &&& run.0.restricted == (if target >= 3 {
                m.restricted
            } else {
                Seq::<Seq<char>>::empty()
            })
            &&& run.0.joinable == (if target >= 3 {
                m.joinable
            } else {
                Seq::<u64>::empty()
            })
        }),
    decreases k - target,
{
    if k <= target {
        crate::codec::lemma_version_round_trip(
            DatabaseVersion { revision: m.revision(), initialized: m.revision() >= 1 },
            m.version,
        );
        assert(spec_run_down(m, k, target).0.config =~= (if target >= 2 {
            m.config
        } else {
            Seq::<RowModel>::empty()
        }));
        assert(spec_run_down(m, k, target).0.restricted =~= (if target >= 3 {
            m.restricted
        } else {
            Seq::<Seq<char>>::empty()
        }));
        assert(spec_run_down(m, k, target).0.joinable =~= (if target >= 3 {
            m.joinable
        } else {
            Seq::<u64>::empty()
        }));
    } else {
        let m2 = spec_apply_down(m, k).unwrap();
        assert(DatabaseVersion::spec_decode(m2.version) == DatabaseVersion {
            revision: (k - 1) as u32,
            initialized: k - 1 >= 1,
        }) by {
            crate::codec::lemma_version_round_trip(
                DatabaseVersion { revision: (k - 1) as u32, initialized: k - 1 >= 1 },
                m.version,
            );
        }
        lemma_run_down_wf(m2, k - 1, target);
    }
}

/// Upgrading a fresh file to revision `n` and downgrading back to 0 restores
/// the original observable state exactly; in particular the initialized flag
/// ends cleared, the run having gone past revision 1 whenever `n >= 1`.
pub proof fn lemma_upgrade_then_downgrade_restores(n: int)
    requires
        0 <= n <= LATEST_REVISION,
    ensures
        ({
            let up = spec_run_up(spec_fresh(), 1, n);
            let down = spec_run_down(up.0, n, 0);
            &&& up.1 is None
            &&& down.1 is None
            &&& down.0 == spec_fresh()
            &&& !DatabaseVersion::spec_decode(down.0.version).initialized
        }),
{
    crate::codec::lemma_version_round_trip(
        DatabaseVersion { revision: 0, initialized: false },
        0,
    );
    assert(spec_fresh().wf());
    lemma_run_up_wf(spec_fresh(), 1, n);
    let up = spec_run_up(spec_fresh(), 1, n);
    assert(up.0.revision() == n) by {
        crate::codec::lemma_version_round_trip(
            DatabaseVersion { revision: n as u32, initialized: n >= 1 },
            0,
        );
    }
    lemma_run_down_wf(up.0, n, 0);
    let down = spec_run_down(up.0, n, 0);
    crate::codec::lemma_version_round_trip(
        DatabaseVersion { revision: 0, initialized: false },
        down.0.version,
    );
    assert(down.0 =~= spec_fresh());
}

} // verus!
