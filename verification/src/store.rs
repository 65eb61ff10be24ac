//! The guild config store: guild bootstrap ("encounter") and per-guild
//! key/value configuration, one modeled database file per guild. The store's
//! abstract state is a map from guild id to database model; configuration
//! rows are read through a map from key to row, so contracts pin the content
//! while the row order stays internal.
use vstd::prelude::*;
use crate::codec::{DatabaseVersion, LATEST_REVISION};
use crate::migrate::{GuildDb, DbModel, RowModel, ConfigRow, fresh_db, upgrade, spec_fresh,
    spec_schema};
use crate::config::{Value, ValueModel};
use crate::modules::Module;
use crate::CommanderError;

verus! {

/// The command prefix a newly encountered guild starts with.
pub open spec fn spec_default_prefix() -> Seq<char> {
    "!"@
}

/// The model of a just-bootstrapped guild database: migrated to the latest
/// revision, carrying the default-prefix guild row and nothing else.
pub open spec fn spec_new_guild_db() -> DbModel {
    DbModel {
        version: (DatabaseVersion { revision: LATEST_REVISION, initialized: true }).spec_encode(),
        tables: spec_schema(LATEST_REVISION as int),
        prefix: Some(spec_default_prefix()),
        config: seq![],
        restricted: seq![],
        joinable: seq![],
    }
}

/// The content of a config-row sequence, as a map from key to row.
pub open spec fn config_map(c: Seq<RowModel>) -> Map<Seq<char>, RowModel> {
    Map::new(
        |k: Seq<char>| exists|i: int| 0 <= i < c.len() && c[i].key == k,
        |k: Seq<char>|
            c[choose|i: int| 0 <= i < c.len() && c[i].key == k],
    )
}

/// No two rows share a key.
pub open spec fn rows_unique(c: Seq<RowModel>) -> bool {
    forall|i: int, j: int| 0 <= i < j < c.len() ==> c[i].key != c[j].key
}

/// A row present in a unique-keyed sequence is what the map returns for its
/// key.
proof fn lemma_config_map_at(c: Seq<RowModel>, i: int)
    requires
        rows_unique(c),
        0 <= i < c.len(),
    ensures
        config_map(c).contains_key(c[i].key),
        config_map(c)[c[i].key] == c[i],
{
    let k = c[i].key;
    assert(config_map(c).contains_key(k));
    let j = choose|j: int| 0 <= j < c.len() && c[j].key == k;
    if j < i {
        assert(c[j].key != c[i].key);
    } else if j > i {
        assert(c[i].key != c[j].key);
    }
}

/// A key on no row is not in the map.
proof fn lemma_config_map_absent(c: Seq<RowModel>, k: Seq<char>)
    requires
        forall|i: int| 0 <= i < c.len() ==> (#[trigger] c[i]).key != k,
    ensures
        !config_map(c).contains_key(k),
{
}

/// Replacing the row that holds a key updates the map at that key.
proof fn lemma_config_map_update(c: Seq<RowModel>, c2: Seq<RowModel>, i: int, r: RowModel)
    requires
        rows_unique(c),
        0 <= i < c.len(),
        c[i].key == r.key,
        c2 == c.update(i, r),
    ensures
        rows_unique(c2),
        config_map(c2) == config_map(c).insert(r.key, r),
{
    assert(rows_unique(c2));
    assert forall|k: Seq<char>| #[trigger]
        config_map(c2).contains_key(k) == config_map(c).insert(r.key, r).contains_key(k) by {
        if k == r.key {
            assert(c2[i].key == k);
        } else {
            if config_map(c2).contains_key(k) {
                let j = choose|j: int| 0 <= j < c2.len() && c2[j].key == k;
                assert(j != i);
                assert(c[j].key == k);
            }
            if config_map(c).contains_key(k) {
                let j = choose|j: int| 0 <= j < c.len() && c[j].key == k;
                assert(j != i);
                assert(c2[j].key == k);
            }
        }
    }
    assert forall|k: Seq<char>| config_map(c2).contains_key(k) implies #[trigger] config_map(c2)[k]
        == config_map(c).insert(r.key, r)[k] by {
        let j = choose|j: int| 0 <= j < c2.len() && c2[j].key == k;
        if k == r.key {
            assert(c2[i].key == k);
            assert(j == i);
        } else {
            assert(j != i);
            assert(c[j].key == k);
            let j2 = choose|j2: int| 0 <= j2 < c.len() && c[j2].key == k;
            assert(j2 == j);
        }
    }
    assert(config_map(c2) =~= config_map(c).insert(r.key, r));
}

/// Appending a row whose key no row holds inserts it into the map.
proof fn lemma_config_map_push(c: Seq<RowModel>, c2: Seq<RowModel>, r: RowModel)
    requires
        rows_unique(c),
        forall|i: int| 0 <= i < c.len() ==> (#[trigger] c[i]).key != r.key,
        c2 == c.push(r),
    ensures
        rows_unique(c2),
        config_map(c2) == config_map(c).insert(r.key, r),
{
    assert(rows_unique(c2));
    let n = c.len() as int;
    assert forall|k: Seq<char>| #[trigger]
        config_map(c2).contains_key(k) == config_map(c).insert(r.key, r).contains_key(k) by {
        if k == r.key {
            assert(c2[n].key == k);
        } else {
            if config_map(c2).contains_key(k) {
                let j = choose|j: int| 0 <= j < c2.len() && c2[j].key == k;
                assert(j != n);
                assert(c[j].key == k);
            }
            if config_map(c).contains_key(k) {
                let j = choose|j: int| 0 <= j < c.len() && c[j].key == k;
                assert(c2[j].key == k);
            }
        }
    }
    assert forall|k: Seq<char>| config_map(c2).contains_key(k) implies #[trigger] config_map(c2)[k]
        == config_map(c).insert(r.key, r)[k] by {
        let j = choose|j: int| 0 <= j < c2.len() && c2[j].key == k;
        if k == r.key {
            assert(j == n);
        } else {
            assert(j != n);
            assert(c[j].key == k);
            let j2 = choose|j2: int| 0 <= j2 < c.len() && c[j2].key == k;
            assert(j2 == j);
        }
    }
    assert(config_map(c2) =~= config_map(c).insert(r.key, r));
}

/// What writing one declared default does to a config map: inserts the
/// default under its key when the value has a default and the key is absent;
/// otherwise nothing.
pub open spec fn spec_default_step(
    cm: Map<Seq<char>, RowModel>,
    name: Seq<char>,
    v: ValueModel,
) -> Map<Seq<char>, RowModel> {
    match v.default {
        Some(d) => if cm.contains_key(v.key) {
            cm
        } else {
            cm.insert(v.key, RowModel { module: name, key: v.key, value: d })
        },
        None => cm,
    }
}

/// Writing a module's declared defaults, first to last: each default not
/// already present is inserted; present values and keys with no default stay
/// as they are.
pub open spec fn spec_apply_defaults(
    cm: Map<Seq<char>, RowModel>,
    name: Seq<char>,
    vals: Seq<ValueModel>,
) -> Map<Seq<char>, RowModel>
    decreases vals.len(),
{
    if vals.len() == 0 {
        cm
    } else {
        spec_apply_defaults(spec_default_step(cm, name, vals[0]), name, vals.skip(1))
    }
}

/// The store-level contract both ways of writing a module's defaults share:
/// a missing or unmigrated guild database is a `DatabaseError` and nothing
/// changes; otherwise only that guild's config rows change, exactly by
/// [`spec_apply_defaults`].
pub open spec fn defaults_contract(
    pre: Map<u64, DbModel>,
    post: Map<u64, DbModel>,
    r: Result<(), CommanderError>,
    g: u64,
    m: crate::modules::ModuleModel,
) -> bool {
    if !pre.contains_key(g) || pre[g].revision() < 2 {
        &&& r matches Err(CommanderError::DatabaseError(_))
        &&& post == pre
    } else {
        &&& r is Ok
        &&& post.dom() == pre.dom()
        &&& (forall|g2: u64| pre.dom().contains(g2) && g2 != g ==> post[g2] == pre[g2])
        &&& post[g].version == pre[g].version
        &&& post[g].tables == pre[g].tables
        &&& post[g].prefix == pre[g].prefix
        &&& post[g].restricted == pre[g].restricted
        &&& post[g].joinable == pre[g].joinable
        &&& config_map(post[g].config) == spec_apply_defaults(
            config_map(pre[g].config),
            m.name,
            m.config_values,
        )
    }
}

/// Whether guild bootstrap succeeds on this state: it does unless the
/// guild's database exists, lost its guild row, and stands below the base
/// schema, so the row cannot be written back.
pub open spec fn spec_encounter_ok(pre: Map<u64, DbModel>, g: u64) -> bool {
    !pre.contains_key(g) || pre[g].prefix is Some || pre[g].revision() >= 1
}

/// Whether guild bootstrap inserts the default-prefix guild row: exactly when
/// the row is absent.
pub open spec fn spec_encounter_inserts(pre: Map<u64, DbModel>, g: u64) -> bool {
    !pre.contains_key(g) || pre[g].prefix is None
}

/// The store state after guild bootstrap: unknown guilds get a freshly
/// migrated database with the default-prefix row; a known database without
/// its row gets the row back; everything else stays as it is.
pub open spec fn spec_encounter_dbs(pre: Map<u64, DbModel>, g: u64) -> Map<u64, DbModel> {
    if !pre.contains_key(g) {
        pre.insert(g, spec_new_guild_db())
    } else if pre[g].prefix is None && pre[g].revision() >= 1 {
        pre.insert(g, DbModel { prefix: Some(spec_default_prefix()), ..pre[g] })
    } else {
        pre
    }
}

/// Guild bootstrap is idempotent: when the first encounter succeeds it is the
/// only one that inserts — a second encounter changes nothing and reports
/// that the guild row already existed.
pub proof fn lemma_encounter_idempotent(pre: Map<u64, DbModel>, g: u64)
    requires
        spec_encounter_ok(pre, g),
    ensures
        spec_encounter_ok(spec_encounter_dbs(pre, g), g),
        !spec_encounter_inserts(spec_encounter_dbs(pre, g), g),
        spec_encounter_dbs(spec_encounter_dbs(pre, g), g) == spec_encounter_dbs(pre, g),
{
    let mid = spec_encounter_dbs(pre, g);
    assert(mid.contains_key(g));
    assert(mid[g].prefix is Some);
}

/// The guild config store: one modeled database file per encountered guild.
pub struct GuildConfigStore {
    entries: Vec<(u64, GuildDb)>,
}

impl GuildConfigStore {
    /// The abstract state: guild id to database model.
    pub closed spec fn dbs(self) -> Map<u64, DbModel> {
        Map::new(
            |g: u64| exists|i: int| 0 <= i < self.entries@.len() && self.entries@[i].0 == g,
            |g: u64|
                self.entries@[choose|i: int|
                    0 <= i < self.entries@.len() && self.entries@[i].0 == g].1@,
        )
    }

    /// Internal invariant: one file per guild, each well-formed with unique
    /// config keys.
    pub closed spec fn wf(self) -> bool {
        &&& forall|i: int, j: int|
            0 <= i < j < self.entries@.len() ==> self.entries@[i].0 != self.entries@[j].0
        &&& forall|i: int|
            0 <= i < self.entries@.len() ==> (#[trigger] self.entries@[i].1@).wf()
    }

    /// An empty store.
    pub fn new() -> (s: GuildConfigStore)
        ensures
            s.wf(),
            s.dbs() == Map::<u64, DbModel>::empty(),
    {
        let s = GuildConfigStore { entries: Vec::new() };
        proof {
            assert(s.dbs() =~= Map::<u64, DbModel>::empty());
        }
        s
    }

    /// The entry at a valid index is what `dbs` returns for its guild.
    proof fn lemma_at(self, i: int)
        requires
            self.wf(),
            0 <= i < self.entries@.len(),
        ensures
            self.dbs().contains_key(self.entries@[i].0),
            self.dbs()[self.entries@[i].0] == self.entries@[i].1@,
    {
        let g = self.entries@[i].0;
        assert(self.dbs().contains_key(g));
        let j = choose|j: int| 0 <= j < self.entries@.len() && self.entries@[j].0 == g;
        if j < i {
            assert(self.entries@[j].0 != self.entries@[i].0);
        } else if j > i {
            assert(self.entries@[i].0 != self.entries@[j].0);
        }
    }

    /// Finds the entry of a guild.
    fn find_entry(&self, g: u64) -> (r: Option<usize>)
        requires
            self.wf(),
        ensures
            match r {
                Some(i) => {
                    &&& i < self.entries@.len()
                    &&& self.entries@[i as int].0 == g
                    &&& self.dbs().contains_key(g)
                    &&& self.dbs()[g] == self.entries@[i as int].1@
                },
                None => !self.dbs().contains_key(g),
            },
    {
        let mut i: usize = 0;
        while i < self.entries.len()
            invariant
                self.wf(),
                0 <= i <= self.entries@.len(),
                forall|j: int| 0 <= j < i ==> (#[trigger] self.entries@[j]).0 != g,
            decreases self.entries@.len() - i,
        {
            if self.entries[i].0 == g {
                proof {
                    self.lemma_at(i as int);
                }
                return Some(i);
            }
            i = i + 1;
        }
        None
    }

    /// A pushed entry for a new guild inserts its model into `dbs`.
    proof fn lemma_dbs_push(pre: GuildConfigStore, post: GuildConfigStore, g: u64, db: DbModel)
        requires
            pre.wf(),
            db.wf(),
            !pre.dbs().contains_key(g),
            post.entries@.len() == pre.entries@.len() + 1,
            forall|j: int| 0 <= j < pre.entries@.len() ==> post.entries@[j] == pre.entries@[j],
            post.entries@[pre.entries@.len() as int].0 == g,
            post.entries@[pre.entries@.len() as int].1@ == db,
        ensures
            post.wf(),
            post.dbs() == pre.dbs().insert(g, db),
    {
        let n = pre.entries@.len() as int;
        assert forall|i: int, j: int|
            0 <= i < j < post.entries@.len() implies post.entries@[i].0 != post.entries@[j].0 by {
            if j == n {
                pre.lemma_at(i);
            }
        }
        assert forall|k: u64| #[trigger]
            post.dbs().contains_key(k) == pre.dbs().insert(g, db).contains_key(k) by {
            if k != g && post.dbs().contains_key(k) {
                let j = choose|j: int|
                    0 <= j < post.entries@.len() && post.entries@[j].0 == k;
                assert(j != n);
                assert(pre.entries@[j].0 == k);
            }
        }
        assert forall|k: u64| post.dbs().contains_key(k) implies #[trigger] post.dbs()[k]
            == pre.dbs().insert(g, db)[k] by {
            let j = choose|j: int| 0 <= j < post.entries@.len() && post.entries@[j].0 == k;
            if k == g {
                if j != n {
                    assert(pre.entries@[j].0 == g);
                    pre.lemma_at(j);
                }
            } else {
                assert(j != n);
                assert(pre.entries@[j].0 == k);
                let j2 = choose|j2: int|
                    0 <= j2 < pre.entries@.len() && pre.entries@[j2].0 == k;
                if j2 < j {
                    assert(pre.entries@[j2].0 != pre.entries@[j].0);
                } else if j2 > j {
                    assert(pre.entries@[j].0 != pre.entries@[j2].0);
                }
            }
        }
        assert(post.dbs() =~= pre.dbs().insert(g, db));
    }

    /// An in-place replacement of one guild's database updates `dbs` at that
    /// guild alone.
    proof fn lemma_dbs_update(pre: GuildConfigStore, post: GuildConfigStore, i: int, db: DbModel)
        requires
            pre.wf(),
            db.wf(),
            0 <= i < pre.entries@.len(),
            post.entries@.len() == pre.entries@.len(),
            forall|j: int|
                0 <= j < pre.entries@.len() && j != i ==> post.entries@[j] == pre.entries@[j],
            post.entries@[i].0 == pre.entries@[i].0,
            post.entries@[i].1@ == db,
        ensures
            post.wf(),
            post.dbs() == pre.dbs().insert(pre.entries@[i].0, db),
    {
        let g = pre.entries@[i].0;
        assert forall|a: int, b: int|
            0 <= a < b < post.entries@.len() implies post.entries@[a].0 != post.entries@[b].0 by {
            assert(pre.entries@[a].0 != pre.entries@[b].0);
        }
        assert forall|k: u64| #[trigger]
            post.dbs().contains_key(k) == pre.dbs().insert(g, db).contains_key(k) by {
            if post.dbs().contains_key(k) {
                let j = choose|j: int|
                    0 <= j < post.entries@.len() && post.entries@[j].0 == k;
                assert(pre.entries@[j].0 == k);
            }
            if pre.dbs().insert(g, db).contains_key(k) {
                if k == g {
                    assert(post.entries@[i].0 == k);
                } else {
                    let j = choose|j: int|
                        0 <= j < pre.entries@.len() && pre.entries@[j].0 == k;
                    assert(j != i);
                    assert(post.entries@[j].0 == k);
                }
            }
        }
        assert forall|k: u64| post.dbs().contains_key(k) implies #[trigger] post.dbs()[k]
            == pre.dbs().insert(g, db)[k] by {
            let j = choose|j: int| 0 <= j < post.entries@.len() && post.entries@[j].0 == k;
            if k == g {
                if j != i {
                    assert(pre.entries@[j].0 != pre.entries@[i].0);
                }
            } else {
                assert(j != i);
                assert(pre.entries@[j].0 == k);
                pre.lemma_at(j);
                let j2 = choose|j2: int|
                    0 <= j2 < pre.entries@.len() && pre.entries@[j2].0 == k;
                if j2 < j {
                    assert(pre.entries@[j2].0 != pre.entries@[j].0);
                } else if j2 > j {
                    assert(pre.entries@[j].0 != pre.entries@[j2].0);
                }
            }
        }
        assert(post.dbs() =~= pre.dbs().insert(g, db));
    }

    /// Guild bootstrap. Idempotent: inserts a default-prefix guild row only
    /// if absent — creating and migrating the guild's database file when the
    /// guild was never seen — and reports whether it newly created the row.
    /// A database that exists but was downgraded below its base schema cannot
    /// take the row and is a `DatabaseError`.
    pub fn encounter(&mut self, g: u64) -> (r: Result<bool, CommanderError>)
        requires
            old(self).wf(),
        ensures
            final(self).wf(),
            final(self).dbs() == spec_encounter_dbs(old(self).dbs(), g),
            ({
                let pre = old(self).dbs();
                if spec_encounter_ok(pre, g) {
                    r == Ok::<bool, CommanderError>(spec_encounter_inserts(pre, g))
                } else {
                    r matches Err(CommanderError::DatabaseError(m)) && m@
                        == "guild database not initialized"@
                }
            }),
    {
        match self.find_entry(g) {
            None => {
                let mut db = fresh_db();
                let res = upgrade(&mut db, None);
                proof {
                    crate::migrate::lemma_run_up_wf(spec_fresh(), 1, LATEST_REVISION as int);
                }
                db.prefix = Some(String::from_str("!"));
                proof {
                    crate::codec::lemma_version_round_trip(
                        DatabaseVersion { revision: LATEST_REVISION, initialized: true },
                        0,
                    );
                    assert(db@ =~= spec_new_guild_db());
                    assert(db@.wf());
                }
                self.entries.push((g, db));
                proof {
                    GuildConfigStore::lemma_dbs_push(*old(self), *self, g, spec_new_guild_db());
                }
                Ok(true)
            },
            Some(i) => {
                if self.entries[i].1.prefix.is_some() {
                    return Ok(false);
                }
                let ver = DatabaseVersion::decode(self.entries[i].1.version);
                if ver.revision >= 1 {
                    let ghost predb = self.entries@[i as int].1@;
                    self.entries[i].1.prefix = Some(String::from_str("!"));
                    proof {
                        assert(self.entries@[i as int].1@ =~= (DbModel {
                            prefix: Some(spec_default_prefix()),
                            ..predb
                        }));
                        GuildConfigStore::lemma_dbs_update(
                            *old(self),
                            *self,
                            i as int,
                            DbModel { prefix: Some(spec_default_prefix()), ..predb },
                        );
                    }
                    Ok(true)
                } else {
                    Err(
                        CommanderError::DatabaseError(
                            String::from_str("guild database not initialized"),
                        ),
                    )
                }
            },
        }
    }

    /// Pure read of a guild's config value: the value under the key, or
    /// nothing when the guild or the key is unknown — absence is a state of
    /// its own, never defaulted here.
    pub fn get(&self, g: u64, key: &str) -> (r: Option<String>)
        requires
            self.wf(),
        ensures
            match r {
                Some(v) => {
                    &&& self.dbs().contains_key(g)
                    &&& config_map(self.dbs()[g].config).contains_key(key@)
                    &&& v@ == config_map(self.dbs()[g].config)[key@].value
                },
                None => !self.dbs().contains_key(g) || !config_map(
                    self.dbs()[g].config,
                ).contains_key(key@),
            },
    {
        let i = match self.find_entry(g) {
            Some(i) => i,
            None => {
                return None;
            },
        };
        let db = &self.entries[i].1;
        let mut j: usize = 0;
        while j < db.config.len()
            invariant
                self.wf(),
                i < self.entries@.len(),
                db == &self.entries@[i as int].1,
                self.dbs().contains_key(g),
                self.dbs()[g] == db@,
                0 <= j <= db.config@.len(),
                forall|jj: int| 0 <= jj < j ==> (#[trigger] db.config@[jj])@.key != key@,
        decreases db.config@.len() - j,
        {
            if crate::text::str_eq(db.config[j].key.as_str(), key) {
                proof {
                    lemma_config_map_at(db@.config, j as int);
                }
                return Some(db.config[j].value.clone());
            }
            j = j + 1;
        }
        proof {
            lemma_config_map_absent(db@.config, key@);
        }
        None
    }

    /// Pure read of a guild's command prefix: the guild row's prefix, or
    /// nothing when the guild is unknown or its row is absent.
    pub fn get_prefix(&self, g: u64) -> (r: Option<String>)
        requires
            self.wf(),
        ensures
            match r {
                Some(p) => {
                    &&& self.dbs().contains_key(g)
                    &&& self.dbs()[g].prefix == Some(p@)
                },
                None => !self.dbs().contains_key(g) || self.dbs()[g].prefix is None,
            },
    {
        match self.find_entry(g) {
            Some(i) => match &self.entries[i].1.prefix {
                Some(p) => Some(p.clone()),
                None => None,
            },
            None => None,
        }
    }

    /// Is the named command in the guild's restricted-command set? Restricted
    /// commands need the admin role exactly as sensitive ones do.
    pub fn is_restricted(&self, g: u64, name: &str) -> (r: bool)
        requires
            self.wf(),
        ensures
            r == (self.dbs().contains_key(g) && self.dbs()[g].restricted.contains(name@)),
    {
        let i = match self.find_entry(g) {
            Some(i) => i,
            None => {
                return false;
            },
        };
        let db = &self.entries[i].1;
        let mut j: usize = 0;
        while j < db.restricted.len()
            invariant
                self.wf(),
                i < self.entries@.len(),
                db == &self.entries@[i as int].1,
                self.dbs().contains_key(g),
                self.dbs()[g] == db@,
                0 <= j <= db.restricted@.len(),
                forall|jj: int| 0 <= jj < j ==> (#[trigger] db.restricted@[jj])@ != name@,
            decreases db.restricted@.len() - j,
        {
            if crate::text::str_eq(db.restricted[j].as_str(), name) {
                proof {
                    assert(db@.restricted[j as int] == name@);
                }
                return true;
            }
            j = j + 1;
        }
        proof {
            assert forall|jj: int| 0 <= jj < db@.restricted.len() implies db@.restricted[jj]
                != name@ by {
                assert(db.restricted@[jj]@ != name@);
            }
        }
        false
    }

    /// Replaces or inserts one config row. The caller has checked that the
    /// guild's database holds the module_config table.
    fn upsert_row(&mut self, i: usize, module_name: &str, key: &str, value: String)
        requires
            old(self).wf(),
            i < old(self).entries@.len(),
            old(self).entries@[i as int].1@.revision() >= 2,
        ensures
            final(self).wf(),
            final(self).dbs() == old(self).dbs().insert(
                old(self).entries@[i as int].0,
                final(self).entries@[i as int].1@,
            ),
            final(self).entries@.len() == old(self).entries@.len(),
            forall|x: int|
                0 <= x < old(self).entries@.len() && x != i ==> final(self).entries@[x] == old(
                    self,
                ).entries@[x],
            final(self).entries@[i as int].0 == old(self).entries@[i as int].0,
            ({
                let pre = old(self).entries@[i as int].1@;
                let post = final(self).entries@[i as int].1@;
                &&& post.version == pre.version
                &&& post.tables == pre.tables
                &&& post.prefix == pre.prefix
                &&& post.restricted == pre.restricted
                &&& post.joinable == pre.joinable
                &&& config_map(post.config) == config_map(pre.config).insert(
                    key@,
                    RowModel { module: module_name@, key: key@, value: value@ },
                )
            }),
    {
        let ghost pre = self.entries@[i as int].1@;
        let ghost row = RowModel { module: module_name@, key: key@, value: value@ };
        proof {
            self.lemma_at(i as int);
        }
        let n = self.entries[i].1.config.len();
        let mut j: usize = 0;
        while j < n
            invariant
                *self == *old(self),
                self.wf(),
                i < self.entries@.len(),
                self.entries@[i as int].1@.revision() >= 2,
                pre == self.entries@[i as int].1@,
                row == (RowModel { module: module_name@, key: key@, value: value@ }),
                n == self.entries@[i as int].1.config@.len(),
                0 <= j <= n,
                forall|jj: int|
                    0 <= jj < j ==> (#[trigger] self.entries@[i as int].1.config@[jj])@.key != key@,
            decreases n - j,
        {
            if crate::text::str_eq(self.entries[i].1.config[j].key.as_str(), key) {
                let new_row = ConfigRow {
                    module: String::from_str(module_name),
                    key: String::from_str(key),
                    value,
                };
                self.entries[i].1.config[j] = new_row;
                proof {
                    let c = pre.config;
                    let c2 = self.entries@[i as int].1@.config;
                    assert(c2 =~= c.update(j as int, row));
                    lemma_config_map_update(c, c2, j as int, row);
                    assert(self.entries@[i as int].1@.wf());
                    GuildConfigStore::lemma_dbs_update(
                        *old(self),
                        *self,
                        i as int,
                        self.entries@[i as int].1@,
                    );
                }
                return;
            }
            j = j + 1;
        }
        let new_row = ConfigRow {
            module: String::from_str(module_name),
            key: String::from_str(key),
            value,
        };
        self.entries[i].1.config.push(new_row);
        proof {
            let c = pre.config;
            let c2 = self.entries@[i as int].1@.config;
            assert(c2 =~= c.push(row));
            lemma_config_map_push(c, c2, row);
            assert(self.entries@[i as int].1@.wf());
            GuildConfigStore::lemma_dbs_update(
                *old(self),
                *self,
                i as int,
                self.entries@[i as int].1@,
            );
        }
    }

    /// Writes one config value under the guild's writer handle: the value is
    /// validated against the owning module's declared validator before
    /// anything is written; a failing value is a `ValidationError`, a missing
    /// or unmigrated guild database a `DatabaseError`. On success exactly the
    /// one row changes.
    pub fn set(&mut self, g: u64, module_name: &str, value_spec: &Value, value: String) -> (r:
        Result<(), CommanderError>)
        requires
            old(self).wf(),
        ensures
            final(self).wf(),
            ({
                let pre = old(self).dbs();
                let post = final(self).dbs();
                if !crate::config::spec_validates(value_spec@.validator, value@) {
                    &&& (r matches Err(CommanderError::ValidationError { value: v, constraint: c })
                        && v@ == value@ && c@ == value_spec@.key)
                    &&& post == pre
                } else if !pre.contains_key(g) || pre[g].revision() < 2 {
                    &&& r matches Err(CommanderError::DatabaseError(_))
                    &&& post == pre
                } else {
                    &&& r is Ok
                    &&& post.dom() == pre.dom()
                    &&& (forall|g2: u64| pre.dom().contains(g2) && g2 != g ==> post[g2] == pre[g2])
                    &&& post[g].version == pre[g].version
                    &&& post[g].tables == pre[g].tables
                    &&& post[g].prefix == pre[g].prefix
                    &&& post[g].restricted == pre[g].restricted
                    &&& post[g].joinable == pre[g].joinable
                    &&& config_map(post[g].config) == config_map(pre[g].config).insert(
                        value_spec@.key,
                        RowModel { module: module_name@, key: value_spec@.key, value: value@ },
                    )
                }
            }),
    {
        if !crate::config::validate(&value_spec.validator, value.as_str()) {
            return Err(
                CommanderError::ValidationError {
                    value,
                    constraint: value_spec.key.clone(),
                },
            );
        }
        let i = match self.find_entry(g) {
            Some(i) => i,
            None => {
                return Err(
                    CommanderError::DatabaseError(String::from_str("no such guild database")),
                );
            },
        };
        let ver = DatabaseVersion::decode(self.entries[i].1.version);
        if ver.revision < 2 {
            return Err(
                CommanderError::DatabaseError(String::from_str("module_config table missing")),
            );
        }
        self.upsert_row(i, module_name, value_spec.key.as_str(), value);
        proof {
            assert(final(self).dbs().dom() =~= old(self).dbs().dom());
        }
        Ok(())
    }

    /// Writes each of the module's declared defaults that is not already
    /// present; values already set and keys with no default stay untouched.
    pub fn ensure_module_defaults(&mut self, g: u64, module: &Module) -> (r: Result<
        (),
        CommanderError,
    >)
        requires
            old(self).wf(),
        ensures
            final(self).wf(),
            defaults_contract(old(self).dbs(), final(self).dbs(), r, g, module@),
    {
        let i = match self.find_entry(g) {
            Some(i) => i,
            None => {
                return Err(
                    CommanderError::DatabaseError(String::from_str("no such guild database")),
                );
            },
        };
        let ver = DatabaseVersion::decode(self.entries[i].1.version);
        if ver.revision < 2 {
            return Err(
                CommanderError::DatabaseError(String::from_str("module_config table missing")),
            );
        }
        let ghost pre_dbs = old(self).dbs();
        let ghost name = module@.name;
        let ghost vals = module@.config_values;
        let ghost cm0 = config_map(old(self).dbs()[g].config);
        let nvals = module.config_values.len();
        proof {
            assert(vals.skip(0) =~= vals);
        }
        let mut j: usize = 0;
        while j < nvals
            invariant
                self.wf(),
                i < self.entries@.len(),
                self.entries@[i as int].0 == g,
                self.entries@[i as int].1@.revision() >= 2,
                nvals == vals.len(),
                vals == module@.config_values,
                name == module@.name,
                0 <= j <= nvals,
                pre_dbs == old(self).dbs(),
                pre_dbs.contains_key(g),
                cm0 == config_map(pre_dbs[g].config),
                self.dbs().dom() == pre_dbs.dom(),
                forall|g2: u64| pre_dbs.dom().contains(g2) && g2 != g ==> self.dbs()[g2]
                    == pre_dbs[g2],
                self.dbs()[g].version == pre_dbs[g].version,
                self.dbs()[g].tables == pre_dbs[g].tables,
                self.dbs()[g].prefix == pre_dbs[g].prefix,
                self.dbs()[g].restricted == pre_dbs[g].restricted,
                self.dbs()[g].joinable == pre_dbs[g].joinable,
                spec_apply_defaults(cm0, name, vals) == spec_apply_defaults(
                    config_map(self.dbs()[g].config),
                    name,
                    vals.skip(j as int),
                ),
            decreases nvals - j,
        {
            proof {
                self.lemma_at(i as int);
                assert(vals[j as int] == module.config_values@[j as int]@);
            }
            let has_default = module.config_values[j].default.is_some();
            if has_default {
                let key_present = {
                    let db = &self.entries[i].1;
                    let mut jj: usize = 0;
                    let mut found = false;
                    while jj < db.config.len() && !found
                        invariant
                            i < self.entries@.len(),
                            db == &self.entries@[i as int].1,
                            0 <= jj <= db.config@.len(),
                            found ==> config_map(db@.config).contains_key(
                                module@.config_values[j as int].key,
                            ),
                            !found ==> forall|x: int|
                                0 <= x < jj ==> (#[trigger] db.config@[x])@.key
                                    != module@.config_values[j as int].key,
                            self.wf(),
                            vals == module@.config_values,
                            0 <= (j as int) < vals.len(),
                        decreases db.config@.len() - jj + (if found {
                            0int
                        } else {
                            1int
                        }),
                    {
                        if crate::text::str_eq(
                            db.config[jj].key.as_str(),
                            module.config_values[j].key.as_str(),
                        ) {
                            proof {
                                lemma_config_map_at(db@.config, jj as int);
                            }
                            found = true;
                        } else {
                            jj = jj + 1;
                        }
                    }
                    proof {
                        if !found {
                            lemma_config_map_absent(
                                db@.config,
                                module@.config_values[j as int].key,
                            );
                        }
                    }
                    found
                };
                if !key_present {
                    let d = match &module.config_values[j].default {
                        Some(d) => d.clone(),
                        None => String::new(),
                    };
                    let ghost before = config_map(self.dbs()[g].config);
                    let ghost snapshot = *self;
                    self.upsert_row(
                        i,
                        module.name.as_str(),
                        module.config_values[j].key.as_str(),
                        d,
                    );
                    proof {
                        assert(self.dbs().dom() =~= snapshot.dbs().dom());
                        assert(config_map(self.dbs()[g].config) == spec_default_step(
                            before,
                            name,
                            vals[j as int],
                        ));
                    }
                }
            }
            proof {
                assert(vals.skip(j as int)[0] == vals[j as int]);
                assert(vals.skip(j as int).skip(1) =~= vals.skip(j as int + 1));
            }
            j = j + 1;
        }
        proof {
            assert(vals.skip(nvals as int).len() == 0);
        }
        Ok(())
    }
}

impl Module {
    /// Writes this module's declared config defaults for the guild, as guild
    /// bootstrap does for every registered module.
    pub fn write_default_config(&self, store: &mut GuildConfigStore, g: u64) -> (r: Result<
        (),
        CommanderError,
    >)
        requires
            old(store).wf(),
        ensures
            final(store).wf(),
            defaults_contract(old(store).dbs(), final(store).dbs(), r, g, self@),
    {
        store.ensure_module_defaults(g, self)
    }
}

} // verus!
