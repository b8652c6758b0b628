use vstd::prelude::*;
use crate::active::{same_name, ActiveMigrations};
use crate::definition::InnerMigration;
use crate::metadata::{Metadata, DEFAULT_BLOCK_HEIGHT};
use crate::migration::Migration;
use crate::status::Status;

verus! {

/// One record of a configuration document: the name of a migration and the
/// settings to activate it with.
pub struct ConfigRecord {
    pub name: String,
    pub metadata: Metadata,
}

impl ConfigRecord {
    pub fn new(name: &str, metadata: Metadata) -> (r: Self)
        ensures
            r.name@ == name@,
            r.metadata == metadata,
    {
        ConfigRecord { name: name.to_owned(), metadata }
    }
}

/// Why a configuration could not be loaded.
#[derive(Debug)]
pub enum LoadError {
    /// The document is not a well-formed list of records.
    ConfigParseError(String),
    /// A record names a migration that the registry does not hold.
    UnsupportedMigrationType(String),
}

/// The index of the last definition named `name`, or -1.
pub open spec fn last_def<R, X>(reg: Seq<InnerMigration<R, X>>, name: Seq<char>) -> int
    decreases reg.len(),
{
    if reg.len() == 0 {
        -1
    } else if reg.last().name@ == name {
        reg.len() - 1
    } else {
        last_def(reg.drop_last(), name)
    }
}

/// The index of the last record naming `name`, or -1.
pub open spec fn last_record(cfg: Seq<ConfigRecord>, name: Seq<char>) -> int
    decreases cfg.len(),
{
    if cfg.len() == 0 {
        -1
    } else if cfg.last().name@ == name {
        cfg.len() - 1
    } else {
        last_record(cfg.drop_last(), name)
    }
}

pub proof fn lemma_last_def_bounds<R, X>(reg: Seq<InnerMigration<R, X>>, name: Seq<char>)
    ensures
        -1 <= last_def(reg, name) < reg.len(),
        last_def(reg, name) >= 0 ==> reg[last_def(reg, name)].name@ == name,
        last_def(reg, name) < 0 ==> forall|i: int| 0 <= i < reg.len() ==> reg[i].name@ != name,
    decreases reg.len(),
{
    if reg.len() > 0 {
        lemma_last_def_bounds(reg.drop_last(), name);
        if last_def(reg, name) < 0 {
            assert forall|i: int| 0 <= i < reg.len() implies #[trigger] reg[i].name@ != name by {
                if i < reg.len() - 1 {
                    assert(reg[i] == reg.drop_last()[i]);
                }
            }
        }
    }
}

pub proof fn lemma_last_record_bounds(cfg: Seq<ConfigRecord>, name: Seq<char>)
    ensures
        -1 <= last_record(cfg, name) < cfg.len(),
        last_record(cfg, name) >= 0 ==> cfg[last_record(cfg, name)].name@ == name,
        last_record(cfg, name) < 0 ==> forall|i: int| 0 <= i < cfg.len() ==> cfg[i].name@ != name,
    decreases cfg.len(),
{
    if cfg.len() > 0 {
        lemma_last_record_bounds(cfg.drop_last(), name);
        if last_record(cfg, name) < 0 {
            assert forall|i: int| 0 <= i < cfg.len() implies #[trigger] cfg[i].name@ != name by {
                if i < cfg.len() - 1 {
                    assert(cfg[i] == cfg.drop_last()[i]);
                }
            }
        }
    }
}

proof fn lemma_last_def_step<R, X>(reg: Seq<InnerMigration<R, X>>, k: int)
    requires
        0 <= k < reg.len(),
    ensures
        forall|n: Seq<char>| #[trigger] last_def(reg.take(k + 1), n)
            == if reg[k].name@ == n { k } else { last_def(reg.take(k), n) },
{
    assert(reg.take(k + 1).drop_last() =~= reg.take(k));
}

proof fn lemma_last_record_step(cfg: Seq<ConfigRecord>, k: int)
    requires
        0 <= k < cfg.len(),
    ensures
        forall|n: Seq<char>| #[trigger] last_record(cfg.take(k + 1), n)
            == if cfg[k].name@ == n { k } else { last_record(cfg.take(k), n) },
{
    assert(cfg.take(k + 1).drop_last() =~= cfg.take(k));
}

/// The index of the last definition of the registry with the given name.
fn find_definition<R, X>(registry: &[InnerMigration<R, X>], name: &str) -> (r: Option<usize>)
    ensures
        r matches Some(d) ==> d as int == last_def(registry@, name@) && d < registry@.len(),
        r is None <==> last_def(registry@, name@) < 0,
{
    let mut found: Option<usize> = None;
    let mut i: usize = 0;
    proof {
        assert(registry@.take(0).len() == 0);
    }
    while i < registry.len()
        invariant
            i <= registry@.len(),
            found matches Some(d) ==> d as int == last_def(registry@.take(i as int), name@),
            found is None ==> last_def(registry@.take(i as int), name@) == -1,
        decreases registry@.len() - i,
    {
        proof {
            lemma_last_def_step(registry@, i as int);
        }
        if same_name(registry[i].name.as_str(), name) {
            found = Some(i);
        }
        i = i + 1;
    }
    proof {
        assert(registry@.take(i as int) =~= registry@);
        lemma_last_def_bounds(registry@, name@);
    }
    found
}

/// No two definitions share a name.
pub open spec fn unique_names<R, X>(reg: Seq<InnerMigration<R, X>>) -> bool {
    forall|i: int, j: int| 0 <= i < j < reg.len() ==> #[trigger] reg[i].name@ != #[trigger] reg[j].name@
}

/// Adds a definition to a registry, refusing one whose name is already
/// registered; returns whether it was added.
pub fn register<R, X>(registry: &mut Vec<InnerMigration<R, X>>, definition: InnerMigration<R, X>) -> (added: bool)
    ensures
        added == (last_def(old(registry)@, definition.name@) < 0),
        added ==> final(registry)@ == old(registry)@.push(definition),
        !added ==> final(registry)@ == old(registry)@,
        unique_names(old(registry)@) ==> unique_names(final(registry)@),
{
    let found = find_definition(registry.as_slice(), definition.name.as_str());
    match found {
        Some(_) => false,
        None => {
            proof {
                lemma_last_def_bounds(registry@, definition.name@);
            }
            registry.push(definition);
            true
        },
    }
}

/// Every entry of `s` is the last record of `cfg` for its name, enabled, with
/// the registry's definition of that name; and every name of `cfg` has an entry.
pub open spec fn resolves<R, X>(
    s: ActiveMigrations<R, X>,
    reg: Seq<InnerMigration<R, X>>,
    cfg: Seq<ConfigRecord>,
) -> bool {
    &&& forall|n: Seq<char>| #[trigger] s.contains(n) <==> last_record(cfg, n) >= 0
    &&& forall|i: int|
        0 <= i < s.entries@.len() ==> {
            let e = #[trigger] s.entries@[i];
            let k = last_record(cfg, e.migration.name@);
            let d = last_def(reg, e.migration.name@);
            &&& 0 <= k < cfg.len()
            &&& 0 <= d < reg.len()
            &&& e.metadata == cfg[k].metadata
            &&& e.status == Status::Enabled
            &&& *e.migration == reg[d]
        }
}

/// Whether every record of `cfg` names a definition of `reg`.
pub open spec fn all_supported<R, X>(reg: Seq<InnerMigration<R, X>>, cfg: Seq<ConfigRecord>) -> bool {
    forall|k: int| 0 <= k < cfg.len() ==> last_def(reg, #[trigger] cfg[k].name@) >= 0
}

/// Resolves the records of a configuration against the registry. Each record
/// enables the registry's migration of its name with the record's metadata; a
/// later record for a name replaces an earlier one. A record whose name the
/// registry lacks fails the whole load.
pub fn load_migrations<'a, R, X>(
    registry: &'a [InnerMigration<R, X>],
    config: &[ConfigRecord],
) -> (r: Result<ActiveMigrations<'a, R, X>, LoadError>)
    requires
        unique_names(registry@),
    ensures
        r is Ok <==> all_supported(registry@, config@),
        r matches Ok(s) ==> s.wf() && resolves(s, registry@, config@),
        r matches Err(e) ==> exists|k: int|
            0 <= k < config@.len() && last_def(registry@, config@[k].name@) < 0
                && all_supported(registry@, config@.take(k))
                && e == LoadError::UnsupportedMigrationType(config@[k].name),
{
    // The registry sorted by name, so that each lookup is a binary search.
    let index = load_enable_all_regular_migrations(registry);
    let mut set: ActiveMigrations<'a, R, X> = ActiveMigrations::new();
    let mut k: usize = 0;
    proof {
        assert(config@.take(0).len() == 0);
    }
    while k < config.len()
        invariant
            k <= config@.len(),
            index.wf(),
            forall|n: Seq<char>| #[trigger] index.contains(n) <==> last_def(registry@, n) >= 0,
            forall|i: int|
                0 <= i < index.entries@.len() ==> {
                    let e = #[trigger] index.entries@[i];
                    let d = last_def(registry@, e.migration.name@);
                    &&& 0 <= d < registry@.len()
                    &&& *e.migration == registry@[d]
                },
            set.wf(),
            all_supported(registry@, config@.take(k as int)),
            resolves(set, registry@, config@.take(k as int)),
        decreases config@.len() - k,
    {
        let rec = &config[k];
        match index.position(rec.name.as_str()) {
            None => {
                return Err(LoadError::UnsupportedMigrationType(rec.name.clone()));
            },
            Some(p) => {
                let ghost before = set;
                let ghost prefix = config@.take(k as int);
                let ghost next = config@.take(k + 1);
                let def: &'a InnerMigration<R, X> = index.entries[p].migration;
                set.upsert(Migration::new(def, rec.metadata.clone(), Status::Enabled));
                proof {
                    lemma_last_record_step(config@, k as int);
                    lemma_last_def_bounds(registry@, rec.name@);
                    assert forall|j: int| 0 <= j < next.len() implies last_def(registry@, #[trigger] next[j].name@) >= 0 by {
                        if j < k {
                            assert(next[j] == prefix[j]);
                        }
                    }
                    assert forall|i: int| 0 <= i < set.entries@.len() implies {
                        let e = #[trigger] set.entries@[i];
                        let kk = last_record(next, e.migration.name@);
                        let dd = last_def(registry@, e.migration.name@);
                        &&& 0 <= kk < next.len()
                        &&& 0 <= dd < registry@.len()
                        &&& e.metadata == next[kk].metadata
                        &&& e.status == Status::Enabled
                        &&& *e.migration == registry@[dd]
                    } by {
                        let e = set.entries@[i];
                        if e.migration.name@ != rec.name@ {
                            let j = choose|j: int| 0 <= j < before.entries@.len() && before.entries@[j] == set.entries@[i];
                            assert(before.entries@[j] == e);
                            lemma_last_record_bounds(prefix, e.migration.name@);
                        }
                    }
                }
            },
        }
        k = k + 1;
    }
    proof {
        assert(config@.take(k as int) =~= config@);
    }
    Ok(set)
}

/// Activates every definition of the registry with default metadata: regular
/// migrations enabled, hotfix migrations disabled.
pub fn load_enable_all_regular_migrations<'a, R, X>(
    registry: &'a [InnerMigration<R, X>],
) -> (r: ActiveMigrations<'a, R, X>)
    requires
        unique_names(registry@),
    ensures
        r.wf(),
        forall|n: Seq<char>| #[trigger] r.contains(n) <==> last_def(registry@, n) >= 0,
        forall|i: int|
            0 <= i < r.entries@.len() ==> {
                let e = #[trigger] r.entries@[i];
                let d = last_def(registry@, e.migration.name@);
                &&& 0 <= d < registry@.len()
                &&& *e.migration == registry@[d]
                &&& e.metadata.block_height == DEFAULT_BLOCK_HEIGHT
                &&& e.metadata.issue is None
                &&& e.status == if e.migration.is_hotfix() { Status::Disabled } else { Status::Enabled }
            },
{
    let mut set: ActiveMigrations<'a, R, X> = ActiveMigrations::new();
    let mut i: usize = 0;
    while i < registry.len()
        invariant
            i <= registry@.len(),
            set.wf(),
            forall|n: Seq<char>| #[trigger] set.contains(n) <==> last_def(registry@.take(i as int), n) >= 0,
            forall|j: int|
                0 <= j < set.entries@.len() ==> {
                    let e = #[trigger] set.entries@[j];
                    let d = last_def(registry@.take(i as int), e.migration.name@);
                    &&& 0 <= d < i
                    &&& *e.migration == registry@[d]
                    &&& e.metadata.block_height == DEFAULT_BLOCK_HEIGHT
                    &&& e.metadata.issue is None
                    &&& e.status == if e.migration.is_hotfix() { Status::Disabled } else { Status::Enabled }
                },
        decreases registry@.len() - i,
    {
        let def: &'a InnerMigration<R, X> = &registry[i];
        let status = match def.kind() {
            crate::definition::MigrationType::Regular(_) => Status::Enabled,
            crate::definition::MigrationType::Hotfix(_) => Status::Disabled,
        };
        let ghost before = set;
        set.upsert(Migration::new(def, Metadata::default(), status));
        proof {
            lemma_last_def_step(registry@, i as int);
            assert forall|j: int| 0 <= j < set.entries@.len() implies {
                let e = #[trigger] set.entries@[j];
                let d = last_def(registry@.take(i + 1), e.migration.name@);
                &&& 0 <= d < i + 1
                &&& *e.migration == registry@[d]
                &&& e.metadata.block_height == DEFAULT_BLOCK_HEIGHT
                &&& e.metadata.issue is None
                &&& e.status == if e.migration.is_hotfix() { Status::Disabled } else { Status::Enabled }
            } by {
                let e = set.entries@[j];
                if e.migration.name@ != def.name@ {
                    let jj = choose|jj: int| 0 <= jj < before.entries@.len() && before.entries@[jj] == set.entries@[j];
                    assert(before.entries@[jj] == e);
                }
            }
        }
        i = i + 1;
    }
    proof {
        assert(registry@.take(i as int) =~= registry@);
        assert forall|j: int| 0 <= j < set.entries@.len() implies 0 <= last_def(registry@, (#[trigger] set.entries@[j]).migration.name@) < registry@.len() by {
            lemma_last_def_bounds(registry@, set.entries@[j].migration.name@);
        }
    }
    set
}

} // verus!
