use vstd::prelude::*;
use crate::active::{
    initialized_names, lemma_sorted_names_distinct, names_where, sorted_by_name, updated_names,
    ActiveMigrations,
};
use crate::definition::InnerMigration;
use crate::migration::Migration;
use crate::resolve::{last_record, lemma_last_record_bounds, resolves, ConfigRecord};
use crate::status::Status;

verus! {

proof fn lemma_names_where_from<R, X>(s: Seq<Migration<R, X>>, p: spec_fn(Migration<R, X>) -> bool, k: int)
    requires
        0 <= k < names_where(s, p).len(),
    ensures
        exists|j: int| 0 <= j < s.len() && names_where(s, p)[k] == #[trigger] s[j].migration.name && p(s[j]),
    decreases s.len(),
{
    let t = s.drop_last();
    if p(s.last()) && k == names_where(t, p).len() {
        assert(names_where(s, p)[k] == s[s.len() - 1].migration.name);
    } else {
        lemma_names_where_from(t, p, k);
        let j = choose|j: int| 0 <= j < t.len() && names_where(t, p)[k] == #[trigger] t[j].migration.name && p(t[j]);
        assert(s[j] == t[j]);
    }
}

/// In a set ordered by name, an entry's name is among those selected by `p`
/// exactly when the entry satisfies `p`.
pub proof fn lemma_names_where_member<R, X>(s: Seq<Migration<R, X>>, p: spec_fn(Migration<R, X>) -> bool, i: int)
    requires
        sorted_by_name(s),
        0 <= i < s.len(),
    ensures
        names_where(s, p).contains(s[i].migration.name) <==> p(s[i]),
    decreases s.len(),
{
    let t = s.drop_last();
    let n = s.len() - 1;
    assert(sorted_by_name(t)) by {
        assert forall|a: int, b: int| 0 <= a < b < t.len() implies crate::order::lex_lt(
            #[trigger] crate::active::key_of(t[a]),
            #[trigger] crate::active::key_of(t[b]),
        ) by {
            assert(t[a] == s[a] && t[b] == s[b]);
        }
    }
    if names_where(t, p).contains(s[n].migration.name) {
        let k = choose|k: int| 0 <= k < names_where(t, p).len() && names_where(t, p)[k] == s[n].migration.name;
        lemma_names_where_from(t, p, k);
        let j = choose|j: int| 0 <= j < t.len() && names_where(t, p)[k] == #[trigger] t[j].migration.name && p(t[j]);
        assert(t[j] == s[j]);
        lemma_sorted_names_distinct(s, j, n);
    }
    if i == n {
        if p(s[n]) {
            assert(names_where(s, p)[names_where(t, p).len() as int] == s[n].migration.name);
        }
    } else {
        assert(t[i] == s[i]);
        lemma_names_where_member(t, p, i);
        lemma_sorted_names_distinct(s, i, n);
        if p(s[n]) {
            assert(names_where(s, p) == names_where(t, p).push(s[n].migration.name));
            if names_where(s, p).contains(s[i].migration.name) {
                let k = choose|k: int| 0 <= k < names_where(s, p).len() && names_where(s, p)[k] == s[i].migration.name;
                if k < names_where(t, p).len() {
                    assert(names_where(t, p)[k] == s[i].migration.name);
                }
            }
            if names_where(t, p).contains(s[i].migration.name) {
                let k = choose|k: int| 0 <= k < names_where(t, p).len() && names_where(t, p)[k] == s[i].migration.name;
                assert(names_where(s, p)[k] == s[i].migration.name);
            }
        }
    }
}

/// A configured record that is the last one for its name is active: the
/// entry of that name carries the record's metadata exactly and is enabled.
pub proof fn lemma_record_resolved<'a, R, X>(
    s: ActiveMigrations<'a, R, X>,
    reg: Seq<InnerMigration<R, X>>,
    cfg: Seq<ConfigRecord>,
    k: int,
)
    requires
        resolves(s, reg, cfg),
        0 <= k < cfg.len(),
        last_record(cfg, cfg[k].name@) == k,
    ensures
        exists|i: int|
            0 <= i < s.entries@.len() && (#[trigger] s.entries@[i]).migration.name@ == cfg[k].name@
                && s.entries@[i].metadata == cfg[k].metadata && s.entries@[i].status == Status::Enabled,
{
    assert(s.contains(cfg[k].name@));
    let i = choose|i: int| 0 <= i < s.entries@.len() && #[trigger] s.entries@[i].migration.name@ == cfg[k].name@;
    assert(s.entries@[i].migration.name@ == cfg[k].name@);
}

/// Of two records with the same name, the earlier one never supplies the
/// active entry's metadata: the later record is kept.
pub proof fn lemma_later_record_wins(cfg: Seq<ConfigRecord>, j: int, k: int)
    requires
        0 <= j < k < cfg.len(),
        cfg[j].name@ == cfg[k].name@,
    ensures
        last_record(cfg, cfg[j].name@) >= k,
    decreases cfg.len(),
{
    if cfg.len() - 1 != k && cfg.last().name@ != cfg[j].name@ {
        let t = cfg.drop_last();
        assert(t[j] == cfg[j] && t[k] == cfg[k]);
        lemma_later_record_wins(t, j, k);
    }
    lemma_last_record_bounds(cfg, cfg[j].name@);
}

/// Initialize is exact: at height `h` an entry runs its initialize
/// step iff it is enabled, configured for `h` and has such a step; and it
/// never runs at the heights next to it.
pub proof fn lemma_initialize_exact<'a, R, X>(s: ActiveMigrations<'a, R, X>, i: int, h: u64)
    requires
        s.wf(),
        0 <= i < s.entries@.len(),
    ensures
        initialized_names(s.entries@, h).contains(s.entries@[i].migration.name) <==> (
            s.entries@[i].status == Status::Enabled && s.entries@[i].metadata.block_height == h
                && s.entries@[i].migration.has_initialize()),
        s.entries@[i].initializes_at(h) && h > 0 ==> !initialized_names(s.entries@, (h - 1) as u64).contains(
            s.entries@[i].migration.name,
        ),
        s.entries@[i].initializes_at(h) && h < u64::MAX ==> !initialized_names(s.entries@, (h + 1) as u64).contains(
            s.entries@[i].migration.name,
        ),
{
    lemma_names_where_member(s.entries@, |m: Migration<R, X>| m.initializes_at(h), i);
    if h > 0 {
        lemma_names_where_member(s.entries@, |m: Migration<R, X>| m.initializes_at((h - 1) as u64), i);
    }
    if h < u64::MAX {
        lemma_names_where_member(s.entries@, |m: Migration<R, X>| m.initializes_at((h + 1) as u64), i);
    }
}

/// Update is exact and sticky: at height `h` an entry runs its
/// update step iff it is enabled, configured for at most `h` and has such a
/// step; once it runs at `h` it runs at every later height.
pub proof fn lemma_update_sticky<'a, R, X>(s: ActiveMigrations<'a, R, X>, i: int, h: u64, later: u64)
    requires
        s.wf(),
        0 <= i < s.entries@.len(),
        h <= later,
    ensures
        updated_names(s.entries@, h).contains(s.entries@[i].migration.name) <==> (
            s.entries@[i].status == Status::Enabled && s.entries@[i].metadata.block_height <= h
                && s.entries@[i].migration.has_update()),
        updated_names(s.entries@, h).contains(s.entries@[i].migration.name)
            ==> updated_names(s.entries@, later).contains(s.entries@[i].migration.name),
{
    lemma_names_where_member(s.entries@, |m: Migration<R, X>| m.updates_at(h), i);
    lemma_names_where_member(s.entries@, |m: Migration<R, X>| m.updates_at(later), i);
}

/// A disabled entry is skipped by initialize, update and hotfix at every
/// height.
pub proof fn lemma_disabled_skipped<'a, R, X>(s: ActiveMigrations<'a, R, X>, i: int, h: u64)
    requires
        s.wf(),
        0 <= i < s.entries@.len(),
        s.entries@[i].status == Status::Disabled,
    ensures
        !initialized_names(s.entries@, h).contains(s.entries@[i].migration.name),
        !updated_names(s.entries@, h).contains(s.entries@[i].migration.name),
        !s.entries@[i].hotfixes_at(h),
{
    lemma_names_where_member(s.entries@, |m: Migration<R, X>| m.initializes_at(h), i);
    lemma_names_where_member(s.entries@, |m: Migration<R, X>| m.updates_at(h), i);
}

/// Disabling an enabled migration and enabling it again gives back the same
/// migration, so it behaves as before at every height.
pub proof fn lemma_reenable_restores<'a, R, X>(m: Migration<'a, R, X>)
    requires
        m.status == Status::Enabled,
    ensures
        (Migration { status: Status::Enabled, ..(Migration { status: Status::Disabled, ..m }) }) == m,
{
}

} // verus!
