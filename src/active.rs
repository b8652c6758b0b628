use vstd::prelude::*;
use vstd::utf8::{decode_utf8, encode_utf8, encode_utf8_decode_utf8};
use crate::definition::{bytes_of, ByteTransform, InnerMigration, StorageStep};
use crate::metadata::Metadata;
use crate::migration::Migration;
use crate::order::{compare_bytes, lemma_lex_irreflexive, lemma_lex_transitive, lex_lt};
use crate::status::Status;

verus! {

broadcast use encode_utf8_decode_utf8, lemma_lex_irreflexive;

/// The key by which active migrations are ordered: the UTF-8 bytes of the name.
pub open spec fn key_of<R, X>(m: Migration<R, X>) -> Seq<u8> {
    encode_utf8(m.migration.name@)
}

/// Strictly increasing by name, so names are unique and the order is fixed.
pub open spec fn sorted_by_name<R, X>(s: Seq<Migration<R, X>>) -> bool {
    forall|i: int, j: int| 0 <= i < j < s.len() ==> lex_lt(#[trigger] key_of(s[i]), #[trigger] key_of(s[j]))
}

pub proof fn lemma_sorted_names_distinct<R, X>(s: Seq<Migration<R, X>>, i: int, j: int)
    requires
        sorted_by_name(s),
        0 <= i < s.len(),
        0 <= j < s.len(),
        i != j,
    ensures
        s[i].migration.name@ != s[j].migration.name@,
{
    if i < j {
        assert(lex_lt(key_of(s[i]), key_of(s[j])));
    } else {
        assert(lex_lt(key_of(s[j]), key_of(s[i])));
    }
}

pub proof fn lemma_key_injective(a: Seq<char>, b: Seq<char>)
    requires
        encode_utf8(a) == encode_utf8(b),
    ensures
        a == b,
{
    assert(decode_utf8(encode_utf8(a)) == a);
    assert(decode_utf8(encode_utf8(b)) == b);
}

pub(crate) fn same_name(a: &str, b: &str) -> (r: bool)
    ensures
        r == (a@ == b@),
{
    let r = compare_bytes(a.as_bytes(), b.as_bytes()) == 0;
    proof {
        if r {
            lemma_key_injective(a@, b@);
        }
    }
    r
}

/// The names of the entries of `s`, in order, that satisfy `p`.
pub open spec fn names_where<R, X>(s: Seq<Migration<R, X>>, p: spec_fn(Migration<R, X>) -> bool) -> Seq<String>
    decreases s.len(),
{
    if s.len() == 0 {
        Seq::empty()
    } else if p(s.last()) {
        names_where(s.drop_last(), p).push(s.last().migration.name)
    } else {
        names_where(s.drop_last(), p)
    }
}

/// The names of the entries of `s`, in order, whose initialize step runs at height `h`.
pub open spec fn initialized_names<R, X>(s: Seq<Migration<R, X>>, h: u64) -> Seq<String> {
    names_where(s, |m: Migration<R, X>| m.initializes_at(h))
}

/// The names of the entries of `s`, in order, whose update step runs at height `h`.
pub open spec fn updated_names<R, X>(s: Seq<Migration<R, X>>, h: u64) -> Seq<String> {
    names_where(s, |m: Migration<R, X>| m.updates_at(h))
}

/// Storage goes from `x` to `y` at entry `m` when initializing at height `h`:
/// by its initialize step when it runs, unchanged otherwise.
pub open spec fn initialize_link<R, X, T>(m: Migration<R, X>, h: u64, x: T, y: T) -> bool where R: StorageStep<T> {
    if m.initializes_at(h) {
        m.migration.initialize_stepped(x, y)
    } else {
        x == y
    }
}

/// Storage goes from `x` to `y` at entry `m` when updating at height `h`:
/// by its update step when it runs, unchanged otherwise.
pub open spec fn update_link<R, X, T>(m: Migration<R, X>, h: u64, x: T, y: T) -> bool where R: StorageStep<T> {
    if m.updates_at(h) {
        m.migration.update_stepped(x, y)
    } else {
        x == y
    }
}

/// Running the initialize steps of `s` at height `h`, in order, takes storage
/// from `before` to `after`, through the states `states`.
pub open spec fn initialized_through<R, X, T>(s: Seq<Migration<R, X>>, h: u64, states: Seq<T>) -> bool where R: StorageStep<T> {
    &&& states.len() == s.len() + 1
    &&& forall|i: int| 0 <= i < s.len() ==> initialize_link(s[i], h, #[trigger] states[i], states[i + 1])
}

/// Running the update steps of `s` at height `h`, in order, takes storage
/// through the states `states`.
pub open spec fn updated_through<R, X, T>(s: Seq<Migration<R, X>>, h: u64, states: Seq<T>) -> bool where R: StorageStep<T> {
    &&& states.len() == s.len() + 1
    &&& forall|i: int| 0 <= i < s.len() ==> update_link(s[i], h, #[trigger] states[i], states[i + 1])
}

/// Running the initialize steps of `s` at height `h`, in order, takes storage
/// from `before` to `after`.
pub open spec fn initialized_chain<R, X, T>(s: Seq<Migration<R, X>>, h: u64, before: T, after: T) -> bool where R: StorageStep<T> {
    exists|states: Seq<T>|
        #[trigger] initialized_through(s, h, states) && states[0] == before && states.last() == after
}

/// Running the update steps of `s` at height `h`, in order, takes storage
/// from `before` to `after`.
pub open spec fn updated_chain<R, X, T>(s: Seq<Migration<R, X>>, h: u64, before: T, after: T) -> bool where R: StorageStep<T> {
    exists|states: Seq<T>|
        #[trigger] updated_through(s, h, states) && states[0] == before && states.last() == after
}

/// After an upsert of `m` at index `at`, where every other entry comes from
/// the old set and every old entry of another name is kept, the names are
/// the old names and the name of `m`.
proof fn lemma_upsert_names<R, X>(old_e: Seq<Migration<R, X>>, fe: Seq<Migration<R, X>>, m: Migration<R, X>, at: int)
    requires
        0 <= at < fe.len(),
        fe[at] == m,
        forall|j: int| 0 <= j < old_e.len() && old_e[j].migration.name@ != m.migration.name@
            ==> exists|i: int| 0 <= i < fe.len() && fe[i] == #[trigger] old_e[j],
        forall|i: int| 0 <= i < fe.len() && fe[i].migration.name@ != m.migration.name@
            ==> exists|j: int| 0 <= j < old_e.len() && old_e[j] == #[trigger] fe[i],
    ensures
        forall|n: Seq<char>| #[trigger] has_name(fe, n) <==> (has_name(old_e, n) || n == m.migration.name@),
{
    assert forall|n: Seq<char>| #[trigger] has_name(fe, n) <==> (has_name(old_e, n) || n == m.migration.name@) by {
        assert(fe[at].migration.name@ == m.migration.name@);
        if has_name(old_e, n) && n != m.migration.name@ {
            let j = choose|j: int| 0 <= j < old_e.len() && #[trigger] old_e[j].migration.name@ == n;
            let i = choose|i: int| 0 <= i < fe.len() && fe[i] == #[trigger] old_e[j];
            assert(fe[i].migration.name@ == n);
        }
        if has_name(fe, n) && n != m.migration.name@ {
            let i = choose|i: int| 0 <= i < fe.len() && #[trigger] fe[i].migration.name@ == n;
            let j = choose|j: int| 0 <= j < old_e.len() && old_e[j] == #[trigger] fe[i];
            assert(old_e[j].migration.name@ == n);
        }
    }
}

/// Some entry of `s` has the name `n`.
pub open spec fn has_name<R, X>(s: Seq<Migration<R, X>>, n: Seq<char>) -> bool {
    exists|i: int| 0 <= i < s.len() && #[trigger] s[i].migration.name@ == n
}

/// The set of migrations resolved for one run, ordered by name.
pub struct ActiveMigrations<'a, R, X> {
    pub entries: Vec<Migration<'a, R, X>>,
}

impl<'a, R, X> ActiveMigrations<'a, R, X> {
    pub open spec fn wf(&self) -> bool {
        sorted_by_name(self.entries@)
    }

    pub open spec fn contains(&self, name: Seq<char>) -> bool {
        has_name(self.entries@, name)
    }

    pub fn new() -> (r: Self)
        ensures
            r.wf(),
            r.entries@.len() == 0,
    {
        ActiveMigrations { entries: Vec::new() }
    }

    pub fn len(&self) -> (r: usize)
        ensures
            r == self.entries@.len(),
    {
        self.entries.len()
    }

    /// The index of the entry with the given name, found by binary search.
    pub fn position(&self, name: &str) -> (r: Option<usize>)
        requires
            self.wf(),
        ensures
            r matches Some(i) ==> i < self.entries@.len() && self.entries@[i as int].migration.name@ == name@,
            r is None ==> !self.contains(name@),
    {
        let key = name.as_bytes();
        let ghost e = self.entries@;
        let mut lo: usize = 0;
        let mut hi: usize = self.entries.len();
        while lo < hi
            invariant
                e == self.entries@,
                sorted_by_name(e),
                key@ == encode_utf8(name@),
                lo <= hi <= e.len(),
                forall|j: int| 0 <= j < lo ==> lex_lt(#[trigger] key_of(e[j]), key@),
                forall|j: int| hi <= j < e.len() ==> lex_lt(key@, #[trigger] key_of(e[j])),
            decreases hi - lo,
        {
            let mid = lo + (hi - lo) / 2;
            let c = compare_bytes(key, self.entries[mid].migration.name.as_str().as_bytes());
            if c == 0 {
                proof {
                    lemma_key_injective(name@, e[mid as int].migration.name@);
                }
                return Some(mid);
            } else if c == -1 {
                proof {
                    assert forall|j: int| mid <= j < e.len() implies lex_lt(key@, #[trigger] key_of(e[j])) by {
                        if j > mid {
                            lemma_lex_transitive(key@, key_of(e[mid as int]), key_of(e[j]));
                        }
                    }
                }
                hi = mid;
            } else {
                proof {
                    assert forall|j: int| 0 <= j <= mid implies lex_lt(#[trigger] key_of(e[j]), key@) by {
                        if j < mid {
                            lemma_lex_transitive(key_of(e[j]), key_of(e[mid as int]), key@);
                        }
                    }
                }
                lo = mid + 1;
            }
        }
        proof {
            assert forall|j: int| 0 <= j < e.len() implies #[trigger] e[j].migration.name@ != name@ by {
                if e[j].migration.name@ == name@ {
                    assert(key_of(e[j]) == key@);
                }
            }
        }
        None
    }

    /// The entry with the given name.
    pub fn get(&self, name: &str) -> (r: Option<&Migration<'a, R, X>>)
        requires
            self.wf(),
        ensures
            r is None <==> !self.contains(name@),
            r matches Some(m) ==> exists|i: int|
                0 <= i < self.entries@.len() && self.entries@[i] == *m && m.migration.name@ == name@,
    {
        match self.position(name) {
            Some(i) => Some(&self.entries[i]),
            None => None,
        }
    }

    /// Inserts `m`, or replaces the entry of the same name; the order by name is kept.
    pub fn upsert(&mut self, m: Migration<'a, R, X>)
        requires
            old(self).wf(),
        ensures
            final(self).wf(),
            forall|n: Seq<char>| final(self).contains(n) <==> (old(self).contains(n) || n == m.migration.name@),
            forall|i: int| 0 <= i < final(self).entries@.len() && final(self).entries@[i].migration.name@ == m.migration.name@
                ==> final(self).entries@[i] == m,
            forall|i: int| 0 <= i < final(self).entries@.len() && final(self).entries@[i].migration.name@ != m.migration.name@
                ==> exists|j: int| 0 <= j < old(self).entries@.len() && old(self).entries@[j] == #[trigger] final(self).entries@[i],
    {
        let ghost old_e = self.entries@;
        let def: &'a InnerMigration<R, X> = m.migration;
        let key = def.name.as_str().as_bytes();
        let mut i: usize = 0;
        while i < self.entries.len()
            invariant
                self.entries@ == old_e,
                old(self).entries@ == old_e,
                sorted_by_name(old_e),
                i <= old_e.len(),
                key@ == key_of(m),
                forall|j: int| 0 <= j < i ==> lex_lt(#[trigger] key_of(old_e[j]), key@),
            decreases old_e.len() - i,
        {
            let c = compare_bytes(key, self.entries[i].migration.name.as_str().as_bytes());
            if c == 0 {
                self.entries.set(i, m);
                proof {
                    let fe = self.entries@;
                    assert(fe =~= old_e.update(i as int, m));
                    assert(key_of(m) == key_of(old_e[i as int]));
                    lemma_key_injective(m.migration.name@, old_e[i as int].migration.name@);
                    assert forall|p: int, q: int| 0 <= p < q < fe.len() implies lex_lt(#[trigger] key_of(fe[p]), #[trigger] key_of(fe[q])) by {
                        assert(key_of(fe[p]) == key_of(old_e[p]));
                        assert(key_of(fe[q]) == key_of(old_e[q]));
                    }
                    assert forall|q: int| 0 <= q < fe.len() && fe[q].migration.name@ == m.migration.name@ implies fe[q] == m by {
                        if q != i {
                            lemma_sorted_names_distinct(old_e, q, i as int);
                        }
                    }
                    assert forall|q: int| 0 <= q < fe.len() && fe[q].migration.name@ != m.migration.name@
                        implies exists|j: int| 0 <= j < old_e.len() && old_e[j] == #[trigger] fe[q] by {
                        assert(old_e[q] == fe[q]);
                    }
                    assert forall|j: int| 0 <= j < old_e.len() && old_e[j].migration.name@ != m.migration.name@
                        implies exists|i: int| 0 <= i < fe.len() && fe[i] == #[trigger] old_e[j] by {
                        assert(fe[j] == old_e[j]);
                    }
                    lemma_upsert_names(old_e, fe, m, i as int);
                }
                return;
            } else if c == -1 {
                self.entries.insert(i, m);
                proof {
                    let fe = self.entries@;
                    assert(fe =~= old_e.insert(i as int, m));
                    assert forall|p: int, q: int| 0 <= p < q < fe.len() implies lex_lt(#[trigger] key_of(fe[p]), #[trigger] key_of(fe[q])) by {
                        if q < i {
                        } else if q == i {
                        } else if p < i {
                            assert(fe[q] == old_e[q - 1]);
                        } else if p == i {
                            assert(fe[q] == old_e[q - 1]);
                            if q - 1 > i {
                                lemma_lex_transitive(key_of(m), key_of(old_e[i as int]), key_of(old_e[q - 1]));
                            }
                        } else {
                            assert(fe[p] == old_e[p - 1]);
                            assert(fe[q] == old_e[q - 1]);
                        }
                    }
                    assert forall|q: int| 0 <= q < fe.len() && fe[q].migration.name@ == m.migration.name@ implies fe[q] == m by {
                        if q != i {
                            lemma_sorted_names_distinct(fe, q, i as int);
                        }
                    }
                    assert forall|q: int| 0 <= q < fe.len() && fe[q].migration.name@ != m.migration.name@
                        implies exists|j: int| 0 <= j < old_e.len() && old_e[j] == #[trigger] fe[q] by {
                        if q < i {
                            assert(old_e[q] == fe[q]);
                        } else {
                            assert(old_e[q - 1] == fe[q]);
                        }
                    }
                    assert forall|j: int| 0 <= j < old_e.len() && old_e[j].migration.name@ != m.migration.name@
                        implies exists|i: int| 0 <= i < fe.len() && fe[i] == #[trigger] old_e[j] by {
                        if j < i {
                            assert(fe[j] == old_e[j]);
                        } else {
                            assert(fe[j + 1] == old_e[j]);
                        }
                    }
                    lemma_upsert_names(old_e, fe, m, i as int);
                }
                return;
            }
            i = i + 1;
        }
        self.entries.push(m);
        proof {
            let fe = self.entries@;
            assert(fe =~= old_e.push(m));
            assert forall|p: int, q: int| 0 <= p < q < fe.len() implies lex_lt(#[trigger] key_of(fe[p]), #[trigger] key_of(fe[q])) by {
                if q < old_e.len() {
                    assert(fe[p] == old_e[p]);
                    assert(fe[q] == old_e[q]);
                } else {
                    assert(fe[p] == old_e[p]);
                }
            }
            assert forall|q: int| 0 <= q < fe.len() && fe[q].migration.name@ == m.migration.name@ implies fe[q] == m by {
                if q != old_e.len() {
                    lemma_sorted_names_distinct(fe, q, old_e.len() as int);
                }
            }
            assert forall|q: int| 0 <= q < fe.len() && fe[q].migration.name@ != m.migration.name@
                implies exists|j: int| 0 <= j < old_e.len() && old_e[j] == #[trigger] fe[q] by {
                assert(old_e[q] == fe[q]);
            }
            assert forall|j: int| 0 <= j < old_e.len() && old_e[j].migration.name@ != m.migration.name@
                implies exists|i: int| 0 <= i < fe.len() && fe[i] == #[trigger] old_e[j] by {
                assert(fe[j] == old_e[j]);
            }
            lemma_upsert_names(old_e, fe, m, old_e.len() as int);
        }
    }
    /// Runs, in order of name, the initialize step of every enabled entry
    /// configured for exactly height `h`; returns the names of those that ran.
    pub fn initialize_all<T>(&self, storage: &mut T, h: u64) -> (fired: Vec<String>) where R: StorageStep<T>
        ensures
            fired@ == initialized_names(self.entries@, h),
            initialized_chain(self.entries@, h, *old(storage), *final(storage)),
            fired@.len() == 0 ==> *final(storage) == *old(storage),
    {
        let mut fired: Vec<String> = Vec::new();
        let ghost mut states: Seq<T> = seq![*storage];
        let mut i: usize = 0;
        while i < self.entries.len()
            invariant
                i <= self.entries@.len(),
                fired@ == initialized_names(self.entries@.take(i as int), h),
                initialized_through(self.entries@.take(i as int), h, states),
                states[0] == *old(storage),
                states.last() == *storage,
                fired@.len() == 0 ==> *storage == *old(storage),
            decreases self.entries@.len() - i,
        {
            proof {
                assert(self.entries@.take(i + 1).drop_last() =~= self.entries@.take(i as int));
            }
            let m = &self.entries[i];
            if m.initialize(storage, h) {
                fired.push(m.migration.name.clone());
            }
            proof {
                states = states.push(*storage);
                assert forall|j: int| 0 <= j < i + 1 implies initialize_link(self.entries@.take(i + 1)[j], h, #[trigger] states[j], states[j + 1]) by {
                    assert(self.entries@.take(i + 1)[j] == self.entries@[j]);
                    if j < i {
                        assert(self.entries@.take(i as int)[j] == self.entries@[j]);
                    }
                }
            }
            i = i + 1;
        }
        proof {
            assert(self.entries@.take(i as int) =~= self.entries@);
        }
        fired
    }

    /// Runs, in order of name, the update step of every enabled entry whose
    /// configured height is at most `h`; returns the names of those that ran.
    pub fn update_all<T>(&self, storage: &mut T, h: u64) -> (fired: Vec<String>) where R: StorageStep<T>
        ensures
            fired@ == updated_names(self.entries@, h),
            updated_chain(self.entries@, h, *old(storage), *final(storage)),
            fired@.len() == 0 ==> *final(storage) == *old(storage),
    {
        let mut fired: Vec<String> = Vec::new();
        let ghost mut states: Seq<T> = seq![*storage];
        let mut i: usize = 0;
        while i < self.entries.len()
            invariant
                i <= self.entries@.len(),
                fired@ == updated_names(self.entries@.take(i as int), h),
                updated_through(self.entries@.take(i as int), h, states),
                states[0] == *old(storage),
                states.last() == *storage,
                fired@.len() == 0 ==> *storage == *old(storage),
            decreases self.entries@.len() - i,
        {
            proof {
                assert(self.entries@.take(i + 1).drop_last() =~= self.entries@.take(i as int));
            }
            let m = &self.entries[i];
            if m.update(storage, h) {
                fired.push(m.migration.name.clone());
            }
            proof {
                states = states.push(*storage);
                assert forall|j: int| 0 <= j < i + 1 implies update_link(self.entries@.take(i + 1)[j], h, #[trigger] states[j], states[j + 1]) by {
                    assert(self.entries@.take(i + 1)[j] == self.entries@[j]);
                    if j < i {
                        assert(self.entries@.take(i as int)[j] == self.entries@[j]);
                    }
                }
            }
            i = i + 1;
        }
        proof {
            assert(self.entries@.take(i as int) =~= self.entries@);
        }
        fired
    }

    /// Runs, in order of name, the transform of every enabled hotfix entry
    /// configured for exactly height `h` on `bytes`; gives, for each entry, its
    /// name and what its transform returned, `None` for an entry that did not run.
    pub fn hotfix_all(&self, bytes: &[u8], h: u64) -> (r: Vec<(String, Option<Vec<u8>>)>) where X: ByteTransform
        ensures
            r@.len() == self.entries@.len(),
            forall|i: int| 0 <= i < r@.len() ==> (#[trigger] r@[i]).0 == self.entries@[i].migration.name,
            forall|i: int| 0 <= i < r@.len() && !self.entries@[i].hotfixes_at(h) ==> (#[trigger] r@[i]).1 is None,
            forall|i: int| 0 <= i < r@.len() && self.entries@[i].hotfixes_at(h)
                ==> self.entries@[i].migration.hotfix_gives(bytes@, bytes_of((#[trigger] r@[i]).1)),
    {
        let mut r: Vec<(String, Option<Vec<u8>>)> = Vec::new();
        let mut i: usize = 0;
        while i < self.entries.len()
            invariant
                i <= self.entries@.len(),
                r@.len() == i,
                forall|j: int| 0 <= j < i ==> (#[trigger] r@[j]).0 == self.entries@[j].migration.name,
                forall|j: int| 0 <= j < i && !self.entries@[j].hotfixes_at(h) ==> (#[trigger] r@[j]).1 is None,
                forall|j: int| 0 <= j < i && self.entries@[j].hotfixes_at(h)
                    ==> self.entries@[j].migration.hotfix_gives(bytes@, bytes_of((#[trigger] r@[j]).1)),
            decreases self.entries@.len() - i,
        {
            let m = &self.entries[i];
            let out = m.hotfix(bytes, h);
            r.push((m.migration.name.clone(), out));
            i = i + 1;
        }
        r
    }

    /// Sets the status of the entry with the given name; returns whether there is one.
    pub fn set_status(&mut self, name: &str, status: Status) -> (found: bool)
        requires
            old(self).wf(),
        ensures
            found == old(self).contains(name@),
            final(self).wf(),
            final(self).entries@.len() == old(self).entries@.len(),
            forall|i: int| 0 <= i < old(self).entries@.len() ==> #[trigger] final(self).entries@[i] == if old(self).entries@[i].migration.name@ == name@ {
                Migration { status, ..old(self).entries@[i] }
            } else {
                old(self).entries@[i]
            },
    {
        match self.position(name) {
            Some(i) => {
                let ghost old_e = self.entries@;
                self.entries[i].status = status;
                proof {
                    assert forall|j: int| 0 <= j < old_e.len() && j != i implies old_e[j].migration.name@ != name@ by {
                        lemma_sorted_names_distinct(old_e, j, i as int);
                    }
                    assert forall|p: int, q: int| 0 <= p < q < self.entries@.len() implies lex_lt(#[trigger] key_of(self.entries@[p]), #[trigger] key_of(self.entries@[q])) by {
                        assert(key_of(self.entries@[p]) == key_of(old_e[p]));
                        assert(key_of(self.entries@[q]) == key_of(old_e[q]));
                    }
                }
                true
            },
            None => false,
        }
    }

    /// Disables the entry with the given name; returns whether there is one.
    pub fn disable(&mut self, name: &str) -> (found: bool)
        requires
            old(self).wf(),
        ensures
            found == old(self).contains(name@),
            final(self).wf(),
            final(self).entries@.len() == old(self).entries@.len(),
            forall|i: int| 0 <= i < old(self).entries@.len() ==> #[trigger] final(self).entries@[i] == if old(self).entries@[i].migration.name@ == name@ {
                Migration { status: Status::Disabled, ..old(self).entries@[i] }
            } else {
                old(self).entries@[i]
            },
    {
        self.set_status(name, Status::Disabled)
    }

    /// Enables the entry with the given name; returns whether there is one.
    pub fn enable(&mut self, name: &str) -> (found: bool)
        requires
            old(self).wf(),
        ensures
            found == old(self).contains(name@),
            final(self).wf(),
            final(self).entries@.len() == old(self).entries@.len(),
            forall|i: int| 0 <= i < old(self).entries@.len() ==> #[trigger] final(self).entries@[i] == if old(self).entries@[i].migration.name@ == name@ {
                Migration { status: Status::Enabled, ..old(self).entries@[i] }
            } else {
                old(self).entries@[i]
            },
    {
        self.set_status(name, Status::Enabled)
    }
}

} // verus!
