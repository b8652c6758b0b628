use vstd::prelude::*;

verus! {

/// A step that acts on the storage state of a regular migration.
pub trait StorageStep<T> {
    /// Whether one application of the step can take `before` to `after`. An
    /// implementation states its step here; the default claims nothing.
    open spec fn stepped(&self, before: T, after: T) -> bool {
        true
    }

    fn apply(&self, storage: &mut T)
        ensures
            self.stepped(*old(storage), *final(storage)),
    ;
}

/// The byte transform of a hotfix migration: `None` when it cannot work on
/// its input.
pub trait ByteTransform {
    /// Whether the transform can give `output` for `input`. An implementation
    /// states its transform here; the default claims nothing.
    open spec fn transforms(&self, input: Seq<u8>, output: Option<Seq<u8>>) -> bool {
        true
    }

    fn transform(&self, bytes: &[u8]) -> (r: Option<Vec<u8>>)
        ensures
            self.transforms(bytes@, bytes_of(r)),
    ;
}

/// The bytes that an optional buffer holds.
pub open spec fn bytes_of(r: Option<Vec<u8>>) -> Option<Seq<u8>> {
    match r {
        Some(v) => Some(v@),
        None => None,
    }
}


/// The behaviour of a regular migration; an absent step does nothing.
pub struct RegularMigration<R> {
    pub initialize_fn: Option<R>,
    pub update_fn: Option<R>,
}

/// The behaviour of a hotfix migration.
pub struct HotfixMigration<X> {
    pub hotfix_fn: X,
}

pub enum MigrationType<R, X> {
    Regular(RegularMigration<R>),
    Hotfix(HotfixMigration<X>),
}

/// A named migration definition, independent of any configuration.
pub struct InnerMigration<R, X> {
    pub kind: MigrationType<R, X>,
    pub name: String,
    pub description: String,
}

impl<R, X> InnerMigration<R, X> {
    pub open spec fn has_initialize(&self) -> bool {
        match self.kind {
            MigrationType::Regular(m) => m.initialize_fn.is_some(),
            MigrationType::Hotfix(_) => false,
        }
    }

    pub open spec fn has_update(&self) -> bool {
        match self.kind {
            MigrationType::Regular(m) => m.update_fn.is_some(),
            MigrationType::Hotfix(_) => false,
        }
    }

    pub open spec fn is_hotfix(&self) -> bool {
        self.kind is Hotfix
    }

    /// The initialize step of this migration takes `before` to `after`.
    pub open spec fn initialize_stepped<T>(&self, before: T, after: T) -> bool where R: StorageStep<T> {
        match self.kind {
            MigrationType::Regular(m) => match m.initialize_fn {
                Some(f) => f.stepped(before, after),
                None => false,
            },
            MigrationType::Hotfix(_) => false,
        }
    }

    /// The update step of this migration takes `before` to `after`.
    pub open spec fn update_stepped<T>(&self, before: T, after: T) -> bool where R: StorageStep<T> {
        match self.kind {
            MigrationType::Regular(m) => match m.update_fn {
                Some(f) => f.stepped(before, after),
                None => false,
            },
            MigrationType::Hotfix(_) => false,
        }
    }

    /// This migration's hotfix can give `output` for `input`; a regular one
    /// gives only `None`.
    pub open spec fn hotfix_gives(&self, input: Seq<u8>, output: Option<Seq<u8>>) -> bool where X: ByteTransform {
        match self.kind {
            MigrationType::Hotfix(m) => m.hotfix_fn.transforms(input, output),
            MigrationType::Regular(_) => output is None,
        }
    }

    pub fn new_hotfix(hotfix_fn: X, name: &str, description: &str) -> (r: Self)
        ensures
            r.kind == MigrationType::<R, X>::Hotfix(HotfixMigration { hotfix_fn }),
            r.name@ == name@,
            r.description@ == description@,
    {
        InnerMigration {
            kind: MigrationType::Hotfix(HotfixMigration { hotfix_fn }),
            name: name.to_owned(),
            description: description.to_owned(),
        }
    }

    pub fn new_initialize_update(
        initialize_fn: R,
        update_fn: R,
        name: &str,
        description: &str,
    ) -> (r: Self)
        ensures
            r.kind == MigrationType::<R, X>::Regular(
                RegularMigration { initialize_fn: Some(initialize_fn), update_fn: Some(update_fn) },
            ),
            r.name@ == name@,
            r.description@ == description@,
    {
        InnerMigration {
            kind: MigrationType::Regular(
                RegularMigration { initialize_fn: Some(initialize_fn), update_fn: Some(update_fn) },
            ),
            name: name.to_owned(),
            description: description.to_owned(),
        }
    }

    pub fn new_initialize(initialize_fn: R, name: &str, description: &str) -> (r: Self)
        ensures
            r.kind == MigrationType::<R, X>::Regular(
                RegularMigration { initialize_fn: Some(initialize_fn), update_fn: None },
            ),
            r.name@ == name@,
            r.description@ == description@,
    {
        InnerMigration {
            kind: MigrationType::Regular(
                RegularMigration { initialize_fn: Some(initialize_fn), update_fn: None },
            ),
            name: name.to_owned(),
            description: description.to_owned(),
        }
    }

    pub fn new_update(update_fn: R, name: &str, description: &str) -> (r: Self)
        ensures
            r.kind == MigrationType::<R, X>::Regular(
                RegularMigration { initialize_fn: None, update_fn: Some(update_fn) },
            ),
            r.name@ == name@,
            r.description@ == description@,
    {
        InnerMigration {
            kind: MigrationType::Regular(
                RegularMigration { initialize_fn: None, update_fn: Some(update_fn) },
            ),
            name: name.to_owned(),
            description: description.to_owned(),
        }
    }

    pub fn name(&self) -> (r: &str)
        ensures
            r@ == self.name@,
    {
        self.name.as_str()
    }

    pub fn description(&self) -> (r: &str)
        ensures
            r@ == self.description@,
    {
        self.description.as_str()
    }

    pub fn kind(&self) -> (r: &MigrationType<R, X>)
        ensures
            *r == self.kind,
    {
        &self.kind
    }

    /// Runs the initialize step, if this migration has one; returns whether it ran.
    pub fn initialize<T>(&self, storage: &mut T) -> (ran: bool) where R: StorageStep<T>
        ensures
            ran == self.has_initialize(),
            ran ==> self.initialize_stepped(*old(storage), *final(storage)),
            !ran ==> *final(storage) == *old(storage),
    {
        match &self.kind {
            MigrationType::Regular(m) => match &m.initialize_fn {
                Some(f) => {
                    f.apply(storage);
                    true
                },
                None => false,
            },
            MigrationType::Hotfix(_) => false,
        }
    }

    /// Runs the update step, if this migration has one; returns whether it ran.
    pub fn update<T>(&self, storage: &mut T) -> (ran: bool) where R: StorageStep<T>
        ensures
            ran == self.has_update(),
            ran ==> self.update_stepped(*old(storage), *final(storage)),
            !ran ==> *final(storage) == *old(storage),
    {
        match &self.kind {
            MigrationType::Regular(m) => match &m.update_fn {
                Some(f) => {
                    f.apply(storage);
                    true
                },
                None => false,
            },
            MigrationType::Hotfix(_) => false,
        }
    }

    /// Runs the transform of a hotfix migration; a regular one gives `None`.
    pub fn hotfix(&self, b: &[u8]) -> (r: Option<Vec<u8>>) where X: ByteTransform
        ensures
            self.hotfix_gives(b@, bytes_of(r)),
    {
        match &self.kind {
            MigrationType::Hotfix(m) => m.hotfix_fn.transform(b),
            MigrationType::Regular(_) => None,
        }
    }
}

} // verus!
