use vstd::prelude::*;
use crate::definition::{bytes_of, ByteTransform, InnerMigration, StorageStep};
use crate::metadata::Metadata;
use crate::status::Status;

verus! {

/// A migration definition together with the settings of one activation.
pub struct Migration<'a, R, X> {
    pub migration: &'a InnerMigration<R, X>,
    pub metadata: Metadata,
    pub status: Status,
}

impl<'a, R, X> Migration<'a, R, X> {
    /// Initialize and hotfix run only when enabled and `h` equals the configured height.
    pub open spec fn at_height(&self, h: u64) -> bool {
        self.status == Status::Enabled && self.metadata.block_height == h
    }

    /// Update runs only when enabled and `h` is not below the configured height.
    pub open spec fn from_height(&self, h: u64) -> bool {
        self.status == Status::Enabled && self.metadata.block_height <= h
    }

    pub open spec fn initializes_at(&self, h: u64) -> bool {
        self.at_height(h) && self.migration.has_initialize()
    }

    pub open spec fn updates_at(&self, h: u64) -> bool {
        self.from_height(h) && self.migration.has_update()
    }

    pub open spec fn hotfixes_at(&self, h: u64) -> bool {
        self.at_height(h) && self.migration.is_hotfix()
    }

    pub fn new(migration: &'a InnerMigration<R, X>, metadata: Metadata, status: Status) -> (r: Self)
        ensures
            r.migration == migration,
            r.metadata == metadata,
            r.status == status,
    {
        Migration { migration, metadata, status }
    }

    /// Runs the initialize step when enabled and `h` is the configured height;
    /// returns whether it ran.
    pub fn initialize<T>(&self, storage: &mut T, h: u64) -> (ran: bool) where R: StorageStep<T>
        ensures
            ran == self.initializes_at(h),
            ran ==> self.migration.initialize_stepped(*old(storage), *final(storage)),
            !ran ==> *final(storage) == *old(storage),
    {
        if self.status == Status::Enabled && self.metadata.block_height == h {
            self.migration.initialize(storage)
        } else {
            false
        }
    }

    /// Runs the update step when enabled and `h` is at or past the configured
    /// height; returns whether it ran.
    pub fn update<T>(&self, storage: &mut T, h: u64) -> (ran: bool) where R: StorageStep<T>
        ensures
            ran == self.updates_at(h),
            ran ==> self.migration.update_stepped(*old(storage), *final(storage)),
            !ran ==> *final(storage) == *old(storage),
    {
        if self.status == Status::Enabled && self.metadata.block_height <= h {
            self.migration.update(storage)
        } else {
            false
        }
    }

    /// Runs the hotfix transform when enabled and `h` is the configured height.
    pub fn hotfix(&self, b: &[u8], h: u64) -> (r: Option<Vec<u8>>) where X: ByteTransform
        ensures
            self.hotfixes_at(h) ==> self.migration.hotfix_gives(b@, bytes_of(r)),
            !self.hotfixes_at(h) ==> r.is_none(),
    {
        if self.status == Status::Enabled && self.metadata.block_height == h {
            self.migration.hotfix(b)
        } else {
            None
        }
    }

    pub fn name(&self) -> (r: &str)
        ensures
            r@ == self.migration.name@,
    {
        self.migration.name()
    }

    pub fn description(&self) -> (r: &str)
        ensures
            r@ == self.migration.description@,
    {
        self.migration.description()
    }

    pub fn metadata(&self) -> (r: &Metadata)
        ensures
            *r == self.metadata,
    {
        &self.metadata
    }

    pub fn status(&self) -> (r: &Status)
        ensures
            *r == self.status,
    {
        &self.status
    }

    pub fn disable(&mut self)
        ensures
            *final(self) == (Migration { status: Status::Disabled, ..*old(self) }),
    {
        self.status = Status::Disabled;
    }

    pub fn enable(&mut self)
        ensures
            *final(self) == (Migration { status: Status::Enabled, ..*old(self) }),
    {
        self.status = Status::Enabled;
    }

    pub fn is_enabled(&self) -> (r: bool)
        ensures
            r == (self.status == Status::Enabled),
    {
        self.status == Status::Enabled
    }
}

} // verus!
