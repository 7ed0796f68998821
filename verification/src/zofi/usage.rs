//! What is known of how often things are used.

use vstd::prelude::*;

verus! {

/// Where activations are kept. What a store answers depends on what was
/// recorded and on the time, so nothing is promised of it.
pub trait UsageStore {
    /// Notes that the item `key` of a source was activated.
    fn record(&self, source: &str, key: &str);

    /// How much an item's past use adds to its rank.
    fn frecency_bonus(&self, source: &str, key: &str) -> i32;
}

/// A store that sources share.
pub struct UsageTracker<T: UsageStore + ?Sized = dyn UsageStore> {
    store: Box<T>,
}

impl<T: UsageStore + ?Sized> UsageTracker<T> {
    /// The store.
    pub closed spec fn kept_in(&self) -> &T {
        &*self.store
    }

    /// Whether the store was told that the item `key` of a source was
    /// activated.
    pub open spec fn was_told(&self, source: &str, key: &str) -> bool {
        call_ensures(T::record, (self.kept_in(), source, key), ())
    }

    /// A tracker on a store.
    pub fn new(store: Box<T>) -> (r: Self)
        ensures
            r.kept_in() == &*store,
    {
        UsageTracker { store }
    }

    /// Notes that the item `key` of a source was activated.
    pub fn record(&self, source: &str, key: &str)
        ensures
            self.was_told(source, key),
    {
        self.store.record(source, key)
    }

    /// How much an item's past use adds to its rank.
    pub fn frecency_bonus(&self, source: &str, key: &str) -> (r: i32)
        ensures
            call_ensures(T::frecency_bonus, (self.kept_in(), source, key), r),
    {
        self.store.frecency_bonus(source, key)
    }
}

} // verus!
