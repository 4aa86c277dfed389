//! The collection store: holds the canonical, immutable-after-load record
//! list for the session, and answers queries over it.
use crate::config::Config;
use crate::matcher::{match_query, search_spec};
use crate::record::{Kaomoji, RecordView};
use vstd::prelude::*;

verus! {

/// The canonical collection of one session: filled once from a successful
/// load, never mutated afterwards.
pub struct Store {
    records: Vec<Kaomoji>,
}

impl View for Store {
    type V = Seq<RecordView>;

    closed spec fn view(&self) -> Seq<RecordView> {
        self.records.deep_view()
    }
}

impl Store {
    /// Takes ownership of a loaded configuration's records as the canonical
    /// collection.
    pub fn initialize(config: Config) -> (s: Store)
        ensures
            s@ == config.kaomojis.deep_view(),
    {
        Store { records: config.kaomojis }
    }

    /// A full copy of the canonical collection, in order.
    pub fn snapshot(&self) -> (r: Vec<Kaomoji>)
        ensures
            r.deep_view() == self@,
    {
        let r = self.records.clone();
        proof {
            assert(r.deep_view() =~= self.records.deep_view());
        }
        r
    }

    /// The records matching the query, in collection order, deduplicated by
    /// name; the whole collection for a whitespace-only query.
    pub fn search(&self, query: &str) -> (r: Vec<Kaomoji>)
        ensures
            r.deep_view() == search_spec(self@, query@),
    {
        match_query(&self.records, query)
    }
}

} // verus!
