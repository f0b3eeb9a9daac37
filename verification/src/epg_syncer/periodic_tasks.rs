//! Tables that are rebuilt from the whole guide.

use std::collections::HashMap;
use vstd::prelude::*;

verus! {

broadcast use vstd::std_specs::hash::group_hash_axioms;

/// How one event of the guide relates to another.
#[derive(Debug, Clone, Copy, PartialEq, Eq, Structural)]
pub enum RelatedType {
    Shared,
    Relay,
    Movement,
}

/// A reference from a programme to another event of the guide.
#[derive(Debug, Clone, Copy, PartialEq, Eq, Structural)]
pub struct RelatedItem {
    pub kind: Option<RelatedType>,
    pub event_id: Option<i32>,
}

/// What the relay table reads of a programme.
#[derive(Debug, PartialEq, Eq)]
pub struct Listing {
    pub event_id: i32,
    pub related_items: Option<Vec<RelatedItem>>,
}

impl RelatedItem {
    /// The event that this item names as the one that carries the broadcast
    /// on, if it names one.
    pub open spec fn relay_target(self) -> Option<i32> {
        if self.kind == Some(RelatedType::Relay) {
            self.event_id
        } else {
            None
        }
    }
}

/// `table` with an entry from each relay target among `items` to `source`.
pub open spec fn with_relays(table: Map<i32, i32>, items: Seq<RelatedItem>, source: i32) -> Map<i32, i32>
    decreases items.len(),
{
    if items.len() == 0 {
        table
    } else {
        let before = with_relays(table, items.drop_last(), source);
        match items.last().relay_target() {
            Some(target) => before.insert(target, source),
            None => before,
        }
    }
}

/// The table that leads from each event that is the continuation of a
/// broadcast back to the event that it continues. Where several programmes
/// name the same continuation, the last one in the list counts.
pub open spec fn reverse_relay(listings: Seq<Listing>) -> Map<i32, i32>
    decreases listings.len(),
{
    if listings.len() == 0 {
        Map::empty()
    } else {
        let before = reverse_relay(listings.drop_last());
        match listings.last().related_items {
            Some(items) => with_relays(before, items@, listings.last().event_id),
            None => before,
        }
    }
}

/// Builds the table of reverse relays. An item that names no event is
/// passed over.
pub fn get_reverse_event_relay(listings: &Vec<Listing>) -> (table: HashMap<i32, i32>)
    ensures
        table@ == reverse_relay(listings@),
{
    let mut table: HashMap<i32, i32> = HashMap::new();
    let mut i: usize = 0;
    assert(listings@.take(0) =~= Seq::<Listing>::empty());
    while i < listings.len()
        invariant
            i <= listings.len(),
            table@ == reverse_relay(listings@.take(i as int)),
        decreases listings.len() - i,
    {
        let listing = &listings[i];
        assert(listings@.take(i + 1).drop_last() =~= listings@.take(i as int));
        assert(listings@.take(i + 1).last() == *listing);
        if let Some(items) = &listing.related_items {
            let mut j: usize = 0;
            let ghost before = table@;
            assert(items@.take(0) =~= Seq::<RelatedItem>::empty());
            while j < items.len()
                invariant
                    j <= items.len(),
                    table@ == with_relays(before, items@.take(j as int), listing.event_id),
                decreases items.len() - j,
            {
                let item = items[j];
                assert(items@.take(j + 1).drop_last() =~= items@.take(j as int));
                assert(items@.take(j + 1).last() == item);
                match item.kind {
                    Some(RelatedType::Relay) => {
                        if let Some(target) = item.event_id {
                            table.insert(target, listing.event_id);
                        }
                    },
                    _ => {},
                }
                j += 1;
            }
            assert(items@.take(items@.len() as int) =~= items@);
        }
        i += 1;
    }
    assert(listings@.take(listings@.len() as int) =~= listings@);
    table
}

} // verus!
