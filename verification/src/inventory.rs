//! The store: the records in the order in which they were added.
//!
//! A record is known by its position in the list, counted from one. Deleting
//! a record moves every later one up by one position.

use crate::merch::{Merch, MerchView};
use crate::stored::{lemma_stored_round_trip, StoredMerch, StoredView};
use vstd::prelude::*;
use vstd::string::*;

verus! {

/// The records of `items`, each as mathematics sees it.
pub open spec fn views_of(items: Seq<Merch>) -> Seq<MerchView> {
    Seq::new(items.len(), |i: int| items[i]@)
}

/// The stored records of `rows`, each as mathematics sees it.
pub open spec fn stored_views_of(rows: Seq<StoredMerch>) -> Seq<StoredView> {
    Seq::new(rows.len(), |i: int| rows[i]@)
}

/// The records of `items` as they are stored, in order.
pub open spec fn stored_of(items: Seq<MerchView>) -> Seq<StoredView> {
    Seq::new(items.len(), |i: int| items[i].stored())
}

/// The records that `rows` stand for, in order; `None` where one of them
/// stands for no record.
pub open spec fn records_of(rows: Seq<StoredView>) -> Option<Seq<MerchView>> {
    if forall|i: int| 0 <= i < rows.len() ==> (#[trigger] rows[i]).record() is Some {
        Some(Seq::new(rows.len(), |i: int| rows[i].record().unwrap()))
    } else {
        None
    }
}

/// The list to start from, given what was read from storage: the records
/// that were read, in their order. Where nothing could be read, or what was
/// read holds a record that stands for none, the list is empty.
pub open spec fn restored(loaded: Option<Seq<StoredView>>) -> Seq<MerchView> {
    match loaded {
        Some(rows) => match records_of(rows) {
            Some(items) => items,
            None => Seq::empty(),
        },
        None => Seq::empty(),
    }
}

/// A list that was stored is the same list when it is read back, record by
/// record and in the same order. An empty list is stored and read back as
/// an empty one.
pub proof fn lemma_restore_round_trip(items: Seq<MerchView>)
    requires
        forall|i: int|
            0 <= i < items.len() ==> {
                &&& (#[trigger] items[i]).price.normal()
                &&& items[i].price.units <= u128::MAX
                &&& items[i].total_price.normal()
                &&& items[i].total_price.units <= u128::MAX
            },
    ensures
        restored(Some(stored_of(items))) == items,
{
    let rows = stored_of(items);
    assert forall|i: int| 0 <= i < rows.len() implies (#[trigger] rows[i]).record() == Some(
        items[i],
    ) by {
        lemma_stored_round_trip(items[i]);
    }
}

/// The lines of the first `n` records, each ended by a line feed.
pub open spec fn lines(items: Seq<MerchView>, n: nat) -> Seq<char>
    decreases n,
{
    if n == 0 {
        Seq::empty()
    } else {
        lines(items, (n - 1) as nat) + items[n - 1].line(n) + seq!['\n']
    }
}

/// What the list shows: one line for each record, in order, or a notice
/// where there is none.
pub open spec fn listing_of(items: Seq<MerchView>) -> Seq<char> {
    if items.len() == 0 {
        "No products to display"@
    } else {
        lines(items, items.len())
    }
}

/// Lines that were shown stay as they are when a record is added behind them.
pub proof fn lemma_lines_of_prefix(items: Seq<MerchView>, record: MerchView, n: nat)
    requires
        n <= items.len(),
    ensures
        lines(items.push(record), n) == lines(items, n),
    decreases n,
{
    if n > 0 {
        lemma_lines_of_prefix(items, record, (n - 1) as nat);
    }
}

/// Adding a record adds one line at the end of what the list shows, and the
/// line bears the new length as its position. All lines before it stay.
pub proof fn lemma_listing_after_add(items: Seq<MerchView>, record: MerchView)
    ensures
        listing_of(items.push(record)) == lines(items, items.len()) + record.line(
            items.len() + 1,
        ) + seq!['\n'],
{
    lemma_lines_of_prefix(items, record, items.len());
}

/// No record stands at the position that was asked for.
#[derive(Clone, Copy, Debug, PartialEq, Eq, Structural)]
pub struct NotFoundError;

/// The ordered list of records.
#[derive(Clone, Debug, PartialEq, Eq)]
pub struct Inventory {
    items: Vec<Merch>,
}

impl View for Inventory {
    type V = Seq<MerchView>;

    closed spec fn view(&self) -> Seq<MerchView> {
        views_of(self.items@)
    }
}

impl Inventory {
    /// A list without records.
    pub fn new() -> (r: Inventory)
        ensures
            r@ == Seq::<MerchView>::empty(),
    {
        Inventory { items: Vec::new() }
    }

    /// The list to start from, given what was read from storage: the records
    /// that were read, in their order. Where nothing could be read, or what
    /// was read holds a record that stands for none, the list is empty.
    pub fn restore(loaded: Option<Vec<StoredMerch>>) -> (r: Inventory)
        ensures
            r@ == restored(
                match loaded {
                    Some(rows) => Some(stored_views_of(rows@)),
                    None => None,
                },
            ),
    {
        let rows: Vec<StoredMerch> = match loaded {
            Some(rows) => rows,
            None => {
                return Inventory::new();
            },
        };
        let ghost views = stored_views_of(rows@);
        let mut items: Vec<Merch> = Vec::new();
        let mut i: usize = 0;
        while i < rows.len()
            invariant
                i <= rows.len(),
                loaded == Some(rows),
                views == stored_views_of(rows@),
                items@.len() == i,
                forall|j: int| 0 <= j < i ==> (#[trigger] views[j]).record() == Some(items@[j]@),
            decreases rows.len() - i,
        {
            match rows[i].record() {
                Some(record) => {
                    items.push(record);
                },
                None => {
                    assert(views[i as int].record() is None);
                    return Inventory::new();
                },
            }
            i = i + 1;
        }
        Inventory { items }
    }

    /// The records as they are stored, in order. Read back, they are this
    /// list again.
    pub fn stored(&self) -> (rows: Vec<StoredMerch>)
        ensures
            stored_views_of(rows@) == stored_of(self@),
            restored(Some(stored_views_of(rows@))) == self@,
    {
        let mut rows: Vec<StoredMerch> = Vec::new();
        let mut i: usize = 0;
        while i < self.items.len()
            invariant
                i <= self.items@.len(),
                rows@.len() == i,
                forall|j: int|
                    0 <= j < i ==> (#[trigger] rows@[j])@ == self.items@[j]@.stored()
                        && rows@[j]@.record() == Some(self.items@[j]@),
            decreases self.items@.len() - i,
        {
            rows.push(StoredMerch::of(&self.items[i]));
            i = i + 1;
        }
        rows
    }

    /// The number of records.
    pub fn len(&self) -> (n: usize)
        ensures
            n == self@.len(),
    {
        self.items.len()
    }

    /// The records in order, to read.
    pub fn list(&self) -> (items: &Vec<Merch>)
        ensures
            views_of(items@) == self@,
    {
        &self.items
    }

    /// Adds `record` at the end: its position is the new length.
    pub fn add(&mut self, record: Merch)
        ensures
            final(self)@ == old(self)@.push(record@),
    {
        self.items.push(record);
    }

    /// Deletes the record at `position`, counted from one. Every record
    /// behind it moves up by one. Where no record stands at `position` the
    /// list stays as it is.
    pub fn delete_at(&mut self, position: usize) -> (r: Result<(), NotFoundError>)
        ensures
            r is Ok <==> 1 <= position <= old(self)@.len(),
            r is Ok ==> final(self)@ == old(self)@.remove(position - 1),
            r is Ok ==> final(self)@.len() == old(self)@.len() - 1,
            r is Ok ==> forall|i: int|
                0 <= i < position - 1 ==> (#[trigger] final(self)@[i]) == old(self)@[i],
            r is Ok ==> forall|i: int|
                position - 1 <= i < final(self)@.len() ==> (#[trigger] final(self)@[i]) == old(
                    self,
                )@[i + 1],
            r is Err ==> final(self)@ == old(self)@,
    {
        if position > 0 && position <= self.items.len() {
            self.items.remove(position - 1);
            Ok(())
        } else {
            Err(NotFoundError)
        }
    }

    /// The text of the list: a line for each record with its position, or
    /// `No products to display`.
    pub fn listing(&self) -> (r: String)
        ensures
            r@ == listing_of(self@),
    {
        let n: usize = self.items.len();
        if n == 0 {
            return String::from_str("No products to display");
        }
        let mut out = String::new();
        let mut i: usize = 0;
        proof {
            reveal_strlit("\n");
        }
        while i < n
            invariant
                i <= n == self.items@.len(),
                "\n"@ == seq!['\n'],
                out@ == lines(self@, i as nat),
            decreases n - i,
        {
            let line = self.items[i].line(i + 1);
            out.append(line.as_str());
            out.append("\n");
            i = i + 1;
        }
        out
    }
}

} // verus!
