//! Records as storage holds them: the texts and the amount as they are, the
//! two prices as the text of a number.

use crate::decimal::{decimal_of, lemma_text_round_trip, Decimal};
use crate::merch::{Merch, MerchView};
use vstd::prelude::*;
use vstd::string::*;

verus! {

/// A stored record as mathematics sees it.
pub struct StoredView {
    pub size: Seq<char>,
    pub merch_type: Seq<char>,
    pub price: Seq<char>,
    pub avail_amount: nat,
    pub total_price: Seq<char>,
    pub design: Seq<char>,
}

impl StoredView {
    /// The record that the stored one stands for; `None` where one of its
    /// prices is no number.
    pub open spec fn record(self) -> Option<MerchView> {
        match (decimal_of(self.price), decimal_of(self.total_price)) {
            (Some(price), Some(total_price)) => Some(
                MerchView {
                    size: self.size,
                    merch_type: self.merch_type,
                    price,
                    avail_amount: self.avail_amount,
                    total_price,
                    design: self.design,
                },
            ),
            _ => None,
        }
    }
}

impl MerchView {
    /// The record as it is stored.
    pub open spec fn stored(self) -> StoredView {
        StoredView {
            size: self.size,
            merch_type: self.merch_type,
            price: self.price.text(),
            avail_amount: self.avail_amount,
            total_price: self.total_price.text(),
            design: self.design,
        }
    }
}

/// A record that was stored stands for itself when it is read back.
pub proof fn lemma_stored_round_trip(record: MerchView)
    requires
        record.price.normal(),
        record.price.units <= u128::MAX,
        record.total_price.normal(),
        record.total_price.units <= u128::MAX,
    ensures
        record.stored().record() == Some(record),
{
    lemma_text_round_trip(record.price);
    lemma_text_round_trip(record.total_price);
}

/// A record as storage holds it.
#[derive(Clone, Debug, PartialEq, Eq)]
pub struct StoredMerch {
    pub size: String,
    pub merch_type: String,
    pub price: String,
    pub avail_amount: usize,
    pub total_price: String,
    pub design: String,
}

impl View for StoredMerch {
    type V = StoredView;

    open spec fn view(&self) -> StoredView {
        StoredView {
            size: self.size@,
            merch_type: self.merch_type@,
            price: self.price@,
            avail_amount: self.avail_amount as nat,
            total_price: self.total_price@,
            design: self.design@,
        }
    }
}

impl StoredMerch {
    /// The stored form of `record`. It reads back as `record`.
    pub fn of(record: &Merch) -> (r: StoredMerch)
        ensures
            r@ == record@.stored(),
            r@.record() == Some(record@),
    {
        StoredMerch {
            size: record.size.clone(),
            merch_type: record.merch_type.clone(),
            price: record.price.to_text(),
            avail_amount: record.avail_amount,
            total_price: record.total_price.to_text(),
            design: record.design.clone(),
        }
    }

    /// The record that this stored one stands for; `None` where one of its
    /// prices is no number.
    pub fn record(&self) -> (r: Option<Merch>)
        ensures
            match r {
                Some(record) => self@.record() == Some(record@),
                None => self@.record() is None,
            },
    {
        let price: Decimal = match Decimal::parse(self.price.as_str()) {
            Some(d) => d,
            None => {
                return None;
            },
        };
        let total_price: Decimal = match Decimal::parse(self.total_price.as_str()) {
            Some(d) => d,
            None => {
                return None;
            },
        };
        Some(
            Merch {
                size: self.size.clone(),
                merch_type: self.merch_type.clone(),
                price,
                avail_amount: self.avail_amount,
                total_price,
                design: self.design.clone(),
            },
        )
    }
}

} // verus!
