//! One entry of the inventory.

use crate::decimal::{Decimal, DecimalView};
use crate::digits::{count_text, nat_digits};
use vstd::prelude::*;
use vstd::string::*;

verus! {

/// A record as mathematics sees it.
pub struct MerchView {
    pub size: Seq<char>,
    pub merch_type: Seq<char>,
    pub price: DecimalView,
    pub avail_amount: nat,
    pub total_price: DecimalView,
    pub design: Seq<char>,
}

impl MerchView {
    /// What holds of a record when it is created: no text is empty, the price
    /// and the amount are above zero, and the total is the price taken once
    /// for each item in stock.
    pub open spec fn valid(self) -> bool {
        &&& self.merch_type.len() > 0
        &&& self.size.len() > 0
        &&& self.price.units > 0
        &&& self.design.len() > 0
        &&& self.avail_amount > 0
        &&& self.total_price == self.price.times(self.avail_amount)
    }

    /// The line that shows the record at `position` of the list.
    pub open spec fn line(self, position: nat) -> Seq<char> {
        nat_digits(position) + ". Type: "@ + self.merch_type + ", Design: "@ + self.design
            + ", Size: "@ + self.size + ", Available Amount: "@ + nat_digits(self.avail_amount)
            + ", Price: $"@ + self.price.text() + ", Total Price: $"@ + self.total_price.text()
    }
}

/// One kind of merchandise in stock. The total price is fixed when the
/// record is made and kept as it is from then on.
#[derive(Clone, Debug, PartialEq, Eq)]
pub struct Merch {
    pub size: String,
    pub merch_type: String,
    pub price: Decimal,
    pub avail_amount: usize,
    pub total_price: Decimal,
    pub design: String,
}

impl View for Merch {
    type V = MerchView;

    open spec fn view(&self) -> MerchView {
        MerchView {
            size: self.size@,
            merch_type: self.merch_type@,
            price: self.price@,
            avail_amount: self.avail_amount as nat,
            total_price: self.total_price@,
            design: self.design@,
        }
    }
}

impl Merch {
    /// The line that shows the record at `position` of the list:
    /// `1. Type: Shirt, Design: D1, Size: M, Available Amount: 3, Price: $20, Total Price: $60`.
    pub fn line(&self, position: usize) -> (r: String)
        ensures
            r@ == self@.line(position as nat),
    {
        let mut out = count_text(position);
        out.append(". Type: ");
        out.append(self.merch_type.as_str());
        out.append(", Design: ");
        out.append(self.design.as_str());
        out.append(", Size: ");
        out.append(self.size.as_str());
        out.append(", Available Amount: ");
        out.append(count_text(self.avail_amount).as_str());
        out.append(", Price: $");
        self.price.append_to(&mut out);
        out.append(", Total Price: $");
        self.total_price.append_to(&mut out);
        out
    }
}

} // verus!
