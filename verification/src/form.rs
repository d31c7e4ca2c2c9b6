//! The entry form: five texts as the user typed them, and the rules that
//! turn them into a record.
//!
//! The texts are checked in a fixed order and the first one that fails is the
//! one that is reported.

use crate::decimal::{decimal_of, lemma_times_exact, pow10, Decimal, DecimalView};
use crate::digits::{count_of, parse_count};
use crate::merch::{Merch, MerchView};
use vstd::prelude::*;
use vstd::string::*;

verus! {

/// The most units a price may have. The total of any amount of items at such
/// a price still has no more units than a `u128` holds.
pub const MAX_PRICE_UNITS: u128 = 18446744073709551615;

/// The price that `s` writes: a number above zero with no more than
/// `MAX_PRICE_UNITS` units.
pub open spec fn price_of(s: Seq<char>) -> Option<DecimalView> {
    match decimal_of(s) {
        Some(d) => if 0 < d.units <= MAX_PRICE_UNITS {
            Some(d)
        } else {
            None
        },
        None => None,
    }
}

/// The amount that `s` writes: a count above zero.
pub open spec fn amount_of(s: Seq<char>) -> Option<usize> {
    match count_of(s) {
        Some(n) => if n > 0 {
            Some(n)
        } else {
            None
        },
        None => None,
    }
}

/// The text that is wrong in a form.
#[derive(Clone, Copy, Debug, PartialEq, Eq, Structural)]
pub enum ValidationError {
    MissingType,
    MissingSize,
    InvalidPrice,
    MissingDesign,
    InvalidAmount,
}

impl ValidationError {
    /// What the user is told.
    pub open spec fn text(self) -> Seq<char> {
        match self {
            ValidationError::MissingType => "Please enter a product type."@,
            ValidationError::MissingSize => "Please enter a size"@,
            ValidationError::InvalidPrice => "Please enter a valid price"@,
            ValidationError::MissingDesign => "Please enter a design ID"@,
            ValidationError::InvalidAmount => "Please enter a valid amount"@,
        }
    }

    /// What the user is told.
    pub fn message(&self) -> (r: &'static str)
        ensures
            r@ == self.text(),
    {
        match self {
            ValidationError::MissingType => "Please enter a product type.",
            ValidationError::MissingSize => "Please enter a size",
            ValidationError::InvalidPrice => "Please enter a valid price",
            ValidationError::MissingDesign => "Please enter a design ID",
            ValidationError::InvalidAmount => "Please enter a valid amount",
        }
    }
}

/// A form as mathematics sees it.
pub struct FormView {
    pub merch_type: Seq<char>,
    pub size: Seq<char>,
    pub price: Seq<char>,
    pub design: Seq<char>,
    pub amount: Seq<char>,
}

impl FormView {
    /// The first text that is wrong, in the order type, size, price, design,
    /// amount; `None` where all five are right.
    pub open spec fn failure(self) -> Option<ValidationError> {
        if self.merch_type.len() == 0 {
            Some(ValidationError::MissingType)
        } else if self.size.len() == 0 {
            Some(ValidationError::MissingSize)
        } else if price_of(self.price) is None {
            Some(ValidationError::InvalidPrice)
        } else if self.design.len() == 0 {
            Some(ValidationError::MissingDesign)
        } else if amount_of(self.amount) is None {
            Some(ValidationError::InvalidAmount)
        } else {
            None
        }
    }

    /// The record that a form without failure makes: the texts as typed, the
    /// price and the amount as read, and the total as their product.
    pub open spec fn entry(self) -> MerchView {
        MerchView {
            size: self.size,
            merch_type: self.merch_type,
            price: price_of(self.price).unwrap(),
            avail_amount: amount_of(self.amount).unwrap() as nat,
            total_price: price_of(self.price).unwrap().times(
                amount_of(self.amount).unwrap() as nat,
            ),
            design: self.design,
        }
    }
}

/// The record that a form without failure makes is a valid one, and its
/// total is the price multiplied by the amount, exactly: with the price as
/// `price.units / 10^price.scale` and the total as `total.units /
/// 10^total.scale`, `total = price * amount`.
pub proof fn lemma_entry_total(form: FormView)
    requires
        form.failure() is None,
    ensures
        form.entry().valid(),
        form.entry().total_price.units * pow10(form.entry().price.scale)
            == form.entry().price.units * form.entry().avail_amount * pow10(
            form.entry().total_price.scale,
        ),
{
    lemma_times_exact(form.entry().price, form.entry().avail_amount);
}

/// The five texts of the form, as typed.
#[derive(Clone, Debug, PartialEq, Eq)]
pub struct FormInput {
    pub merch_type: String,
    pub size: String,
    pub price: String,
    pub design: String,
    pub amount: String,
}

impl View for FormInput {
    type V = FormView;

    open spec fn view(&self) -> FormView {
        FormView {
            merch_type: self.merch_type@,
            size: self.size@,
            price: self.price@,
            design: self.design@,
            amount: self.amount@,
        }
    }
}

/// Reads a price: a number above zero, within `MAX_PRICE_UNITS`.
pub fn parse_price(text: &str) -> (r: Option<Decimal>)
    ensures
        match r {
            Some(d) => price_of(text@) == Some(d@),
            None => price_of(text@) is None,
        },
{
    match Decimal::parse(text) {
        Some(d) => {
            if d.units() > 0 && d.units() <= MAX_PRICE_UNITS {
                Some(d)
            } else {
                None
            }
        },
        None => None,
    }
}

/// Reads an amount: a count above zero.
pub fn parse_amount(text: &str) -> (r: Option<usize>)
    ensures
        r == amount_of(text@),
{
    match parse_count(text) {
        Some(n) => {
            if n > 0 {
                Some(n)
            } else {
                None
            }
        },
        None => None,
    }
}

impl FormInput {
    /// Checks the five texts in order and makes the record. The first text
    /// that is wrong decides the error; the form itself is left as typed.
    pub fn validate(&self) -> (r: Result<Merch, ValidationError>)
        ensures
            match r {
                Ok(record) => self@.failure() is None && record@ == self@.entry(),
                Err(e) => self@.failure() == Some(e),
            },
    {
        if self.merch_type.as_str().is_empty() {
            return Err(ValidationError::MissingType);
        }
        if self.size.as_str().is_empty() {
            return Err(ValidationError::MissingSize);
        }
        let price: Decimal = match parse_price(self.price.as_str()) {
            Some(d) => d,
            None => {
                return Err(ValidationError::InvalidPrice);
            },
        };
        if self.design.as_str().is_empty() {
            return Err(ValidationError::MissingDesign);
        }
        let avail_amount: usize = match parse_amount(self.amount.as_str()) {
            Some(n) => n,
            None => {
                return Err(ValidationError::InvalidAmount);
            },
        };
        assert(price@.units * avail_amount <= u128::MAX) by (nonlinear_arith)
            requires
                price@.units <= 0xffff_ffff_ffff_ffff,
                avail_amount <= 0xffff_ffff_ffff_ffff,
        ;
        let total_price: Decimal = price.times(avail_amount).unwrap();
        Ok(
            Merch {
                size: self.size.clone(),
                merch_type: self.merch_type.clone(),
                price,
                avail_amount,
                total_price,
                design: self.design.clone(),
            },
        )
    }
}

} // verus!
