//! The controller: what happens when the user saves the form, asks for the
//! list, or deletes an entry.
//!
//! The controller owns the inventory. It changes the list and says what the
//! user is told. Writing the list to storage is left to the caller: each
//! change is handed back as a `Change`, and once the caller has tried to
//! write the list, `Change::report` gives the words for how that went.

use crate::digits::{count_of, parse_count};
use crate::form::{lemma_entry_total, FormInput, ValidationError};
use crate::inventory::{listing_of, Inventory};
use crate::merch::MerchView;
use vstd::prelude::*;
use vstd::string::*;

verus! {

/// Why an entry was not deleted.
#[derive(Clone, Copy, Debug, PartialEq, Eq, Structural)]
pub enum DeleteError {
    /// What was typed is no position.
    InvalidNumber,
    /// No record stands at the position.
    NotFound,
}

impl DeleteError {
    /// What the user is told.
    pub open spec fn text(self) -> Seq<char> {
        match self {
            DeleteError::InvalidNumber => "ID must be a valid number"@,
            DeleteError::NotFound => "Could not find index. Please enter a valid ID"@,
        }
    }

    /// What the user is told.
    pub fn message(&self) -> (r: &'static str)
        ensures
            r@ == self.text(),
    {
        match self {
            DeleteError::InvalidNumber => "ID must be a valid number",
            DeleteError::NotFound => "Could not find index. Please enter a valid ID",
        }
    }
}

/// A change of the list that is to be written to storage.
#[derive(Clone, Copy, Debug, PartialEq, Eq, Structural)]
pub enum Change {
    Added,
    Deleted,
}

impl Change {
    /// What the user is told once the list was written, or could not be:
    /// `failure` is the text of the error, if there was one.
    pub open spec fn report_text(self, failure: Option<Seq<char>>) -> Seq<char> {
        match (self, failure) {
            (Change::Added, None) => "Entry saved successfully"@,
            (Change::Added, Some(error)) => "Error saving entry: "@ + error,
            (Change::Deleted, None) => "Entry deleted successfully"@,
            (Change::Deleted, Some(error)) => "Error deleting entry: "@ + error,
        }
    }

    /// What the user is told once the list was written, or could not be:
    /// `failure` is the text of the error, if there was one. The change to
    /// the list stands either way.
    pub fn report(&self, failure: Option<&str>) -> (r: String)
        ensures
            r@ == self.report_text(
                match failure {
                    Some(error) => Some(error@),
                    None => None,
                },
            ),
    {
        match failure {
            None => match self {
                Change::Added => String::from_str("Entry saved successfully"),
                Change::Deleted => String::from_str("Entry deleted successfully"),
            },
            Some(error) => {
                let mut out = match self {
                    Change::Added => String::from_str("Error saving entry: "),
                    Change::Deleted => String::from_str("Error deleting entry: "),
                };
                out.append(error);
                out
            },
        }
    }
}

/// The form's controller, with the inventory that it owns.
#[derive(Clone, Debug, PartialEq, Eq)]
pub struct Controller {
    inventory: Inventory,
}

impl View for Controller {
    type V = Seq<MerchView>;

    closed spec fn view(&self) -> Seq<MerchView> {
        self.inventory@
    }
}

impl Controller {
    /// A controller for `inventory`.
    pub fn new(inventory: Inventory) -> (r: Controller)
        ensures
            r@ == inventory@,
    {
        Controller { inventory }
    }

    /// The inventory, to read.
    pub fn inventory(&self) -> (r: &Inventory)
        ensures
            r@ == self@,
    {
        &self.inventory
    }

    /// Saves the form: where all five texts are right, the record that they
    /// make is added at the end of the list, and the change is handed back to
    /// be written to storage; where one is wrong, nothing changes and the
    /// first such text is reported.
    pub fn submit(&mut self, form: &FormInput) -> (r: Result<Change, ValidationError>)
        ensures
            match r {
                Ok(change) => change == Change::Added && form@.failure() is None && final(self)@
                    == old(self)@.push(form@.entry()),
                Err(e) => form@.failure() == Some(e) && final(self)@ == old(self)@,
            },
            r is Ok ==> form@.entry().valid(),
            r is Ok ==> final(self)@.len() == old(self)@.len() + 1,
            r is Ok ==> final(self)@[final(self)@.len() - 1] == form@.entry(),
    {
        proof {
            if form@.failure() is None {
                lemma_entry_total(form@);
            }
        }
        match form.validate() {
            Ok(record) => {
                self.inventory.add(record);
                Ok(Change::Added)
            },
            Err(e) => Err(e),
        }
    }

    /// The text of the list.
    pub fn show_all(&self) -> (r: String)
        ensures
            r@ == listing_of(self@),
    {
        self.inventory.listing()
    }

    /// Deletes the entry whose position was typed, and hands the change back
    /// to be written to storage. Where the text is no position, or no record
    /// stands there, nothing changes.
    pub fn delete(&mut self, typed: &str) -> (r: Result<Change, DeleteError>)
        ensures
            match r {
                Ok(change) => count_of(typed@) matches Some(position) && 1 <= position <= old(
                    self,
                )@.len() && final(self)@ == old(self)@.remove(position - 1) && change
                    == Change::Deleted,
                Err(DeleteError::InvalidNumber) => count_of(typed@) is None && final(self)@
                    == old(self)@,
                Err(DeleteError::NotFound) => count_of(typed@) matches Some(position) && !(1
                    <= position <= old(self)@.len()) && final(self)@ == old(self)@,
            },
    {
        match parse_count(typed) {
            None => Err(DeleteError::InvalidNumber),
            Some(position) => match self.inventory.delete_at(position) {
                Ok(_) => Ok(Change::Deleted),
                Err(_) => Err(DeleteError::NotFound),
            },
        }
    }
}

} // verus!
