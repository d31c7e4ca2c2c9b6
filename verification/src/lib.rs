//! An inventory of merchandise: the records, the ordered store that holds
//! them, and the rules of the form through which a user adds, lists and
//! deletes entries.
//!
//! - `digits` and `decimal` read and show the numbers of a record: counts
//!   and exact decimal prices.
//! - `merch` is one record, `inventory` the list of records, `stored` the
//!   form in which records are kept in storage.
//! - `form` holds the rules that turn five typed texts into a record, and
//!   `controller` what happens when the user saves, lists or deletes.
//!
//! The library reads and writes no file and draws no screen: it is handed
//! texts and hands back values and the words to show.

pub mod controller;
pub mod decimal;
pub mod digits;
pub mod form;
pub mod inventory;
pub mod merch;
pub mod stored;
