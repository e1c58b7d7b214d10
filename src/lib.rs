//! Fixed-capacity multi-list tables and their single-pass envelope decoder.
use vstd::prelude::*;

pub mod decode;
pub mod error;
pub mod layout;
pub mod schema;
pub mod table;

pub use decode::{begin_table, build_table, decode, Field};
pub use error::{DecodeError, FieldName};
pub use layout::{record_layout, record_size};
pub use schema::{push_codes, AttributeKey, SlotClass};
pub use table::{Table, TableBuilder};

verus! {

} // verus!
