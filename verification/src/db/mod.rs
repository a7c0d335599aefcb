//! Database rows, the status enums stored in them, and the query logic that
//! does not touch the database itself.
pub mod models;
pub mod schema;
