//! Typed, key-centric DynamoDB access: the verified core.
//!
//! Key layouts, expression bindings, conditional-write and transaction
//! assembly, query planning and the schema vocabulary, each with its contract.

pub mod attr;
pub mod dict;
pub mod entity;
pub mod error;
pub mod expand;
pub mod key;
pub mod expression;
pub mod occ;
pub mod order;
pub mod query;
pub mod request;
pub mod schema;
pub mod text;
pub mod tokens;
pub mod transaction;
pub mod write;
