//! Password hygiene tools: accounts, the breach check against a range API and
//! a small TCP scanner.

pub mod account;
pub mod error;
pub mod hibp;
pub mod scanner;
