//! Issuance, validation and single-use rotation of signed access/refresh
//! token pairs.

pub mod claims;
pub mod text;
pub mod decimal;
pub mod outside;
pub mod payload;
pub mod codec;
pub mod validator;
pub mod issuer;
pub mod flow;
pub mod ledger;
