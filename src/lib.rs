//! Order lifecycle and notification core of a small storefront.
pub mod status;
pub mod order;
pub mod store;
pub mod code;
pub mod checkout;
pub mod notify;
pub mod auth;
