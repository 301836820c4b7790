//! The data that nodes exchange: identities, peers, messages, names, files, sites.

pub mod addr;
pub mod dns;
pub mod error;
pub mod identity;
pub mod manifest;
pub mod message;
pub mod peer;
pub mod profile;
pub mod site;
