//! Reading what GHCi prints.

pub mod ghc_message;
pub mod scan;
