//! Newtyped identifiers.
//!
//! `IndexerId`, `AppId`, and `RemoteIndexerId` appear together in the
//! application-sync mapping and are all integers underneath. Swapping two of
//! them would compile and silently desynchronise every downstream
//! application, so they are distinct types.
use vstd::prelude::*;

use crate::model::{decimal, int_to_string};

verus! {

/// Identifies an indexer within this Oxidarr instance.
#[derive(Debug, Clone, Copy, PartialEq, Eq, Structural, PartialOrd, Ord, Hash)]
pub struct IndexerId(pub i32);

impl IndexerId {
    /// The id as text: its value in decimal.
    pub fn to_string(&self) -> (r: String)
        ensures
            r@ == decimal(self.0 as int),
    {
        int_to_string(self.0 as i64)
    }
}

/// Identifies a configured downstream application.
#[derive(Debug, Clone, Copy, PartialEq, Eq, Structural, PartialOrd, Ord, Hash)]
pub struct AppId(pub i32);

impl AppId {
    /// The id as text: its value in decimal.
    pub fn to_string(&self) -> (r: String)
        ensures
            r@ == decimal(self.0 as int),
    {
        int_to_string(self.0 as i64)
    }
}

/// Identifies an indexer *inside a remote application*, not here.
#[derive(Debug, Clone, Copy, PartialEq, Eq, Structural, PartialOrd, Ord, Hash)]
pub struct RemoteIndexerId(pub i32);

impl RemoteIndexerId {
    /// The id as text: its value in decimal.
    pub fn to_string(&self) -> (r: String)
        ensures
            r@ == decimal(self.0 as int),
    {
        int_to_string(self.0 as i64)
    }
}

} // verus!
