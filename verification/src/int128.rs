//! Newtypes for the 128-bit amounts that accounts and the engine store.

use vstd::prelude::*;

verus! {

/// An unsigned 128-bit amount.
#[derive(Clone, Copy, Debug, PartialEq, Eq, Structural)]
pub struct U128 {
    pub v: u128,
}

impl U128 {
    /// The amount `v`.
    pub fn new(v: u128) -> (r: U128)
        ensures
            r.v == v,
    {
        U128 { v }
    }

    pub fn get(self) -> (r: u128)
        ensures
            r == self.v,
    {
        self.v
    }

    pub fn is_zero(self) -> (r: bool)
        ensures
            r == (self.v == 0),
    {
        self.v == 0
    }

    pub fn checked_add(self, rhs: u128) -> (r: Option<U128>)
        ensures
            r == (if self.v + rhs <= u128::MAX {
                Some(U128 { v: (self.v + rhs) as u128 })
            } else {
                None::<U128>
            }),
    {
        match self.v.checked_add(rhs) {
            Some(v) => Some(U128 { v }),
            None => None,
        }
    }
}

/// A signed 128-bit amount.
#[derive(Clone, Copy, Debug, PartialEq, Eq, Structural)]
pub struct I128 {
    pub v: i128,
}

impl I128 {
    /// The amount `v`.
    pub fn new(v: i128) -> (r: I128)
        ensures
            r.v == v,
    {
        I128 { v }
    }

    pub fn get(self) -> (r: i128)
        ensures
            r == self.v,
    {
        self.v
    }

    pub fn is_zero(self) -> (r: bool)
        ensures
            r == (self.v == 0),
    {
        self.v == 0
    }

    pub fn checked_add(self, rhs: i128) -> (r: Option<I128>)
        ensures
            r == (if i128::MIN <= self.v + rhs <= i128::MAX {
                Some(I128 { v: (self.v + rhs) as i128 })
            } else {
                None::<I128>
            }),
    {
        match self.v.checked_add(rhs) {
            Some(v) => Some(I128 { v }),
            None => None,
        }
    }
}

} // verus!
