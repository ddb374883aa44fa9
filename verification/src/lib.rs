use vstd::prelude::*;

pub mod text;
pub mod crypt;
pub mod data;
pub mod db;

verus! {
} // verus!
