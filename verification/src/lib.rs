use vstd::prelude::*;

pub mod bitset;
pub mod char_sync;
pub mod character;
pub mod entity;
pub mod enums;
pub mod error;
pub mod factory;
pub mod gear;
pub mod item;
pub mod muip;
pub mod scene;
pub mod strmap;
pub mod util;

verus! {

} // verus!
