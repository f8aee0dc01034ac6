pub mod allocators;
pub mod bitset;
pub mod entities;
pub mod fxhash;
pub mod ids;
pub mod links;
pub mod storage;
pub mod traits;
