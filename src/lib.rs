//! Page-table construction for a 64-bit ARM kernel with a 4 KiB granule and
//! three translation levels: typed descriptors, tables, an arena of child
//! tables, the range mapper, and the register images that publish the root.
use vstd::prelude::*;

pub mod addrs;
pub mod arena;
pub mod bits;
pub mod boot;
pub mod coverage;
pub mod descriptors;
pub mod levels;
pub mod mapper;
pub mod table;
pub mod ttbr;
