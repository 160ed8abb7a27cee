//! Driver and moving-inversions tester for asynchronous 64k x 1 / 256k x 1
//! DRAM chips wired directly to general-purpose I/O pins.

pub mod pins;
pub mod delay;
pub mod timings;
pub mod address;
pub mod dram;
pub mod inversions;
pub mod sim;

