//! Address and CPU bookkeeping for a host's pot jails.
//!
//! - `text`, `util`: the line and value readers that every configuration
//!   file goes through.
//! - `ip`: addresses and networks as integers, with their arithmetic.
//! - `system`, `bridge`, `pot`: the system, bridge and jail configurations.
//! - `ipdb`: the ordered database of reserved addresses.
//! - `query`: building the database and answering next-free, validate,
//!   new-subnet and hosts-file queries.
//! - `roundtrip`: configurations written out in normal form read back the same.
//! - `readings`: what particular jail and bridge files describe.
//! - `cpu`: CPU sets of running jails, loads, selection and rebalancing.

pub mod bridge;
pub mod cpu;
pub mod error;
pub mod ip;
pub mod ipdb;
pub mod pot;
pub mod query;
pub mod readings;
pub mod roundtrip;
pub mod system;
pub mod text;
pub mod util;
