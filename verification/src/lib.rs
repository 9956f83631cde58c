//! Host-central port broker for working directories: the rules by which
//! services are read, given ports, written to an environment file and listed.

pub mod allocate;
pub mod collect;
pub mod display;
pub mod envfile;
pub mod glob;
pub mod hostname;
pub mod interpolate;
pub mod ipv6;
pub mod listing;
pub mod probe;
pub mod release;
pub mod request;
pub mod strmap;
pub mod table;
pub mod text;
