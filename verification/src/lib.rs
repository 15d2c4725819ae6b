//! Decisions, arithmetic and reports of a ledger's command line client.

pub mod address_map;
pub mod assets;
pub mod balances;
pub mod bond_query;
pub mod bonds;
pub mod conversions;
pub mod deltas;
pub mod governance;
pub mod names;
pub mod params;
pub mod pinned;
pub mod report;
pub mod shielded;
pub mod slashing;
pub mod stake;
pub mod transfers;
pub mod tx;
pub mod validity_predicate;
pub mod votes;
