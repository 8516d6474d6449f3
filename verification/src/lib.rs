//! On-chain anchoring of an exchange that runs inside an enclave: the accounts and their
//! proxies, the commands sent to the enclave, and the signed, numbered snapshots it reports.

pub mod account_data;
pub mod assets;
pub mod balances;
pub mod bounded;
pub mod codec;
pub mod crypto;
pub mod egress;
pub mod error;
pub mod fees;
pub mod ingress;
pub mod ledger;
pub mod markets;
pub mod ocex;
pub mod orderbook;
pub mod registry;
pub mod scale;
pub mod snapshot;
pub mod types;
pub mod withdrawal;

pub use assets::AssetId;
pub use crypto::Signature;
pub use orderbook::SignedOrder;
pub use types::{AccountId, Balance, H256};
