pub mod error;
pub mod types;
pub mod registry;
pub mod quota;
pub mod merit;
pub mod minting;
pub mod governance;
pub mod antifraud;
pub mod l1_settlement;
pub mod l2_rollup;
pub mod mechanism;
pub mod registration;
pub mod scoring;
pub mod recording;
pub mod retroactive;
pub mod carbon;
pub mod chain_creation;
pub mod gmc_base;
pub mod flows;
