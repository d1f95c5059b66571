#![allow(non_camel_case_types)]
//! Verified core of the evm2 execution engine: primitive values, the transaction state
//! overlay with its revert journal, block access lists, warm-address tracking, and block-level
//! accounting helpers.

pub mod primitives;
pub mod vecmap;
pub mod bytecode;
pub mod config;
pub mod db;
pub mod host;
pub mod state;
pub mod eip7708;
pub mod fiber;
pub mod block;
pub mod bal;
pub mod bal_account;
pub mod bal_context;
pub mod bal_database;
pub mod bal_dump;
pub mod warm_addresses;
pub mod transaction;
pub mod evm;
pub mod create;
pub mod system;
