//! Verified core of the ApexOS agent daemon.
pub mod text;
pub mod json;
pub mod policy;
pub mod types;
pub mod assoc;
pub mod tree;
pub mod state;
pub mod tools;
pub mod supervisor;
pub mod dispatch;
pub mod eventlog;
pub mod turn;
pub mod agent;
pub mod gateway;
pub mod order;
pub mod council;
pub mod sensor;
pub mod terminal;
pub mod bootstrap;
