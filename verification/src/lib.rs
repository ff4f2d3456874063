//! Verified core of a cluster scheduler: job specifications, cluster state,
//! evaluation queueing, placement and the supporting state machines.

pub mod acl;
pub mod api;
pub mod artifact;
pub mod agent;
pub mod allocrunner;
pub mod allocs;
pub mod cli;
pub mod client;
pub mod client_state;
pub mod config;
pub mod constraint;
pub mod deployment;
pub mod dispatch;
pub mod drain;
pub mod driver;
pub mod error;
pub mod fingerprint;
pub mod fsm;
pub mod eval;
pub mod eval_queue;
pub mod id;
pub mod jobspec;
pub mod membership;
pub mod metrics;
pub mod namespace;
pub mod network;
pub mod node;
pub mod periodic;
pub mod raft;
pub mod ranking;
pub mod raft_log;
pub mod reschedule;
pub mod rpc;
pub mod scaling;
pub mod scheduler;
pub mod server;
pub mod service;
pub mod state;
pub mod strmap;
pub mod taskrunner;
pub mod template;
pub mod text;
pub mod tls;
pub mod update;
pub mod variables;
pub mod volume;
