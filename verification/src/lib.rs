//! Verified core of the Navis extension runtime: manifest validation,
//! HostView contracts, subscription and operation ledgers, and the
//! declarative conversions that turn manifest contributions into host
//! configuration.

pub mod text;
pub mod interfaces;
pub mod models;
pub mod seqs;
pub mod host_view;
pub mod loader;
pub mod event;
pub mod auth;
pub mod gateway;
pub mod lexical;
pub mod operation;
pub mod context;
pub mod services;
pub mod duplicate;
pub mod contributions;
pub mod permission;
pub mod runtime;
pub mod lifecycle;
pub mod installer;
pub mod subscriptions;
pub mod component;
pub mod apply;
