//! Host side of the Bluetooth Low Energy Host Controller Interface.
//!
//! The crate frames and parses the four nested layers that travel over the
//! byte stream to a BLE radio controller, and serves user-defined
//! attributes on top of them:
//!
//! - [`data`]: the fixed-capacity byte buffer that every layer hands on;
//! - [`wire`]: little-endian 16-bit fields;
//! - [`command`] and [`event`]: what the host sends to the controller and
//!   what the controller reports;
//! - [`acl`], [`l2cap`] and [`att`]: the envelopes of data and the
//!   Attribute Protocol inside them;
//! - [`controller`]: the transport that a user supplies, and the host that
//!   polls it and runs commands over it;
//! - [`attribute_server`]: the handle table of a list of services and the
//!   answers to the requests of a peer.
//!
//! Every function carries a contract that Verus proves. The transport and
//! the characteristics of the services are the user's code: nothing is
//! assumed of them, and what the host and the server make of their
//! answers is stated for every answer.

pub mod acl;
pub mod att;
pub mod attribute_server;
pub mod command;
pub mod controller;
pub mod data;
pub mod event;
pub mod l2cap;
pub mod wire;

pub use crate::controller::{Ble, Error, HciConnection, PollResult};
pub use crate::data::Data;
