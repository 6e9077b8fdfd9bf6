//! A selection broker: the server side of clipboard sharing between
//! clients that do not trust each other.
//!
//! Each seat has one selection. A client offers data through a *source*,
//! asks through a *device* that the source become its seat's selection, and
//! learns of every change of that selection through its devices, which are
//! handed an *offer* to query what the current source advertises. Only the
//! client that holds the keyboard focus may change the selection.
//!
//! The broker decides and records; it moves no bytes and talks to nobody.
//! Whoever runs it hands it one request at a time, together with what the
//! collaborators know (whether the requester holds the focus, whether a
//! seat exists), and delivers the notifications that the broker returns.
//!
//! * [`broker`] holds the broker and its requests, [`manager`], [`source`]
//!   and [`device`] the requests as the protocol objects receive them.
//! * [`seat`] and [`seat_data`] hold the state of one seat.
//! * [`model`] says what the broker is and does in mathematical terms;
//!   [`reach`] shows that every request keeps the state well formed, and
//!   [`laws`] states what follows for whoever uses the broker.
//! * [`input`] is the vocabulary of the input backends whose focus
//!   tracking the broker relies on.

pub mod broker;
pub mod device;
pub mod error;
pub mod ids;
pub mod input;
pub mod laws;
pub mod manager;
pub mod model;
pub mod reach;
pub mod seat;
pub mod seat_data;
pub mod sequences;
pub mod source;
