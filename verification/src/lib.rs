//! Core domain logic for a membership organization's operational record:
//! a role/permission authorization engine and the attendance, absence-request
//! and gig-request workflows it gates, all verified against an in-memory
//! storage model. Transport, persistence and other I/O live outside this
//! crate and talk to it through plain values.

pub mod absence;
pub mod attendance;
pub mod auth;
pub mod catalog;
pub mod error;
pub mod event;
pub mod gig;
pub mod setlist;
pub mod store;
pub mod todo;
pub mod uniform;
pub mod upload;
pub mod util;
pub mod variable;
