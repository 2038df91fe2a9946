//! Schedula: conflict-free university timetable generation, plan and
//! license rules, and the small decision functions that the hub server,
//! the license server and the desktop app share.

pub mod access;
pub mod billing;
pub mod credentials;
pub mod csp;
pub mod import;
pub mod licensing;
pub mod mail;
pub mod models;
pub mod rules;
pub mod scheduler;
pub mod session;
pub mod text;
pub mod timetable;

use vstd::prelude::*;

verus! {

} // verus!
