//! Verified core of the player picker: schedule sharing, read-only polling,
//! online sync helpers, round roster editing and the worker's admin checks.
use vstd::prelude::*;

pub mod admin;
pub mod admin_page;
pub mod api;
pub mod browser;
pub mod coach;
pub mod follow;
pub mod json;
pub mod models;
pub mod online;
pub mod read_only;
pub mod roster_edit;
pub mod score_entry;
pub mod setup;
pub mod share;
pub mod storage;
pub mod sync;
pub mod text;

verus! {

} // verus!
