//! In-memory model of a job-application tracker: records, the entry and
//! edit forms, the reducer that consumes user intents, the filtered and
//! sorted view of the records, and the JSON text format they are kept in.
#![allow(unused_imports)]

pub mod clock;
pub mod data;
pub mod message;
pub mod search;
pub mod state;
pub mod storage;
pub mod text;
pub mod update;

pub use data::JobApplication;
pub use data::JobStatus;
