//! The sync logic of Synclock: reading time entries of Early and Toggl Track,
//! finding the issue keys in them, and logging them once each as Jira
//! worklogs or YouTrack work items.
//!
//! Nothing in this library talks to the network, the disk or the screen.
//! Where the program alternates between a request and a decision, the
//! decision is a function here, and the caller hands in what the request
//! brought back.

pub mod auto_sync;
pub mod clock;
pub mod config;
pub mod early;
pub mod entries;
pub mod http;
pub mod issue_keys;
pub mod jira;
pub mod minutes;
pub mod panel;
pub mod percent;
pub mod preview;
pub mod sorting;
pub mod string_map;
pub mod sync;
pub mod text;
pub mod toggl;
pub mod youtrack;
