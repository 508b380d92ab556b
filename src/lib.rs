//! Browsing and deleting the local branches of a repository: enumeration of
//! branch snapshots, their ordering and labels, and the decisions of the
//! interactive session that deletes them.
pub mod branch;
pub mod label;
pub mod order;
pub mod session;
pub mod time;
