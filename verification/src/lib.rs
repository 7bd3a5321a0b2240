//! Verified core of a REST object store for content-addressed backup
//! repositories.
//!
//! A backup client stores the objects of a repository (its configuration,
//! data blobs, index files, snapshots, keys and locks) through a small
//! REST protocol. This library holds what decides on each request:
//!
//! - [`path`] turns a request path into a validated reference to a
//!   repository, a collection or an object, and rejects every path that
//!   is malformed or tries to leave the storage root;
//! - [`acl`] decides whether a user may do what a request asks, from
//!   access rules and three global switches;
//! - [`auth`] verifies the credentials that a request presents;
//! - [`storage`] says what the store holds and what each operation does
//!   to it, [`memory`] is a store in memory that does just that, and
//!   [`layout`] says where a reference lies below the root of a store on
//!   disk;
//! - [`handlers`] puts a request through these steps and names the
//!   status that answers it;
//! - [`commands`] holds the options of the command line.
//!
//! Every function is verified against a contract over plain mathematical
//! values, and the properties that the parts promise each other are stated
//! and proved as `law_` functions beside them. The one thing taken on
//! trust is the SHA-256 function of the crate `sha2`, of which only its
//! being a function is used.

pub mod acl;
pub mod auth;
pub mod commands;
pub mod handlers;
pub mod layout;
pub mod memory;
pub mod path;
pub mod storage;
pub mod text;
