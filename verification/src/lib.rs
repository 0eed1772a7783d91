//! Reconciles the folder tree of a remote file store with a local download
//! directory: what is not yet local is offered for download, what is local is
//! archived and removed from the remote side.
//!
//! The library decides and never acts. It is handed the names of the
//! working directory and the listings of the remote store as plain values,
//! and hands back requests to send and decisions to carry out:
//!
//! - [`inventory`] tells which local names count as downloaded;
//! - [`flatten`] walks the remote tree, one listing at a time, down to its
//!   leaves, and [`tree`] says what those leaves are;
//! - [`reconcile`] gives every remote video its decision;
//! - [`policy`] picks what to delete when a video is archived;
//! - [`client`] builds the requests to the remote store;
//! - [`config`] and [`decimal`] read the command line.

pub mod client;
pub mod config;
pub mod decimal;
pub mod entry;
pub mod flatten;
pub mod inventory;
pub mod policy;
pub mod reconcile;
pub mod tree;

pub use client::{
    delete_file, file_url, file_url_endpoint, files_list, files_list_endpoint,
    get_access_token_header, get_authorization_header, Client, ClientError, Header, Method,
    Request, RequestView,
};
pub use config::{
    Config, ConfigView, INVALID_MAX_DISPLAY, INVALID_PARENT_ID, NOT_ENOUGH_ARGUMENTS,
};
pub use decimal::{i64_to_string, parse_i64, parse_u32, u64_to_string};
pub use entry::{contains_name, EntryKind, EntryView, RemoteEntry};
pub use flatten::{Flattener, FlattenerView};
pub use inventory::{ends_with, is_marker_name, local_inventory, PARTIAL_MARKER};
pub use policy::{parent_safe_to_delete, plan_deletion, resolve_deletion, DeletionStep};
pub use reconcile::{
    decide, run, Decision, DecisionView, Reconciler, ReconcilerView, COMPLETED_DIR,
};
