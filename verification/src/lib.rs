//! Verified core of a scene bridge: a host application drives a live scene
//! inside a separate compositor process by enqueueing mutation commands
//! against a shared node table, which is projected into renderable form on
//! every display frame.
//!
//! This crate holds the logic worth proving: the command queue and control
//! block, the node table and the semantics of each mutation command, the
//! connection retry state machine, the per-frame projection (including the
//! filtering of non-visual nodes), and the content-addressed asset cache
//! with download de-duplication. Threads, the network and the filesystem
//! live outside; they hand plain values in and take plain values back.

pub mod bits;
pub mod cache;
pub mod command;
pub mod conn;
pub mod naming;
pub mod node;
pub mod project;
pub mod session;
pub mod table;

pub use bits::is_near_zero;
pub use cache::{AssetCache, CacheEntry, FetchPlan};
pub use command::Command;
pub use conn::ConnState;
pub use naming::url_hash;
pub use node::{Color, Dimensions, EntityKind, Node};
pub use project::{project, RenderItem};
pub use session::Session;
pub use table::NodeTable;
