//! A deduplicated pool of installed toolchains addressed by a content-derived
//! identity, with named links into the pool.
//!
//! Everything here is pure: the library decides what has to happen to the
//! pool and its links, and the caller performs those steps on disk.

pub mod ctx;
pub mod encode;
pub mod gc;
pub mod identity;
pub mod laws;
pub mod order;
pub mod plan;
pub mod shim;
pub mod text;

pub use ctx::{relative_target, Ctx};
pub use encode::HashEncoder;
pub use gc::{gc_needed, gc_removals, referenced_entries};
pub use identity::{default_component_names, IdentifiableToolchain};
pub use plan::{AddSubcmd, CompAddSubcmd, CompRmSubcmd, PoolError, RmSubCmd, Step};
pub use shim::RunSubCmd;
pub use text::{manifest_url, qualify_with_target, rustup_url, split_lines, with_tmp};
