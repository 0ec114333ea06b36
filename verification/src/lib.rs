//! An in-memory model of a task-dependency graph and a registry of named
//! functions, mirroring the event stream of an external task-runtime tracer.
//!
//! The library owns the state container ([`state::AppState`]) that creates,
//! links, queries and tears down tasks and functions while keeping the
//! parent/child dependency bookkeeping consistent.  Each entity can be
//! flattened into plain values fit for a foreign calling convention; the
//! interactive command loop and the calls into the native tracing library
//! live outside the library and only hand it pre-validated plain values.

pub mod deps;
pub mod events;
pub mod function;
pub mod state;
pub mod task;
pub mod text;

pub use events::InputTypes;
pub use function::Function;
pub use state::AppState;
pub use task::Task;

pub use text::default_name_seq;
pub use text::trim_seq;
