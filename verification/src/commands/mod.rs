pub mod builtin;
pub mod command;
pub mod dispatch;
pub mod executors;
pub mod external;

pub use builtin::BuiltinCommands;
pub use command::{Command, Effect, Routing, StreamTarget};
pub use dispatch::{ast_executor, run_internal_builtin, InternalBuiltin, NodeAction};
pub use executors::background::{INTERNAL_BUILTIN_MARKER, INTERNAL_PIPELINE_MARKER};
pub use external::ExternalCommand;
