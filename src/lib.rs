//! Category reassignment engine: rewrite rules over a page model, the
//! recursive descent into template parameters, member discovery and the
//! per-command execution state machine.
pub mod category_of_redirects;
pub mod category_tag;
pub mod command;
pub mod config;
pub mod document;
pub mod generator;
pub mod id;
pub mod image_requested;
pub mod params;
pub mod parse;
pub mod recursion;
pub mod replacer;
pub mod splice;
pub mod stop;
pub mod text;

pub use command::{Command, CommandStatus, CommandType, OperationStatus};
pub use config::{from_path, load_config, MySqlConfig, QueueBotConfig};
pub use recursion::replace_category;
pub use stop::is_emergency_stopped;
