pub mod config_text;
pub mod controller;
pub mod diff;
pub mod error;
pub mod host;
pub mod strutil;
pub mod tree;

pub use controller::App;
pub use controller::AppMode;
pub use controller::ChangeType;
pub use controller::ConfigAction;
pub use controller::EditingHostData;
pub use controller::Effect;
pub use controller::Key;
pub use controller::VersionInfo;
pub use error::SshcError;
pub use host::SshHost;
pub use tree::TreeItem;
