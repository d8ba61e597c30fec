pub mod halt_config;
pub mod release_config;

pub use halt_config::{HaltConfig, LastCheckedConfig};
pub use release_config::{ConfigValue, ReleaseConfig, Task, TaskType};
