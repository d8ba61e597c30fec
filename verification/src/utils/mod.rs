pub mod system_val_resolver;
pub mod text;
pub mod var_subs;
pub mod version;
