pub mod common_prefix;
