pub mod filesystem;
