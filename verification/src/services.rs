pub mod sessions;
