//! Verified core of a desktop image viewer: a content-addressed thumbnail
//! cache together with the listing, sorting and start-up rules around it.

pub mod bootstrap;
pub mod cache_model;
pub mod config;
pub mod data_uri;
pub mod file_system;
pub mod hashing;
pub mod image_processing;
pub mod image_sort;
pub mod in_flight;
pub mod models;
pub mod paths;
pub mod sorting;
pub mod text;
pub mod thumbnail_cache;
pub mod utils;
