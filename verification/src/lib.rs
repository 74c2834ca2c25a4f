//! Inspection, editing and iPod-safe normalisation of the ID3 tags of MP3 files.
pub mod text;
pub mod model;
pub mod id3_tag;
pub mod repository;
pub mod tag_laws;
pub mod normalizer;
pub mod controller;
pub mod icon;
pub mod batch;
pub mod scanner;
pub mod search;
