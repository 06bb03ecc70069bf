//! Capture, storage, retention and administration rules of a webhook debugging
//! server.

pub mod admin;
pub mod auth;
pub mod body;
pub mod capture;
pub mod config;
pub mod headers;
pub mod models;
pub mod order;
pub mod outside;
pub mod pages;
pub mod records;
pub mod response;
pub mod retention;
pub mod segments;
pub mod sessions;
pub mod size;
pub mod storage;
pub mod table;
pub mod templates;
pub mod text;
pub mod time;
pub mod urls;
