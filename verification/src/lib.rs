//! Core logic of a social-blogging API backend: wire-shape data types,
//! configuration text parsing, route dispatch, URL path handling, and
//! JSON formatting. Everything here is verified; the surrounding
//! program supplies the HTTP transport and the database.

pub mod auth;
pub mod comments;
pub mod config;
pub mod http;
pub mod json;
pub mod models;
pub mod routes;
pub mod textutil;
pub mod time;
