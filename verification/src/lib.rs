//! Verified core of the Laplace application server: lapp settings and
//! permissions, access control, the host/wasm wire format and the decisions
//! taken by the services.

pub mod auth;
pub mod error;
pub mod http;
pub mod instance;
pub mod interop;
pub mod invoke;
pub mod lapp;
pub mod logging;
pub mod manager;
pub mod order;
pub mod paths;
pub mod route;
pub mod service;
pub mod settings;
pub mod text;
pub mod urls;
pub mod ui;
pub mod wire;
