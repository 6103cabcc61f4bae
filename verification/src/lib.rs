//! Framework primitives for modular HTTP services: route paths, requests and
//! responses, provider containers, controllers and application lifecycle.

pub mod text;
pub mod collections;
pub mod error;
pub mod path;
pub mod http;
pub mod query;
pub mod request;
pub mod response;
pub mod provider;
pub mod module_ref;
pub mod security;
pub mod openapi;
pub mod pipeline;
pub mod versioning;
pub mod route;
pub mod controller;
pub mod registry;
pub mod walk;
pub mod application;
pub mod lifecycle;
pub mod extractor;
pub mod adapter;
pub mod route_call;
pub mod websocket;
