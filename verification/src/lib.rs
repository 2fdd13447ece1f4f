use vstd::prelude::*;

pub mod text;
pub mod num;
pub mod error;
pub mod auth;
pub mod signals;
pub mod config;
pub mod openapi;
pub mod extensions;
pub mod project;
pub mod cli;
pub mod management;
pub mod registry;
pub mod values;
pub mod filters;
pub mod channels;
pub mod session;
pub mod templates;
pub mod json;
pub mod serializer;
pub mod views;
pub mod module;
pub mod serializers;
pub mod todo_api;
pub mod openapi_doc;
pub mod history;
pub mod batch;
pub mod generate;
pub mod events;
pub mod request_auth;
