//! Tables behind routes: what a request to read, write, import or export rows is
//! answered, decided step by step over a configuration of entities.
pub mod archive;
pub mod ast;
pub mod auth;
pub mod caching;
pub mod compound;
pub mod consumer;
pub mod delete;
pub mod email_queue;
pub mod export;
pub mod filters;
pub mod flow;
pub mod foreign_key;
pub mod generate;
pub mod get;
pub mod giving;
pub mod handlers;
pub mod idgen;
pub mod import;
pub mod importing;
pub mod json;
pub mod model;
pub mod number;
pub mod ordering;
pub mod patch;
pub mod pk_utils;
pub mod post;
pub mod put;
pub mod reading;
pub mod repositories;
pub mod retry;
pub mod seed;
pub mod services;
pub mod sheets;
pub mod tabular;
pub mod text;
pub mod trace;
pub mod validation;
pub mod writing;
