//! Verified core of the Oxidarr indexer stack: the Cardigann definition
//! engine (template language, selectors, filters, category tables, and
//! row and field extraction over HTML), the requests and logins of
//! Cardigann indexers, Newznab/Torznab feeds, and the decisions of the
//! HTTP, database and migration layers.
pub mod auth;
pub mod builder;
pub mod categories;
pub mod catmap;
pub mod client;
pub mod datetime;
pub mod db;
pub mod decode;
pub mod dom;
pub mod engine;
pub mod feed;
pub mod ids;
pub mod login;
pub mod error;
pub mod filters;
pub mod fuzzydate;
pub mod migrate;
pub mod model;
pub mod netlayout;
pub mod newznab;
pub mod pairs;
pub mod pattern;
pub mod query;
pub mod selector;
pub mod template;
pub mod text;
pub mod urls;
pub mod validate;
