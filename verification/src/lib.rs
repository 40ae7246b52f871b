pub mod chars;
pub mod denote;
pub mod date;
pub mod text;
pub mod unicode;
pub mod metadata;
pub mod models;
pub mod order;
pub mod strmap;
pub mod compute;
pub mod search;
pub mod auth;
pub mod error;
pub mod cache;
pub mod repository;
pub mod feed;
pub mod sitemap;
pub mod snapshot;
pub mod format;
pub mod assets;
pub mod config;
pub mod tasks;
pub mod links;
pub mod users;
pub mod storage;
pub mod serve;
pub mod pages;
pub mod backfill;
pub mod session;
pub mod watch;
