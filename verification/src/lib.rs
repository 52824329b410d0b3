pub mod archive;
pub mod chars;
pub mod config;
pub mod ledger;
pub mod locator;
pub mod orchestra;
pub mod record;
pub mod resolver;
pub mod station;
pub mod timestamp;
pub mod web;
