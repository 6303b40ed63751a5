//! Small on-disk stores kept by a web service: a typed document cached after
//! its first read, and a text log bounded in lines whose header line stays
//! first.

pub mod bounded_log;
pub mod ip_logger;
pub mod json_db;
pub mod responses;
pub mod types;
