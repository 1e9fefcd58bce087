//! A content-addressed media archive: posts identified by the digest of
//! their bytes, an in-memory relational store of posts, tags and taggings,
//! boolean tag search, and the message protocol of the ingestion worker.
pub mod config;
pub mod db;
pub mod hash;
pub mod message;
pub mod paths;
pub mod post;
pub mod search;
pub mod seqs;
pub mod text;
pub mod theorems;
pub mod worker;
