//! A verified catalog of personal documents (books, manga, comics) stored on a
//! filesystem.
//!
//! The catalog is a relational store held as an explicit value: entities
//! (authors, series, categories, genres, tags, documents, users), the
//! many-to-many links between documents and tags/genres, and a scanner that
//! diffs a category's directory tree against the cataloged documents.

pub mod auth;
pub mod author;
pub mod author_series;
pub mod category;
pub mod db_manager;
pub mod document;
pub mod document_scanner;
pub mod document_tag;
pub mod errors;
pub mod genre;
pub mod genre_document;
pub mod series;
pub mod table;
pub mod tag;
pub mod user;
pub mod user_service;
