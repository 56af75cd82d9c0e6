//! Core of a civic map directory: places with a revision history and a
//! moderation log, events, ratings, tag ownership, duplicate detection and
//! bounding-box subscriptions.
pub mod create_event;
pub mod create_place;
pub mod db;
pub mod duplicates;
pub mod entities;
pub mod error;
pub mod events;
pub mod export;
pub mod flows;
pub mod geo;
pub mod outside;
pub mod places;
pub mod popular_tags;
pub mod query_events;
pub mod recent_changes;
pub mod rating_usecases;
pub mod ratings;
pub mod search;
pub mod tags;
pub mod text;
pub mod update_place;
pub mod usecases;
pub mod user_communication;
pub mod users;
