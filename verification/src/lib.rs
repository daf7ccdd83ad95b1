//! Core logic of a desktop wallpaper manager: display geometry, carousel and
//! timer scheduling decisions, collection ordering, smart collection rules,
//! tags, file classification and progress accounting.
pub mod text;
pub mod geometry;
pub mod monitor_config;
pub mod scheduler;
pub mod smart_rule;
pub mod collection;
pub mod registry;
pub mod action;
pub mod shortcuts;
pub mod settings;
pub mod wallpaper;
pub mod tags;
pub mod progress;
pub mod trash;
pub mod backup;
