//! An anime library: finds the video files of a collection, reads the anime
//! title and episode number from their names, and logs in to MyAnimeList.

pub mod db;
pub mod dir;
pub mod mal;
pub mod text;
pub mod video;
