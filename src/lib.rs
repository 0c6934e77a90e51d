//! Detection of dribble and tackle episodes in tracked sports video.
//!
//! Each frame gives the players' and the ball's pitch positions in integer
//! units. A detector follows one possession at a time: it starts when a
//! player holds the ball with an opponent in the outer zone, counts the frames
//! with defenders in the outer and inner zones, and on the episode's end emits
//! it as a dribble or a tackle if it lasted long enough. A merge pass then
//! joins adjacent episodes of the same class.
//!
//! - `geometry`: squared distances and the two defender zones.
//! - `models`: players, ball, frames and episodes.
//! - `detector`: the state machine, stated as `detector::step` and proved.
//! - `merge`: the merge pass, stated as `merge::merged` and proved.
//! - `video`: one video's frames through detector and merge.
//! - `annotations`, `categories`: frames built from dataset annotations.
//! - `export`, `config`, `input`: records and settings around detection.

pub mod annotations;
pub mod categories;
pub mod config;
pub mod detector;
pub mod export;
pub mod geometry;
pub mod input;
pub mod merge;
pub mod models;
pub mod video;
