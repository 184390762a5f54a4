//! Maintain ratings & play counts for an [MPD](https://www.musicpd.org/) server.
//!
//! This crate is the logic of a companion daemon for MPD, `mppopmd', & of its client, `mppopm'. The daemon
//! keeps ratings, play counts & last played times in MPD's sticker database, runs commands of its owner's
//! choosing as they change, and extends MPD's filters to them.
//!
//! - [`clients`] speaks the MPD protocol, over anything that takes a request & gives a reply
//! - [`ratings`] & [`playcounts`] maintain the stickers; [`commands`] puts together the commands to be run
//! - [`filters`] reads filters, & [`filters_ast`] evaluates them
//! - [`messages`] processes the messages that the daemon is sent, & [`mppopm`] sends them
//! - [`daemon`] decides what is to be done about an event
//! - [`grammar`], [`protocol`], [`quoting`], [`replies`], [`requests`], [`searches`], [`selection`], [`stickers`] &
//!   [`timestamps`] say what holds of these taken together

pub mod calendar;
pub mod client;
pub mod clients;
pub mod collections;
pub mod commands;
pub mod config;
pub mod daemon;
pub mod fields;
pub mod filters;
pub mod filters_ast;
pub mod grammar;
pub mod messages;
pub mod mock;
pub mod mppopm;
pub mod number;
pub mod order;
pub mod paths;
pub mod playcounts;
pub mod protocol;
pub mod quoting;
pub mod ratings;
pub mod replies;
pub mod replstrings;
pub mod requests;
pub mod scribbu;
pub mod searches;
pub mod selection;
pub mod stickers;
pub mod text;
pub mod timestamps;
pub mod vars;
