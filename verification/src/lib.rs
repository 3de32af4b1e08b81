//! Reading a Twine story out of its HTML export.
//!
//! A Twine export is one HTML file. It holds one `tw-storydata` element that
//! carries the story's metadata, and below it one `tw-passagedata` element for
//! each passage. This crate turns a parsed export into a [`twine::Story`]
//! ([`document`]), collects the image links that the passages refer to
//! ([`links`]), and finds the scripts and styles that the export embeds
//! ([`blocks`]).
//!
//! The HTML itself is parsed and queried by `scraper`. What this crate
//! believes of `scraper` without proof is stated in [`dom`]; everything else
//! is proved, from what an element holds to the story or the list of links
//! that comes of it.

pub mod blocks;
pub mod document;
pub mod dom;
pub mod links;
pub mod text_order;
pub mod twine;
pub mod views;
