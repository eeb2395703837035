//! The reactive core of a small playlist browser.
//!
//! The page shows a catalog of playlists, one playlist in detail, and a feed
//! of what people did. Its state lives in reactive cells; its views read the
//! cells while they render, and a write to a cell has the views that read it
//! rendered again.
//!
//! - [`model`]: songs, playlists and feed events.
//! - [`graph`]: the subscriptions between cells and render scopes as a
//!   mathematical value, with the laws of the engine.
//! - [`reactive`]: cells and the runtime that keeps the subscriptions.
//! - [`context`]: values provided to a whole subtree of components.
//! - [`router`]: route patterns and the resolution of a path.
//! - [`routes`]: the two routes of the page.
//! - [`text`]: indices as decimal text and back.
//! - [`feed`]: what the feed panel shows of an event.
//! - [`playlist`]: the detail view, its like button, and the library entry.
//! - [`views`]: the three views as render functions over the runtime.
//! - [`app`]: the page as a whole: boot, navigation, clicks.

pub mod app;
pub mod context;
pub mod feed;
pub mod graph;
pub mod model;
pub mod playlist;
pub mod reactive;
pub mod router;
pub mod routes;
pub mod text;
pub mod views;
