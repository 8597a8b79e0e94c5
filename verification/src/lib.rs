//! A music catalog read from its text documents, and the tracks of other
//! catalogs found in it.
//!
//! The canonical catalog is written as documents of sections and fields.
//! [`document`] splits a document into sections, [`fields`] reads the fields
//! of a section, and [`hsmusic`] builds artists, albums and tracks from
//! them, with [`date`], [`duration`], [`slug`] and [`html`] for the values
//! that need more than reading. [`bandcamp`] holds the storefront's own
//! listing of the same music. [`index`] and [`catalog`] look both catalogs
//! up, and [`locate`] finds the canonical track that a title, an album name
//! and a place in the album speak of. [`edits`] decides what is written
//! into a file once its track is found.
//!
//! Every function states what it returns over `Seq<char>` models of the
//! text, and Verus proves that it does. Two things are taken on trust and
//! named, not proved: which texts `chrono` reads as dates, and what
//! `htmlescape` makes of a title.

pub mod bandcamp;
pub mod catalog;
pub mod date;
pub mod document;
pub mod duration;
pub mod edits;
pub mod error;
pub mod fields;
pub mod hsmusic;
pub mod html;
pub mod index;
pub mod locate;
pub mod slug;
pub mod text;

pub use crate::edits::{ArtType, ArtTypes, Edits};
