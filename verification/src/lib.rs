//! A small zero-copy parsing toolkit for markdown blog posts.
//!
//! The heart of the crate is a set of parser combinators over string
//! slices: each parser consumes a prefix of its input and hands back the
//! parsed value together with the unconsumed remainder.  On top of the
//! combinators sit two micro-grammars, one for `year-month-day` date
//! literals and one for the `---`-delimited frontmatter block at the top
//! of a post.
//!
//! Around that core, [`tags`] groups post indices by tag for the tag
//! index pages, [`plaintext`] centers text and frames it in a drawn box
//! for the terminal rendering of a post, and [`util`] walks a list of
//! posts with their neighbours for previous/next links.  Every function
//! carries a contract tying it to a spec-level model of the same
//! operation over `Seq<char>`.

pub mod combinators;
pub mod date;
pub mod error;
pub mod frontmatter;
pub mod plaintext;
pub mod tags;
pub mod text;
pub mod util;
