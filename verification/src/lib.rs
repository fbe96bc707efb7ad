//! Screenshots of a list of sites, one after the other: what is decided on the
//! way, with contracts that Verus checks.
//!
//! - [`url_handler`] turns a raw address line into the URLs that are tried for
//!   it, and a text of such lines into the list of URLs of a batch.
//! - [`ip`] holds the textual forms of IP addresses and ports that this
//!   rests on.
//! - [`batch`] sequences the captures of a batch. It is told how each capture
//!   ended, says what to capture next, writes the progress lines and counts.
//! - [`screenshot`] gives the script that is run in each page and the name of
//!   the file that each image goes to.
//! - [`gui`] keeps the state that a window shows.
//! - [`text`] holds the helpers on characters that the others share.
//!
//! The library opens no file, starts no browser and draws nothing: its caller
//! does, and hands it texts and results.

pub mod batch;
pub mod gui;
pub mod ip;
pub mod screenshot;
pub mod text;
pub mod url_handler;
