//! A verified client core for a pub/sub wallpaper feed.
//!
//! The crate covers the protocol codec (wire text for outgoing commands and
//! incoming events), the subscription reconciler, and the event dispatcher.
//! Socket, file and OS-wallpaper I/O live outside the library; the library
//! hands the caller the exact wire messages to send and the URL to fetch.

use vstd::prelude::*;

pub mod codec;
pub mod decode;
pub mod dispatch;
pub mod json;
pub mod laws;
pub mod reconcile;

pub use codec::{Identifier, Incoming, Outgoing, WallpaperUpdate};
pub use decode::{decode, ProtocolError};
pub use dispatch::{dispatch, handle_message};
pub use reconcile::{check, reconcile, subscribe_to, unsubscribe_from, DesiredState};

verus! {

} // verus!
