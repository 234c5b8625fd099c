//! The AGDB player directory, as far as the core sees it.
//!
//! Profile lookup is an excluded collaborator: the transport layer performs
//! the actual request.  The core owns only the shape of a directory entry
//! and the address a player's entry lives under.

use vstd::prelude::*;
use vstd::string::StringExecFns;

verus! {

/// A player's entry in the AGDB directory.
#[derive(Debug, Clone)]
pub struct AGDBPlayer {
    pub steam_name: String,
    pub steam_id: String,
    pub steam_url: String,
    pub country: String,
}

/// The address of a player's directory entry.
pub fn make_url(steam_id: &str) -> (r: String)
    ensures
        r@ == "https://agdb.7mochi.ru/players/"@ + steam_id@,
{
    let base = String::from_str("https://agdb.7mochi.ru/players/");
    base.concat(steam_id)
}

} // verus!
