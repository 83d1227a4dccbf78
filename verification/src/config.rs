//! Defaults of the persisted configuration.
use vstd::prelude::*;

verus! {

/// The theme of a fresh configuration.
pub fn default_theme() -> (r: String)
    ensures
        r@ == "cyberpunk"@,
{
    "cyberpunk".to_owned()
}

/// The scrollback length of a fresh configuration, in lines.
pub fn default_scrollback() -> (r: usize)
    ensures
        r == 5000,
{
    5_000
}

/// The default SSH port of a fresh configuration.
pub fn default_port() -> (r: u16)
    ensures
        r == 22,
{
    22
}

} // verus!
