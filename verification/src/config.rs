//! The list of servers that make up the group, as read from its
//! configuration file.

use vstd::prelude::*;
use crate::text::{from_utf8_lossy, lossy_text, trim, trimmed};

verus! {

/// The configuration: the addresses of all nodes of the group.
pub struct ServerList {
    pub list: Vec<String>,
}

/// Why a configuration file's content cannot be used.
#[derive(Clone, Copy, Debug, PartialEq, Eq, Structural)]
pub enum ConfigError {
    /// The file holds nothing but white space.
    Empty,
}

/// The text of a configuration file whose bytes are `raw`: decoded (invalid
/// UTF-8 replaced) and trimmed.
pub open spec fn config_text_of(raw: Seq<u8>) -> Seq<char> {
    trimmed(lossy_text(raw))
}

/// The text to parse from a configuration file whose content is `raw`: the
/// decoded, trimmed text, refused when nothing is left of it.
pub fn config_text(raw: &[u8]) -> (r: Result<String, ConfigError>)
    ensures
        r is Err <==> config_text_of(raw@).len() == 0,
        r matches Ok(s) ==> s@ == config_text_of(raw@),
        r matches Err(e) ==> e == ConfigError::Empty,
{
    let decoded = from_utf8_lossy(raw);
    let t = trim(decoded.as_str());
    if t.is_empty() {
        Err(ConfigError::Empty)
    } else {
        Ok(t.to_owned())
    }
}

} // verus!
