//! The value type standing for one follower.

use vstd::prelude::*;

verus! {

/// One follower as the platform reports it (or as the test injector
/// fabricates it). Equality and deduplication throughout the engine are keyed
/// solely on `id_hash`; the remaining fields are display-only.
pub struct Identity {
    /// Stable key, unique per follower.
    pub id_hash: String,
    /// Name shown by the widget.
    pub display_name: String,
    /// Optional avatar location, shown by the widget when present.
    pub avatar_url: Option<String>,
    /// Platform-provided follow timestamp, display-only.
    pub followed_since: String,
}

impl Clone for Identity {
    fn clone(&self) -> (res: Self)
        ensures
            res == *self,
    {
        Identity {
            id_hash: self.id_hash.clone(),
            display_name: self.display_name.clone(),
            avatar_url: match &self.avatar_url {
                Some(url) => Some(url.clone()),
                None => None,
            },
            followed_since: self.followed_since.clone(),
        }
    }
}

} // verus!
