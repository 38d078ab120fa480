//! One cached viewport, so that idle frames do not ask viewers again.

use vstd::prelude::*;
use crate::view::ViewportResult;

verus! {

/// Everything that affects a rendered viewport.
#[derive(Debug, Clone, Copy, PartialEq, Eq, Structural)]
pub struct ViewportCacheKey {
    pub viewer_index: usize,
    pub anchor_raw: u64,
    pub content_width: u16,
    pub max_rows: u16,
}

/// Holds at most one viewport, with the key it was rendered for.
#[derive(Debug)]
pub struct ViewportCache {
    key: Option<ViewportCacheKey>,
    viewport: Option<ViewportResult>,
}

impl ViewportCache {
    /// What the cache answers for each key: the stored viewport for its own key,
    /// nothing for any other.
    pub closed spec fn lookup(&self, key: ViewportCacheKey) -> Option<ViewportResult> {
        if self.key == Some(key) {
            self.viewport
        } else {
            None
        }
    }

    /// An empty cache.
    pub fn new() -> (c: Self)
        ensures
            forall|k: ViewportCacheKey| (#[trigger] c.lookup(k)) is None,
    {
        ViewportCache { key: None, viewport: None }
    }

    /// Forgets the stored viewport.
    pub fn invalidate(&mut self)
        ensures
            forall|k: ViewportCacheKey| (#[trigger] final(self).lookup(k)) is None,
        no_unwind
    {
        self.key = None;
        self.viewport = None;
    }

    /// The stored viewport if it was rendered for `key`.
    pub fn get(&self, key: ViewportCacheKey) -> (r: Option<&ViewportResult>)
        ensures
            r == match self.lookup(key) {
                Some(v) => Some(&v),
                None => None,
            },
    {
        match (self.key, &self.viewport) {
            (Some(k), Some(v)) => {
                if k == key {
                    Some(v)
                } else {
                    None
                }
            },
            _ => None,
        }
    }

    /// Stores `viewport` as rendered for `key`, replacing what was there.
    pub fn store(&mut self, key: ViewportCacheKey, viewport: ViewportResult)
        ensures
            final(self).lookup(key) == Some(viewport),
            forall|k: ViewportCacheKey| k != key ==> (#[trigger] final(self).lookup(k)) is None,
        no_unwind
    {
        self.key = Some(key);
        self.viewport = Some(viewport);
    }
}

impl Default for ViewportCache {
    fn default() -> (c: Self)
        ensures
            forall|k: ViewportCacheKey| (#[trigger] c.lookup(k)) is None,
    {
        ViewportCache::new()
    }
}

} // verus!
