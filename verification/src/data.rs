//! The data shapes of the report: activity items and code metrics.

use vstd::prelude::*;

verus! {

/// Code metrics for a pull request: lines added, lines deleted, files changed.
#[derive(Debug, Clone, Copy, PartialEq, Eq, Structural)]
pub struct CodeMetrics {
    pub additions: i32,
    pub deletions: i32,
    pub changed_files: i32,
}

/// A single activity item of a GitHub answer: only its URL is kept.
pub struct Item {
    pub url: String,
}

/// A list of items, as one GitHub answer holds it.
pub struct Items(pub Vec<Item>);

impl Items {
    /// Extract the URLs of all items, in order.
    pub fn into_urls(self) -> (r: Vec<String>)
        ensures
            r@.len() == self.0@.len(),
            forall|i: int| 0 <= i < r@.len() ==> r@[i]@ == self.0@[i].url@,
    {
        let mut r: Vec<String> = Vec::new();
        let n = self.0.len();
        for i in 0..n
            invariant
                n == self.0@.len(),
                r@.len() == i,
                forall|j: int| 0 <= j < i ==> r@[j]@ == self.0@[j].url@,
        {
            r.push(self.0[i].url.clone());
        }
        r
    }
}

} // verus!
