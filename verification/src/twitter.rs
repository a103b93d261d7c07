//! The kinds of tweet the bot redirects.
//!
//! A tweet that cannot be delivered at once is buffered in the ring queue as
//! `(tweet id, author name, kind)` until the consumer drains it.

use vstd::prelude::*;

verus! {

/// Which subscription an incoming tweet belongs to.
#[derive(Clone, Copy, PartialEq, Eq, Structural, Debug)]
pub enum TweetType {
    NazeBoku,
}

} // verus!
