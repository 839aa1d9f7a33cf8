//! Timing checkpoints as the TLS libraries emit them.

use crate::order::arranged;
use vstd::prelude::*;

verus! {

/// One timing checkpoint: the message that was just handled, the side that
/// handled it, and a monotonic timestamp.
#[derive(Debug, Clone)]
pub struct RawCheckpoint {
    pub name: String,
    pub role: String,
    pub timestamp_ns: u64,
}

/// What a checkpoint says.
#[verifier::ext_equal]
pub struct CheckpointView {
    pub name: Seq<char>,
    pub role: Seq<char>,
    pub timestamp_ns: u64,
}

impl View for RawCheckpoint {
    type V = CheckpointView;

    open spec fn view(&self) -> CheckpointView {
        CheckpointView { name: self.name@, role: self.role@, timestamp_ns: self.timestamp_ns }
    }
}

/// The side of a connection, as records name it.
pub open spec fn role_of(is_server: bool) -> Seq<char> {
    if is_server {
        "server"@
    } else {
        "client"@
    }
}

/// Names the side of a connection.
pub fn role_name(is_server: bool) -> (r: &'static str)
    ensures
        r@ == role_of(is_server),
        is_server ==> r@ == "server"@,
        !is_server ==> r@ == "client"@,
{
    if is_server {
        "server"
    } else {
        "client"
    }
}

impl RawCheckpoint {
    /// The checkpoint for message `name`, handled on the given side at `timestamp_ns`.
    pub fn new(name: &str, is_server: bool, timestamp_ns: u64) -> (r: RawCheckpoint)
        ensures
            r@ == (CheckpointView { name: name@, role: role_of(is_server), timestamp_ns }),
            r.name@ == name@,
            is_server ==> r.role@ == "server"@,
            !is_server ==> r.role@ == "client"@,
            r.timestamp_ns == timestamp_ns,
    {
        RawCheckpoint { name: name.to_owned(), role: role_name(is_server).to_owned(), timestamp_ns }
    }
}

/// What a list of checkpoints says.
pub open spec fn checkpoint_views(s: Seq<RawCheckpoint>) -> Seq<CheckpointView> {
    Seq::new(s.len(), |i: int| s[i]@)
}

/// What a list of checkpoint streams says.
pub open spec fn stream_views(s: Seq<Vec<RawCheckpoint>>) -> Seq<Seq<CheckpointView>> {
    Seq::new(s.len(), |i: int| checkpoint_views(s[i]@))
}

/// The timestamps of a list of checkpoints.
pub open spec fn times(s: Seq<CheckpointView>) -> Seq<u64> {
    Seq::new(s.len(), |i: int| s[i].timestamp_ns)
}

/// The checkpoints in chronological order; those with equal timestamps keep the
/// order in which they were emitted.
pub open spec fn timeline(s: Seq<CheckpointView>) -> Seq<CheckpointView> {
    arranged(s, times(s))
}

/// What is said of checkpoints is what their fields hold, each in its place.
pub proof fn lemma_checkpoints_are_seen_as_they_are(s: Seq<RawCheckpoint>, i: int)
    requires
        0 <= i < s.len(),
    ensures
        checkpoint_views(s).len() == s.len(),
        checkpoint_views(s)[i].name == s[i].name@,
        checkpoint_views(s)[i].role == s[i].role@,
        checkpoint_views(s)[i].timestamp_ns == s[i].timestamp_ns,
{
}

/// What is said of streams is what is said of each, in its place.
pub proof fn lemma_streams_are_seen_as_they_are(s: Seq<Vec<RawCheckpoint>>, i: int)
    requires
        0 <= i < s.len(),
    ensures
        stream_views(s).len() == s.len(),
        stream_views(s)[i] == checkpoint_views(s[i]@),
{
}

} // verus!
