//! What the operations of a node come to, whichever way they are carried out:
//! each law speaks of a call, of what it was given and of what it left behind.

pub mod applying;
pub mod changing;
pub mod electing;
pub mod following;
pub mod keeping;
pub mod leading;
pub mod membership;
pub mod replicating;
pub mod travelling;

use crate::configuration::{voter_count, ServerSuffrage, ServerView};
use vstd::prelude::*;

verus! {

/// The positions of the servers that satisfy a condition.
pub open spec fn positions(
    servers: Seq<ServerView>,
    condition: spec_fn(ServerView) -> bool,
) -> Set<int> {
    Set::new(|p: int| 0 <= p < servers.len() && condition(servers[p]))
}

pub proof fn lemma_positions_step(servers: Seq<ServerView>, condition: spec_fn(ServerView) -> bool)
    requires
        servers.len() > 0,
        positions(servers.drop_last(), condition).finite(),
    ensures
        positions(servers, condition).finite(),
        positions(servers, condition).len() == positions(servers.drop_last(), condition).len()
            + if condition(servers.last()) {
            1nat
        } else {
            0nat
        },
{
    let front = positions(servers.drop_last(), condition);
    let last = servers.len() - 1;
    assert(!front.contains(last));
    if condition(servers.last()) {
        assert(positions(servers, condition) =~= front.insert(last));
    } else {
        assert(positions(servers, condition) =~= front);
    }
}

pub proof fn lemma_voters_by_position(servers: Seq<ServerView>)
    ensures
        positions(servers, |s: ServerView| s.suffrage == ServerSuffrage::Voter).finite(),
        positions(servers, |s: ServerView| s.suffrage == ServerSuffrage::Voter).len()
            == voter_count(servers),
    decreases servers.len(),
{
    let voter = |s: ServerView| s.suffrage == ServerSuffrage::Voter;
    if servers.len() == 0 {
        assert(positions(servers, voter) =~= Set::empty());
    } else {
        lemma_voters_by_position(servers.drop_last());
        lemma_positions_step(servers, voter);
    }
}

} // verus!
