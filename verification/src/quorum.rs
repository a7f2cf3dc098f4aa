//! Why majorities keep a cluster safe: two majorities of one membership
//! share a voter, and so do majorities of two memberships that follow one
//! another by a single change.

use crate::configuration::{
    changed_servers, id_repeats_at, address_repeats_at, majority, nothing_repeats, repeats_at, valid_servers,
    voter_count, voter_ids, votes_in, without_server, ConfigurationChangeCommand, ServerSuffrage, ServerView,
};
use vstd::prelude::*;

verus! {

proof fn lemma_prefix_repeats(servers: Seq<ServerView>)
    requires
        servers.len() > 0,
        nothing_repeats(servers),
    ensures
        nothing_repeats(servers.drop_last()),
{
    let front = servers.drop_last();
    assert forall|i: int| 0 <= i < front.len() implies !#[trigger] repeats_at(front, i) by {
        assert(!repeats_at(servers, i));
        if id_repeats_at(front, i) {
            let j = choose|j: int| 0 <= j < i && (#[trigger] front[j]).id == front[i].id;
            assert(servers[j].id == servers[i].id);
        }
        if address_repeats_at(front, i) {
            let j = choose|j: int| 0 <= j < i && (#[trigger] front[j]).address == front[i].address;
            assert(servers[j].address == servers[i].address);
        }
    }
}

/// Where no ID occurs twice, the voters are as many as their IDs.
pub proof fn lemma_voter_ids_counted(servers: Seq<ServerView>)
    requires
        nothing_repeats(servers),
    ensures
        voter_ids(servers).finite(),
        voter_ids(servers).len() == voter_count(servers),
    decreases servers.len(),
{
    if servers.len() == 0 {
        assert(voter_ids(servers) =~= Set::empty());
    } else {
        let front = servers.drop_last();
        let last = servers.last();
        lemma_prefix_repeats(servers);
        lemma_voter_ids_counted(front);
        assert forall|id: Seq<char>|
            voter_ids(servers).contains(id) <==> (voter_ids(front).contains(id) || (last.suffrage
                == ServerSuffrage::Voter && last.id == id)) by {
            if votes_in(servers, id) {
                let i = choose|i: int|
                    0 <= i < servers.len() && (#[trigger] servers[i]).id == id
                        && servers[i].suffrage == ServerSuffrage::Voter;
                if i < front.len() {
                    assert(front[i].id == id);
                }
            }
            if votes_in(front, id) {
                let i = choose|i: int|
                    0 <= i < front.len() && (#[trigger] front[i]).id == id && front[i].suffrage
                        == ServerSuffrage::Voter;
                assert(servers[i].id == id);
            }
            if last.suffrage == ServerSuffrage::Voter && last.id == id {
                assert(servers[servers.len() - 1].id == id);
            }
        }
        if last.suffrage == ServerSuffrage::Voter {
            assert(voter_ids(servers) =~= voter_ids(front).insert(last.id));
            if voter_ids(front).contains(last.id) {
                let i = choose|i: int|
                    0 <= i < front.len() && (#[trigger] front[i]).id == last.id
                        && front[i].suffrage == ServerSuffrage::Voter;
                assert(servers[i].id == servers[servers.len() - 1].id);
                assert(repeats_at(servers, servers.len() - 1));
            }
        } else {
            assert(voter_ids(servers) =~= voter_ids(front));
        }
    }
}

/// A group of voters that decides for a membership.
pub open spec fn is_majority_of(group: Set<Seq<char>>, servers: Seq<ServerView>) -> bool {
    &&& group.subset_of(voter_ids(servers))
    &&& group.len() >= majority(voter_count(servers))
}

/// Two memberships have the same voters, up to the server of one ID.
pub open spec fn same_voters_but(
    a: Seq<ServerView>,
    b: Seq<ServerView>,
    id: Seq<char>,
) -> bool {
    forall|other: Seq<char>|
        other != id ==> #[trigger] votes_in(a, other) == votes_in(b, other)
}

proof fn lemma_without_server_voters(servers: Seq<ServerView>, id: Seq<char>, other: Seq<char>)
    requires
        other != id,
    ensures
        votes_in(servers, other) == votes_in(without_server(servers, id), other),
    decreases servers.len(),
{
    if servers.len() > 0 {
        let front = servers.drop_last();
        let rest = without_server(front, id);
        let whole = without_server(servers, id);
        lemma_without_server_voters(front, id, other);
        if votes_in(servers, other) {
            let i = choose|i: int|
                0 <= i < servers.len() && (#[trigger] servers[i]).id == other
                    && servers[i].suffrage == ServerSuffrage::Voter;
            if i < front.len() {
                assert(front[i].id == other);
                let k = choose|k: int|
                    0 <= k < rest.len() && (#[trigger] rest[k]).id == other && rest[k].suffrage
                        == ServerSuffrage::Voter;
                assert(whole[k].id == other);
            } else {
                assert(whole[whole.len() - 1].id == other);
            }
        }
        if votes_in(whole, other) {
            let k = choose|k: int|
                0 <= k < whole.len() && (#[trigger] whole[k]).id == other && whole[k].suffrage
                    == ServerSuffrage::Voter;
            if k < rest.len() {
                assert(rest[k].id == other);
                let i = choose|i: int|
                    0 <= i < front.len() && (#[trigger] front[i]).id == other && front[i].suffrage
                        == ServerSuffrage::Voter;
                assert(servers[i].id == other);
            } else {
                assert(servers[servers.len() - 1].id == other);
            }
        }
    }
}

/// A membership change gives or takes the vote of no server but the one it
/// names.
pub proof fn law_change_touches_one_voter(
    servers: Seq<ServerView>,
    command: ConfigurationChangeCommand,
    id: Seq<char>,
    address: Seq<char>,
)
    ensures
        same_voters_but(servers, changed_servers(servers, command, id, address), id),
{
    let next = changed_servers(servers, command, id, address);
    assert forall|other: Seq<char>| other != id implies #[trigger] votes_in(servers, other)
        == votes_in(next, other) by {
        if command == ConfigurationChangeCommand::RemoveServer {
            lemma_without_server_voters(servers, id, other);
        } else {
            if votes_in(servers, other) {
                let i = choose|i: int|
                    0 <= i < servers.len() && (#[trigger] servers[i]).id == other
                        && servers[i].suffrage == ServerSuffrage::Voter;
                assert(next[i] == servers[i]);
            }
            if votes_in(next, other) {
                let i = choose|i: int|
                    0 <= i < next.len() && (#[trigger] next[i]).id == other && next[i].suffrage
                        == ServerSuffrage::Voter;
                assert(i < servers.len());
                assert(next[i] == servers[i]);
            }
        }
    }
}

proof fn lemma_disjoint_groups_fit(p: Set<Seq<char>>, q: Set<Seq<char>>, all: Set<Seq<char>>)
    requires
        all.finite(),
        p.subset_of(all),
        q.subset_of(all),
        p.disjoint(q),
    ensures
        p.len() + q.len() <= all.len(),
{
    vstd::set_lib::lemma_set_disjoint_lens(p, q);
    vstd::set_lib::lemma_len_subset(p, all);
    vstd::set_lib::lemma_len_subset(q, all);
    vstd::set_lib::lemma_len_subset(p + q, all);
}

/// Majorities of two memberships whose voters differ in at most one server
/// share a voter.
pub proof fn law_neighbouring_majorities_meet(
    a: Seq<ServerView>,
    b: Seq<ServerView>,
    id: Seq<char>,
    p: Set<Seq<char>>,
    q: Set<Seq<char>>,
)
    requires
        nothing_repeats(a),
        nothing_repeats(b),
        same_voters_but(a, b, id),
        is_majority_of(p, a),
        is_majority_of(q, b),
    ensures
        exists|voter: Seq<char>| p.contains(voter) && q.contains(voter),
{
    lemma_voter_ids_counted(a);
    lemma_voter_ids_counted(b);
    let va = voter_ids(a);
    let vb = voter_ids(b);
    assert forall|other: Seq<char>| other != id implies va.contains(other) == vb.contains(
        other,
    ) by {
        assert(votes_in(a, other) == votes_in(b, other));
    }
    if !exists|voter: Seq<char>| p.contains(voter) && q.contains(voter) {
        assert(p.disjoint(q));
        if va.contains(id) == vb.contains(id) {
            assert(va =~= vb);
            lemma_disjoint_groups_fit(p, q, va);
        } else if va.contains(id) {
            assert(va =~= vb.insert(id));
            lemma_disjoint_groups_fit(p, q, va);
        } else {
            assert(vb =~= va.insert(id));
            lemma_disjoint_groups_fit(p, q, vb);
        }
    }
}

/// Two majorities of one membership share a voter.
pub proof fn law_majorities_meet(
    servers: Seq<ServerView>,
    p: Set<Seq<char>>,
    q: Set<Seq<char>>,
)
    requires
        nothing_repeats(servers),
        is_majority_of(p, servers),
        is_majority_of(q, servers),
    ensures
        exists|voter: Seq<char>| p.contains(voter) && q.contains(voter),
{
    law_neighbouring_majorities_meet(servers, servers, Seq::empty(), p, q);
}

/// A majority before a membership change and a majority after it share a
/// voter.
pub proof fn law_majorities_meet_across_a_change(
    servers: Seq<ServerView>,
    command: ConfigurationChangeCommand,
    id: Seq<char>,
    address: Seq<char>,
    p: Set<Seq<char>>,
    q: Set<Seq<char>>,
)
    requires
        valid_servers(servers),
        valid_servers(changed_servers(servers, command, id, address)),
        is_majority_of(p, servers),
        is_majority_of(q, changed_servers(servers, command, id, address)),
    ensures
        exists|voter: Seq<char>| p.contains(voter) && q.contains(voter),
{
    law_change_touches_one_voter(servers, command, id, address);
    law_neighbouring_majorities_meet(
        servers,
        changed_servers(servers, command, id, address),
        id,
        p,
        q,
    );
}

/// Where every voter gives one vote, two candidates with a majority each are
/// the same: a term has at most one leader.
pub proof fn law_one_leader_per_term(
    servers: Seq<ServerView>,
    vote_of: Map<Seq<char>, Seq<char>>,
    p: Set<Seq<char>>,
    q: Set<Seq<char>>,
    a: Seq<char>,
    b: Seq<char>,
)
    requires
        nothing_repeats(servers),
        is_majority_of(p, servers),
        is_majority_of(q, servers),
        forall|voter: Seq<char>| p.contains(voter) ==> #[trigger] vote_of[voter] == a,
        forall|voter: Seq<char>| q.contains(voter) ==> #[trigger] vote_of[voter] == b,
    ensures
        a == b,
{
    law_majorities_meet(servers, p, q);
    let voter = choose|voter: Seq<char>| p.contains(voter) && q.contains(voter);
    assert(vote_of[voter] == a);
}

} // verus!
