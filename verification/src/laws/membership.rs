//! What a membership is, what a change makes of it, and which settings are
//! accepted.

use crate::config::{Config, ReloadableConfig};
use crate::configuration::{
    check_configuration, next_configuration, voter_count, without_server, Configuration,
    ConfigurationChangeCommand, ConfigurationChangeRequest, ServerSuffrage, ServerView,
};
use crate::error::Result;
use crate::laws::{lemma_voters_by_position, positions};
use crate::raft::RaftCore;
use vstd::prelude::*;

verus! {

proof fn lemma_some_voter(servers: Seq<ServerView>)
    ensures
        voter_count(servers) > 0 <==> exists|i: int|
            0 <= i < servers.len() && (#[trigger] servers[i]).suffrage == ServerSuffrage::Voter,
    decreases servers.len(),
{
    if servers.len() > 0 {
        let front = servers.drop_last();
        lemma_some_voter(front);
        if voter_count(front) > 0 {
            let i = choose|i: int|
                0 <= i < front.len() && (#[trigger] front[i]).suffrage == ServerSuffrage::Voter;
            assert(servers[i].suffrage == ServerSuffrage::Voter);
        }
        if servers.last().suffrage == ServerSuffrage::Voter {
            assert(servers[servers.len() - 1].suffrage == ServerSuffrage::Voter);
        }
        if exists|i: int|
            0 <= i < servers.len() && (#[trigger] servers[i]).suffrage == ServerSuffrage::Voter {
            let i = choose|i: int|
                0 <= i < servers.len() && (#[trigger] servers[i]).suffrage
                    == ServerSuffrage::Voter;
            if i < front.len() {
                assert(front[i].suffrage == ServerSuffrage::Voter);
            }
        }
    }
}

/// A membership is accepted exactly where every server has an ID and an
/// address, no two share either, and one at least has a vote.
pub proof fn law_memberships_are_sound(conf: &Configuration, r: Result<()>)
    requires
        call_ensures(check_configuration, (conf,), r),
    ensures
        r is Ok <==> {
            &&& forall|i: int|
                0 <= i < conf@.len() ==> (#[trigger] conf@[i]).id.len() > 0
                    && conf@[i].address.len() > 0
            &&& forall|i: int, j: int|
                0 <= i < j < conf@.len() ==> (#[trigger] conf@[i]).id != (#[trigger] conf@[j]).id
                    && conf@[i].address != conf@[j].address
            &&& exists|i: int|
                0 <= i < conf@.len() && (#[trigger] conf@[i]).suffrage == ServerSuffrage::Voter
        },
        r matches Err(e) ==> e is Configuration,
{
    let s = conf@;
    lemma_some_voter(s);
    if r is Ok {
        assert forall|i: int| 0 <= i < s.len() implies (#[trigger] s[i]).id.len() > 0
            && s[i].address.len() > 0 by {
            assert(!crate::configuration::blank_at(s, i));
        }
        assert forall|i: int, j: int| 0 <= i < j < s.len() implies (#[trigger] s[i]).id != (
        #[trigger] s[j]).id && s[i].address != s[j].address by {
            assert(!crate::configuration::repeats_at(s, j));
        }
    }
}

/// A majority is more than half of those who have a vote, and no more than it
/// takes; and a server has a vote where the membership says so.
pub proof fn law_quorum_is_more_than_half(conf: &Configuration, quorum: usize)
    requires
        call_ensures(Configuration::quorum_size, (conf,), quorum),
    ensures
        ({
            let voters = Set::new(
                |p: int| 0 <= p < conf@.len() && conf@[p].suffrage == ServerSuffrage::Voter,
            );
            &&& voters.finite()
            &&& 2 * quorum > voters.len()
            &&& 2 * (quorum - 1) <= voters.len()
        }),
{
    lemma_voters_by_position(conf@);
    assert(Set::new(
        |p: int| 0 <= p < conf@.len() && conf@[p].suffrage == ServerSuffrage::Voter,
    ) =~= positions(conf@, |s: ServerView| s.suffrage == ServerSuffrage::Voter));
}

/// A server has a vote exactly where the membership names it as a voter.
pub proof fn law_votes_come_with_the_suffrage(conf: &Configuration, id: &str, r: bool)
    requires
        call_ensures(Configuration::has_vote, (conf, id), r),
    ensures
        r <==> exists|i: int|
            0 <= i < conf@.len() && (#[trigger] conf@[i]).id == id@ && conf@[i].suffrage
                == ServerSuffrage::Voter,
{
}

proof fn lemma_without_server(servers: Seq<ServerView>, id: Seq<char>)
    ensures
        forall|i: int|
            0 <= i < without_server(servers, id).len() ==> (#[trigger] without_server(
                servers,
                id,
            )[i]).id != id && servers.contains(without_server(servers, id)[i]),
        forall|i: int|
            0 <= i < servers.len() && (#[trigger] servers[i]).id != id ==> without_server(
                servers,
                id,
            ).contains(servers[i]),
    decreases servers.len(),
{
    if servers.len() > 0 {
        let front = servers.drop_last();
        let rest = without_server(front, id);
        let all = without_server(servers, id);
        lemma_without_server(front, id);
        assert forall|i: int| 0 <= i < all.len() implies (#[trigger] all[i]).id != id
            && servers.contains(all[i]) by {
            if i < rest.len() {
                assert(all[i] == rest[i]);
                let j = choose|j: int| 0 <= j < front.len() && front[j] == rest[i];
                assert(servers[j] == all[i]);
            } else {
                assert(servers[servers.len() - 1] == all[i]);
            }
        }
        assert forall|i: int| 0 <= i < servers.len() && (#[trigger] servers[i]).id
            != id implies all.contains(servers[i]) by {
            if i < front.len() {
                assert(front[i] == servers[i]);
                let j = choose|j: int| 0 <= j < rest.len() && rest[j] == front[i];
                assert(all[j] == servers[i]);
            } else {
                assert(all[rest.len() as int] == servers[i]);
            }
        }
    }
}

/// What a change makes of the server that it names: an added voter votes, an
/// added or demoted server that does not, is there without a vote, and a
/// removed one is gone. An added server has the address that is given.
pub proof fn law_change_does_what_it_says(
    current: &Configuration,
    change: &ConfigurationChangeRequest,
    next: Configuration,
    i: int,
)
    requires
        call_ensures(
            next_configuration,
            (current, change),
            Ok::<Configuration, crate::error::RaftError>(next),
        ),
        0 <= i < next@.len(),
        next@[i].id == change.server_id@,
    ensures
        match change.command {
            ConfigurationChangeCommand::AddVoter => next@[i].suffrage == ServerSuffrage::Voter && (
            change.server_address@.len() > 0 ==> next@[i].address == change.server_address@),
            ConfigurationChangeCommand::AddNonvoter => next@[i].suffrage
                == ServerSuffrage::Nonvoter && (change.server_address@.len() > 0
                ==> next@[i].address == change.server_address@),
            ConfigurationChangeCommand::DemoteVoter => next@[i].suffrage
                == ServerSuffrage::Nonvoter && exists|j: int|
                0 <= j < current@.len() && (#[trigger] current@[j]).id == change.server_id@
                    && current@[j].address == next@[i].address,
            ConfigurationChangeCommand::RemoveServer => false,
        },
{
    lemma_without_server(current@, change.server_id@);
    if change.command == ConfigurationChangeCommand::DemoteVoter {
        assert(current@[i].id == change.server_id@);
    }
}

/// An added server is in the membership.
pub proof fn law_added_server_is_there(
    current: &Configuration,
    change: &ConfigurationChangeRequest,
    next: Configuration,
)
    requires
        call_ensures(
            next_configuration,
            (current, change),
            Ok::<Configuration, crate::error::RaftError>(next),
        ),
        change.command == ConfigurationChangeCommand::AddVoter || change.command
            == ConfigurationChangeCommand::AddNonvoter,
    ensures
        exists|i: int| 0 <= i < next@.len() && (#[trigger] next@[i]).id == change.server_id@,
{
    if exists|i: int| 0 <= i < current@.len() && (#[trigger] current@[i]).id == change.server_id@ {
        let i = choose|i: int|
            0 <= i < current@.len() && (#[trigger] current@[i]).id == change.server_id@;
        assert(next@[i].id == change.server_id@);
    } else {
        assert(next@[current@.len() as int].id == change.server_id@);
    }
}

/// A change leaves every other server as it was, and brings no other.
pub proof fn law_change_leaves_the_others(
    current: &Configuration,
    change: &ConfigurationChangeRequest,
    next: Configuration,
    other: ServerView,
)
    requires
        call_ensures(
            next_configuration,
            (current, change),
            Ok::<Configuration, crate::error::RaftError>(next),
        ),
        other.id != change.server_id@,
    ensures
        next@.contains(other) <==> current@.contains(other),
{
    lemma_without_server(current@, change.server_id@);
    if current@.contains(other) {
        let i = choose|i: int| 0 <= i < current@.len() && current@[i] == other;
        match change.command {
            ConfigurationChangeCommand::RemoveServer => {
                assert(next@.contains(current@[i]));
            },
            _ => {
                assert(next@[i] == other);
            },
        }
    }
    if next@.contains(other) {
        let i = choose|i: int| 0 <= i < next@.len() && next@[i] == other;
        match change.command {
            ConfigurationChangeCommand::RemoveServer => {
                assert(current@.contains(next@[i]));
            },
            _ => {
                assert(current@[i].id == other.id);
                assert(current@[i] == other);
            },
        }
    }
}

/// A change that was based on another membership is refused; any other comes to
/// what it makes of the latest one, where that is sound.
pub proof fn law_changes_build_on_the_latest(
    core: &RaftCore,
    req: &ConfigurationChangeRequest,
    r: Result<Configuration>,
    current: Configuration,
    next: Result<Configuration>,
)
    requires
        call_ensures(RaftCore::prepare_configuration_change, (core, req), r),
        current@ == core@.configurations.latest,
        call_ensures(next_configuration, (&current, req), next),
    ensures
        req.prev_index > 0 && req.prev_index != core@.configurations.latest_index ==> r is Err,
        req.prev_index == 0 || req.prev_index == core@.configurations.latest_index ==> (r is Ok
            <==> next is Ok) && (r is Ok ==> r->Ok_0@ == next->Ok_0@),
{
}

/// Settings are accepted exactly where the node has an ID, no time is too
/// short, a batch has a size, the lease is no longer than the heartbeat
/// timeout, and that no longer than the election timeout.
pub proof fn law_settings_are_sound(c: &Config, r: Result<()>)
    requires
        call_ensures(Config::validate, (c,), r),
    ensures
        r is Ok <==> {
            &&& c@.local_id.len() > 0
            &&& c@.heartbeat_timeout >= 5_000_000
            &&& c@.election_timeout >= c@.heartbeat_timeout
            &&& c@.commit_timeout >= 1_000_000
            &&& 1 <= c@.max_append_entries <= 1024
            &&& c@.snapshot_interval >= 5_000_000
            &&& 5_000_000 <= c@.leader_lease_timeout <= c@.heartbeat_timeout
        },
{
}

/// A reload changes what can be reloaded, as it says, and nothing else.
pub proof fn law_reload_changes_what_it_says(c: &Config, rc: &ReloadableConfig, r: Config)
    requires
        call_ensures(Config::reloaded, (c, rc), r),
    ensures
        r@.trailing_logs == rc.trailing_logs,
        r@.snapshot_interval == rc.snapshot_interval@,
        r@.snapshot_threshold == rc.snapshot_threshold,
        r@.heartbeat_timeout == rc.heartbeat_timeout@,
        r@.election_timeout == rc.election_timeout@,
        r@.local_id == c@.local_id,
        r@.commit_timeout == c@.commit_timeout,
        r@.max_append_entries == c@.max_append_entries,
        r@.leader_lease_timeout == c@.leader_lease_timeout,
        r@.shutdown_on_remove == c@.shutdown_on_remove,
        r@.pre_vote_disabled == c@.pre_vote_disabled,
        r@.no_snapshot_restore_on_start == c@.no_snapshot_restore_on_start,
{
}

/// A server that is demoted stays in the membership, and one that is added
/// again without an address keeps the one that it has.
pub proof fn law_known_servers_keep_their_address(
    current: &Configuration,
    change: &ConfigurationChangeRequest,
    next: Configuration,
    i: int,
)
    requires
        call_ensures(
            next_configuration,
            (current, change),
            Ok::<Configuration, crate::error::RaftError>(next),
        ),
        change.command != ConfigurationChangeCommand::RemoveServer,
        0 <= i < current@.len(),
        current@[i].id == change.server_id@,
    ensures
        next@.len() == current@.len(),
        next@[i].id == current@[i].id,
        change.server_address@.len() == 0 || change.command
            == ConfigurationChangeCommand::DemoteVoter ==> next@[i].address == current@[i].address,
{
}

/// A server is in a membership where one of that id is.
pub proof fn law_members_are_found(conf: &Configuration, id: &str, r: bool)
    requires
        call_ensures(Configuration::contains, (conf, id), r),
    ensures
        r <==> exists|i: int| 0 <= i < conf@.len() && (#[trigger] conf@[i]).id == id@,
{
}

/// As many voters are counted as there are servers with a vote.
pub proof fn law_voters_are_counted(conf: &Configuration, r: usize)
    requires
        call_ensures(Configuration::voters, (conf,), r),
    ensures
        r == Set::new(
            |p: int| 0 <= p < conf@.len() && conf@[p].suffrage == ServerSuffrage::Voter,
        ).len(),
{
    let voter = |s: ServerView| s.suffrage == ServerSuffrage::Voter;
    lemma_voters_by_position(conf@);
    assert(positions(conf@, voter) =~= Set::new(
        |p: int| 0 <= p < conf@.len() && conf@[p].suffrage == ServerSuffrage::Voter,
    ));
}

/// The settings that a node has by default: a second until a leader is missed
/// and until an election is repeated, half of that as its lease, and a snapshot
/// that is considered every two minutes.
pub proof fn law_default_settings(c: Config)
    requires
        call_ensures(Config::default, (), c),
    ensures
        c@.heartbeat_timeout == 1_000_000_000,
        c@.election_timeout == 1_000_000_000,
        c@.leader_lease_timeout == 500_000_000,
        c@.commit_timeout == 50_000_000,
        c@.snapshot_interval == 120_000_000_000,
        c@.snapshot_threshold == 8192,
        c@.trailing_logs == 10240,
        c@.max_append_entries == 64,
        c@.shutdown_on_remove,
        !c@.no_snapshot_restore_on_start,
        !c@.pre_vote_disabled,
        c@.local_id.len() == 0,
{
}

} // verus!
