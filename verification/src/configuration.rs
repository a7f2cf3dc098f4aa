//! Cluster membership: servers, validity of a membership, and the rules by
//! which one membership follows from another.

use crate::error::{RaftError, Result};
use crate::text::{joined, same_text};
use vstd::prelude::*;

verus! {

/// Unique ID of a server in the cluster.
pub type ServerID = String;

/// Network address of a server, understood by the transport.
pub type ServerAddress = String;

/// Whether a server has a vote.
#[derive(Debug, Clone, Copy, PartialEq, Eq, Structural)]
pub enum ServerSuffrage {
    /// A server whose vote counts and whose logs are replicated.
    Voter,
    /// A server that receives logs but does not vote.
    Nonvoter,
}

/// A single server in the cluster configuration.
#[derive(Debug)]
pub struct Server {
    pub suffrage: ServerSuffrage,
    pub id: ServerID,
    pub address: ServerAddress,
}

/// What a [`Server`] says.
#[verifier::ext_equal]
pub struct ServerView {
    pub suffrage: ServerSuffrage,
    pub id: Seq<char>,
    pub address: Seq<char>,
}

impl View for Server {
    type V = ServerView;

    open spec fn view(&self) -> ServerView {
        ServerView { suffrage: self.suffrage, id: self.id@, address: self.address@ }
    }
}

impl Clone for Server {
    fn clone(&self) -> (r: Self)
        ensures
            r@ == self@,
    {
        Server {
            suffrage: self.suffrage,
            id: self.id.clone(),
            address: self.address.clone(),
        }
    }
}

/// The set of servers in the cluster.
#[derive(Debug)]
pub struct Configuration {
    pub servers: Vec<Server>,
}

impl View for Configuration {
    type V = Seq<ServerView>;

    open spec fn view(&self) -> Seq<ServerView> {
        self.servers@.map_values(|s: Server| s@)
    }
}

impl Clone for Configuration {
    fn clone(&self) -> (r: Self)
        ensures
            r@ == self@,
    {
        let mut servers: Vec<Server> = Vec::new();
        let mut i: usize = 0;
        while i < self.servers.len()
            invariant
                i <= self.servers@.len(),
                servers@.len() == i,
                forall|j: int| 0 <= j < i ==> servers@[j]@ == self.servers@[j]@,
            decreases self.servers@.len() - i,
        {
            servers.push(self.servers[i].clone());
            i += 1;
        }
        let r = Configuration { servers };
        assert(r@ =~= self@);
        r
    }
}

impl Default for Configuration {
    fn default() -> (r: Self)
        ensures
            r@ == Seq::<ServerView>::empty(),
    {
        let r = Configuration { servers: Vec::new() };
        assert(r@ =~= Seq::<ServerView>::empty());
        r
    }
}

/// Whether a server of the membership has this ID and a vote.
pub open spec fn votes_in(servers: Seq<ServerView>, id: Seq<char>) -> bool {
    exists|i: int|
        0 <= i < servers.len() && (#[trigger] servers[i]).id == id && servers[i].suffrage
            == ServerSuffrage::Voter
}

/// Whether a server of the membership has this ID.
pub open spec fn member_of(servers: Seq<ServerView>, id: Seq<char>) -> bool {
    exists|i: int| 0 <= i < servers.len() && (#[trigger] servers[i]).id == id
}

/// The IDs of the voters.
pub open spec fn voter_ids(servers: Seq<ServerView>) -> Set<Seq<char>> {
    Set::new(|id: Seq<char>| votes_in(servers, id))
}

/// How many servers have a vote.
pub open spec fn voter_count(servers: Seq<ServerView>) -> nat
    decreases servers.len(),
{
    if servers.len() == 0 {
        0
    } else {
        voter_count(servers.drop_last()) + if servers.last().suffrage == ServerSuffrage::Voter {
            1nat
        } else {
            0nat
        }
    }
}

/// The number of voters that make a majority.
pub open spec fn majority(voters: nat) -> nat {
    voters / 2 + 1
}

impl Configuration {
    /// Returns true if the server has a vote in this configuration.
    pub fn has_vote(&self, id: &str) -> (r: bool)
        ensures
            r == votes_in(self@, id@),
    {
        let mut i: usize = 0;
        while i < self.servers.len()
            invariant
                i <= self.servers@.len(),
                forall|j: int|
                    0 <= j < i ==> !((#[trigger] self@[j]).id == id@ && self@[j].suffrage
                        == ServerSuffrage::Voter),
            decreases self.servers@.len() - i,
        {
            if self.servers[i].suffrage == ServerSuffrage::Voter && same_text(
                self.servers[i].id.as_str(),
                id,
            ) {
                assert(self@[i as int].id == id@);
                return true;
            }
            assert(self@[i as int] == self.servers@[i as int]@);
            i += 1;
        }
        false
    }

    /// Returns true if the server is present in this configuration, with any
    /// suffrage.
    pub fn contains(&self, id: &str) -> (r: bool)
        ensures
            r == member_of(self@, id@),
    {
        let mut i: usize = 0;
        while i < self.servers.len()
            invariant
                i <= self.servers@.len(),
                forall|j: int| 0 <= j < i ==> (#[trigger] self@[j]).id != id@,
            decreases self.servers@.len() - i,
        {
            assert(self@[i as int] == self.servers@[i as int]@);
            if same_text(self.servers[i].id.as_str(), id) {
                return true;
            }
            i += 1;
        }
        false
    }

    /// How many servers have a vote.
    pub fn voters(&self) -> (r: usize)
        ensures
            r == voter_count(self@),
            r <= self@.len(),
    {
        let mut count: usize = 0;
        let mut i: usize = 0;
        while i < self.servers.len()
            invariant
                i <= self.servers@.len(),
                count <= i,
                count == voter_count(self@.take(i as int)),
            decreases self.servers@.len() - i,
        {
            assert(self@.take(i + 1).drop_last() =~= self@.take(i as int));
            if self.servers[i].suffrage == ServerSuffrage::Voter {
                count += 1;
            }
            i += 1;
        }
        assert(self@.take(i as int) =~= self@);
        count
    }

    /// The number of voters that make a majority.
    pub fn quorum_size(&self) -> (r: usize)
        ensures
            r == majority(voter_count(self@)),
    {
        let voters: usize = self.voters();
        voters / 2 + 1
    }
}

/// Whether a server lacks its ID or its address.
pub open spec fn blank_at(servers: Seq<ServerView>, i: int) -> bool {
    servers[i].id.len() == 0 || servers[i].address.len() == 0
}

/// Whether an earlier server has the same ID.
pub open spec fn id_repeats_at(servers: Seq<ServerView>, i: int) -> bool {
    exists|j: int| 0 <= j < i && (#[trigger] servers[j]).id == servers[i].id
}

/// Whether an earlier server has the same address.
pub open spec fn address_repeats_at(servers: Seq<ServerView>, i: int) -> bool {
    exists|j: int| 0 <= j < i && (#[trigger] servers[j]).address == servers[i].address
}

/// Whether an earlier server has the same ID or the same address.
pub open spec fn repeats_at(servers: Seq<ServerView>, i: int) -> bool {
    id_repeats_at(servers, i) || address_repeats_at(servers, i)
}

/// No server lacks its ID or its address.
pub open spec fn nothing_blank(servers: Seq<ServerView>) -> bool {
    forall|i: int| 0 <= i < servers.len() ==> !#[trigger] blank_at(servers, i)
}

/// No ID and no address occurs twice.
pub open spec fn nothing_repeats(servers: Seq<ServerView>) -> bool {
    forall|i: int| 0 <= i < servers.len() ==> !#[trigger] repeats_at(servers, i)
}

/// A membership a cluster can run with: non-empty IDs and addresses, none of
/// them twice, and at least one voter.
pub open spec fn valid_servers(servers: Seq<ServerView>) -> bool {
    &&& nothing_blank(servers)
    &&& nothing_repeats(servers)
    &&& voter_count(servers) > 0
}

/// Whether the first fault of a membership is described by this text: a blank
/// field comes before a repeated one, and both before the lack of voters.
pub open spec fn first_fault(servers: Seq<ServerView>, text: Seq<char>) -> bool {
    ||| exists|i: int|
        {
            &&& 0 <= i < servers.len()
            &&& #[trigger] blank_at(servers, i)
            &&& forall|j: int| 0 <= j < i ==> !#[trigger] blank_at(servers, j)
            &&& text == if servers[i].id.len() == 0 {
                "empty server ID"@
            } else {
                "empty server address"@
            }
        }
    ||| nothing_blank(servers) && exists|i: int|
        {
            &&& 0 <= i < servers.len()
            &&& #[trigger] repeats_at(servers, i)
            &&& forall|j: int| 0 <= j < i ==> !#[trigger] repeats_at(servers, j)
            &&& text == if id_repeats_at(servers, i) {
                "found duplicate ID in servers: "@ + servers[i].id
            } else {
                "found duplicate address in servers: "@ + servers[i].address
            }
        }
    ||| {
        &&& nothing_blank(servers)
        &&& nothing_repeats(servers)
        &&& voter_count(servers) == 0
        &&& text == "need at least one voter in configuration"@
    }
}

/// Whether the server at `i` has the ID (or, for `ids` false, the address) of
/// an earlier one.
fn occurs_before(conf: &Configuration, i: usize, ids: bool) -> (r: bool)
    requires
        i < conf.servers@.len(),
    ensures
        ids ==> r == id_repeats_at(conf@, i as int),
        !ids ==> r == address_repeats_at(conf@, i as int),
{
    let mut j: usize = 0;
    while j < i
        invariant
            j <= i,
            i < conf.servers@.len(),
            ids ==> forall|k: int| 0 <= k < j ==> (#[trigger] conf@[k]).id != conf@[i as int].id,
            !ids ==> forall|k: int|
                0 <= k < j ==> (#[trigger] conf@[k]).address != conf@[i as int].address,
        decreases i - j,
    {
        assert(conf@[j as int] == conf.servers@[j as int]@);
        assert(conf@[i as int] == conf.servers@[i as int]@);
        let same = if ids {
            same_text(conf.servers[j].id.as_str(), conf.servers[i].id.as_str())
        } else {
            same_text(conf.servers[j].address.as_str(), conf.servers[i].address.as_str())
        };
        if same {
            return true;
        }
        j += 1;
    }
    false
}

/// Validates a configuration: non-empty IDs and addresses, no duplicate
/// IDs or addresses, at least one voter.
pub fn check_configuration(conf: &Configuration) -> (r: Result<()>)
    ensures
        r is Ok <==> valid_servers(conf@),
        r matches Err(e) ==> e matches RaftError::Configuration(text) && first_fault(conf@, text@),
{
    let mut i: usize = 0;
    while i < conf.servers.len()
        invariant
            i <= conf.servers@.len(),
            forall|j: int| 0 <= j < i ==> !#[trigger] blank_at(conf@, j),
        decreases conf.servers@.len() - i,
    {
        assert(conf@[i as int] == conf.servers@[i as int]@);
        if conf.servers[i].id.as_str().is_empty() {
            assert(blank_at(conf@, i as int));
            return Err(RaftError::Configuration("empty server ID".to_owned()));
        }
        if conf.servers[i].address.as_str().is_empty() {
            assert(blank_at(conf@, i as int));
            return Err(RaftError::Configuration("empty server address".to_owned()));
        }
        i += 1;
    }
    assert(nothing_blank(conf@));
    let mut k: usize = 0;
    while k < conf.servers.len()
        invariant
            k <= conf.servers@.len(),
            nothing_blank(conf@),
            forall|j: int| 0 <= j < k ==> !#[trigger] repeats_at(conf@, j),
        decreases conf.servers@.len() - k,
    {
        assert(conf@[k as int] == conf.servers@[k as int]@);
        if occurs_before(conf, k, true) {
            assert(repeats_at(conf@, k as int));
            return Err(
                RaftError::Configuration(
                    joined("found duplicate ID in servers: ", conf.servers[k].id.as_str()),
                ),
            );
        }
        if occurs_before(conf, k, false) {
            assert(repeats_at(conf@, k as int));
            return Err(
                RaftError::Configuration(
                    joined("found duplicate address in servers: ", conf.servers[k].address.as_str()),
                ),
            );
        }
        k += 1;
    }
    assert(nothing_repeats(conf@));
    if conf.voters() == 0 {
        return Err(
            RaftError::Configuration("need at least one voter in configuration".to_owned()),
        );
    }
    Ok(())
}

/// A membership change command.
#[derive(Debug, Clone, Copy, PartialEq, Eq, Structural)]
pub enum ConfigurationChangeCommand {
    AddVoter,
    AddNonvoter,
    DemoteVoter,
    RemoveServer,
}

/// A request to change the cluster configuration.
#[derive(Debug)]
pub struct ConfigurationChangeRequest {
    pub command: ConfigurationChangeCommand,
    pub server_id: ServerID,
    pub server_address: ServerAddress,
    /// Only allow the change if the previous configuration index matches.
    /// Zero disables the check.
    pub prev_index: u64,
}

/// A server given a suffrage and, where one is named, an address.
pub open spec fn regraded(
    s: ServerView,
    suffrage: ServerSuffrage,
    address: Seq<char>,
) -> ServerView {
    ServerView {
        suffrage,
        id: s.id,
        address: if address.len() > 0 {
            address
        } else {
            s.address
        },
    }
}

/// The membership with every server of this ID given a suffrage and, where
/// one is named, an address.
pub open spec fn regrade_all(
    servers: Seq<ServerView>,
    id: Seq<char>,
    suffrage: ServerSuffrage,
    address: Seq<char>,
) -> Seq<ServerView> {
    servers.map_values(
        |s: ServerView|
            if s.id == id {
                regraded(s, suffrage, address)
            } else {
                s
            },
    )
}

/// The membership without the servers of this ID, in the same order.
pub open spec fn without_server(servers: Seq<ServerView>, id: Seq<char>) -> Seq<ServerView>
    decreases servers.len(),
{
    if servers.len() == 0 {
        servers
    } else if servers.last().id == id {
        without_server(servers.drop_last(), id)
    } else {
        without_server(servers.drop_last(), id).push(servers.last())
    }
}

/// The membership that a change makes of another, before it is validated.
pub open spec fn changed_servers(
    servers: Seq<ServerView>,
    command: ConfigurationChangeCommand,
    id: Seq<char>,
    address: Seq<char>,
) -> Seq<ServerView> {
    match command {
        ConfigurationChangeCommand::AddVoter => with_server(
            servers,
            id,
            ServerSuffrage::Voter,
            address,
        ),
        ConfigurationChangeCommand::AddNonvoter => with_server(
            servers,
            id,
            ServerSuffrage::Nonvoter,
            address,
        ),
        ConfigurationChangeCommand::DemoteVoter => regrade_all(
            servers,
            id,
            ServerSuffrage::Nonvoter,
            Seq::empty(),
        ),
        ConfigurationChangeCommand::RemoveServer => without_server(servers, id),
    }
}

/// The membership with a server of this ID: regraded where it is a member
/// already, otherwise added at the end.
pub open spec fn with_server(
    servers: Seq<ServerView>,
    id: Seq<char>,
    suffrage: ServerSuffrage,
    address: Seq<char>,
) -> Seq<ServerView> {
    if member_of(servers, id) {
        regrade_all(servers, id, suffrage, address)
    } else {
        servers.push(ServerView { suffrage, id, address })
    }
}

/// Gives every server of this ID a suffrage and, where one is named, an
/// address; tells whether there was one.
fn regrade(conf: &mut Configuration, id: &str, suffrage: ServerSuffrage, address: &str) -> (found:
    bool)
    ensures
        final(conf)@ == regrade_all(old(conf)@, id@, suffrage, address@),
        found == member_of(old(conf)@, id@),
{
    let mut found = false;
    let mut i: usize = 0;
    while i < conf.servers.len()
        invariant
            i <= conf.servers@.len(),
            conf.servers@.len() == old(conf).servers@.len(),
            forall|j: int|
                0 <= j < i ==> (#[trigger] conf.servers@[j])@ == regrade_all(
                    old(conf)@,
                    id@,
                    suffrage,
                    address@,
                )[j],
            forall|j: int|
                i <= j < conf.servers@.len() ==> conf.servers@[j] == old(conf).servers@[j],
            found == exists|j: int| 0 <= j < i && (#[trigger] old(conf)@[j]).id == id@,
        decreases conf.servers@.len() - i,
    {
        assert(old(conf)@[i as int] == old(conf).servers@[i as int]@);
        if same_text(conf.servers[i].id.as_str(), id) {
            let new_address = if address.is_empty() {
                conf.servers[i].address.clone()
            } else {
                address.to_owned()
            };
            let regraded_server = Server {
                suffrage,
                id: conf.servers[i].id.clone(),
                address: new_address,
            };
            conf.servers.set(i, regraded_server);
            found = true;
        }
        i += 1;
    }
    assert(conf@ =~= regrade_all(old(conf)@, id@, suffrage, address@));
    found
}

/// The servers that do not have this ID.
fn retain_others(conf: &Configuration, id: &str) -> (r: Configuration)
    ensures
        r@ == without_server(conf@, id@),
{
    let mut servers: Vec<Server> = Vec::new();
    let mut i: usize = 0;
    while i < conf.servers.len()
        invariant
            i <= conf.servers@.len(),
            (Configuration { servers })@ == without_server(conf@.take(i as int), id@),
        decreases conf.servers@.len() - i,
    {
        assert(conf@.take(i + 1).drop_last() =~= conf@.take(i as int));
        assert(conf@[i as int] == conf.servers@[i as int]@);
        let ghost before = servers@;
        if !same_text(conf.servers[i].id.as_str(), id) {
            servers.push(conf.servers[i].clone());
            assert(servers@.map_values(|s: Server| s@) =~= before.map_values(|s: Server| s@).push(
                conf@[i as int],
            ));
        }
        i += 1;
    }
    assert(conf@.take(i as int) =~= conf@);
    Configuration { servers }
}

/// Computes the configuration that results from applying a change to the
/// current configuration.
pub fn next_configuration(current: &Configuration, change: &ConfigurationChangeRequest) -> (r:
    Result<Configuration>)
    ensures
        r is Ok <==> valid_servers(
            changed_servers(
                current@,
                change.command,
                change.server_id@,
                change.server_address@,
            ),
        ),
        r matches Ok(next) ==> next@ == changed_servers(
            current@,
            change.command,
            change.server_id@,
            change.server_address@,
        ),
        r matches Err(e) ==> e matches RaftError::Configuration(text) && first_fault(
            changed_servers(
                current@,
                change.command,
                change.server_id@,
                change.server_address@,
            ),
            text@,
        ),
{
    let mut next = current.clone();
    match change.command {
        ConfigurationChangeCommand::AddVoter | ConfigurationChangeCommand::AddNonvoter => {
            let suffrage = match change.command {
                ConfigurationChangeCommand::AddVoter => ServerSuffrage::Voter,
                _ => ServerSuffrage::Nonvoter,
            };
            let found = regrade(
                &mut next,
                change.server_id.as_str(),
                suffrage,
                change.server_address.as_str(),
            );
            if !found {
                let ghost before = next.servers@;
                assert(next@ =~= current@);
                next.servers.push(
                    Server {
                        suffrage,
                        id: change.server_id.clone(),
                        address: change.server_address.clone(),
                    },
                );
                assert(next@ =~= current@.push(
                    ServerView {
                        suffrage,
                        id: change.server_id@,
                        address: change.server_address@,
                    },
                ));
            }
        },
        ConfigurationChangeCommand::DemoteVoter => {
            proof {
                reveal_strlit("");
            }
            assert(""@ =~= Seq::<char>::empty());
            let _found = regrade(
                &mut next,
                change.server_id.as_str(),
                ServerSuffrage::Nonvoter,
                "",
            );
        },
        ConfigurationChangeCommand::RemoveServer => {
            next = retain_others(current, change.server_id.as_str());
        },
    }
    match check_configuration(&next) {
        Ok(()) => Ok(next),
        Err(e) => Err(e),
    }
}

} // verus!
