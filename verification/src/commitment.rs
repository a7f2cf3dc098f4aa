//! Advances the leader's commit index.

use crate::configuration::{
    Configuration, ServerID, ServerSuffrage, ServerView,
};
use crate::text::same_text;
use vstd::prelude::*;

verus! {

/// Tracks which log entries a quorum of voters has stored. The leader and
/// the replication to each follower report newly written entries with
/// [`Commitment::match_index`]; a notice is left when the commit index
/// advances. A new one is made each time this server becomes leader.
pub struct Commitment {
    /// Voter ID to log index: the server stores up through this log entry.
    match_indexes: Vec<(ServerID, u64)>,
    /// A quorum stores up through this log entry. Never decreases.
    commit_index: u64,
    /// The first index of this leader's term: this needs to be replicated to
    /// a majority of the cluster before this leader may mark anything
    /// committed.
    start_index: u64,
    /// Whether a notice of an advance waits to be taken (a single slot).
    notice: bool,
}

/// What a [`Commitment`] knows.
#[verifier::ext_equal]
pub struct CommitmentView {
    /// Up to where each voter stores the leader's log.
    pub matched: Map<Seq<char>, u64>,
    pub commit_index: u64,
    pub start_index: u64,
    pub notice: bool,
}

/// The entries of an association list as a map; no key occurs twice.
spec fn entries_map(entries: Seq<(ServerID, u64)>) -> Map<Seq<char>, u64>
    decreases entries.len(),
{
    if entries.len() == 0 {
        Map::empty()
    } else {
        entries_map(entries.drop_last()).insert(entries.last().0@, entries.last().1)
    }
}

spec fn distinct_keys(entries: Seq<(ServerID, u64)>) -> bool {
    forall|i: int, j: int|
        0 <= i < j < entries.len() ==> (#[trigger] entries[i]).0@ != (#[trigger] entries[j]).0@
}

proof fn lemma_entries_map(entries: Seq<(ServerID, u64)>)
    requires
        distinct_keys(entries),
    ensures
        entries_map(entries).dom().finite(),
        entries_map(entries).dom().len() == entries.len(),
        forall|i: int|
            0 <= i < entries.len() ==> entries_map(entries).contains_key(
                (#[trigger] entries[i]).0@,
            ) && entries_map(entries)[entries[i].0@] == entries[i].1,
        forall|k: Seq<char>| #[trigger]
            entries_map(entries).contains_key(k) ==> exists|i: int|
                0 <= i < entries.len() && (#[trigger] entries[i]).0@ == k,
    decreases entries.len(),
{
    if entries.len() > 0 {
        let front = entries.drop_last();
        lemma_entries_map(front);
        assert forall|k: Seq<char>| #[trigger]
            entries_map(entries).contains_key(k) implies exists|i: int|
            0 <= i < entries.len() && (#[trigger] entries[i]).0@ == k by {
            if k == entries.last().0@ {
                assert(entries[entries.len() - 1].0@ == k);
            } else {
                assert(entries_map(front).contains_key(k));
                let i = choose|i: int| 0 <= i < front.len() && (#[trigger] front[i]).0@ == k;
                assert(entries[i].0@ == k);
            }
        }
        if entries_map(front).contains_key(entries.last().0@) {
            let i = choose|i: int|
                0 <= i < front.len() && (#[trigger] front[i]).0@ == entries.last().0@;
            assert(entries[i].0@ == entries[entries.len() - 1].0@);
        }
        assert(entries_map(entries).dom() =~= entries_map(front).dom().insert(
            entries.last().0@,
        ));
        assert forall|i: int| 0 <= i < entries.len() implies entries_map(entries).contains_key(
            (#[trigger] entries[i]).0@,
        ) && entries_map(entries)[entries[i].0@] == entries[i].1 by {
            if i < front.len() {
                assert(front[i] == entries[i]);
                assert(entries[i].0@ != entries[entries.len() - 1].0@);
            }
        }
    } else {
        assert(entries_map(entries).dom() =~= Set::empty());
    }
}

impl View for Commitment {
    type V = CommitmentView;

    closed spec fn view(&self) -> CommitmentView {
        CommitmentView {
            matched: entries_map(self.match_indexes@),
            commit_index: self.commit_index,
            start_index: self.start_index,
            notice: self.notice,
        }
    }
}

/// The voters that store the log up through `index`.
pub open spec fn stored_by(matched: Map<Seq<char>, u64>, index: u64) -> Set<Seq<char>> {
    matched.dom().filter(|voter: Seq<char>| matched[voter] >= index)
}

/// Whether a majority of the voters stores the log up through `index`.
pub open spec fn quorum_stores(matched: Map<Seq<char>, u64>, index: u64) -> bool {
    stored_by(matched, index).len() >= matched.dom().len() / 2 + 1
}

/// Whether `index` is the highest up through which a majority stores the log.
pub open spec fn is_quorum_index(matched: Map<Seq<char>, u64>, index: u64) -> bool {
    &&& quorum_stores(matched, index)
    &&& forall|higher: u64| higher > index ==> !#[trigger] quorum_stores(matched, higher)
}

/// The view after the match indexes have become `matched`: the commit index
/// advances to the quorum's index if that is an advance and lies in the
/// leader's own term, and a notice is left exactly then.
pub open spec fn recalculated(
    before: CommitmentView,
    matched: Map<Seq<char>, u64>,
    after: CommitmentView,
) -> bool {
    &&& after.matched == matched
    &&& after.start_index == before.start_index
    &&& if matched.dom().len() == 0 {
        after.commit_index == before.commit_index && after.notice == before.notice
    } else {
        exists|q: u64|
            {
                &&& #[trigger] is_quorum_index(matched, q)
                &&& if q > before.commit_index && q >= before.start_index {
                    after.commit_index == q && after.notice
                } else {
                    after.commit_index == before.commit_index && after.notice == before.notice
                }
            }
    }
}

/// The commit index keeps up with the quorum: it reaches every index of the
/// leader's own term up through which a majority stores the log.
pub open spec fn reflects_quorum(v: CommitmentView) -> bool {
    forall|index: u64|
        index >= v.start_index && #[trigger] quorum_stores(v.matched, index) ==> index
            <= v.commit_index
}

/// The match indexes after a server was seen to store the log up to an index:
/// only voters count, and only what is news.
pub open spec fn reported(
    matched: Map<Seq<char>, u64>,
    server: Seq<char>,
    index: u64,
) -> Map<Seq<char>, u64> {
    if matched.contains_key(server) && index > matched[server] {
        matched.insert(server, index)
    } else {
        matched
    }
}

/// The commit index that goes with a quorum's index: the quorum's, if that is
/// an advance and lies in the leader's own term.
pub open spec fn commit_for(before: u64, start_index: u64, quorum: u64) -> u64 {
    if quorum >= start_index && quorum > before {
        quorum
    } else {
        before
    }
}

/// The voters of a membership with the indexes they keep from an earlier
/// one, new voters starting at zero.
pub open spec fn carried_over(
    old_matched: Map<Seq<char>, u64>,
    servers: Seq<ServerView>,
) -> Map<Seq<char>, u64> {
    Map::new(
        |voter: Seq<char>| crate::configuration::votes_in(servers, voter),
        |voter: Seq<char>|
            if old_matched.contains_key(voter) {
                old_matched[voter]
            } else {
                0
            },
    )
}

impl Commitment {
    /// The invariant of the bookkeeping: no voter is listed twice, and the
    /// commit index keeps up with the quorum.
    #[verifier::type_invariant]
    spec fn well_formed(self) -> bool {
        &&& distinct_keys(self.match_indexes@)
        &&& reflects_quorum(self@)
    }

    /// `configuration` is the servers in the cluster; `start_index` is the
    /// first index that may be committed in this term.
    pub fn new(configuration: &Configuration, start_index: u64) -> (r: Self)
        ensures
            r@.matched == carried_over(Map::empty(), configuration@),
            r@.commit_index == 0,
            r@.start_index == start_index,
            !r@.notice,
            reflects_quorum(r@),
    {
        let none: Vec<(ServerID, u64)> = Vec::new();
        let match_indexes = Self::carry_over(&none, configuration);
        proof {
            lemma_nothing_stored_yet(entries_map(match_indexes@));
        }
        Commitment { match_indexes, commit_index: 0, start_index, notice: false }
    }

    /// The position of a voter in an association list.
    fn position(entries: &Vec<(ServerID, u64)>, server: &str) -> (r: Option<usize>)
        ensures
            match r {
                Some(i) => i < entries@.len() && entries@[i as int].0@ == server@,
                None => forall|i: int|
                    0 <= i < entries@.len() ==> (#[trigger] entries@[i]).0@ != server@,
            },
    {
        let mut i: usize = 0;
        while i < entries.len()
            invariant
                i <= entries@.len(),
                forall|j: int| 0 <= j < i ==> (#[trigger] entries@[j]).0@ != server@,
            decreases entries@.len() - i,
        {
            if same_text(entries[i].0.as_str(), server) {
                return Some(i);
            }
            i += 1;
        }
        None
    }

    /// The voters of a configuration, each with the index it had in `old`.
    fn carry_over(old_entries: &Vec<(ServerID, u64)>, configuration: &Configuration) -> (r: Vec<
        (ServerID, u64),
    >)
        requires
            distinct_keys(old_entries@),
        ensures
            distinct_keys(r@),
            entries_map(r@) == carried_over(entries_map(old_entries@), configuration@),
    {
        proof {
            lemma_entries_map(old_entries@);
        }
        let ghost old_map = entries_map(old_entries@);
        let mut entries: Vec<(ServerID, u64)> = Vec::new();
        let mut i: usize = 0;
        assert(entries_map(entries@) =~= carried_over(old_map, configuration@.take(0)));
        while i < configuration.servers.len()
            invariant
                i <= configuration.servers@.len(),
                distinct_keys(old_entries@),
                old_map == entries_map(old_entries@),
                distinct_keys(entries@),
                entries_map(entries@) == carried_over(old_map, configuration@.take(i as int)),
            decreases configuration.servers@.len() - i,
        {
            let ghost seen = configuration@.take(i as int);
            let ghost now = configuration@.take(i + 1);
            let ghost entries_before = entries@;
            assert(configuration@[i as int] == configuration.servers@[i as int]@);
            proof {
                lemma_entries_map(old_entries@);
                lemma_entries_map(entries@);
                assert forall|voter: Seq<char>| #[trigger]
                    crate::configuration::votes_in(now, voter) == (crate::configuration::votes_in(
                        seen,
                        voter,
                    ) || (configuration@[i as int].suffrage == ServerSuffrage::Voter
                        && configuration@[i as int].id == voter)) by {
                    if crate::configuration::votes_in(now, voter) {
                        let k = choose|k: int|
                            0 <= k < now.len() && (#[trigger] now[k]).id == voter
                                && now[k].suffrage == ServerSuffrage::Voter;
                        if k < i {
                            assert(seen[k].id == voter);
                        }
                    }
                    if crate::configuration::votes_in(seen, voter) {
                        let k = choose|k: int|
                            0 <= k < seen.len() && (#[trigger] seen[k]).id == voter
                                && seen[k].suffrage == ServerSuffrage::Voter;
                        assert(now[k].id == voter);
                    }
                    if configuration@[i as int].suffrage == ServerSuffrage::Voter
                        && configuration@[i as int].id == voter {
                        assert(now[i as int].id == voter);
                    }
                }
            }
            let server = &configuration.servers[i];
            if server.suffrage == ServerSuffrage::Voter {
                match Self::position(&entries, server.id.as_str()) {
                    Some(_) => {},
                    None => {
                        let index: u64 = match Self::position(old_entries, server.id.as_str()) {
                            Some(k) => old_entries[k].1,
                            None => 0,
                        };
                        entries.push((server.id.clone(), index));
                        assert(entries@.drop_last() =~= entries_before);
                    },
                }
            }
            assert(entries_map(entries@) =~= carried_over(old_map, now));
            i += 1;
        }
        assert(configuration@.take(i as int) =~= configuration@);
        entries
    }

    /// Called when a new cluster membership configuration is created: it
    /// will be used to determine commitment from now on. Match indexes are
    /// kept for servers that remain voters.
    pub fn set_configuration(&mut self, configuration: &Configuration)
        ensures
            recalculated(
                old(self)@,
                carried_over(old(self)@.matched, configuration@),
                final(self)@,
            ),
            reflects_quorum(final(self)@),
    {
        proof {
            use_type_invariant(&*self);
        }
        let match_indexes = Self::carry_over(&self.match_indexes, configuration);
        self.recalculate(match_indexes);
    }

    /// The current commit index.
    pub fn commit_index(&self) -> (r: u64)
        ensures
            r == self@.commit_index,
            reflects_quorum(self@),
    {
        proof {
            use_type_invariant(self);
        }
        self.commit_index
    }

    /// The first index of this leader's term; the leader may not commit
    /// anything below it.
    pub fn start_index(&self) -> (r: u64)
        ensures
            r == self@.start_index,
    {
        self.start_index
    }

    /// Takes the notice that the commit index advanced, if one waits.
    pub fn take_notice(&mut self) -> (r: bool)
        ensures
            r == old(self)@.notice,
            final(self)@ == (CommitmentView { notice: false, ..old(self)@ }),
    {
        proof {
            use_type_invariant(&*self);
        }
        let waiting = self.notice;
        self.notice = false;
        waiting
    }

    /// Called once a server completes writing entries to disk: either the
    /// leader wrote the new entry or a follower replied to an AppendEntries
    /// request. The given server's disk agrees with this server's log up
    /// through `match_index`.
    pub fn match_index(&mut self, server: &str, match_index: u64)
        ensures
            if old(self)@.matched.contains_key(server@) && match_index
                > old(self)@.matched[server@] {
                recalculated(
                    old(self)@,
                    old(self)@.matched.insert(server@, match_index),
                    final(self)@,
                )
            } else {
                final(self)@ == old(self)@
            },
            reflects_quorum(final(self)@),
    {
        proof {
            use_type_invariant(&*self);
            lemma_entries_map(self.match_indexes@);
        }
        match Self::position(&self.match_indexes, server) {
            Some(i) => {
                if match_index > self.match_indexes[i].1 {
                    let ghost before = self.match_indexes@;
                    let mut entries: Vec<(ServerID, u64)> = Vec::new();
                    proof {
                        lemma_nothing_stored_yet(entries_map(entries@));
                    }
                    std::mem::swap(&mut entries, &mut self.match_indexes);
                    let id = entries[i].0.clone();
                    entries.set(i, (id, match_index));
                    proof {
                        lemma_entries_map(entries@);
                        assert(entries_map(entries@) =~= entries_map(before).insert(
                            server@,
                            match_index,
                        )) by {
                            assert forall|k: Seq<char>| entries_map(entries@).contains_key(k)
                                == entries_map(before).insert(server@, match_index).contains_key(
                                k,
                            ) by {
                                if entries_map(entries@).contains_key(k) {
                                    let j = choose|j: int|
                                        0 <= j < entries@.len() && (#[trigger] entries@[j]).0@
                                            == k;
                                    assert(before[j].0@ == k);
                                }
                                if entries_map(before).contains_key(k) {
                                    let j = choose|j: int|
                                        0 <= j < before.len() && (#[trigger] before[j]).0@ == k;
                                    assert(entries@[j].0@ == k);
                                }
                            }
                            assert forall|k: Seq<char>| #[trigger]
                                entries_map(entries@).contains_key(k) implies entries_map(
                                entries@,
                            )[k] == entries_map(before).insert(server@, match_index)[k] by {
                                let j = choose|j: int|
                                    0 <= j < entries@.len() && (#[trigger] entries@[j]).0@ == k;
                                assert(before[j].0@ == k);
                                if j != i {
                                    assert(before[j].0@ != before[i as int].0@);
                                }
                            }
                        }
                    }
                    self.recalculate(entries);
                }
            },
            None => {
                // Not a voter.
            },
        }
    }

    /// How many voters store the log up through `index`.
    fn count_stored(entries: &Vec<(ServerID, u64)>, index: u64) -> (r: usize)
        requires
            distinct_keys(entries@),
        ensures
            r == stored_by(entries_map(entries@), index).len(),
    {
        let mut count: usize = 0;
        let mut i: usize = 0;
        assert(stored_by(entries_map(entries@.take(0)), index) =~= Set::empty());
        while i < entries.len()
            invariant
                i <= entries@.len(),
                count <= i,
                distinct_keys(entries@),
                count == stored_by(entries_map(entries@.take(i as int)), index).len(),
                stored_by(entries_map(entries@.take(i as int)), index).finite(),
            decreases entries@.len() - i,
        {
            let ghost front = entries@.take(i as int);
            let ghost now = entries@.take(i + 1);
            proof {
                assert(now.drop_last() =~= front);
                lemma_entries_map(front);
                lemma_entries_map(now);
                if entries_map(front).contains_key(entries@[i as int].0@) {
                    let j = choose|j: int|
                        0 <= j < front.len() && (#[trigger] front[j]).0@ == entries@[i as int].0@;
                    assert(entries@[j].0@ == entries@[i as int].0@);
                }
                if entries@[i as int].1 >= index {
                    assert(stored_by(entries_map(now), index) =~= stored_by(
                        entries_map(front),
                        index,
                    ).insert(entries@[i as int].0@));
                } else {
                    assert(stored_by(entries_map(now), index) =~= stored_by(
                        entries_map(front),
                        index,
                    ));
                }
            }
            if entries[i].1 >= index {
                count += 1;
            }
            i += 1;
        }
        assert(entries@.take(i as int) =~= entries@);
        count
    }

    /// The highest index up through which a majority stores the log.
    fn quorum_match_index(entries: &Vec<(ServerID, u64)>) -> (r: u64)
        requires
            distinct_keys(entries@),
            entries@.len() > 0,
        ensures
            is_quorum_index(entries_map(entries@), r),
    {
        proof {
            lemma_entries_map(entries@);
        }
        let needed: usize = entries.len() / 2 + 1;
        let mut best: u64 = 0;
        let mut i: usize = 0;
        let ghost matched = entries_map(entries@);
        assert(stored_by(matched, 0) =~= matched.dom());
        while i < entries.len()
            invariant
                i <= entries@.len(),
                distinct_keys(entries@),
                matched == entries_map(entries@),
                needed == entries@.len() / 2 + 1,
                matched.dom().len() == entries@.len(),
                quorum_stores(matched, best),
                forall|j: int|
                    0 <= j < i && (#[trigger] entries@[j]).1 > best ==> !quorum_stores(
                        matched,
                        entries@[j].1,
                    ),
            decreases entries@.len() - i,
        {
            if entries[i].1 > best && Self::count_stored(entries, entries[i].1) >= needed {
                best = entries[i].1;
            }
            i += 1;
        }
        proof {
            assert forall|higher: u64| higher > best implies !#[trigger] quorum_stores(
                matched,
                higher,
            ) by {
                lemma_entries_map(entries@);
                if quorum_stores(matched, higher) {
                    Self::lemma_next_stored(entries@, higher);
                }
            }
        }
        best
    }

    /// A majority that stores up through `index` stores up through an index
    /// that some voter reported.
    proof fn lemma_next_stored(entries: Seq<(ServerID, u64)>, index: u64)
        requires
            distinct_keys(entries),
            quorum_stores(entries_map(entries), index),
        ensures
            exists|j: int|
                0 <= j < entries.len() && (#[trigger] entries[j]).1 >= index && quorum_stores(
                    entries_map(entries),
                    entries[j].1,
                ),
    {
        lemma_entries_map(entries);
        let matched = entries_map(entries);
        let group = stored_by(matched, index);
        vstd::set_lib::lemma_len_subset(group, matched.dom());
        let j = Self::lemma_least(entries, index);
        assert(stored_by(matched, entries[j].1) =~= group) by {
            assert forall|k: Seq<char>| group.contains(k) implies matched[k] >= entries[j].1 by {
                let i = choose|i: int| 0 <= i < entries.len() && (#[trigger] entries[i]).0@ == k;
                assert(entries[i].1 >= index);
            }
        }
        assert(entries[j].1 >= index);
    }

    /// The least reported index that is at least `index`, where one is.
    proof fn lemma_least(entries: Seq<(ServerID, u64)>, index: u64) -> (j: int)
        requires
            distinct_keys(entries),
            stored_by(entries_map(entries), index).len() > 0,
        ensures
            0 <= j < entries.len(),
            entries[j].1 >= index,
            forall|i: int|
                0 <= i < entries.len() && (#[trigger] entries[i]).1 >= index ==> entries[i].1
                    >= entries[j].1,
    {
        lemma_entries_map(entries);
        let matched = entries_map(entries);
        let group = stored_by(matched, index);
        vstd::set_lib::lemma_len_subset(group, matched.dom());
        assert(exists|k: Seq<char>| group.contains(k)) by {
            if !exists|k: Seq<char>| group.contains(k) {
                assert(group =~= Set::empty());
            }
        }
        let k = choose|k: Seq<char>| group.contains(k);
        let i = choose|i: int| 0 <= i < entries.len() && (#[trigger] entries[i]).0@ == k;
        Self::lemma_least_from(entries, index, i, 0)
    }

    proof fn lemma_least_from(entries: Seq<(ServerID, u64)>, index: u64, best: int, from: int) -> (j:
        int)
        requires
            0 <= best < entries.len(),
            0 <= from <= entries.len(),
            entries[best].1 >= index,
            forall|i: int|
                0 <= i < from && (#[trigger] entries[i]).1 >= index ==> entries[i].1
                    >= entries[best].1,
        ensures
            0 <= j < entries.len(),
            entries[j].1 >= index,
            forall|i: int|
                0 <= i < entries.len() && (#[trigger] entries[i]).1 >= index ==> entries[i].1
                    >= entries[j].1,
        decreases entries.len() - from,
    {
        if from == entries.len() {
            best
        } else if entries[from].1 >= index && entries[from].1 < entries[best].1 {
            Self::lemma_least_from(entries, index, from, from + 1)
        } else {
            Self::lemma_least_from(entries, index, best, from + 1)
        }
    }

    /// Takes up match indexes and recalculates the commit index from them.
    fn recalculate(&mut self, match_indexes: Vec<(ServerID, u64)>)
        requires
            distinct_keys(match_indexes@),
        ensures
            recalculated(old(self)@, entries_map(match_indexes@), final(self)@),
            reflects_quorum(final(self)@),
    {
        proof {
            use_type_invariant(&*self);
            lemma_entries_map(match_indexes@);
        }
        if match_indexes.len() > 0 {
            let quorum: u64 = Self::quorum_match_index(&match_indexes);
            // Only advance, and only past the first index of this term.
            if quorum > self.commit_index && quorum >= self.start_index {
                proof {
                    lemma_later_keeps_up(self@, quorum);
                }
                self.commit_index = quorum;
                self.notice = true;
            }
            assert(is_quorum_index(entries_map(match_indexes@), quorum));
        } else {
            proof {
                lemma_nothing_stored_yet(entries_map(match_indexes@));
            }
        }
        self.match_indexes = match_indexes;
    }
}

proof fn lemma_later_keeps_up(v: CommitmentView, later: u64)
    requires
        reflects_quorum(v),
        later >= v.commit_index,
    ensures
        reflects_quorum((CommitmentView { commit_index: later, ..v })),
        reflects_quorum((CommitmentView { commit_index: later, notice: true, ..v })),
{
    let after = CommitmentView { commit_index: later, ..v };
    assert forall|index: u64|
        index >= after.start_index && #[trigger] quorum_stores(after.matched, index) implies index
        <= after.commit_index by {
        assert(quorum_stores(v.matched, index));
    }
}

proof fn lemma_nothing_stored_yet(matched: Map<Seq<char>, u64>)
    requires
        forall|voter: Seq<char>| #[trigger] matched.contains_key(voter) ==> matched[voter] == 0,
    ensures
        forall|index: u64| index > 0 ==> !#[trigger] quorum_stores(matched, index),
{
    assert forall|index: u64| index > 0 implies !#[trigger] quorum_stores(matched, index) by {
        assert(stored_by(matched, index) =~= Set::empty());
    }
}

/// As long as there are voters, there is a highest index up through which a
/// majority stores the log, among those up to `top` where none above it is.
proof fn lemma_quorum_index_exists(matched: Map<Seq<char>, u64>, top: u64)
    requires
        matched.dom().finite(),
        matched.dom().len() > 0,
        forall|higher: u64| higher > top ==> !#[trigger] quorum_stores(matched, higher),
    ensures
        exists|q: u64| #[trigger] is_quorum_index(matched, q),
    decreases top,
{
    if quorum_stores(matched, top) {
        assert(is_quorum_index(matched, top));
    } else {
        if top == 0 {
            assert(stored_by(matched, 0) =~= matched.dom());
        }
        lemma_quorum_index_exists(matched, (top - 1) as u64);
    }
}

/// The commit index always reflects the quorum: after a server was seen to
/// store the log up to an index, news or not, it is the quorum's index where
/// that is an advance in the leader's own term, and else as it was.
pub proof fn law_commit_index_reflects_the_quorum(
    before: CommitmentView,
    server: Seq<char>,
    index: u64,
    after: CommitmentView,
)
    requires
        before.matched.dom().finite(),
        before.matched.dom().len() > 0,
        reflects_quorum(before),
        if before.matched.contains_key(server) && index > before.matched[server] {
            recalculated(before, before.matched.insert(server, index), after)
        } else {
            after == before
        },
    ensures
        exists|q: u64| #[trigger]
            is_quorum_index(after.matched, q) && after.commit_index == commit_for(
                before.commit_index,
                before.start_index,
                q,
            ),
        reflects_quorum(after),
        after.matched == reported(before.matched, server, index),
{
    if reported(before.matched, server, index) == before.matched {
        assert(after == before);
        lemma_quorum_index_exists(before.matched, u64::MAX);
        let q = choose|q: u64| #[trigger] is_quorum_index(before.matched, q);
        assert(quorum_stores(before.matched, q));
    } else {
        assert(after.matched.dom() =~= before.matched.dom());
    }
}

/// The commit index never goes back, and where it moves, a majority of the
/// voters stores the log up to it and it lies in the leader's own term.
pub proof fn law_commit_index_only_advances(
    before: CommitmentView,
    matched: Map<Seq<char>, u64>,
    after: CommitmentView,
)
    requires
        recalculated(before, matched, after),
    ensures
        after.commit_index >= before.commit_index,
        after.commit_index != before.commit_index ==> {
            &&& quorum_stores(matched, after.commit_index)
            &&& after.commit_index >= before.start_index
            &&& after.notice
        },
{
}

/// No two indexes are the highest that a majority stores: what a change of
/// the match indexes makes of the commit index is determined.
pub proof fn law_quorum_index_is_unique(matched: Map<Seq<char>, u64>, a: u64, b: u64)
    requires
        is_quorum_index(matched, a),
        is_quorum_index(matched, b),
    ensures
        a == b,
{
    if a < b {
        assert(!quorum_stores(matched, b));
    }
    if b < a {
        assert(!quorum_stores(matched, a));
    }
}

/// What a majority stores up through an index, it stores up through every
/// lower one.
pub proof fn law_quorum_storage_reaches_down(
    matched: Map<Seq<char>, u64>,
    low: u64,
    high: u64,
)
    requires
        matched.dom().finite(),
        low <= high,
        quorum_stores(matched, high),
    ensures
        quorum_stores(matched, low),
{
    assert(stored_by(matched, high).subset_of(stored_by(matched, low)));
    vstd::set_lib::lemma_len_subset(stored_by(matched, low), matched.dom());
    vstd::set_lib::lemma_len_subset(stored_by(matched, high), stored_by(matched, low));
}

} // verus!
