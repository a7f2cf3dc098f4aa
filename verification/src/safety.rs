//! Why a committed entry is never lost, and why all nodes apply the same:
//! whoever leads later has the entry, and logs that match are applied alike.
//!
//! The laws here speak of logs that were not compacted; a compacted entry is
//! in a snapshot.

use crate::append::{
    conflicts_at, held, is_first_new, lemma_with_logs_run, logs_match, stored_after, stretch_of,
    without_holes,
};
use crate::apply::{commit_at, commits_between, CommitView, LogFuture};
use crate::log::{same_entry, without_range, LogView};
use vstd::prelude::*;

verus! {

/// Whether a log holds an entry of this term at an index.
pub open spec fn holds_at(log: Map<u64, LogView>, index: u64, term: u64) -> bool {
    log.contains_key(index) && log[index].term == term
}

/// A log from its first entry up to its last.
pub open spec fn whole(log: Map<u64, LogView>, last: u64) -> bool {
    forall|i: u64| #[trigger] log.contains_key(i) <==> 1 <= i <= last
}

/// The terms of a log never go down.
pub open spec fn terms_rise(log: Map<u64, LogView>) -> bool {
    forall|i: u64, j: u64|
        #![trigger log[i], log[j]]
        i <= j && log.contains_key(i) && log.contains_key(j) ==> log[i].term <= log[j].term
}

/// A node takes over a stretch of another's log: the two logs match, and the
/// entries from `k` on are new.
pub struct Taking {
    pub sender: Map<u64, LogView>,
    pub stored: Map<u64, LogView>,
    pub last: u64,
    pub previous: u64,
    pub previous_term: u64,
    pub entries: Seq<LogView>,
    pub k: int,
}

/// Whether it is one that an accepted append request comes to.
pub open spec fn takes(t: Taking) -> bool {
    &&& without_holes(t.stored, t.last)
    &&& logs_match(t.sender, t.stored)
    &&& stretch_of(t.sender, t.previous, t.previous_term, t.entries)
    &&& is_first_new(t.stored, t.last, t.entries, t.k)
    &&& t.k < t.entries.len() && t.entries[t.k].index <= t.last ==> conflicts_at(
        t.stored,
        t.last,
        t.entries,
        t.k,
    )
}

/// The node's log afterwards.
pub open spec fn taken(t: Taking) -> Map<u64, LogView> {
    stored_after(t.stored, t.last, t.entries, t.k)
}

/// An entry that a node shares with the sender survives an append request:
/// it is neither removed nor replaced.
pub proof fn law_shared_entries_survive_appends(t: Taking, index: u64, term: u64)
    requires
        takes(t),
        holds_at(t.sender, index, term),
        holds_at(t.stored, index, term),
    ensures
        holds_at(taken(t), index, term),
        taken(t)[index] == t.stored[index],
{
    if t.k < t.entries.len() {
        let first = t.entries[t.k].index;
        let new = t.entries.skip(t.k);
        let base = if conflicts_at(t.stored, t.last, t.entries, t.k) {
            without_range(t.stored, first, t.last)
        } else {
            t.stored
        };
        assert forall|i: int, j: int| 0 <= i < j < new.len() implies (#[trigger] new[i]).index < (
        #[trigger] new[j]).index by {
            assert(t.entries[t.k + i].index < t.entries[t.k + j].index);
        }
        lemma_with_logs_run(base, new);
        if index >= first {
            // The logs would differ below an entry that they share.
            assert(conflicts_at(t.stored, t.last, t.entries, t.k));
            assert(t.sender[index].term == t.stored[index].term);
            assert(t.sender[first].term == t.stored[first].term);
        }
        assert forall|x: int| 0 <= x < new.len() implies (#[trigger] new[x]).index != index by {
            assert(t.entries[t.k + x].index == t.previous + 1 + t.k + x);
        }
    }
}

/// Whether these are append requests that one node accepted, in order.
pub open spec fn taking_run(run: Seq<Taking>) -> bool {
    &&& forall|i: int| 0 <= i < run.len() ==> takes(#[trigger] run[i])
    &&& forall|i: int|
        #![trigger run[i]]
        0 <= i < run.len() - 1 ==> run[i + 1].stored == taken(run[i])
}

/// However many append requests a node accepts, an entry that it holds stays,
/// as long as every sender holds it too.
pub proof fn law_entries_of_all_senders_stay(run: Seq<Taking>, index: u64, term: u64)
    requires
        taking_run(run),
        run.len() > 0,
        holds_at(run[0].stored, index, term),
        forall|i: int| 0 <= i < run.len() ==> holds_at((#[trigger] run[i]).sender, index, term),
    ensures
        holds_at(taken(run.last()), index, term),
        taken(run.last())[index] == run[0].stored[index],
    decreases run.len(),
{
    let last = run.len() - 1;
    assert(takes(run[last]));
    assert(holds_at(run[last].sender, index, term));
    if last > 0 {
        let front = run.drop_last();
        assert forall|i: int| 0 <= i < front.len() implies takes(#[trigger] front[i]) by {
            assert(takes(run[i]));
        }
        assert forall|i: int|
            #![trigger front[i]]
            0 <= i < front.len() - 1 implies front[i + 1].stored == taken(front[i]) by {
            assert(run[i + 1].stored == taken(run[i]));
        }
        assert forall|i: int| 0 <= i < front.len() implies holds_at(
            (#[trigger] front[i]).sender,
            index,
            term,
        ) by {
            assert(holds_at(run[i].sender, index, term));
        }
        law_entries_of_all_senders_stay(front, index, term);
        assert(run[last - 1 + 1].stored == taken(run[last - 1]));
        assert(front.last() == run[last - 1]);
    }
    law_shared_entries_survive_appends(run[last], index, term);
}

/// Whether a leader's entries in flight are those of its log.
pub open spec fn in_flight_is_stored(
    futures: Map<u64, LogFuture>,
    log: Map<u64, LogView>,
) -> bool {
    forall|i: u64| #[trigger]
        futures.contains_key(i) ==> log.contains_key(i) && same_entry(futures[i]@.log, log[i])
}

/// Whether two lists hold the same entries, whoever waits for them.
pub open spec fn same_commits(a: Seq<CommitView>, b: Seq<CommitView>) -> bool {
    &&& a.len() == b.len()
    &&& forall|i: int| 0 <= i < a.len() ==> same_entry((#[trigger] a[i]).log, b[i].log)
}

proof fn lemma_same_entries_are_handed_over(
    in_flight: Map<u64, LogFuture>,
    log: Map<u64, LogView>,
    other_in_flight: Map<u64, LogFuture>,
    other: Map<u64, LogView>,
    from: u64,
    to: u64,
)
    requires
        forall|i: u64|
            from < i <= to ==> same_entry(
                (#[trigger] commit_at(in_flight, log, i)).log,
                commit_at(other_in_flight, other, i).log,
            ),
    ensures
        same_commits(
            commits_between(in_flight, log, from, to),
            commits_between(other_in_flight, other, from, to),
        ),
    decreases to,
{
    if to > from {
        let before = (to - 1) as u64;
        lemma_same_entries_are_handed_over(in_flight, log, other_in_flight, other, from, before);
        let c = commit_at(in_flight, log, to);
        assert(same_entry(c.log, commit_at(other_in_flight, other, to).log));
    }
}

/// Nodes apply the same entries in the same order: where their logs match and
/// both hold an entry of one term at an index, what each hands to its state
/// machine on the way there is the same.
pub proof fn law_matching_logs_are_applied_alike(
    in_flight: Map<u64, LogFuture>,
    log: Map<u64, LogView>,
    other_in_flight: Map<u64, LogFuture>,
    other: Map<u64, LogView>,
    from: u64,
    to: u64,
    term: u64,
)
    requires
        logs_match(log, other),
        in_flight_is_stored(in_flight, log),
        in_flight_is_stored(other_in_flight, other),
        holds_at(log, to, term),
        holds_at(other, to, term),
        forall|i: u64| from < i <= to ==> #[trigger] log.contains_key(i) && other.contains_key(i),
    ensures
        same_commits(
            commits_between(in_flight, log, from, to),
            commits_between(other_in_flight, other, from, to),
        ),
{
    assert forall|i: u64| from < i <= to implies same_entry(
        (#[trigger] commit_at(in_flight, log, i)).log,
        commit_at(other_in_flight, other, i).log,
    ) by {
        assert(log.contains_key(i));
        assert(log[to].term == other[to].term);
        assert(same_entry(log[i], other[i]));
    }
    lemma_same_entries_are_handed_over(in_flight, log, other_in_flight, other, from, to);
}

/// A log that is at least as recent as a voter's holds what the voter holds,
/// where it matches the log of the leader of its last term, and that leader
/// either wrote the voter's last entry too, or held the entry itself.
pub proof fn law_recent_log_holds_the_entry(
    candidate: Map<u64, LogView>,
    last: u64,
    voter: Map<u64, LogView>,
    voter_last: u64,
    leader: Map<u64, LogView>,
    index: u64,
    term: u64,
)
    requires
        whole(candidate, last),
        whole(voter, voter_last),
        terms_rise(voter),
        terms_rise(leader),
        last >= 1,
        holds_at(voter, index, term),
        candidate[last].term > voter[voter_last].term || (candidate[last].term
            == voter[voter_last].term && last >= voter_last),
        logs_match(leader, candidate),
        holds_at(leader, last, candidate[last].term),
        candidate[last].term == voter[voter_last].term ==> logs_match(leader, voter) && holds_at(
            leader,
            voter_last,
            voter[voter_last].term,
        ) && leader.contains_key(index),
        candidate[last].term > voter[voter_last].term ==> holds_at(leader, index, term),
    ensures
        holds_at(candidate, index, term),
{
    assert(voter.contains_key(voter_last) && voter.contains_key(index));
    assert(candidate.contains_key(last));
    assert(voter[index].term <= voter[voter_last].term);
    if candidate[last].term == voter[voter_last].term {
        assert(leader[voter_last].term == voter[voter_last].term);
        assert(leader[index].term == voter[index].term);
    } else {
        assert(leader[index].term < leader[last].term);
        if index >= last {
            assert(leader[last].term <= leader[index].term);
        }
    }
    assert(candidate.contains_key(index));
    assert(leader[last].term == candidate[last].term);
    assert(leader[index].term == candidate[index].term);
}

/// An election that was won: the winner's log, the log of a voter when it
/// voted, and the log with which the winner's term as leader ended.
pub struct Victory {
    pub log: Map<u64, LogView>,
    pub last: u64,
    pub voter: Map<u64, LogView>,
    pub voter_last: u64,
    pub final_log: Map<u64, LogView>,
    pub final_last: u64,
}

/// A victory as the rules of voting and leading allow it: the logs are whole
/// and their terms rise, the winner's is at least as recent as the voter's,
/// and a leader only appends.
pub open spec fn fair_victory(v: Victory) -> bool {
    &&& whole(v.log, v.last) && whole(v.voter, v.voter_last) && whole(v.final_log, v.final_last)
    &&& terms_rise(v.log) && terms_rise(v.voter) && terms_rise(v.final_log)
    &&& v.last >= 1 && v.voter_last >= 1
    &&& v.log[v.last].term > v.voter[v.voter_last].term || (v.log[v.last].term
        == v.voter[v.voter_last].term && v.last >= v.voter_last)
    &&& v.last <= v.final_last
    &&& forall|i: u64| #[trigger] v.log.contains_key(i) ==> v.final_log[i].term == v.log[i].term
}

/// Every entry of a log, from a term on, was written by the leader of its
/// term, whose log the log matches.
pub open spec fn written_by_leaders(
    victories: Map<u64, Victory>,
    log: Map<u64, LogView>,
    from: u64,
    before: u64,
) -> bool {
    forall|i: u64| #[trigger]
        log.contains_key(i) && log[i].term >= from ==> {
            &&& log[i].term < before
            &&& victories.contains_key(log[i].term)
            &&& holds_at(victories[log[i].term].final_log, i, log[i].term)
            &&& logs_match(victories[log[i].term].final_log, log)
        }
}

/// Whether all winners of the terms after `term` and before `end` hold the
/// entry.
pub open spec fn held_by_winners(
    victories: Map<u64, Victory>,
    index: u64,
    term: u64,
    end: u64,
) -> bool {
    forall|t: u64| #[trigger]
        victories.contains_key(t) && term < t < end ==> holds_at(victories[t].log, index, term)
}

/// The elections after the term in which an entry was committed: each is
/// fair, the logs were written by leaders, and the voter, which is one of
/// those that held the entry when it was committed, has kept it as long as
/// every leader so far held it too.
pub open spec fn elections_after_commit(
    victories: Map<u64, Victory>,
    index: u64,
    term: u64,
) -> bool {
    forall|t: u64| #[trigger]
        victories.contains_key(t) && t > term ==> {
            &&& fair_victory(victories[t])
            &&& written_by_leaders(victories, victories[t].log, term, t)
            &&& written_by_leaders(victories, victories[t].voter, term, t)
            &&& held_by_winners(victories, index, term, t) ==> holds_at(
                victories[t].voter,
                index,
                term,
            )
        }
}

/// A committed entry is never lost: whoever wins an election in a later term
/// holds it.
pub proof fn law_later_leaders_hold_committed_entries(
    victories: Map<u64, Victory>,
    index: u64,
    term: u64,
    t: u64,
)
    requires
        elections_after_commit(victories, index, term),
        victories.contains_key(term) ==> whole(
            victories[term].final_log,
            victories[term].final_last,
        ) && terms_rise(victories[term].final_log) && holds_at(
            victories[term].final_log,
            index,
            term,
        ),
        victories.contains_key(t),
        t > term,
    ensures
        holds_at(victories[t].log, index, term),
    decreases t,
{
    assert(held_by_winners(victories, index, term, t)) by {
        assert forall|u: u64| #[trigger]
            victories.contains_key(u) && term < u < t implies holds_at(
            victories[u].log,
            index,
            term,
        ) by {
            law_later_leaders_hold_committed_entries(victories, index, term, u);
        }
    }
    let v = victories[t];
    let w = v.log[v.last].term;
    lemma_last_entry_of_a_winner(victories, index, term, t);
    let leader = victories[w];
    assert(holds_at(leader.final_log, index, term) && terms_rise(leader.final_log)) by {
        if w > term {
            assert(holds_at(leader.log, index, term));
            assert(fair_victory(leader));
            assert(leader.log.contains_key(index));
            assert(leader.final_log.contains_key(index));
        }
    }
    law_recent_log_holds_the_entry(
        v.log,
        v.last,
        v.voter,
        v.voter_last,
        leader.final_log,
        index,
        term,
    );
}

/// The leader of the last term of a winner's log wrote the winner's last
/// entry, and where the voter's log ends in that term, the voter's too.
proof fn lemma_last_entry_of_a_winner(
    victories: Map<u64, Victory>,
    index: u64,
    term: u64,
    t: u64,
)
    requires
        elections_after_commit(victories, index, term),
        held_by_winners(victories, index, term, t),
        victories.contains_key(t),
        t > term,
    ensures
        ({
            let v = victories[t];
            let w = v.log[v.last].term;
            let leader = victories[w];
            &&& fair_victory(v)
            &&& holds_at(v.voter, index, term)
            &&& term <= w < t
            &&& victories.contains_key(w)
            &&& holds_at(leader.final_log, v.last, w)
            &&& logs_match(leader.final_log, v.log)
            &&& w == v.voter[v.voter_last].term ==> holds_at(leader.final_log, v.voter_last, w)
                && logs_match(leader.final_log, v.voter)
        }),
{
    let v = victories[t];
    assert(fair_victory(v));
    assert(holds_at(v.voter, index, term));
    assert(v.log.contains_key(v.last));
    assert(v.voter.contains_key(v.voter_last));
    assert(v.voter.contains_key(index));
    assert(v.voter[index].term <= v.voter[v.voter_last].term);
    assert(written_by_leaders(victories, v.log, term, t));
    assert(written_by_leaders(victories, v.voter, term, t));
}

} // verus!
