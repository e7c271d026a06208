//! The aggregation state machine.
//!
//! Events are folded strictly in file order into a per-track table of each
//! player's best (minimum) race time.  A chat event changes nothing, a
//! loading event switches the current track, and a time event records the
//! player's time under the current track, keeping the minimum of all times
//! seen there.  Before the first loading event, times accumulate under the
//! sentinel track name `initial`.

use vstd::prelude::*;
use vstd::string::StrSliceExecFns;

use crate::event::{Line, LineModel};
use crate::strutil::str_eq;

verus! {

/// The map an association list denotes: later entries would win, but all
/// lists kept by this crate have pairwise distinct keys.
pub open spec fn entries_map<V: View>(s: Seq<(String, V)>) -> Map<Seq<char>, V::V>
    decreases s.len(),
{
    if s.len() == 0 {
        Map::empty()
    } else {
        entries_map(s.drop_last()).insert(s.last().0@, s.last().1@)
    }
}

/// Pairwise distinct keys.
pub open spec fn unique_keys<V>(s: Seq<(String, V)>) -> bool {
    forall|i: int, j: int| 0 <= i < j < s.len() ==> s[i].0@ != s[j].0@
}

/// A key is in the denoted map exactly when some entry carries it.
pub proof fn lemma_entries_contains<V: View>(s: Seq<(String, V)>, k: Seq<char>)
    ensures
        entries_map(s).contains_key(k) <==> exists|i: int| 0 <= i < s.len() && s[i].0@ == k,
    decreases s.len(),
{
    if s.len() > 0 {
        lemma_entries_contains(s.drop_last(), k);
        if s.last().0@ == k {
            assert(s[s.len() - 1].0@ == k);
        } else {
            assert(forall|i: int| 0 <= i < s.len() - 1 ==> s.drop_last()[i] == s[i]);
            if exists|i: int| 0 <= i < s.len() && s[i].0@ == k {
                let i = choose|i: int| 0 <= i < s.len() && s[i].0@ == k;
                assert(s.drop_last()[i] == s[i]);
            }
        }
    }
}

/// With distinct keys, the denoted map sends each entry's key to its value.
pub proof fn lemma_entries_value_at<V: View>(s: Seq<(String, V)>, i: int)
    requires
        unique_keys(s),
        0 <= i < s.len(),
    ensures
        entries_map(s).contains_key(s[i].0@),
        entries_map(s)[s[i].0@] == s[i].1@,
    decreases s.len(),
{
    if i < s.len() - 1 {
        assert(forall|q: int| 0 <= q < s.len() - 1 ==> s.drop_last()[q] == s[q]);
        lemma_entries_value_at(s.drop_last(), i);
        assert(s.last().0@ != s[i].0@);
    }
}

/// Replacing the entry at `i` by one with the same key updates just that
/// key in the denoted map, and keeps the keys distinct.
pub proof fn lemma_entries_update<V: View>(s: Seq<(String, V)>, i: int, e: (String, V))
    requires
        unique_keys(s),
        0 <= i < s.len(),
        e.0@ == s[i].0@,
    ensures
        entries_map(s.update(i, e)) == entries_map(s).insert(e.0@, e.1@),
        unique_keys(s.update(i, e)),
    decreases s.len(),
{
    let t = s.update(i, e);
    assert(forall|q: int| 0 <= q < s.len() ==> t[q].0@ == s[q].0@);
    if i == s.len() - 1 {
        assert(t.drop_last() =~= s.drop_last());
        assert(t.last() == e);
        assert(entries_map(s.drop_last()).insert(s.last().0@, s.last().1@).insert(e.0@, e.1@)
            =~= entries_map(s.drop_last()).insert(e.0@, e.1@));
    } else {
        assert(forall|q: int| 0 <= q < s.len() - 1 ==> s.drop_last()[q] == s[q]);
        lemma_entries_update(s.drop_last(), i, e);
        assert(t.drop_last() =~= s.drop_last().update(i, e));
        assert(t.last() == s.last());
        assert(s.last().0@ != e.0@);
        assert(entries_map(s.drop_last()).insert(e.0@, e.1@).insert(s.last().0@, s.last().1@)
            =~= entries_map(s.drop_last()).insert(s.last().0@, s.last().1@).insert(e.0@, e.1@));
    }
}

/// Appending an entry with a fresh key inserts it into the denoted map
/// and keeps the keys distinct.
pub proof fn lemma_entries_push<V: View>(s: Seq<(String, V)>, e: (String, V))
    requires
        unique_keys(s),
        forall|i: int| 0 <= i < s.len() ==> s[i].0@ != e.0@,
    ensures
        entries_map(s.push(e)) == entries_map(s).insert(e.0@, e.1@),
        unique_keys(s.push(e)),
{
    assert(s.push(e).drop_last() =~= s);
    assert(s.push(e).last() == e);
    assert(forall|q: int| 0 <= q < s.len() ==> s.push(e)[q] == s[q]);
}

/// The best (minimum) race time seen so far by each player on one track.
pub struct TrackResult {
    pub best_results: Vec<(String, u64)>,
}

impl View for TrackResult {
    type V = Map<Seq<char>, u64>;

    open spec fn view(&self) -> Map<Seq<char>, u64> {
        entries_map(self.best_results@)
    }
}

/// Recording `time` for `nick`: the entry becomes the minimum of `time`
/// and the previously recorded best, or `time` itself for a new player.
pub open spec fn best_insert(m: Map<Seq<char>, u64>, nick: Seq<char>, time: u64) -> Map<
    Seq<char>,
    u64,
> {
    m.insert(nick, if m.contains_key(nick) && m[nick] <= time { m[nick] } else { time })
}

impl TrackResult {
    /// Each player appears at most once.
    pub open spec fn wf(&self) -> bool {
        unique_keys(self.best_results@)
    }

    /// An empty table.
    pub fn new() -> (r: TrackResult)
        ensures
            r.wf(),
            r@ == Map::<Seq<char>, u64>::empty(),
    {
        TrackResult { best_results: Vec::new() }
    }

    /// Records one time for one player, keeping the minimum.
    #[verifier::loop_isolation(false)]
    pub fn update_player(&mut self, nick: String, time: u64)
        requires
            old(self).wf(),
        ensures
            final(self).wf(),
            final(self)@ == best_insert(old(self)@, nick@, time),
    {
        let n = self.best_results.len();
        let mut i: usize = 0;
        while i < n
            invariant
                n == self.best_results.len(),
                i <= n,
                *self == *old(self),
                forall|q: int| 0 <= q < i ==> self.best_results@[q].0@ != nick@,
            decreases n - i,
        {
            if str_eq(self.best_results[i].0.as_str(), nick.as_str()) {
                let cur = self.best_results[i].1;
                let newv = if cur <= time {
                    cur
                } else {
                    time
                };
                let key = self.best_results[i].0.clone();
                proof {
                    lemma_entries_value_at(self.best_results@, i as int);
                    lemma_entries_contains(self.best_results@, nick@);
                    lemma_entries_update(self.best_results@, i as int, (key, newv));
                }
                self.best_results[i] = (key, newv);
                return;
            }
            i = i + 1;
        }
        proof {
            lemma_entries_contains(self.best_results@, nick@);
            lemma_entries_push(self.best_results@, (nick, time));
        }
        self.best_results.push((nick, time));
    }
}

/// The model of the whole aggregation state: the current track and, per
/// track, each player's best time.
#[verifier::ext_equal]
pub ghost struct StateModel {
    pub track: Seq<char>,
    pub results: Map<Seq<char>, Map<Seq<char>, u64>>,
}

/// The state before any event: the sentinel track and an empty table.
pub open spec fn initial_model() -> StateModel {
    StateModel { track: "initial"@, results: Map::empty() }
}

/// How one event transforms the state: chat changes nothing, loading
/// switches the current track, and a time event records the player's
/// time under the current track, creating the track's table on demand.
pub open spec fn add_line_model(m: StateModel, l: LineModel) -> StateModel {
    match l {
        LineModel::Chat { .. } => m,
        LineModel::Time { nick, time, .. } => {
            let prior = if m.results.contains_key(m.track) {
                m.results[m.track]
            } else {
                Map::empty()
            };
            StateModel {
                track: m.track,
                results: m.results.insert(m.track, best_insert(prior, nick, time)),
            }
        },
        LineModel::Loading { track, .. } => StateModel { track, results: m.results },
    }
}

/// A left fold of [`add_line_model`] over an event sequence, in order.
pub open spec fn fold_models(m: StateModel, ls: Seq<LineModel>) -> StateModel
    decreases ls.len(),
{
    if ls.len() == 0 {
        m
    } else {
        fold_models(add_line_model(m, ls[0]), ls.drop_first())
    }
}

/// The aggregation state: the currently active track and the per-track
/// result tables.
pub struct State {
    pub track: String,
    pub results: Vec<(String, TrackResult)>,
}

impl View for State {
    type V = StateModel;

    open spec fn view(&self) -> StateModel {
        StateModel { track: self.track@, results: entries_map(self.results@) }
    }
}

impl State {
    /// Each track appears at most once, and every table is well formed.
    pub open spec fn wf(&self) -> bool {
        &&& unique_keys(self.results@)
        &&& forall|i: int|
            0 <= i < self.results@.len() ==> (#[trigger] self.results@[i]).1.wf()
    }

    /// The state before any event.
    pub fn new() -> (r: State)
        ensures
            r.wf(),
            r@ == initial_model(),
    {
        State { track: "initial".to_owned(), results: Vec::new() }
    }

    /// Folds one event into the state.
    #[verifier::loop_isolation(false)]
    pub fn add_line(self, line: Line) -> (r: State)
        requires
            self.wf(),
        ensures
            r.wf(),
            r@ == add_line_model(self@, line@),
    {
        let ghost m0 = self@;
        let ghost l0 = line@;
        let mut st = self;
        let ghost st0 = st;
        match line {
            Line::Chat { .. } => st,
            Line::Time { ts: _, from: _, nick, time } => {
                let ghost nickv = nick@;
                let ghost timev = time;
                let n = st.results.len();
                let mut i: usize = 0;
                while i < n
                    invariant
                        n == st.results.len(),
                        i <= n,
                        st == st0,
                        st0.wf(),
                        forall|q: int| 0 <= q < i ==> st.results@[q].0@ != st.track@,
                    decreases n - i,
                {
                    if str_eq(st.results[i].0.as_str(), st.track.as_str()) {
                        proof {
                            lemma_entries_value_at(st.results@, i as int);
                            lemma_entries_contains(st.results@, st.track@);
                            assert(st.results@[i as int].1.wf());
                        }
                        let ghost prior_list = st.results@;
                        let entry = &mut st.results[i];
                        entry.1.update_player(nick, time);
                        proof {
                            lemma_entries_update(
                                prior_list,
                                i as int,
                                (prior_list[i as int].0, st.results@[i as int].1),
                            );
                            assert(forall|q: int|
                                0 <= q < st.results@.len() && q != i ==> (
                                #[trigger] st.results@[q]) == prior_list[q]);
                            assert(st@.results =~= add_line_model(m0, l0).results);
                            assert(st@ =~= add_line_model(m0, l0));
                        }
                        return st;
                    }
                    i = i + 1;
                }
                proof {
                    lemma_entries_contains(st.results@, st.track@);
                }
                let mut tr = TrackResult::new();
                tr.update_player(nick, time);
                let key = st.track.clone();
                let ghost prior_list = st.results@;
                proof {
                    lemma_entries_push(st.results@, (key, tr));
                }
                st.results.push((key, tr));
                proof {
                    assert(forall|q: int|
                        0 <= q < prior_list.len() ==> (#[trigger] st.results@[q]) == prior_list[q]);
                    assert(st@.results =~= add_line_model(m0, l0).results);
                    assert(st@ =~= add_line_model(m0, l0));
                }
                st
            },
            Line::Loading { ts: _, track } => {
                st.track = track;
                st
            },
        }
    }
}

} // verus!
