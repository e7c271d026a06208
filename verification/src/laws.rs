//! Laws of the aggregation state machine, proved of its model: folding an
//! event twice changes nothing more than folding it once, a run of time
//! events records exactly the minimum, and events on one track never touch
//! another track's table.

use vstd::prelude::*;

use crate::aggregate::{add_line_model, best_insert, fold_models, StateModel};
use crate::event::LineModel;

verus! {

/// Aggregation is idempotent: folding the same event a second time leaves
/// the state exactly as after the first.
pub proof fn lemma_add_line_idempotent(m: StateModel, l: LineModel)
    ensures
        add_line_model(add_line_model(m, l), l) == add_line_model(m, l),
{
    match l {
        LineModel::Chat { .. } => {},
        LineModel::Loading { .. } => {
            assert(add_line_model(add_line_model(m, l), l) =~= add_line_model(m, l));
        },
        LineModel::Time { nick, time, .. } => {
            let m1 = add_line_model(m, l);
            let prior = if m.results.contains_key(m.track) {
                m.results[m.track]
            } else {
                Map::empty()
            };
            let b1 = best_insert(prior, nick, time);
            assert(best_insert(b1, nick, time) =~= b1);
            assert(add_line_model(m1, l).results =~= m1.results);
            assert(add_line_model(m1, l) =~= m1);
        },
    }
}

/// A time event by the given player.
pub open spec fn is_time_with(l: LineModel, nick: Seq<char>) -> bool {
    match l {
        LineModel::Time { nick: n, .. } => n == nick,
        _ => false,
    }
}

/// The elapsed milliseconds of a time event.
pub open spec fn time_of(l: LineModel) -> u64 {
    match l {
        LineModel::Time { time, .. } => time,
        _ => 0,
    }
}

/// The smaller of two times.
pub open spec fn min_u64(a: u64, b: u64) -> u64 {
    if a <= b {
        a
    } else {
        b
    }
}

/// The minimum of a non-empty sequence of times.
pub open spec fn seq_min(s: Seq<u64>) -> u64
    recommends
        s.len() > 0,
    decreases s.len(),
{
    if s.len() <= 1 {
        s[0]
    } else {
        min_u64(s[0], seq_min(s.drop_first()))
    }
}

/// The elapsed times of a sequence of time events.
pub open spec fn times_of(ls: Seq<LineModel>) -> Seq<u64> {
    ls.map_values(|l: LineModel| time_of(l))
}

/// Folding time events by one player on the current track keeps the
/// track, and drives the player's entry to the minimum of the recorded
/// best so far and all the new times.
proof fn lemma_fold_times_from_best(m: StateModel, ls: Seq<LineModel>, nick: Seq<char>, b: u64)
    requires
        forall|i: int| 0 <= i < ls.len() ==> is_time_with(#[trigger] ls[i], nick),
        m.results.contains_key(m.track),
        m.results[m.track].contains_key(nick),
        m.results[m.track][nick] == b,
    ensures
        fold_models(m, ls).track == m.track,
        fold_models(m, ls).results.contains_key(m.track),
        fold_models(m, ls).results[m.track].contains_key(nick),
        fold_models(m, ls).results[m.track][nick] == (if ls.len() == 0 {
            b
        } else {
            min_u64(b, seq_min(times_of(ls)))
        }),
    decreases ls.len(),
{
    if ls.len() > 0 {
        assert(is_time_with(ls[0], nick));
        let t0 = time_of(ls[0]);
        let m1 = add_line_model(m, ls[0]);
        assert(m1.results[m.track][nick] == min_u64(b, t0));
        lemma_fold_times_from_best(m1, ls.drop_first(), nick, min_u64(b, t0));
        assert(times_of(ls.drop_first()) =~= times_of(ls).drop_first());
        assert(times_of(ls)[0] == t0);
    }
}

/// The recorded best is the true minimum: starting with no entry for the
/// player on the current track, folding any non-empty run of that
/// player's time events records exactly the minimum of all their times.
pub proof fn lemma_best_time_is_minimum(m: StateModel, ls: Seq<LineModel>, nick: Seq<char>)
    requires
        ls.len() > 0,
        forall|i: int| 0 <= i < ls.len() ==> is_time_with(#[trigger] ls[i], nick),
        m.results.contains_key(m.track) ==> !m.results[m.track].contains_key(nick),
    ensures
        fold_models(m, ls).track == m.track,
        fold_models(m, ls).results.contains_key(m.track),
        fold_models(m, ls).results[m.track].contains_key(nick),
        fold_models(m, ls).results[m.track][nick] == seq_min(times_of(ls)),
{
    assert(is_time_with(ls[0], nick));
    let t0 = time_of(ls[0]);
    let m1 = add_line_model(m, ls[0]);
    assert(m1.results[m.track][nick] == t0);
    lemma_fold_times_from_best(m1, ls.drop_first(), nick, t0);
    assert(times_of(ls.drop_first()) =~= times_of(ls).drop_first());
    assert(times_of(ls)[0] == t0);
    if ls.len() > 1 {
        assert(seq_min(times_of(ls)) == min_u64(t0, seq_min(times_of(ls).drop_first())));
    }
}

/// Track isolation: as long as no loading event runs, events change
/// nothing about any track other than the current one.
pub proof fn lemma_track_isolation(m: StateModel, ls: Seq<LineModel>, track: Seq<char>)
    requires
        track != m.track,
        forall|i: int| 0 <= i < ls.len() ==> !(#[trigger] ls[i] is Loading),
    ensures
        fold_models(m, ls).results.contains_key(track) == m.results.contains_key(track),
        m.results.contains_key(track) ==> fold_models(m, ls).results[track] == m.results[track],
    decreases ls.len(),
{
    if ls.len() > 0 {
        assert(!(ls[0] is Loading));
        let m1 = add_line_model(m, ls[0]);
        lemma_track_isolation(m1, ls.drop_first(), track);
    }
}

} // verus!
