//! The final report: per track, each player's best time, fastest first
//! with ties broken by nickname, and a stable text rendering of a
//! millisecond count.

use vstd::prelude::*;

use crate::aggregate::{
    lemma_entries_contains, lemma_entries_value_at, State, TrackResult,
};
use crate::strutil::{
    digit_char, lemma_lex_refl, lemma_lex_total, lemma_lex_trans, lex_le, push_decimal,
    spec_decimal, spec_digit_char, str_eq, str_lex_le, string_from_chars,
};

verus! {

/// Report row order: the faster time first, ties broken by nickname.
pub open spec fn score_le(a: (u64, Seq<char>), b: (u64, Seq<char>)) -> bool {
    a.0 < b.0 || (a.0 == b.0 && lex_le(a.1, b.1))
}

/// The rows are in report order.
pub open spec fn scores_sorted(s: Seq<(u64, String)>) -> bool {
    forall|i: int, j: int|
        0 <= i < j < s.len() ==> score_le((s[i].0, s[i].1@), (s[j].0, s[j].1@))
}

/// The entries of a best-time table as report rows, time first.
pub open spec fn swapped_entries(s: Seq<(String, u64)>) -> Seq<(u64, String)> {
    s.map_values(|e: (String, u64)| (e.1, e.0))
}

proof fn lemma_score_total(a: (u64, Seq<char>), b: (u64, Seq<char>))
    ensures
        score_le(a, b) || score_le(b, a),
{
    if a.0 == b.0 {
        lemma_lex_total(a.1, b.1);
    }
}

proof fn lemma_score_trans(a: (u64, Seq<char>), b: (u64, Seq<char>), c: (u64, Seq<char>))
    requires
        score_le(a, b),
        score_le(b, c),
    ensures
        score_le(a, c),
{
    if a.0 == b.0 && b.0 == c.0 {
        lemma_lex_trans(a.1, b.1, c.1);
    }
}

fn score_le_exec(a: &(u64, String), b: &(u64, String)) -> (r: bool)
    ensures
        r == score_le((a.0, a.1@), (b.0, b.1@)),
{
    if a.0 < b.0 {
        true
    } else if a.0 == b.0 {
        str_lex_le(a.1.as_str(), b.1.as_str())
    } else {
        false
    }
}

/// Sorts report rows: fastest first, ties by nickname; the result is a
/// permutation of the input.
#[verifier::loop_isolation(false)]
fn sort_scores(src: Vec<(u64, String)>) -> (out: Vec<(u64, String)>)
    ensures
        scores_sorted(out@),
        out@.to_multiset() == src@.to_multiset(),
{
    broadcast use vstd::seq_lib::group_to_multiset_ensures;

    let ghost orig = src@;
    let mut src = src;
    let mut out: Vec<(u64, String)> = Vec::new();
    proof {
        assert(out@.to_multiset().add(src@.to_multiset()) =~= orig.to_multiset());
    }
    while src.len() > 0
        invariant
            out@.to_multiset().add(src@.to_multiset()) == orig.to_multiset(),
            scores_sorted(out@),
            forall|i: int, j: int|
                0 <= i < out@.len() && 0 <= j < src@.len() ==> score_le(
                    (out@[i].0, out@[i].1@),
                    (src@[j].0, src@[j].1@),
                ),
        decreases src.len(),
    {
        let n = src.len();
        let mut best: usize = 0;
        let mut k: usize = 1;
        proof {
            lemma_lex_refl(src@[0].1@);
        }
        while k < n
            invariant
                best < k <= n,
                n == src@.len(),
                forall|q: int| 0 <= q < k ==> score_le(
                    (src@[best as int].0, src@[best as int].1@),
                    (src@[q].0, src@[q].1@),
                ),
            decreases n - k,
        {
            proof {
                lemma_lex_refl(src@[k as int].1@);
            }
            if !score_le_exec(&src[best], &src[k]) {
                proof {
                    lemma_score_total(
                        (src@[best as int].0, src@[best as int].1@),
                        (src@[k as int].0, src@[k as int].1@),
                    );
                    assert forall|q: int| 0 <= q < k implies score_le(
                        (src@[k as int].0, src@[k as int].1@),
                        (src@[q].0, src@[q].1@),
                    ) by {
                        lemma_score_trans(
                            (src@[k as int].0, src@[k as int].1@),
                            (src@[best as int].0, src@[best as int].1@),
                            (src@[q].0, src@[q].1@),
                        );
                    }
                }
                best = k;
            }
            k = k + 1;
        }
        let ghost src0 = src@;
        let e = src.remove(best);
        out.push(e);
        proof {
            assert(src@ =~= src0.remove(best as int));
            assert(out@.to_multiset().add(src@.to_multiset()) =~= orig.to_multiset());
            assert(forall|j: int|
                0 <= j < src@.len() ==> src0.contains(#[trigger] src@[j]));
        }
    }
    proof {
        assert(out@.to_multiset().add(src@.to_multiset()) =~= out@.to_multiset());
    }
    out
}

/// The best times recorded on one track, as report rows sorted fastest
/// first with ties broken by nickname; a permutation of the table.
pub fn sorted_scores_of(tr: &TrackResult) -> (r: Vec<(u64, String)>)
    ensures
        scores_sorted(r@),
        r@.to_multiset() == swapped_entries(tr.best_results@).to_multiset(),
{
    let n = tr.best_results.len();
    let mut items: Vec<(u64, String)> = Vec::new();
    let mut i: usize = 0;
    while i < n
        invariant
            i <= n,
            n == tr.best_results@.len(),
            items@.len() == i,
            forall|q: int|
                0 <= q < i ==> items@[q] == (tr.best_results@[q].1, tr.best_results@[q].0),
        decreases n - i,
    {
        let nick = tr.best_results[i].0.clone();
        let time = tr.best_results[i].1;
        items.push((time, nick));
        i = i + 1;
    }
    proof {
        assert(items@ =~= swapped_entries(tr.best_results@));
    }
    sort_scores(items)
}

/// The track names in a state's table.
pub open spec fn track_names(s: Seq<(String, TrackResult)>) -> Seq<String> {
    s.map_values(|e: (String, TrackResult)| e.0)
}

/// The names are in lexicographic order.
pub open spec fn names_sorted(s: Seq<String>) -> bool {
    forall|i: int, j: int| 0 <= i < j < s.len() ==> lex_le(s[i]@, s[j]@)
}

/// Sorts track names lexicographically; the result is a permutation of
/// the input.
#[verifier::loop_isolation(false)]
fn sort_names(src: Vec<String>) -> (out: Vec<String>)
    ensures
        names_sorted(out@),
        out@.to_multiset() == src@.to_multiset(),
{
    broadcast use vstd::seq_lib::group_to_multiset_ensures;

    let ghost orig = src@;
    let mut src = src;
    let mut out: Vec<String> = Vec::new();
    proof {
        assert(out@.to_multiset().add(src@.to_multiset()) =~= orig.to_multiset());
    }
    while src.len() > 0
        invariant
            out@.to_multiset().add(src@.to_multiset()) == orig.to_multiset(),
            names_sorted(out@),
            forall|i: int, j: int|
                0 <= i < out@.len() && 0 <= j < src@.len() ==> lex_le(out@[i]@, src@[j]@),
        decreases src.len(),
    {
        let n = src.len();
        let mut best: usize = 0;
        let mut k: usize = 1;
        proof {
            lemma_lex_refl(src@[0]@);
        }
        while k < n
            invariant
                best < k <= n,
                n == src@.len(),
                forall|q: int| 0 <= q < k ==> lex_le(src@[best as int]@, src@[q]@),
            decreases n - k,
        {
            proof {
                lemma_lex_refl(src@[k as int]@);
            }
            if !str_lex_le(src[best].as_str(), src[k].as_str()) {
                proof {
                    lemma_lex_total(src@[best as int]@, src@[k as int]@);
                    assert forall|q: int| 0 <= q < k implies lex_le(src@[k as int]@, src@[q]@) by {
                        lemma_lex_trans(src@[k as int]@, src@[best as int]@, src@[q]@);
                    }
                }
                best = k;
            }
            k = k + 1;
        }
        let ghost src0 = src@;
        let e = src.remove(best);
        out.push(e);
        proof {
            assert(src@ =~= src0.remove(best as int));
            assert(out@.to_multiset().add(src@.to_multiset()) =~= orig.to_multiset());
            assert(forall|j: int|
                0 <= j < src@.len() ==> src0.contains(#[trigger] src@[j]));
        }
    }
    proof {
        assert(out@.to_multiset().add(src@.to_multiset()) =~= out@.to_multiset());
    }
    out
}

/// All track names that have a table, in lexicographic order; a
/// permutation of the state's track list.
pub fn sorted_track_names(st: &State) -> (r: Vec<String>)
    ensures
        names_sorted(r@),
        r@.to_multiset() == track_names(st.results@).to_multiset(),
{
    let n = st.results.len();
    let mut names: Vec<String> = Vec::new();
    let mut i: usize = 0;
    while i < n
        invariant
            i <= n,
            n == st.results@.len(),
            names@.len() == i,
            forall|q: int| 0 <= q < i ==> names@[q] == st.results@[q].0,
        decreases n - i,
    {
        names.push(st.results[i].0.clone());
        i = i + 1;
    }
    proof {
        assert(names@ =~= track_names(st.results@));
    }
    sort_names(names)
}

/// The sorted report rows for one track of the state: each row carries a
/// best time the table records for that row's player, every recorded
/// player appears exactly once, and a track without a table reports no
/// rows.
#[verifier::loop_isolation(false)]
pub fn best_times_on(st: &State, track: &str) -> (r: Vec<(u64, String)>)
    requires
        st.wf(),
    ensures
        scores_sorted(r@),
        forall|j: int|
            0 <= j < r@.len() ==> st@.results.contains_key(track@)
                && st@.results[track@].contains_key((#[trigger] r@[j]).1@)
                && st@.results[track@][r@[j].1@] == r@[j].0,
        forall|nick: Seq<char>|
            st@.results.contains_key(track@) && st@.results[track@].contains_key(nick)
                ==> exists|j: int|
                0 <= j < r@.len() && (#[trigger] r@[j]).1@ == nick && r@[j].0
                    == st@.results[track@][nick],
        forall|i: int, j: int|
            0 <= i < j < r@.len() ==> (#[trigger] r@[i]).1@ != (#[trigger] r@[j]).1@,
{
    broadcast use vstd::seq_lib::group_to_multiset_ensures;

    let n = st.results.len();
    let mut i: usize = 0;
    while i < n
        invariant
            i <= n,
            forall|q: int| 0 <= q < i ==> st.results@[q].0@ != track@,
        decreases n - i,
    {
        if str_eq(st.results[i].0.as_str(), track) {
            proof {
                lemma_entries_value_at(st.results@, i as int);
                assert(st.results@[i as int].1.wf());
            }
            let r = sorted_scores_of(&st.results[i].1);
            proof {
                let ghost entries = st.results@[i as int].1.best_results@;
                assert forall|j: int| 0 <= j < r@.len() implies st@.results.contains_key(track@)
                    && st@.results[track@].contains_key((#[trigger] r@[j]).1@)
                    && st@.results[track@][r@[j].1@] == r@[j].0 by {
                    assert(r@.contains(r@[j]));
                    assert(r@.to_multiset().count(r@[j]) > 0);
                    assert(swapped_entries(entries).contains(r@[j]));
                    let q = choose|q: int|
                        0 <= q < swapped_entries(entries).len() && swapped_entries(entries)[q]
                            == r@[j];
                    assert(entries[q].0 == r@[j].1 && entries[q].1 == r@[j].0);
                    lemma_entries_value_at(entries, q);
                }
                assert forall|nick: Seq<char>|
                    st@.results.contains_key(track@) && st@.results[track@].contains_key(
                        nick,
                    ) implies exists|j: int|
                    0 <= j < r@.len() && (#[trigger] r@[j]).1@ == nick && r@[j].0
                        == st@.results[track@][nick] by {
                    lemma_entries_contains(entries, nick);
                    let q = choose|q: int| 0 <= q < entries.len() && entries[q].0@ == nick;
                    lemma_entries_value_at(entries, q);
                    assert(swapped_entries(entries)[q] == (entries[q].1, entries[q].0));
                    assert(swapped_entries(entries).contains((entries[q].1, entries[q].0)));
                    assert(r@.to_multiset().count((entries[q].1, entries[q].0)) > 0);
                    assert(r@.contains((entries[q].1, entries[q].0)));
                    let j = choose|j: int|
                        0 <= j < r@.len() && r@[j] == (entries[q].1, entries[q].0);
                    assert(r@[j].1@ == nick && r@[j].0 == st@.results[track@][nick]);
                }
                let swapped = swapped_entries(entries);
                assert forall|a: int, b: int|
                    0 <= a < swapped.len() && 0 <= b < swapped.len() && a
                        != b implies swapped[a] != swapped[b] by {
                    assert(entries[a].0@ != entries[b].0@);
                }
                assert(swapped.no_duplicates());
                swapped.lemma_multiset_has_no_duplicates();
                r@.lemma_multiset_has_no_duplicates_conv();
                assert forall|a: int, b: int| 0 <= a < b < r@.len() implies (#[trigger] r@[a]).1@
                    != (#[trigger] r@[b]).1@ by {
                    if r@[a].1@ == r@[b].1@ {
                        assert(r@.contains(r@[a]));
                        assert(r@.to_multiset().count(r@[a]) > 0);
                        assert(swapped.contains(r@[a]));
                        let qa = choose|q: int| 0 <= q < swapped.len() && swapped[q] == r@[a];
                        assert(r@.contains(r@[b]));
                        assert(r@.to_multiset().count(r@[b]) > 0);
                        assert(swapped.contains(r@[b]));
                        let qb = choose|q: int| 0 <= q < swapped.len() && swapped[q] == r@[b];
                        assert(entries[qa].0@ == entries[qb].0@);
                        assert(qa == qb);
                        assert(r@[a] == r@[b]);
                    }
                }
            }
            return r;
        }
        i = i + 1;
    }
    proof {
        lemma_entries_contains(st.results@, track@);
    }
    Vec::new()
}

/// The text `H:MM:SS.mmm` a millisecond count renders as: whole hours,
/// then minutes and seconds on two digits each, then milliseconds on
/// three digits.
pub open spec fn duration_text(ms: nat) -> Seq<char> {
    spec_decimal(ms / 3600000) + seq![':'] + spec_pad2(ms / 60000 % 60) + seq![':'] + spec_pad2(
        ms / 1000 % 60,
    ) + seq!['.'] + spec_pad3(ms % 1000)
}

/// Two-digit rendering of a value below one hundred.
pub open spec fn spec_pad2(n: nat) -> Seq<char>
    recommends
        n < 100,
{
    if n < 10 {
        seq!['0', spec_digit_char(n)]
    } else {
        spec_decimal(n)
    }
}

/// Three-digit rendering of a value below one thousand.
pub open spec fn spec_pad3(n: nat) -> Seq<char>
    recommends
        n < 1000,
{
    if n < 10 {
        seq!['0', '0', spec_digit_char(n)]
    } else if n < 100 {
        seq!['0'] + spec_decimal(n)
    } else {
        spec_decimal(n)
    }
}

fn push_pad2(n: u64, out: &mut Vec<char>)
    requires
        n < 100,
    ensures
        final(out)@ == old(out)@ + spec_pad2(n as nat),
{
    if n < 10 {
        out.push('0');
        out.push(digit_char(n));
        proof {
            assert(out@ =~= old(out)@ + spec_pad2(n as nat));
        }
    } else {
        push_decimal(n, out);
    }
}

fn push_pad3(n: u64, out: &mut Vec<char>)
    requires
        n < 1000,
    ensures
        final(out)@ == old(out)@ + spec_pad3(n as nat),
{
    if n < 10 {
        out.push('0');
        out.push('0');
        out.push(digit_char(n));
        proof {
            assert(out@ =~= old(out)@ + spec_pad3(n as nat));
        }
    } else if n < 100 {
        out.push('0');
        push_decimal(n, out);
        proof {
            assert(out@ =~= old(out)@ + spec_pad3(n as nat));
        }
    } else {
        push_decimal(n, out);
    }
}

/// The rendered fields lose no precision: the hours, minutes, seconds
/// and milliseconds that [`duration_text`] shows recombine to exactly
/// the original millisecond count.
pub proof fn lemma_duration_fields_exact(ms: u64)
    ensures
        (ms as int) / 3600000 * 3600000 + (ms as int) / 60000 % 60 * 60000 + (ms as int) / 1000
            % 60 * 1000 + (ms as int) % 1000 == ms as int,
{
    let m = ms as int;
    vstd::arithmetic::div_mod::lemma_fundamental_div_mod(m, 1000);
    vstd::arithmetic::div_mod::lemma_fundamental_div_mod(m / 1000, 60);
    vstd::arithmetic::div_mod::lemma_fundamental_div_mod(m / 60000, 60);
    vstd::arithmetic::div_mod::lemma_div_denominator(m, 1000, 60);
    vstd::arithmetic::div_mod::lemma_div_denominator(m, 60000, 60);
    assert(m / 1000 / 60 == m / 60000);
    assert(m / 60000 / 60 == m / 3600000);
    assert(m / 1000 == 60 * (m / 60000) + m / 1000 % 60);
    assert(m / 60000 == 60 * (m / 3600000) + m / 60000 % 60);
}

/// Renders a millisecond count as `H:MM:SS.mmm`, with no precision loss.
pub fn format_duration(ms: u64) -> (r: String)
    ensures
        r@ == duration_text(ms as nat),
{
    let mut v: Vec<char> = Vec::new();
    push_decimal(ms / 3600000, &mut v);
    v.push(':');
    push_pad2(ms / 60000 % 60, &mut v);
    v.push(':');
    push_pad2(ms / 1000 % 60, &mut v);
    v.push('.');
    push_pad3(ms % 1000, &mut v);
    proof {
        assert(v@ =~= duration_text(ms as nat));
    }
    string_from_chars(&v)
}

} // verus!
