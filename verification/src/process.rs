//! Processing a whole log: parse every line, skip the unparseable ones,
//! and fold the events into the aggregation state in file order.

use vstd::prelude::*;

use crate::aggregate::{add_line_model, fold_models, initial_model, State, StateModel};
use crate::event::LineModel;
use crate::parse::{parse_line, parse_line_spec};

verus! {

/// Folds raw lines left to right: a line that parses contributes its
/// event, any other line leaves the state untouched.
pub open spec fn process_model(m: StateModel, lines: Seq<Seq<char>>) -> StateModel
    decreases lines.len(),
{
    if lines.len() == 0 {
        m
    } else {
        process_model(
            match parse_line_spec(lines[0]) {
                Some(l) => add_line_model(m, l),
                None => m,
            },
            lines.drop_first(),
        )
    }
}

/// The events of just the parseable lines, in file order.
pub open spec fn parsed_events(lines: Seq<Seq<char>>) -> Seq<LineModel>
    decreases lines.len(),
{
    if lines.len() == 0 {
        Seq::empty()
    } else {
        match parse_line_spec(lines[0]) {
            Some(l) => seq![l] + parsed_events(lines.drop_first()),
            None => parsed_events(lines.drop_first()),
        }
    }
}

/// Processing one more line at the end applies that line's event, if any,
/// to the state reached so far.
pub proof fn lemma_process_snoc(m: StateModel, lines: Seq<Seq<char>>, x: Seq<char>)
    ensures
        process_model(m, lines.push(x)) == (match parse_line_spec(x) {
            Some(l) => add_line_model(process_model(m, lines), l),
            None => process_model(m, lines),
        }),
    decreases lines.len(),
{
    if lines.len() == 0 {
        let mx = match parse_line_spec(x) {
            Some(l) => add_line_model(m, l),
            None => m,
        };
        assert(lines.push(x)[0] == x);
        assert(lines.push(x).drop_first() =~= Seq::<Seq<char>>::empty());
        assert(process_model(m, lines.push(x)) == process_model(mx, lines.push(x).drop_first()));
        assert(process_model(mx, Seq::<Seq<char>>::empty()) == mx);
    } else {
        let m1 = match parse_line_spec(lines[0]) {
            Some(l) => add_line_model(m, l),
            None => m,
        };
        lemma_process_snoc(m1, lines.drop_first(), x);
        assert(lines.push(x)[0] == lines[0]);
        assert(lines.push(x).drop_first() =~= lines.drop_first().push(x));
        assert(process_model(m, lines.push(x)) == process_model(m1, lines.push(x).drop_first()));
        assert(process_model(m, lines) == process_model(m1, lines.drop_first()));
    }
}

/// Unparseable lines are immaterial: folding all raw lines reaches the
/// same state as folding only the events of the parseable lines.
pub proof fn lemma_unparseable_lines_immaterial(m: StateModel, lines: Seq<Seq<char>>)
    ensures
        process_model(m, lines) == fold_models(m, parsed_events(lines)),
    decreases lines.len(),
{
    if lines.len() > 0 {
        match parse_line_spec(lines[0]) {
            Some(l) => {
                lemma_unparseable_lines_immaterial(add_line_model(m, l), lines.drop_first());
                let tail = parsed_events(lines.drop_first());
                assert((seq![l] + tail)[0] == l);
                assert((seq![l] + tail).drop_first() =~= tail);
            },
            None => {
                lemma_unparseable_lines_immaterial(m, lines.drop_first());
            },
        }
    }
}

/// Two logs whose parseable lines carry the same events reach the same
/// state; in particular, removing the unparseable lines changes nothing.
pub proof fn lemma_same_events_same_state(
    m: StateModel,
    lines1: Seq<Seq<char>>,
    lines2: Seq<Seq<char>>,
)
    requires
        parsed_events(lines1) == parsed_events(lines2),
    ensures
        process_model(m, lines1) == process_model(m, lines2),
{
    lemma_unparseable_lines_immaterial(m, lines1);
    lemma_unparseable_lines_immaterial(m, lines2);
}

/// Reads a whole log: parses each line in order, skips the ones in no
/// known format, and folds the events into the final state.
#[verifier::loop_isolation(false)]
pub fn process_lines(lines: Vec<String>) -> (r: State)
    ensures
        r.wf(),
        r@ == process_model(initial_model(), lines.deep_view()),
{
    let ghost dl = lines.deep_view();
    proof {
        assert(forall|q: int| 0 <= q < lines@.len() ==> dl[q] == lines@[q]@);
    }
    let mut st = State::new();
    let n = lines.len();
    let mut i: usize = 0;
    while i < n
        invariant
            i <= n,
            st.wf(),
            st@ == process_model(initial_model(), dl.subrange(0, i as int)),
        decreases n - i,
    {
        proof {
            lemma_process_snoc(initial_model(), dl.subrange(0, i as int), dl[i as int]);
            assert(dl.subrange(0, i as int + 1) =~= dl.subrange(0, i as int).push(dl[i as int]));
        }
        let line = lines[i].clone();
        match parse_line(line) {
            Some(ev) => {
                st = st.add_line(ev);
            },
            None => {},
        }
        i = i + 1;
    }
    proof {
        assert(dl.subrange(0, n as int) =~= dl);
    }
    st
}

} // verus!
