use racelog::aggregate::State;
use racelog::event::{Line, Timestamp};
use racelog::process::process_lines;
use racelog::report::{best_times_on, format_duration, sorted_track_names};

fn stamp() -> Timestamp {
    Timestamp { year: 2017, month: 11, day: 24, hour: 18, minute: 0, second: 0 }
}

fn time_event(nick: &str, ms: u64) -> Line {
    Line::Time { ts: stamp(), from: "srv".to_string(), nick: nick.to_string(), time: ms }
}

fn loading_event(track: &str) -> Line {
    Line::Loading { ts: stamp(), track: track.to_string() }
}

#[test]
fn end_to_end_scenario() {
    let st = State::new()
        .add_line(loading_event("T1"))
        .add_line(time_event("P1", 10000))
        .add_line(time_event("P1", 8000))
        .add_line(loading_event("T2"))
        .add_line(time_event("P1", 5000));
    assert_eq!(best_times_on(&st, "T1"), vec![(8000, "P1".to_string())]);
    assert_eq!(best_times_on(&st, "T2"), vec![(5000, "P1".to_string())]);
}

#[test]
fn repeated_event_changes_nothing() {
    let once = State::new().add_line(loading_event("T1")).add_line(time_event("P1", 9000));
    let twice = State::new()
        .add_line(loading_event("T1"))
        .add_line(time_event("P1", 9000))
        .add_line(time_event("P1", 9000));
    assert_eq!(best_times_on(&once, "T1"), best_times_on(&twice, "T1"));
}

#[test]
fn best_time_is_minimum_of_all_runs() {
    let st = State::new()
        .add_line(loading_event("T1"))
        .add_line(time_event("P1", 44600))
        .add_line(time_event("P1", 23750))
        .add_line(time_event("P1", 30000));
    assert_eq!(best_times_on(&st, "T1"), vec![(23750, "P1".to_string())]);
}

#[test]
fn other_tracks_are_untouched() {
    let st = State::new()
        .add_line(loading_event("A"))
        .add_line(time_event("P1", 7000))
        .add_line(loading_event("B"))
        .add_line(time_event("P1", 1000))
        .add_line(time_event("P2", 2000));
    assert_eq!(best_times_on(&st, "A"), vec![(7000, "P1".to_string())]);
}

#[test]
fn chat_events_do_not_score() {
    let chat = Line::Chat {
        ts: stamp(),
        from: "bta_".to_string(),
        to: "_sof_bta_".to_string(),
        message: "hi".to_string(),
    };
    let st = State::new().add_line(loading_event("T1")).add_line(chat);
    assert_eq!(best_times_on(&st, "T1"), vec![]);
}

#[test]
fn times_before_any_loading_use_sentinel_track() {
    let st = State::new().add_line(time_event("P1", 4000));
    assert_eq!(best_times_on(&st, "initial"), vec![(4000, "P1".to_string())]);
}

#[test]
fn missing_track_reports_no_rows() {
    let st = State::new().add_line(loading_event("T1")).add_line(time_event("P1", 4000));
    assert_eq!(best_times_on(&st, "T2"), vec![]);
}

#[test]
fn rows_sort_by_time_then_nick() {
    let st = State::new()
        .add_line(loading_event("T1"))
        .add_line(time_event("zoe", 5000))
        .add_line(time_event("amy", 5000))
        .add_line(time_event("bob", 3000));
    assert_eq!(
        best_times_on(&st, "T1"),
        vec![
            (3000, "bob".to_string()),
            (5000, "amy".to_string()),
            (5000, "zoe".to_string()),
        ],
    );
}

#[test]
fn track_names_sort_lexicographically() {
    let st = State::new()
        .add_line(loading_event("beta"))
        .add_line(time_event("P1", 1000))
        .add_line(loading_event("alpha"))
        .add_line(time_event("P1", 1000));
    assert_eq!(sorted_track_names(&st), vec!["alpha".to_string(), "beta".to_string()]);
}

#[test]
fn unparseable_lines_do_not_affect_results() {
    let noisy = vec![
        "server restarting soon".to_string(),
        "[2017/11/24 22:52:47] Loading T1".to_string(),
        "?? [garbled".to_string(),
        "[2017/11/24 22:53:00] <time> [p1 (P1)] 0:10.00".to_string(),
        "[bad timestamp] <time> [p1 (P1)] 0:01.00".to_string(),
        "[2017/11/24 22:54:00] <time> [p1 (P1)] 0:08.00".to_string(),
    ];
    let clean = vec![
        "[2017/11/24 22:52:47] Loading T1".to_string(),
        "[2017/11/24 22:53:00] <time> [p1 (P1)] 0:10.00".to_string(),
        "[2017/11/24 22:54:00] <time> [p1 (P1)] 0:08.00".to_string(),
    ];
    let from_noisy = process_lines(noisy);
    let from_clean = process_lines(clean);
    assert_eq!(best_times_on(&from_noisy, "T1"), best_times_on(&from_clean, "T1"));
    assert_eq!(best_times_on(&from_noisy, "T1"), vec![(8000, "P1".to_string())]);
}

#[test]
fn process_lines_runs_whole_log() {
    let log = vec![
        "[2017/11/24 18:54:57] <chat> [bta_ (_sof_bta_)]      wwe".to_string(),
        "[2017/11/24 22:52:47] Loading challenge 12.Gbx".to_string(),
        "[2017/11/24 18:54:20] <time> [_iep__sej ([IEP]_sej)] 0:44.60".to_string(),
        "[2017/11/24 21:26:00] <time> [sop_1912 ([ERF] SOP :-))] 0:23.75".to_string(),
    ];
    let st = process_lines(log);
    assert_eq!(
        best_times_on(&st, "challenge 12.Gbx"),
        vec![
            (23750, "[ERF] SOP :-)".to_string()),
            (44600, "[IEP]_sej".to_string()),
        ],
    );
}

#[test]
fn duration_renders_without_precision_loss() {
    assert_eq!(format_duration(0), "0:00:00.000".to_string());
    assert_eq!(format_duration(44600), "0:00:44.600".to_string());
    assert_eq!(format_duration(23750), "0:00:23.750".to_string());
    assert_eq!(format_duration(3_661_001), "1:01:01.001".to_string());
    assert_eq!(format_duration(86_399_999), "23:59:59.999".to_string());
}
