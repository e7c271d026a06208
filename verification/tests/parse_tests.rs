use racelog::event::{Line, Timestamp};
use racelog::parse::{parse_duration, parse_line};

#[test]
fn parse_chat_line() {
    let line = "[2017/11/24 18:54:57] <chat> [bta_ (_sof_bta_)]      wwe";
    let dt = Timestamp { year: 2017, month: 11, day: 24, hour: 18, minute: 54, second: 57 };
    let from = "bta_".to_string();
    let to = "_sof_bta_".to_string();
    let msg = "     wwe".to_string();

    let line = parse_line(line.to_string()).unwrap();

    assert_eq!(line, Line::Chat { ts: dt, from, to, message: msg });
}

#[test]
fn parse_race_line() {
    let line = "[2017/11/24 18:54:20] <time> [_iep__sej ([IEP]_sej)] 0:44.60";
    let dt = Timestamp { year: 2017, month: 11, day: 24, hour: 18, minute: 54, second: 20 };
    let from = "_iep__sej".to_string();
    let nick = "[IEP]_sej".to_string();

    let line = parse_line(line.to_string()).unwrap();

    assert_eq!(line, Line::Time { ts: dt, from, nick, time: 44600 });
}

#[test]
fn parse_race_line_with_smiley() {
    let line = "[2017/11/24 21:26:00] <time> [sop_1912 ([ERF] SOP :-))] 0:23.75";
    let dt = Timestamp { year: 2017, month: 11, day: 24, hour: 21, minute: 26, second: 0 };
    let from = "sop_1912".to_string();
    let nick = "[ERF] SOP :-)".to_string();

    let line = parse_line(line.to_string()).unwrap();

    assert_eq!(line, Line::Time { ts: dt, from, nick, time: 23750 });
}

#[test]
fn parse_empty_chat_line_() {
    let line = "[2017/11/24 22:06:58] <chat> [ieper_mlj (ieper_mlj)]";
    let dt = Timestamp { year: 2017, month: 11, day: 24, hour: 22, minute: 6, second: 58 };
    let from = "ieper_mlj".to_string();
    let to = "ieper_mlj".to_string();

    let line = parse_line(line.to_string()).unwrap();

    assert_eq!(line, Line::Chat { ts: dt, from, to, message: "".to_string() });
}

#[test]
fn parse_loading_line() {
    let line = "[2017/11/24 22:52:47] Loading challenge 12.Gbx (VwweH5HaaHGfddasysZI03s4Wy9)...";
    let dt = Timestamp { year: 2017, month: 11, day: 24, hour: 22, minute: 52, second: 47 };
    let msg = "challenge 12.Gbx (VwweH5HaaHGfddasysZI03s4Wy9)...".to_string();

    let line = parse_line(line.to_string()).unwrap();

    assert_eq!(line, Line::Loading { ts: dt, track: msg });
}

#[test]
fn duration_exact_milliseconds() {
    assert_eq!(parse_duration("0:44.60"), Some(44600));
    assert_eq!(parse_duration("0:23.75"), Some(23750));
    assert_eq!(parse_duration("2:05.00"), Some(125000));
    assert_eq!(parse_duration("10:59.99"), Some(659990));
}

#[test]
fn duration_rejects_malformed_text() {
    assert_eq!(parse_duration(""), None);
    assert_eq!(parse_duration("0:4.60"), None);
    assert_eq!(parse_duration("0:44:60"), None);
    assert_eq!(parse_duration("abc"), None);
    assert_eq!(parse_duration("0:44.6"), None);
    assert_eq!(parse_duration("0:44.601"), None);
}

#[test]
fn unknown_tag_is_skipped() {
    let line = "[2017/11/24 18:54:57] <join> [bta_ (_sof_bta_)] hello";
    assert_eq!(parse_line(line.to_string()), None);
}

#[test]
fn malformed_outer_shape_is_skipped() {
    assert_eq!(parse_line("".to_string()), None);
    assert_eq!(parse_line("just some chatter".to_string()), None);
    assert_eq!(parse_line("[2017/11/24 18:54:57]".to_string()), None);
    assert_eq!(parse_line("[2017/11/24 18:54:57] <chat>".to_string()), None);
}

#[test]
fn invalid_timestamp_is_skipped() {
    let line = "[2017/13/24 18:54:57] <chat> [bta_ (_sof_bta_)] hi";
    assert_eq!(parse_line(line.to_string()), None);
    let line = "[2017/11/24 25:54:57] <chat> [bta_ (_sof_bta_)] hi";
    assert_eq!(parse_line(line.to_string()), None);
}

#[test]
fn malformed_inner_shape_is_skipped() {
    let line = "[2017/11/24 18:54:57] <chat> no brackets here";
    assert_eq!(parse_line(line.to_string()), None);
    let line = "[2017/11/24 18:54:57] <time> [bta_ (_sof_bta_)] not-a-time";
    assert_eq!(parse_line(line.to_string()), None);
}
