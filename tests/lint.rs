use twir_events::grammar::{LineKind, LineParseError};
use twir_events::collect::collect_events;
use twir_events::linter::{EventLinter, LintError, LinterState};
use twir_events::events::Region;
use twir_events::reader::{Reader, TwirReader};

fn build_event_section(body_to_add: Option<&str>) -> String {
    let mut text = "some pre events section text\n".to_owned();
    text.push_str("## Upcoming Events\n\n");
    text.push_str("Rusty Events between 2024-10-23 - 2024-11-20 🦀\n\n");
    text.push_str("### Virtual\n");
    text.push_str(
        "* 2024-10-24 | Virtual | [Women in Rust](https://www.meetup.com/women-in-rust/)\n",
    );
    text.push_str("    * [**Part 4 of 4 - Hackathon Showcase: Final Projects and Presentations**](https://www.meetup.com/women-in-rust/events/303213835/)\n");
    text.push('\n');

    if let Some(lines) = body_to_add {
        text.push_str(lines);
    }

    text.push_str("If you are running a Rust event please add it to the [calendar] to get\n");
    text.push_str("it mentioned here. Please remember to add a link to the event too.\n");

    text
}

fn europe_block(dates: &[&str]) -> String {
    let mut s = "### Europe\n".to_owned();
    for (i, d) in dates.iter().enumerate() {
        s.push_str(&format!("* {} | Berlin, DE | [Rust Berlin](https://www.meetup.com/rust-berlin/)\n", d));
        s.push_str(&format!("    * [**Meetup {}**](https://www.meetup.com/rust-berlin/events/{}/)\n", i, i));
    }
    s.push('\n');
    s
}

#[test]
fn linter_test_valid_event_section() {
    let text = build_event_section(None);
    let mut reader = Reader::new(&text).unwrap();
    let mut linter = EventLinter::new(20);
    linter.lint(&mut reader).unwrap();
}

#[test]
fn lint_test_valid_event_section() {
    let text = build_event_section(None);
    let mut reader = TwirReader::new(&text);
    let mut linter = EventLinter::new(20);
    let mut result = Ok(());
    while let Some(line) = reader.next_line() {
        result = linter.lint_line(&line);
        if result.is_err() {
            break;
        }
    }
    assert!(result.is_ok());
    assert_eq!(linter.finish(), Ok(()));
    assert_eq!(linter.state(), LinterState::Done);
}

#[test]
fn well_ordered_region_passes() {
    let text = build_event_section(Some(&europe_block(&["2024-10-24", "2024-10-25", "2024-10-25", "2024-11-01"])));
    let mut reader = Reader::new(&text).unwrap();
    let mut linter = EventLinter::new(20);
    assert_eq!(linter.lint(&mut reader), Ok(()));
    assert!(linter.errors().is_empty());
    let mut reader = Reader::new(&text).unwrap();
    let (events, _) = collect_events(&mut reader).unwrap();
    assert_eq!(events.get(Region::Europe).len(), 4);
    assert_eq!(events.get(Region::Virtual).len(), 1);
}

#[test]
fn swapped_pair_gives_one_out_of_order_error() {
    let text = build_event_section(Some(&europe_block(&["2024-10-24", "2024-10-30", "2024-10-25", "2024-11-01"])));
    let mut reader = Reader::new(&text).unwrap();
    let mut linter = EventLinter::new(20);
    assert_eq!(linter.lint(&mut reader), Err(LintError::LintFailed));
    assert_eq!(linter.errors().len(), 1);
    match &linter.errors()[0] {
        LintError::EventOutOfOrder { num, .. } => assert_eq!(*num, 15),
        other => panic!("unexpected {:?}", other),
    }
}

#[test]
fn event_outside_window_gives_one_error() {
    let text = build_event_section(Some(&europe_block(&["2024-12-01"])));
    let mut reader = Reader::new(&text).unwrap();
    let mut linter = EventLinter::new(20);
    assert_eq!(linter.lint(&mut reader), Err(LintError::LintFailed));
    assert_eq!(linter.errors().len(), 1);
    assert!(matches!(linter.errors()[0], LintError::EventOutOfDateRange { .. }));
}

#[test]
fn date_range_event_needs_both_ends_in_window() {
    let text = build_event_section(Some(&europe_block(&["2024-11-19 - 2024-11-21"])));
    let mut reader = Reader::new(&text).unwrap();
    let mut linter = EventLinter::new(20);
    assert_eq!(linter.lint(&mut reader), Err(LintError::LintFailed));
    assert!(matches!(linter.errors()[0], LintError::EventOutOfDateRange { .. }));
}

#[test]
fn unknown_region_is_reported_and_linter_stays() {
    let text = build_event_section(Some("### Pangea\n"));
    let mut reader = Reader::new(&text).unwrap();
    let mut linter = EventLinter::new(20);
    assert_eq!(linter.lint(&mut reader), Err(LintError::LintFailed));
    assert_eq!(linter.errors().len(), 1);
    match &linter.errors()[0] {
        LintError::LineParseFailed { error, .. } => {
            assert_eq!(error, &LineParseError::UnknownRegion("Pangea".to_owned()))
        }
        other => panic!("unexpected {:?}", other),
    }
}

#[test]
fn missing_end_is_unexpected_end() {
    let text = "## Upcoming Events\n\nRusty Events between 2024-10-23 - 2024-11-20\n\n### Virtual\n";
    let mut reader = TwirReader::new(text);
    let mut linter = EventLinter::new(20);
    let mut result = Ok(());
    while let Some(line) = reader.next_line() {
        result = linter.lint_line(&line);
    }
    assert!(result.is_ok());
    assert_eq!(linter.finish(), Err(LintError::UnexpectedEnd));
}

#[test]
fn error_limit_stops_the_run() {
    let text = build_event_section(Some("### Europe\nfoo\nbar\nbaz\n"));
    let mut reader = Reader::new(&text).unwrap();
    let mut linter = EventLinter::new(2);
    assert_eq!(linter.lint(&mut reader), Err(LintError::TooManyErrors));
    assert_eq!(linter.errors().len(), 2);
}

#[test]
fn second_date_range_is_unexpected() {
    let text = "## Upcoming Events\nRusty Events between 2024-10-23 - 2024-11-20\nRusty Events between 2024-10-23 - 2024-11-20\n";
    let mut reader = TwirReader::new(text);
    let mut linter = EventLinter::new(20);
    let mut result = Ok(());
    while let Some(line) = reader.next_line() {
        result = linter.lint_line(&line);
    }
    assert!(result.is_ok());
    assert!(matches!(
        linter.errors()[0],
        LintError::UnexpectedLineType {
            state: LinterState::ExpectingRegionHeader,
            found: LineKind::EventsDateRange,
            ..
        }
    ));
}

#[test]
fn collect_reads_listings_and_window() {
    let text = build_event_section(Some(&europe_block(&["2024-10-24", "2024-10-25"])));
    let mut reader = Reader::new(&text).unwrap();
    let (events, range) = collect_events(&mut reader).unwrap();
    let (start, end) = range.unwrap();
    assert_eq!((start.year, start.month, start.day), (2024, 10, 23));
    assert_eq!((end.year, end.month, end.day), (2024, 11, 20));
    assert_eq!(events.get(Region::Europe).len(), 2);
}

#[test]
fn collect_keeps_unordered_and_out_of_window_events() {
    let text = build_event_section(Some(&europe_block(&["2024-10-30", "2024-10-25", "2024-12-01"])));
    let mut reader = Reader::new(&text).unwrap();
    let (events, range) = collect_events(&mut reader).unwrap();
    assert!(range.is_some());
    let europe = events.get(Region::Europe);
    assert_eq!(europe.len(), 3);
    assert_eq!(europe[0].events[0].url, "https://www.meetup.com/rust-berlin/events/0/");
    assert_eq!(europe[2].events[0].url, "https://www.meetup.com/rust-berlin/events/2/");
    assert!(events.get(Region::Asia).is_empty());
}

#[test]
fn collect_stops_at_a_malformed_sequence() {
    let text = build_event_section(Some("### Europe
### Asia
"));
    let mut reader = Reader::new(&text).unwrap();
    let r = collect_events(&mut reader);
    assert!(matches!(r, Err(LintError::UnexpectedLineType { num: 11, .. })));
    let text = "## Upcoming Events\n\nRusty Events between 2024-10-23 - 2024-11-20\n\n### Virtual\n";
    let mut reader = TwirReader::new(text);
    let mut lines = Vec::new();
    while let Some(l) = reader.next_line() {
        lines.push(l);
    }
    assert_eq!(lines.len(), 5);
}

#[test]
fn linter_state_starts_before_events() {
    assert_eq!(LinterState::new(), LinterState::PreEvents);
    assert_eq!(LinterState::new().name(), "PreEvents");
}

#[test]
fn messages_name_line_and_problem() {
    let e = LintError::LineParseFailed {
        num: 120,
        raw: "### Pangea".to_owned(),
        error: LineParseError::UnknownRegion("Pangea".to_owned()),
    };
    assert_eq!(e.message(), "line #120: unknown region 'Pangea'\n'### Pangea'");
    let e = LintError::UnexpectedLineType {
        num: 7,
        raw: "".to_owned(),
        state: LinterState::ExpectingEventLinks,
        found: LineKind::Newline,
    };
    assert_eq!(
        e.message(),
        "line #7: in state ExpectingEventLinks expected EventLinks, found Newline\n''"
    );
    assert_eq!(LintError::UnexpectedEnd.message(), "reached unexpected end of section");
}

#[test]
fn out_of_range_message_shows_dates() {
    let text = build_event_section(Some(&europe_block(&["2024-12-01"])));
    let mut reader = Reader::new(&text).unwrap();
    let mut linter = EventLinter::new(20);
    let _ = linter.lint(&mut reader);
    let m = linter.errors()[0].message();
    assert!(m.starts_with("line #11: event date 2024-12-01 does not fall within newsletter date range 2024-10-23 - 2024-11-20\n"));
}
