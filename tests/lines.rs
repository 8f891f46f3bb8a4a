use twir_events::date::CalendarDate;
use twir_events::events::{Event, EventDate, EventGroup, EventLocation, EventOverview, Region};
use twir_events::grammar::{parse_line, LineParseError, ParsedLine};
use twir_events::reader::{Reader, TwirReader};

fn date(y: u16, m: u8, d: u8) -> CalendarDate {
    CalendarDate::new(y, m, d)
}

#[test]
fn event_line_types_test_newline() {
    let parsed = parse_line("").unwrap();
    assert_eq!(parsed, ParsedLine::Newline);
}

#[test]
fn reader_test_newline() {
    let parsed = parse_line("").unwrap();
    assert_eq!(parsed, ParsedLine::Newline);
}

#[test]
fn test_start_events_section() {
    let parsed = parse_line("## Upcoming Events").unwrap();
    assert_eq!(parsed, ParsedLine::StartEventSection);
}

#[test]
fn test_events_date_range() {
    let parsed = parse_line("Rusty Events between 2024-10-23 - 2024-11-20 🦀").unwrap();
    let expected = ParsedLine::EventsDateRange { start: date(2024, 10, 23), end: date(2024, 11, 20) };
    assert_eq!(parsed, expected);
}

#[test]
fn test_event_region_header() {
    let parsed = parse_line("### Virtual").unwrap();
    assert_eq!(parsed, ParsedLine::RegionHeader(Region::Virtual));
}

#[test]
fn test_event_date_location_group() {
    let line = "* 2024-10-24 | Virtual | [Women in Rust](https://www.meetup.com/women-in-rust/)";
    let parsed = parse_line(line).unwrap();
    let expected = ParsedLine::EventOverview(EventOverview::new(
        EventDate::Date(date(2024, 10, 24)),
        EventLocation::Virtual,
        vec![EventGroup {
            name: "Women in Rust".to_owned(),
            url: "https://www.meetup.com/women-in-rust/".to_owned(),
        }],
    ));
    assert_eq!(parsed, expected);
}

#[test]
fn test_event_name() {
    let line = "    * [**Part 4 of 4 - Hackathon Showcase: Final Projects and Presentations**](https://www.meetup.com/women-in-rust/events/303213835/)";
    let parsed = parse_line(line).unwrap();
    let expected = ParsedLine::EventLinks(vec![Event {
        name: "**Part 4 of 4 - Hackathon Showcase: Final Projects and Presentations**".to_owned(),
        url: "https://www.meetup.com/women-in-rust/events/303213835/".to_owned(),
    }]);
    assert_eq!(parsed, expected);
}

#[test]
fn test_end_event_section() {
    let line = "If you are running a Rust event please add it to the [calendar] to get";
    let parsed = parse_line(line).unwrap();
    assert_eq!(parsed, ParsedLine::EndEventSection);
}

#[test]
fn test_unrecognized() {
    let line = "some line with words and things";
    let parsed = parse_line(line);
    assert_eq!(parsed, Err(LineParseError::ParseFailed(line.to_owned())));
}

#[test]
fn test_invalid_region_header() {
    let parsed = parse_line("### Pangea");
    assert_eq!(parsed, Err(LineParseError::UnknownRegion("Pangea".to_owned())));
}

#[test]
fn test_meetup_url_contains_tracker() {
    let line = "    * [**My test link**](https://www.meetup.com/women-in-rust/events/303213835/?eventOrigin=group_events_list)";
    let parsed = parse_line(line);
    let url = "https://www.meetup.com/women-in-rust/events/303213835/?eventOrigin=group_events_list";
    assert_eq!(parsed, Err(LineParseError::UrlContainsTracker(url.to_owned())));
}

#[test]
fn test_non_bold_event_name() {
    let line = "    * [**November Meetup*](https://www.meetup.com/join-srug/events/304166747/)";
    let parsed = parse_line(line);
    assert_eq!(parsed, Err(LineParseError::InvalidLinkLabel("**November Meetup*".to_owned())));
}

#[test]
fn unbolded_label_is_rejected_on_title_line_only() {
    let title = parse_line("    * [My Title](https://x.test/1)");
    assert_eq!(title, Err(LineParseError::InvalidLinkLabel("My Title".to_owned())));
    let group = parse_line("* 2024-10-24 | Virtual | [My Title](https://x.test/1)");
    assert!(group.is_ok());
}

#[test]
fn tracker_on_other_host_is_accepted() {
    let line = "    * [**Talk**](https://example.org/events/1/?eventOrigin=group_events_list)";
    assert!(parse_line(line).is_ok());
}

#[test]
fn meetup_url_without_tracker_is_accepted() {
    let line = "    * [**Talk**](https://www.meetup.com/rust-atx/events/1/?utm=x)";
    assert!(parse_line(line).is_ok());
}

#[test]
fn invalid_url_is_reported() {
    let line = "    * [**Talk**](not a url)";
    assert_eq!(parse_line(line), Err(LineParseError::InvalidUrl("not a url".to_owned())));
}

#[test]
fn invalid_calendar_date_is_reported() {
    let line = "Rusty Events between 2024-13-01 - 2024-11-20";
    assert_eq!(parse_line(line), Err(LineParseError::InvalidDate("2024-13-01".to_owned())));
    let line = "* 2023-2-29 | Virtual | [G](https://g.test/)";
    assert_eq!(parse_line(line), Err(LineParseError::InvalidDate("2023-2-29".to_owned())));
}

#[test]
fn leap_day_and_short_month_digits_are_accepted() {
    let line = "* 2024-2-9 | Virtual | [G](https://g.test/)";
    match parse_line(line).unwrap() {
        ParsedLine::EventOverview(o) => assert_eq!(o.date, EventDate::Date(date(2024, 2, 9))),
        other => panic!("unexpected {:?}", other),
    }
    let line = "* 2024-02-29 | Virtual | [G](https://g.test/)";
    assert!(parse_line(line).is_ok());
}

#[test]
fn overview_with_range_hybrid_and_several_groups() {
    let line = "* 2024-10-24 - 2024-10-27 | Hybrid (Berlin, DE) | [A](https://a.test/) + [B](https://b.test/)";
    let parsed = parse_line(line).unwrap();
    let expected = ParsedLine::EventOverview(EventOverview::new(
        EventDate::DateRange { start: date(2024, 10, 24), end: date(2024, 10, 27) },
        EventLocation::Hybrid("Berlin, DE".to_owned()),
        vec![
            EventGroup { name: "A".to_owned(), url: "https://a.test/".to_owned() },
            EventGroup { name: "B".to_owned(), url: "https://b.test/".to_owned() },
        ],
    ));
    assert_eq!(parsed, expected);
}

#[test]
fn overview_locations() {
    let l = "* 2024-10-24 | Virtual (Seattle, WA, US) | [A](https://a.test/)";
    match parse_line(l).unwrap() {
        ParsedLine::EventOverview(o) => {
            assert_eq!(o.location, EventLocation::VirtualWithLocation("Seattle, WA, US".to_owned()))
        }
        other => panic!("unexpected {:?}", other),
    }
    let l = "* 2024-10-24 | Hamburg, DE | [A](https://a.test/)";
    match parse_line(l).unwrap() {
        ParsedLine::EventOverview(o) => {
            assert_eq!(o.location, EventLocation::InPerson("Hamburg, DE".to_owned()))
        }
        other => panic!("unexpected {:?}", other),
    }
    let l = "* 2024-10-24 | Hybrid | [A](https://a.test/)";
    assert_eq!(parse_line(l), Err(LineParseError::ParseFailed(l.to_owned())));
}

#[test]
fn several_title_links() {
    let line = "    * [**Rust Hack and Learn**](https://meet.jit.si/RustHackAndLearnBerlin) | [**Mirror: Rust Hack n Learn Meetup**](https://www.meetup.com/rust-berlin/events/298633271/)";
    match parse_line(line).unwrap() {
        ParsedLine::EventLinks(es) => {
            assert_eq!(es.len(), 2);
            assert_eq!(es[1].url, "https://www.meetup.com/rust-berlin/events/298633271/");
        }
        other => panic!("unexpected {:?}", other),
    }
}

#[test]
fn overview_render_round_trip() {
    let line = "* 2024-10-24 - 2024-10-27 | Virtual (Berlin, DE) | [A](https://a.test/) + [B](https://b.test/)";
    match parse_line(line).unwrap() {
        ParsedLine::EventOverview(o) => assert_eq!(format!("* {}", o.render()), line),
        other => panic!("unexpected {:?}", other),
    }
}

#[test]
fn twir_reader_numbers_every_line() {
    let text = "intro\n## Upcoming Events\n\nlast";
    let mut r = TwirReader::new(text);
    let first = r.next_line().unwrap();
    assert_eq!(first.unwrap_err().num, 1);
    let second = r.next_line().unwrap().unwrap();
    assert_eq!(second.num(), 2);
    assert_eq!(second.parsed(), &ParsedLine::StartEventSection);
    let third = r.next_line().unwrap().unwrap();
    assert_eq!(third.num(), 3);
    assert_eq!(third.raw(), "");
    let fourth = r.next_line().unwrap();
    assert_eq!(fourth.unwrap_err().raw, "last");
    assert!(r.next_line().is_none());
    assert!(r.next_line().is_none());
}

#[test]
fn reader_bounds_the_section() {
    let text = "a\nb\n## Upcoming Events\n\nIf you are running a Rust event please add it to the [calendar] to get\nafter\n";
    let mut r = Reader::new(text).unwrap();
    let l = r.next_line().unwrap().unwrap();
    assert_eq!(l.num(), 3);
    assert_eq!(l.parsed(), &ParsedLine::StartEventSection);
    assert_eq!(r.next_line().unwrap().unwrap().parsed(), &ParsedLine::Newline);
    let end = r.next_line().unwrap().unwrap();
    assert_eq!(end.num(), 5);
    assert_eq!(end.parsed(), &ParsedLine::EndEventSection);
    assert!(r.next_line().is_none());
}

#[test]
fn reader_needs_both_markers() {
    assert!(Reader::new("no section here\n").is_none());
    assert!(Reader::new("## Upcoming Events\nno end\n").is_none());
}

#[test]
fn title_line_round_trip() {
    let line = "    * [**Rust Hack and Learn**](https://meet.jit.si/RustHackAndLearnBerlin) | [**Mirror**](https://www.meetup.com/rust-berlin/events/298633271/)";
    let parsed = parse_line(line).unwrap();
    let overview_line = "* 2024-10-24 | Virtual | [OpenTechSchool Berlin](https://berline.rs/)";
    let overview = match parse_line(overview_line).unwrap() {
        ParsedLine::EventOverview(o) => o,
        other => panic!("unexpected {:?}", other),
    };
    let events = match parsed {
        ParsedLine::EventLinks(es) => es,
        other => panic!("unexpected {:?}", other),
    };
    let listing = twir_events::events::EventListing::new(overview, events);
    assert_eq!(listing.render(), format!("{}\n{}\n", overview_line, line));
}

#[test]
fn url_without_host_is_invalid() {
    let line = "    * [**Talk**](mailto:someone@example.org)";
    assert_eq!(
        parse_line(line),
        Err(LineParseError::InvalidUrl("mailto:someone@example.org".to_owned()))
    );
}
