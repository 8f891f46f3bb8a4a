use twir_events::args::Args;
use twir_events::date::CalendarDate;
use twir_events::events::{Event, EventDate, EventGroup, EventListing, EventLocation, EventOverview, Region};
use twir_events::merge::{merge_listings, merged_section, EventsByRegion};
use twir_events::records::{EventRecord, RecordError};

fn date(y: u16, m: u8, d: u8) -> CalendarDate {
    CalendarDate::new(y, m, d)
}

fn listing(d: CalendarDate, loc: &str, title: &str, url: &str) -> EventListing {
    EventListing::new(
        EventOverview::new(
            EventDate::Date(d),
            EventLocation::InPerson(loc.to_owned()),
            vec![EventGroup { name: "Group".to_owned(), url: "https://g.test/".to_owned() }],
        ),
        vec![Event { name: title.to_owned(), url: url.to_owned() }],
    )
}

#[test]
fn merging_with_itself_keeps_the_draft() {
    let draft = vec![
        listing(date(2024, 10, 24), "Berlin, DE", "**A**", "https://e.test/1"),
        listing(date(2024, 10, 25), "Oslo, NO", "**B**", "https://e.test/2"),
    ];
    let merged = merge_listings(&draft, &draft);
    assert_eq!(merged, draft);
}

#[test]
fn incoming_listing_replaces_draft_with_same_key() {
    let draft = vec![
        listing(date(2024, 10, 24), "Berlin, DE", "**Old title**", "https://e.test/1"),
        listing(date(2024, 10, 25), "Oslo, NO", "**B**", "https://e.test/2"),
    ];
    let incoming = vec![
        listing(date(2024, 10, 28), "Berlin, DE", "**New title**", "https://e.test/1"),
        listing(date(2024, 10, 29), "Rome, IT", "**C**", "https://e.test/3"),
    ];
    let merged = merge_listings(&draft, &incoming);
    assert_eq!(merged.len(), 3);
    assert_eq!(merged[0], incoming[0]);
    assert_eq!(merged[1], draft[1]);
    assert_eq!(merged[2], incoming[1]);
}

#[test]
fn one_sided_regions_pass_unchanged() {
    let draft = vec![listing(date(2024, 10, 24), "Berlin, DE", "**A**", "https://e.test/1")];
    assert_eq!(merge_listings(&draft, &vec![]), draft);
    assert_eq!(merge_listings(&vec![], &draft), draft);
}

#[test]
fn merged_section_sorts_filters_and_renders() {
    let mut draft = EventsByRegion::new();
    draft.add(listing(date(2024, 10, 30), "Oslo, NO", "**B**", "https://e.test/2"), Region::Europe);
    draft.add(listing(date(2024, 10, 24), "Berlin, DE", "**A**", "https://e.test/1"), Region::Europe);
    let mut incoming = EventsByRegion::new();
    incoming.add(listing(date(2024, 12, 24), "Rome, IT", "**Late**", "https://e.test/9"), Region::Europe);
    incoming.add(listing(date(2024, 10, 26), "Perth, AU", "**C**", "https://e.test/3"), Region::Oceania);
    let out = merged_section(&draft, &incoming, date(2024, 10, 23), date(2024, 11, 20));
    let expected = "### Europe\n\
* 2024-10-24 | Berlin, DE | [Group](https://g.test/)\n    * [**A**](https://e.test/1)\n\
* 2024-10-30 | Oslo, NO | [Group](https://g.test/)\n    * [**B**](https://e.test/2)\n\
\n\
### Oceania\n\
* 2024-10-26 | Perth, AU | [Group](https://g.test/)\n    * [**C**](https://e.test/3)\n\
\n";
    assert_eq!(out, expected);
}

#[test]
fn same_day_orders_by_location() {
    let mut regions = EventsByRegion::new();
    regions.add(listing(date(2024, 10, 24), "Oslo, NO", "**B**", "https://e.test/2"), Region::Asia);
    regions.add(listing(date(2024, 10, 24), "Berlin, DE", "**A**", "https://e.test/1"), Region::Asia);
    let out = regions.render();
    assert!(out.starts_with("### Asia\n* 2024-10-24 | Berlin, DE"));
    assert!(!out.contains("### Virtual"));
}

#[test]
fn listing_render_is_two_lines() {
    let l = listing(date(2024, 1, 5), "Berlin, DE", "**A**", "https://e.test/1");
    assert_eq!(
        l.render(),
        "* 2024-01-05 | Berlin, DE | [Group](https://g.test/)\n    * [**A**](https://e.test/1)\n"
    );
}

fn record(date: &str, url: &str, org_url: &str, is_virtual: bool, is_hybrid: bool) -> EventRecord {
    EventRecord {
        name: "Talk".to_owned(),
        location: "Berlin, DE".to_owned(),
        date: date.to_owned(),
        url: url.to_owned(),
        is_virtual,
        organizer_name: "Rust Berlin".to_owned(),
        organizer_url: org_url.to_owned(),
        is_hybrid,
    }
}

#[test]
fn record_becomes_listing() {
    let l = record("2024-10-24", "https://e.test/1", "https://g.test/", true, false)
        .into_listing()
        .unwrap();
    assert_eq!(l.overview.date, EventDate::Date(date(2024, 10, 24)));
    assert_eq!(l.overview.location, EventLocation::VirtualWithLocation("Berlin, DE".to_owned()));
    let h = record("2024-10-24", "https://e.test/1", "https://g.test/", true, true).into_listing().unwrap();
    assert_eq!(h.overview.location, EventLocation::Hybrid("Berlin, DE".to_owned()));
    let p = record("2024-10-24", "https://e.test/1", "https://g.test/", false, false).into_listing().unwrap();
    assert_eq!(p.overview.location, EventLocation::InPerson("Berlin, DE".to_owned()));
}

#[test]
fn record_errors() {
    let r = record("2024-10-32", "https://e.test/1", "https://g.test/", false, false).into_listing();
    assert_eq!(r, Err(RecordError::InvalidDate("2024-10-32".to_owned())));
    let r = record("2024-10-24", "nope", "https://g.test/", false, false).into_listing();
    assert_eq!(r, Err(RecordError::InvalidEventUrl("nope".to_owned())));
    let r = record("2024-10-24", "https://e.test/1", "nope", false, false).into_listing();
    assert_eq!(r, Err(RecordError::InvalidOrganizerUrl("nope".to_owned())));
}

#[test]
fn args_getters() {
    let a = Args::new("draft.md".to_owned(), None, false, 20);
    assert_eq!(a.draft(), "draft.md");
    assert_eq!(a.new_events_file(), &None);
    assert!(!a.debug());
    assert_eq!(a.error_limit(), 20);
}

#[test]
fn years_past_four_digits_are_written_in_full() {
    let l = listing(date(10000, 1, 5), "Berlin, DE", "**A**", "https://e.test/1");
    assert!(l.render().starts_with("* +10000-01-05 | "));
}
