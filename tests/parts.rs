use mediavert::parts::{year_or_number, Item, Key, Parts, Value};

fn text(key: Key, s: &str) -> Item {
    Item { key, value: Value::Text(s.to_string()) }
}

fn full(extra: Vec<Item>) -> Vec<Item> {
    let mut items = vec![
        text(Key::AlbumTitle, "The Wall"),
        text(Key::AlbumArtist, "Pink Floyd"),
        text(Key::TrackTitle, "Mother"),
        text(Key::TrackNumber, "5"),
    ];
    items.extend(extra);
    items
}

fn segments(p: &Parts) -> Vec<String> {
    let mut path = Vec::new();
    p.append_to(&mut path);
    path
}

#[test]
fn original_release_date_beats_year() {
    let items = full(vec![
        text(Key::Year, "1980"),
        text(Key::OriginalReleaseDate, "1975-06-01"),
    ]);
    let mut errors = Vec::new();
    let p = Parts::from_items(&items, &mut errors).unwrap();
    assert_eq!(p.year, 1975);
    assert!(errors.is_empty());
}

#[test]
fn bare_year_and_trimmed_date() {
    let mut errors = Vec::new();
    let p = Parts::from_items(&full(vec![text(Key::Year, " 1979 ")]), &mut errors).unwrap();
    assert_eq!(p.year, 1979);
    let p = Parts::from_items(&full(vec![text(Key::RecordingDate, " 2001-02-03 ")]), &mut errors)
        .unwrap();
    assert_eq!(p.year, 2001);
    assert!(errors.is_empty());
}

#[test]
fn unparsable_year_is_missing() {
    let mut errors = Vec::new();
    let r = Parts::from_items(&full(vec![text(Key::Year, "soon")]), &mut errors);
    assert!(r.is_none());
    assert_eq!(errors, vec!["missing year".to_string()]);
}

#[test]
fn missing_track_and_title() {
    let items = vec![
        text(Key::Year, "1979"),
        text(Key::AlbumTitle, "The Wall"),
        text(Key::TrackArtist, "Pink Floyd"),
    ];
    let mut errors = Vec::new();
    assert!(Parts::from_items(&items, &mut errors).is_none());
    assert_eq!(errors.len(), 2);
    assert!(errors.contains(&"missing track number".to_string()));
    assert!(errors.contains(&"missing title".to_string()));
}

#[test]
fn every_missing_field_reported_in_order() {
    let mut errors = vec!["earlier".to_string()];
    assert!(Parts::from_items(&Vec::new(), &mut errors).is_none());
    assert_eq!(
        errors,
        vec![
            "earlier",
            "missing year",
            "missing album",
            "missing artist",
            "missing title",
            "missing track number"
        ]
    );
}

#[test]
fn album_artist_beats_track_artist() {
    let mut errors = Vec::new();
    let items = full(vec![text(Key::Year, "1979"), text(Key::TrackArtist, "Roger")]);
    let mut items = items;
    items.insert(0, text(Key::TrackArtist, "Someone"));
    let p = Parts::from_items(&items, &mut errors).unwrap();
    assert_eq!(p.artist, "Pink Floyd");
}

#[test]
fn ties_keep_the_first_value() {
    let mut errors = Vec::new();
    let items = vec![
        text(Key::Year, "1979"),
        text(Key::AlbumTitle, "First"),
        text(Key::AlbumTitle, "Second"),
        text(Key::TrackArtist, "A"),
        text(Key::TrackArtist, "B"),
        text(Key::TrackTitle, "T"),
        text(Key::TrackNumber, "1"),
    ];
    let p = Parts::from_items(&items, &mut errors).unwrap();
    assert_eq!(p.album, "First");
    assert_eq!(p.artist, "A");
}

#[test]
fn blank_text_is_rejected_and_text_trimmed() {
    let mut errors = Vec::new();
    let items = vec![
        text(Key::Year, "1979"),
        text(Key::AlbumTitle, "   "),
        text(Key::AlbumTitle, "  The Wall \t"),
        text(Key::TrackArtist, "A"),
        text(Key::TrackTitle, "T"),
        text(Key::TrackNumber, " 7 "),
    ];
    let p = Parts::from_items(&items, &mut errors).unwrap();
    assert_eq!(p.album, "The Wall");
    assert_eq!(p.track, 7);
}

#[test]
fn non_text_values_are_rejected() {
    let mut errors = Vec::new();
    let items = vec![
        text(Key::Year, "1979"),
        Item { key: Key::AlbumTitle, value: Value::Locator("http://x".to_string()) },
        Item { key: Key::TrackArtist, value: Value::Binary(vec![65]) },
        text(Key::TrackTitle, "T"),
        text(Key::TrackNumber, "x1"),
    ];
    assert!(Parts::from_items(&items, &mut errors).is_none());
    assert_eq!(errors, vec!["missing album", "missing artist", "missing track number"]);
}

#[test]
fn disc_pair_needs_both_halves() {
    let mut errors = Vec::new();
    let p = Parts::from_items(&full(vec![text(Key::Year, "1979"), text(Key::DiscNumber, "1")]), &mut errors)
        .unwrap();
    assert_eq!(p.set, None);
    let p = Parts::from_items(
        &full(vec![
            text(Key::Year, "1979"),
            text(Key::DiscNumber, "1"),
            text(Key::DiscTotal, "+2"),
            text(Key::OriginalMediaType, "CD"),
        ]),
        &mut errors,
    )
    .unwrap();
    assert_eq!(p.set, Some((1, 2)));
    assert_eq!(p.media_type.as_deref(), Some("CD"));
    assert!(errors.is_empty());
}

fn wall(set: Option<(u32, u32)>, media_type: Option<&str>) -> Parts {
    Parts {
        year: 1979,
        artist: "Pink Floyd".to_string(),
        album: "The Wall".to_string(),
        track: 5,
        title: "Mother".to_string(),
        media_type: media_type.map(|s| s.to_string()),
        set,
    }
}

#[test]
fn path_with_disc_segment() {
    assert_eq!(
        segments(&wall(Some((1, 2)), Some("CD"))),
        vec!["Pink Floyd", "The Wall (1979)", "CD 01", "Pink Floyd - The Wall - 05 - Mother"]
    );
}

#[test]
fn path_without_disc_segment() {
    let expected = vec!["Pink Floyd", "The Wall (1979)", "Pink Floyd - The Wall - 05 - Mother"];
    assert_eq!(segments(&wall(Some((1, 1)), Some("CD"))), expected);
    assert_eq!(segments(&wall(None, Some("CD"))), expected);
}

#[test]
fn path_disc_without_media_type() {
    assert_eq!(segments(&wall(Some((3, 12)), None))[2], "03");
}

#[test]
fn path_segments_are_sanitized() {
    let p = Parts {
        year: -5,
        artist: "AC/DC".to_string(),
        album: "Live: 1992".to_string(),
        track: 123,
        title: "What?".to_string(),
        media_type: None,
        set: None,
    };
    assert_eq!(
        segments(&p),
        vec!["AC+DC", "Live - 1992 (-5)", "AC+DC - Live - 1992 - 123 - What"]
    );
}

#[test]
fn push_sanitized_appends_one_segment() {
    let mut path = vec!["root".to_string()];
    mediavert::parts::push_sanitized(&mut path, "a/b");
    assert_eq!(path, vec!["root", "a+b"]);
}

#[test]
fn year_falls_back_to_a_bare_number() {
    assert_eq!(year_or_number(Some(1975), "1975-06-01"), Some(1975));
    assert_eq!(year_or_number(None, "1980"), Some(1980));
    assert_eq!(year_or_number(None, "-12"), Some(-12));
    assert_eq!(year_or_number(None, "40000"), None);
    assert_eq!(year_or_number(None, "19x0"), None);
}

#[test]
fn original_release_date_wins_in_either_order() {
    let items = full(vec![
        text(Key::OriginalReleaseDate, "1975-06-01"),
        text(Key::ReleaseDate, "1977-01-01"),
        text(Key::Year, "1980"),
    ]);
    let mut errors = Vec::new();
    assert_eq!(Parts::from_items(&items, &mut errors).unwrap().year, 1975);
}

#[test]
fn only_track_and_title_reported_when_the_rest_resolves() {
    let items = vec![
        text(Key::ReleaseDate, "1979-11-30"),
        text(Key::AlbumTitle, "The Wall"),
        text(Key::AlbumArtist, "Pink Floyd"),
        text(Key::Other, "Rock"),
    ];
    let mut errors = vec!["before".to_string()];
    assert!(Parts::from_items(&items, &mut errors).is_none());
    assert_eq!(errors, vec!["before", "missing title", "missing track number"]);
}
