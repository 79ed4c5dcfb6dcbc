use cereal::model::{BookMetadata, ChapterMetadata};

fn same(a: &ChapterMetadata, b: &ChapterMetadata) -> bool {
    format!("{a:?}") == format!("{b:?}")
}

#[test]
fn book_metadata_json_form() {
    assert_eq!(BookMetadata::RoyalRoad(21220).json(), "{\"RoyalRoad\":21220}");
    assert_eq!(BookMetadata::Pale.json(), "\"Pale\"");
    assert_eq!(BookMetadata::ApparatusOfChangePatreon.json(), "\"ApparatusOfChangePatreon\"");
}

#[test]
fn book_metadata_round_trip() {
    let all = [
        BookMetadata::RoyalRoad(0),
        BookMetadata::RoyalRoad(u64::MAX),
        BookMetadata::Pale,
        BookMetadata::TheWanderingInn,
        BookMetadata::TheWanderingInnPatreon,
        BookMetadata::TheDailyGrindPatreon,
        BookMetadata::ApparatusOfChangePatreon,
    ];
    for m in all {
        assert_eq!(BookMetadata::from_json(&m.json()), Some(m));
    }
    assert_eq!(BookMetadata::from_json("\"Royal\""), None);
    assert_eq!(BookMetadata::from_json("{\"RoyalRoad\":12"), None);
    assert_eq!(BookMetadata::from_json(""), None);
}

#[test]
fn chapter_metadata_json_form() {
    let rr = ChapterMetadata::RoyalRoad { royalroad_book_id: 1, royalroad_chapter_id: 22 };
    assert_eq!(rr.json(), "{\"RoyalRoad\":{\"royalroad_book_id\":1,\"royalroad_chapter_id\":22}}");
    let pale = ChapterMetadata::Pale { url: "https://a/\"b\"\\c".to_string() };
    assert_eq!(pale.json(), "{\"Pale\":{\"url\":\"https://a/\\\"b\\\"\\\\c\"}}");
    let wi = ChapterMetadata::TheWanderingInnPatreon { url: "u".to_string(), password: None };
    assert_eq!(wi.json(), "{\"TheWanderingInnPatreon\":{\"url\":\"u\",\"password\":null}}");
    let ctrl = ChapterMetadata::TheWanderingInnPatreon {
        url: "a\nb\tc\u{1}".to_string(),
        password: Some("pé".to_string()),
    };
    assert_eq!(
        ctrl.json(),
        "{\"TheWanderingInnPatreon\":{\"url\":\"a\\nb\\tc\\u0001\",\"password\":\"pé\"}}"
    );
    assert_eq!(ChapterMetadata::TheDailyGrindPatreon.json(), "\"TheDailyGrindPatreon\"");
}

#[test]
fn chapter_metadata_round_trip() {
    let all = vec![
        ChapterMetadata::RoyalRoad { royalroad_book_id: 7, royalroad_chapter_id: 1234567 },
        ChapterMetadata::Pale { url: "https://palewebserial.wordpress.com/2020/05/05/blood-run-cold-0-0/".to_string() },
        ChapterMetadata::Pale { url: String::new() },
        ChapterMetadata::TheWanderingInnPatreon { url: "x\u{8}\u{c}\r\u{1f}".to_string(), password: Some("\"pw\"".to_string()) },
        ChapterMetadata::TheWanderingInnPatreon { url: "u".to_string(), password: None },
        ChapterMetadata::TheDailyGrindPatreon,
        ChapterMetadata::ApparatusOfChangePatreon,
    ];
    for m in &all {
        let back = ChapterMetadata::from_json(&m.json()).unwrap();
        assert!(same(&back, m));
    }
    assert!(ChapterMetadata::from_json("{\"Pale\":{\"link\":\"u\"}}").is_none());
    assert!(ChapterMetadata::from_json("\"Pale\"").is_none());
}
