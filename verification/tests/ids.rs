use jukebox::ids::{ExternalId, Id, IdString, LibraryId, ParseIdError, Track};
use jukebox::json::to_json_string;
use jukebox::model::{AlbumId, ArtistId, PlaylistId, TrackId};
use jukebox::numtext::{format_i64, format_u64, parse_i64};
use jukebox::services::ServiceId;

#[test]
fn ids_serialize_as_strings() {
    assert_eq!(to_json_string(&LibraryId::<Track>::new(2).to_string()), "\"2\"");
    assert_eq!(
        to_json_string(&Id::<Track>::Library(LibraryId::new(4)).to_string()),
        "\"4\""
    );
    assert_eq!(
        to_json_string(
            &Id::<Track>::External(ExternalId {
                service: ServiceId("foo".to_string()),
                id: IdString::new("bar".to_string()),
            })
            .to_string()
        ),
        "\"foo:bar\""
    );
}

#[test]
fn parse_bare_integer_is_library() {
    let id = TrackId::parse("42").unwrap();
    assert!(matches!(id, TrackId::Library(l) if l.0 == 42));
}

#[test]
fn parse_colon_form_is_external() {
    let id = TrackId::parse("deezer:12345").unwrap();
    match id {
        TrackId::External(e) => {
            assert_eq!(e.service_id.0, "deezer");
            assert_eq!(e.track_id, "12345");
        }
        TrackId::Library(_) => panic!("expected an external identity"),
    }
}

#[test]
fn parse_empty_fails() {
    assert_eq!(TrackId::parse(""), Err(ParseIdError::InvalidNumber));
}

#[test]
fn parse_empty_service_fails() {
    assert_eq!(TrackId::parse(":x"), Err(ParseIdError::EmptySegment));
}

#[test]
fn parse_empty_identifier_fails() {
    assert_eq!(TrackId::parse("foo:"), Err(ParseIdError::EmptySegment));
}

#[test]
fn parse_non_numeric_fails() {
    assert_eq!(TrackId::parse("abc"), Err(ParseIdError::InvalidNumber));
    assert_eq!(
        TrackId::parse("99999999999999999999999"),
        Err(ParseIdError::InvalidNumber)
    );
}

#[test]
fn id_round_trip() {
    let samples = [
        TrackId::Library(jukebox::model::LibraryTrackId(0)),
        TrackId::Library(jukebox::model::LibraryTrackId(-7)),
        TrackId::Library(jukebox::model::LibraryTrackId(i64::MAX)),
        TrackId::Library(jukebox::model::LibraryTrackId(i64::MIN)),
        TrackId::External(jukebox::model::ExternalTrackId {
            service_id: ServiceId("deezer".to_string()),
            track_id: "a:b:c".to_string(),
        }),
    ];
    for id in samples.iter() {
        let text = id.to_string();
        let back = TrackId::parse(&text).unwrap();
        assert_eq!(&back, id);
    }
}

#[test]
fn generic_id_round_trip() {
    let id = Id::<Track>::External(ExternalId {
        service: ServiceId("svc".to_string()),
        id: IdString::new("xyz".to_string()),
    });
    let back = Id::<Track>::parse(&id.to_string()).unwrap();
    assert_eq!(back, id);
    let lib = Id::<Track>::Library(LibraryId::new(-12));
    assert_eq!(Id::<Track>::parse(&lib.to_string()).unwrap(), lib);
}

#[test]
fn catalog_key_parsing() {
    assert_eq!(AlbumId::parse("17"), Some(AlbumId(17)));
    assert_eq!(AlbumId::parse("x"), None);
    assert_eq!(ArtistId::parse("-3"), Some(ArtistId(-3)));
    assert_eq!(PlaylistId::parse("0").unwrap().to_string(), "0");
}

#[test]
fn decimal_formatting() {
    assert_eq!(format_u64(0), "0");
    assert_eq!(format_u64(90210), "90210");
    assert_eq!(format_u64(u64::MAX), "18446744073709551615");
    assert_eq!(format_i64(-5), "-5");
    assert_eq!(format_i64(i64::MIN), "-9223372036854775808");
}

#[test]
fn decimal_parsing() {
    assert_eq!(parse_i64("007"), Some(7));
    assert_eq!(parse_i64("+42"), Some(42));
    assert_eq!(parse_i64("-0"), Some(0));
    assert_eq!(parse_i64("9223372036854775807"), Some(i64::MAX));
    assert_eq!(parse_i64("9223372036854775808"), None);
    assert_eq!(parse_i64("-9223372036854775808"), Some(i64::MIN));
    assert_eq!(parse_i64("-9223372036854775809"), None);
    assert_eq!(parse_i64("-"), None);
    assert_eq!(parse_i64("1 2"), None);
}
