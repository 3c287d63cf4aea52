use grid_challenge::db::StravaConfig;
use grid_challenge::errors::AppError;
use grid_challenge::strava::{
    activities_url, activity_url, authorize_url, filter_allowed, gpx_inputs_supported,
    import_outcome, is_allowed_type, streams_to_gpx, streams_url, strava_filename,
    token_exchange_form, token_refresh_form, token_step, user_gpx_dir, xml_escape, GpxPoint,
    StravaActivity, TokenStep, choose_streams, StreamChoice, StreamOutline,
};

fn config() -> StravaConfig {
    StravaConfig {
        client_id: "123".to_string(),
        client_secret: "SECRET-REDACTED".to_string(),
        redirect_uri: "http://localhost/cb".to_string(),
        webhook_verify_token: "tok".to_string(),
    }
}

fn activity(id: i64, sport: &str) -> StravaActivity {
    StravaActivity {
        id,
        name: format!("act {id}"),
        sport_type: sport.to_string(),
        start_date: "2024-01-15T10:30:00Z".to_string(),
    }
}

#[test]
fn authorize_url_has_client_and_redirect() {
    assert_eq!(
        authorize_url(&config()),
        "https://www.strava.com/oauth/authorize?client_id=123&redirect_uri=http://localhost/cb&response_type=code&scope=read,activity:read_all&approval_prompt=auto"
    );
}

#[test]
fn request_urls() {
    assert_eq!(
        activities_url(1, 50, None),
        "https://www.strava.com/api/v3/athlete/activities?page=1&per_page=50"
    );
    assert_eq!(
        activities_url(3, 50, Some(-5)),
        "https://www.strava.com/api/v3/athlete/activities?page=3&per_page=50&after=-5"
    );
    assert_eq!(
        streams_url(987),
        "https://www.strava.com/api/v3/activities/987/streams?keys=latlng,altitude,time&key_type=distance"
    );
    assert_eq!(activity_url(42), "https://www.strava.com/api/v3/activities/42");
}

#[test]
fn token_forms() {
    let form = token_exchange_form(&config(), "the-code");
    let want = vec![
        ("client_id".to_string(), "123".to_string()),
        ("client_secret".to_string(), "SECRET-REDACTED".to_string()),
        ("code".to_string(), "the-code".to_string()),
        ("grant_type".to_string(), "authorization_code".to_string()),
    ];
    assert_eq!(form, want);
    let form = token_refresh_form(&config(), "rt");
    assert_eq!(form[2], ("refresh_token".to_string(), "rt".to_string()));
    assert_eq!(form[3], ("grant_type".to_string(), "refresh_token".to_string()));
}

#[test]
fn token_still_valid_or_refreshed() {
    let r = token_step(Some("a".into()), Some("r".into()), Some(1000), 900);
    assert!(matches!(r, Ok(TokenStep::Current(ref t)) if t == "a"));
    // within the 60 s margin the token is refreshed
    let r = token_step(Some("a".into()), Some("r".into()), Some(1000), 940);
    assert!(matches!(r, Ok(TokenStep::Refresh(ref t)) if t == "r"));
    // no expiry stored counts as expired long ago
    let r = token_step(Some("a".into()), Some("r".into()), None, 0);
    assert!(matches!(r, Ok(TokenStep::Refresh(_))));
}

#[test]
fn token_missing_means_not_connected() {
    let r = token_step(None, Some("r".into()), Some(1000), 0);
    match r {
        Err(e) => {
            assert_eq!(e.status, 400);
            assert_eq!(e.message, "Strava not connected");
        }
        Ok(_) => panic!("expected an error"),
    }
    assert!(token_step(Some("a".into()), None, Some(1000), 0).is_err());
    // Missing tokens are reported whatever the stored expiry.
    let r = token_step(None, None, Some(i64::MIN), 0);
    assert_eq!(r.err().map(|e| e.message), Some("Strava not connected".to_string()));
}

#[test]
fn only_trail_activities_are_kept() {
    assert!(is_allowed_type("TrailRun"));
    assert!(!is_allowed_type("Ride"));
    assert!(!is_allowed_type("run"));
    let list = vec![activity(1, "Run"), activity(2, "Ride"), activity(3, "Hike"), activity(4, "Walk"), activity(5, "Swim")];
    let kept: Vec<i64> = filter_allowed(&list).iter().map(|a| a.id).collect();
    assert_eq!(kept, vec![1, 3, 4]);
}

#[test]
fn xml_escaping() {
    assert_eq!(xml_escape("a & <b> \"c\" 'd'"), "a &amp; &lt;b&gt; &quot;c&quot; &apos;d&apos;");
    assert_eq!(xml_escape("plain"), "plain");
    assert_eq!(xml_escape("&amp;"), "&amp;amp;");
    assert_eq!(xml_escape("a<b & 'c'"), "a&lt;b &amp; &apos;c&apos;");
    assert_eq!(xml_escape(""), "");
}

#[test]
fn gpx_document() {
    let points = vec![
        GpxPoint {
            lat: "46.1000000".into(),
            lon: "7.2000000".into(),
            ele: Some("1500.0".into()),
            time_offset: Some(0),
        },
        GpxPoint { lat: "46.1000100".into(), lon: "7.2000100".into(), ele: None, time_offset: Some(90) },
    ];
    assert!(gpx_inputs_supported(&points, "2024-01-15T10:30:00Z"));
    let gpx = streams_to_gpx(&points, "Morning <Run>", "2024-01-15T10:30:00Z");
    let want = [
        "<?xml version=\"1.0\" encoding=\"UTF-8\"?>\n",
        "<gpx version=\"1.1\" creator=\"grid-challenge-strava-sync\">\n",
        "  <trk>\n",
        "    <name>Morning &lt;Run&gt;</name>\n",
        "    <trkseg>\n",
        "      <trkpt lat=\"46.1000000\" lon=\"7.2000000\">\n",
        "        <ele>1500.0</ele>\n",
        "        <time>2024-01-15T10:30:00Z</time>\n",
        "      </trkpt>\n",
        "      <trkpt lat=\"46.1000100\" lon=\"7.2000100\">\n",
        "        <time>2024-01-15T10:31:30Z</time>\n",
        "      </trkpt>\n",
        "    </trkseg>\n",
        "  </trk>\n",
        "</gpx>\n",
    ]
    .concat();
    assert_eq!(gpx, want);
}

#[test]
fn gpx_without_start_time_has_no_times() {
    let points = vec![GpxPoint { lat: "1.0000000".into(), lon: "2.0000000".into(), ele: None, time_offset: Some(5) }];
    let gpx = streams_to_gpx(&points, "x", "not a time");
    assert!(!gpx.contains("<time>"));
    assert!(gpx.contains("<trkpt lat=\"1.0000000\" lon=\"2.0000000\">"));
}

#[test]
fn gpx_inputs_that_overflow_are_refused() {
    let points = vec![GpxPoint { lat: "0".into(), lon: "0".into(), ele: None, time_offset: Some(i64::MAX) }];
    assert!(!gpx_inputs_supported(&points, "2024-01-15T10:30:00Z"));
    assert!(gpx_inputs_supported(&points, "garbage"));
}

#[test]
fn import_names() {
    assert_eq!(strava_filename(123456), "strava_123456.gpx");
    assert_eq!(user_gpx_dir(7), "data/gpx/7");
}

#[test]
fn import_outcomes() {
    assert_eq!(import_outcome(Ok(5), "f.gpx".into()).ok(), Some(Some("f.gpx".to_string())));
    let dup = import_outcome(Err(AppError::bad_request("File already uploaded")), "f.gpx".into());
    assert!(matches!(dup, Ok(None)));
    let other = import_outcome(Err(AppError::internal("Database error")), "f.gpx".into());
    match other {
        Err(e) => assert_eq!(e.message, "Database error"),
        Ok(_) => panic!("expected the error back"),
    }
}

#[test]
fn stream_choice() {
    let o = |k: Option<&str>, d: bool| StreamOutline { kind: k.map(|s| s.to_string()), has_data: d };
    let streams = vec![
        o(Some("latlng"), true),
        o(Some("distance"), true),
        o(Some("time"), true),
        o(None, true),
        o(Some("altitude"), false),
        o(Some("latlng"), true),
    ];
    assert_eq!(
        choose_streams(&streams),
        StreamChoice { latlng: Some(5), altitude: None, time: Some(2) }
    );
    assert_eq!(choose_streams(&vec![]), StreamChoice { latlng: None, altitude: None, time: None });
}
