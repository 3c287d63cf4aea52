use grid_challenge::db::StravaConfig;
use grid_challenge::routes::challenges::{
    check_new_name, check_owner, check_polygon_size, text_from_draws, check_renamed, date_value, generate_id, generate_token,
    needs_recompute, response_source, shows_gpx_stats, ResponseSource,
};
use grid_challenge::routes::gpx::{check_upload_name, check_upload_size, insert_error};
use grid_challenge::routes::strava::{
    check_webhook_verify, is_activity_create, require_strava, SyncAction, SyncState,
    WebhookEvent, WebhookVerifyQuery,
};
use grid_challenge::strava::StravaActivity;

fn config() -> StravaConfig {
    StravaConfig {
        client_id: "1".into(),
        client_secret: "s".into(),
        redirect_uri: "r".into(),
        webhook_verify_token: "verify-me".into(),
    }
}

fn acts(n: i64) -> Vec<StravaActivity> {
    (0..n)
        .map(|i| StravaActivity {
            id: i,
            name: format!("a{i}"),
            sport_type: "Run".into(),
            start_date: "2024-01-01T00:00:00Z".into(),
        })
        .collect()
}

#[test]
fn strava_must_be_configured() {
    match require_strava(&None) {
        Err(e) => {
            assert_eq!(e.status, 501);
            assert_eq!(e.message, "Strava integration not configured");
        }
        Ok(_) => panic!("no configuration"),
    }
    let c = Some(config());
    assert_eq!(require_strava(&c).ok().map(|c| c.client_id.clone()), Some("1".to_string()));
}

#[test]
fn webhook_verification() {
    let q = |m: Option<&str>, t: Option<&str>, c: Option<&str>| WebhookVerifyQuery {
        mode: m.map(|s| s.to_string()),
        verify_token: t.map(|s| s.to_string()),
        challenge: c.map(|s| s.to_string()),
    };
    let ok = check_webhook_verify(&config(), &q(Some("subscribe"), Some("verify-me"), Some("abc")));
    assert_eq!(ok.ok(), Some("abc".to_string()));
    let missing = check_webhook_verify(&config(), &q(Some("subscribe"), Some("verify-me"), None));
    assert_eq!(missing.err().map(|e| e.message), Some("Missing hub.challenge".to_string()));
    let bad = check_webhook_verify(&config(), &q(Some("subscribe"), Some("nope"), Some("abc")));
    assert_eq!(bad.err().map(|e| (e.status, e.message)), Some((400, "Invalid verify token".to_string())));
    let no_mode = check_webhook_verify(&config(), &q(None, Some("verify-me"), Some("abc")));
    assert!(no_mode.is_err());
}

#[test]
fn webhook_events() {
    let ev = |o: &str, a: &str| WebhookEvent { object_type: o.into(), aspect_type: a.into(), object_id: 1, owner_id: 2 };
    assert!(is_activity_create(&ev("activity", "create")));
    assert!(!is_activity_create(&ev("activity", "update")));
    assert!(!is_activity_create(&ev("athlete", "create")));
}

#[test]
fn sync_lists_then_imports() {
    let mut s = SyncState::new();
    assert_eq!(s.first_action(), SyncAction::ListPage(1));
    assert_eq!(s.on_listed(acts(2)), SyncAction::ListPage(2));
    assert_eq!(s.on_listed(vec![]), SyncAction::Import(0));
    assert_eq!(s.on_imported(true), SyncAction::Import(1));
    assert_eq!(s.on_imported(false), SyncAction::Finish { imported: 1, recompute: true });
}

#[test]
fn sync_stops_listing_after_ten_pages() {
    let mut s = SyncState::new();
    for page in 2..=10 {
        assert_eq!(s.on_listed(acts(1)), SyncAction::ListPage(page));
    }
    assert_eq!(s.on_listed(acts(1)), SyncAction::Import(0));
    assert_eq!(s.activities.len(), 10);
}

#[test]
fn sync_imports_at_most_two_hundred() {
    let mut s = SyncState::new();
    assert_eq!(s.on_listed(acts(250)), SyncAction::ListPage(2));
    let mut action = s.on_listed(vec![]);
    let mut count = 0;
    while let SyncAction::Import(i) = action {
        assert_eq!(i, count);
        count += 1;
        action = s.on_imported(true);
    }
    assert_eq!(count, 200);
    assert_eq!(action, SyncAction::Finish { imported: 200, recompute: true });
}

#[test]
fn sync_with_nothing_to_import() {
    let mut s = SyncState::new();
    assert_eq!(s.on_listed(vec![]), SyncAction::Finish { imported: 0, recompute: false });
}

#[test]
fn ids_and_tokens() {
    let id = generate_id();
    assert_eq!(id.chars().count(), 8);
    assert!(id.chars().all(|c| "0123456789abcdefghjkmnpqrstvwxyz".contains(c)));
    let token = generate_token();
    assert_eq!(token.chars().count(), 12);
    assert!(token.chars().all(|c| c.is_ascii_alphanumeric()));
    // Ids and tokens drawn several times are not all the same.
    let ids: Vec<String> = (0..20).map(|_| generate_id()).collect();
    assert!(ids.iter().any(|i| *i != ids[0]));
    let tokens: Vec<String> = (0..20).map(|_| generate_token()).collect();
    assert!(tokens.iter().any(|t| *t != tokens[0]));
}

#[test]
fn draws_pick_characters() {
    assert_eq!(text_from_draws("abcdef", &vec![0, 5, 2, 2]), "afcc");
    assert_eq!(text_from_draws("xyz", &vec![]), "");
}

#[test]
fn only_the_owner_sees_a_challenge() {
    assert!(check_owner(Some(7), 7).is_ok());
    let other = check_owner(Some(8), 7).unwrap_err();
    assert_eq!((other.status, other.message.as_str()), (404, "Challenge not found"));
    let missing = check_owner(None, 7).unwrap_err();
    assert_eq!((missing.status, missing.message.as_str()), (404, "Challenge not found"));
}

#[test]
fn challenge_inputs() {
    assert_eq!(check_new_name("  Alps ").ok(), Some("Alps".to_string()));
    assert_eq!(check_new_name("   ").err().map(|e| e.message), Some("Name is required".to_string()));
    assert_eq!(check_renamed("\t").err().map(|e| e.message), Some("Name cannot be empty".to_string()));
    assert_eq!(check_renamed(" B ").ok(), Some("B".to_string()));
    assert!(check_polygon_size(3).is_ok());
    assert_eq!(
        check_polygon_size(2).err().map(|e| (e.status, e.message)),
        Some((400, "Polygon needs at least 3 points".to_string()))
    );
    assert_eq!(date_value(""), None);
    assert_eq!(date_value("2024-05-01"), Some("2024-05-01".to_string()));
    assert!(!needs_recompute(false, false, false, false));
    assert!(needs_recompute(false, false, true, false));
}

#[test]
fn challenge_view_sources() {
    assert_eq!(response_source(true, true), ResponseSource::Coverage);
    assert_eq!(response_source(true, false), ResponseSource::TrailsOnly);
    assert_eq!(response_source(false, true), ResponseSource::Nothing);
    assert_eq!(response_source(false, false), ResponseSource::Nothing);
    assert!(shows_gpx_stats(1));
    assert!(!shows_gpx_stats(0));
}

#[test]
fn uploads() {
    assert_eq!(check_upload_name(Some("Run.GPX")).ok(), Some("Run.GPX".to_string()));
    assert_eq!(check_upload_name(None).ok(), Some("upload.gpx".to_string()));
    assert_eq!(
        check_upload_name(Some("run.fit")).err().map(|e| e.message),
        Some("Only .gpx files are accepted".to_string())
    );
    assert!(check_upload_size(10).is_ok());
    assert_eq!(check_upload_size(0).err().map(|e| e.message), Some("Empty file".to_string()));
    assert_eq!(insert_error(true).message, "File already uploaded");
    assert_eq!(insert_error(false).status, 500);
}
