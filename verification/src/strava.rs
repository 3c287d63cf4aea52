//! Strava API: the requests the service makes, the activities it keeps, and
//! the GPX document it writes for an imported activity.
use vstd::prelude::*;

use crate::datetime::{
    format_unix_time, iso8601_in_domain, iso8601_supported, iso8601_value, parse_iso8601,
    unix_time_text,
};
use crate::db::StravaConfig;
use crate::errors::{AppError, BAD_REQUEST};
use crate::text::{
    chars_of, contains_chars, contains_text, padded, push_padded, push_str_chars, same_text,
    string_of,
};

verus! {

/// Strava's OAuth authorization page.
pub const STRAVA_AUTH_URL: &'static str = "https://www.strava.com/oauth/authorize";

/// Strava's OAuth token endpoint.
pub const STRAVA_TOKEN_URL: &'static str = "https://www.strava.com/oauth/token";

/// The base of Strava's REST API.
pub const STRAVA_API_BASE: &'static str = "https://www.strava.com/api/v3";

/// The `{}` rendering of an integer.
pub open spec fn int_text(n: int) -> Seq<char> {
    padded(n, 0)
}

/// A copy of `s` as a `String`.
pub fn owned(s: &str) -> (r: String)
    ensures
        r@ == s@,
{
    string_of(&chars_of(s))
}

// -- Authorization ----------------------------------------------------------

/// The Strava OAuth authorization URL for `config`.
pub open spec fn authorize_url_text(config: StravaConfig) -> Seq<char> {
    STRAVA_AUTH_URL@ + "?client_id="@ + config.client_id@ + "&redirect_uri="@
        + config.redirect_uri@
        + "&response_type=code&scope=read,activity:read_all&approval_prompt=auto"@
}

/// Build the Strava OAuth authorization URL.
pub fn authorize_url(config: &StravaConfig) -> (url: String)
    ensures
        url@ == authorize_url_text(*config),
{
    let mut out: Vec<char> = Vec::new();
    push_str_chars(&mut out, STRAVA_AUTH_URL);
    push_str_chars(&mut out, "?client_id=");
    push_str_chars(&mut out, config.client_id.as_str());
    push_str_chars(&mut out, "&redirect_uri=");
    push_str_chars(&mut out, config.redirect_uri.as_str());
    push_str_chars(&mut out, "&response_type=code&scope=read,activity:read_all&approval_prompt=auto");
    string_of(&out)
}

// -- Token exchange ---------------------------------------------------------

/// The tokens Strava answers an authorization code with.
pub struct TokenResponse {
    pub access_token: String,
    pub refresh_token: String,
    pub expires_at: i64,
    pub athlete: AthleteInfo,
}

/// The athlete a token belongs to.
pub struct AthleteInfo {
    pub id: i64,
}

/// The views of a list of form fields.
pub open spec fn form_view(v: Seq<(String, String)>) -> Seq<(Seq<char>, Seq<char>)> {
    v.map_values(|p: (String, String)| (p.0@, p.1@))
}

/// The form posted to exchange an authorization code for tokens.
pub fn token_exchange_form(config: &StravaConfig, code: &str) -> (form: Vec<(String, String)>)
    ensures
        form_view(form@) == seq![
            ("client_id"@, config.client_id@),
            ("client_secret"@, config.client_secret@),
            ("code"@, code@),
            ("grant_type"@, "authorization_code"@),
        ],
{
    let mut form: Vec<(String, String)> = Vec::new();
    form.push((owned("client_id"), config.client_id.clone()));
    form.push((owned("client_secret"), config.client_secret.clone()));
    form.push((owned("code"), owned(code)));
    form.push((owned("grant_type"), owned("authorization_code")));
    assert(form_view(form@) =~= seq![
        ("client_id"@, config.client_id@),
        ("client_secret"@, config.client_secret@),
        ("code"@, code@),
        ("grant_type"@, "authorization_code"@),
    ]);
    form
}

/// The form posted to refresh an expired access token.
pub fn token_refresh_form(config: &StravaConfig, refresh_tok: &str) -> (form: Vec<(String, String)>)
    ensures
        form_view(form@) == seq![
            ("client_id"@, config.client_id@),
            ("client_secret"@, config.client_secret@),
            ("refresh_token"@, refresh_tok@),
            ("grant_type"@, "refresh_token"@),
        ],
{
    let mut form: Vec<(String, String)> = Vec::new();
    form.push((owned("client_id"), config.client_id.clone()));
    form.push((owned("client_secret"), config.client_secret.clone()));
    form.push((owned("refresh_token"), owned(refresh_tok)));
    form.push((owned("grant_type"), owned("refresh_token")));
    assert(form_view(form@) =~= seq![
        ("client_id"@, config.client_id@),
        ("client_secret"@, config.client_secret@),
        ("refresh_token"@, refresh_tok@),
        ("grant_type"@, "refresh_token"@),
    ]);
    form
}

/// What to do for an access token: use the stored one, or refresh with the
/// stored refresh token.
pub enum TokenStep {
    Current(String),
    Refresh(String),
}

/// Decides, from the tokens stored for a user and the current time, whether
/// the access token is still valid (with a 60 s margin) or must be
/// refreshed; a user without both tokens has not connected Strava.
pub fn token_step(
    access_token: Option<String>,
    refresh_tok: Option<String>,
    expires_at: Option<i64>,
    now: i64,
) -> (r: Result<TokenStep, AppError>)
    requires
        access_token is Some && refresh_tok is Some ==> expires_at.unwrap_or(0) >= i64::MIN + 60,
    ensures
        match (access_token, refresh_tok) {
            (Some(a), Some(t)) => if now < expires_at.unwrap_or(0) - 60 {
                r == Ok::<TokenStep, AppError>(TokenStep::Current(a))
            } else {
                r == Ok::<TokenStep, AppError>(TokenStep::Refresh(t))
            },
            _ => r matches Err(e) && e.status == BAD_REQUEST && e.message@
                == "Strava not connected"@,
        },
{
    let access = match access_token {
        Some(a) => a,
        None => return Err(AppError::bad_request("Strava not connected")),
    };
    let refresh = match refresh_tok {
        Some(t) => t,
        None => return Err(AppError::bad_request("Strava not connected")),
    };
    let expires = match expires_at {
        Some(e) => e,
        None => 0,
    };
    if now < expires - 60 {
        Ok(TokenStep::Current(access))
    } else {
        Ok(TokenStep::Refresh(refresh))
    }
}

// -- Activity listing -------------------------------------------------------

/// An activity as Strava lists it.
pub struct StravaActivity {
    pub id: i64,
    pub name: String,
    pub sport_type: String,
    pub start_date: String,
}

impl Clone for StravaActivity {
    fn clone(&self) -> (r: Self)
        ensures
            r == *self,
    {
        StravaActivity {
            id: self.id,
            name: self.name.clone(),
            sport_type: self.sport_type.clone(),
            start_date: self.start_date.clone(),
        }
    }
}

/// The activity types imported (trail-relevant ones).
pub open spec fn allowed_type(t: Seq<char>) -> bool {
    t == "Run"@ || t == "TrailRun"@ || t == "Hike"@ || t == "Walk"@
}

/// Whether activities of type `t` are imported.
pub fn is_allowed_type(t: &str) -> (b: bool)
    ensures
        b == allowed_type(t@),
{
    same_text(t, "Run") || same_text(t, "TrailRun") || same_text(t, "Hike") || same_text(t, "Walk")
}

/// The activities of `s` whose type is imported, in order.
pub open spec fn allowed_only(s: Seq<StravaActivity>) -> Seq<StravaActivity>
    decreases s.len(),
{
    if s.len() == 0 {
        seq![]
    } else if allowed_type(s.last().sport_type@) {
        allowed_only(s.drop_last()).push(s.last())
    } else {
        allowed_only(s.drop_last())
    }
}

/// Every kept activity has an imported type and was in the list.
pub proof fn law_kept_activities_are_allowed(s: Seq<StravaActivity>)
    ensures
        forall|i: int|
            0 <= i < allowed_only(s).len() ==> allowed_type(#[trigger] allowed_only(s)[i].sport_type@)
                && s.contains(allowed_only(s)[i]),
        allowed_only(s).len() <= s.len(),
    decreases s.len(),
{
    if s.len() > 0 {
        law_kept_activities_are_allowed(s.drop_last());
        let r = allowed_only(s.drop_last());
        assert forall|i: int| 0 <= i < allowed_only(s).len() implies allowed_type(
            #[trigger] allowed_only(s)[i].sport_type@,
        ) && s.contains(allowed_only(s)[i]) by {
            if i < r.len() {
                assert(allowed_only(s)[i] == r[i]);
                assert(allowed_type(r[i].sport_type@));
                assert(s.drop_last().contains(r[i]));
                let j = choose|j: int| 0 <= j < s.drop_last().len() && s.drop_last()[j] == r[i];
                assert(s[j] == r[i]);
            } else {
                assert(s[s.len() - 1] == s.last());
            }
        }
    }
}

/// Exactly the runs, trail runs, hikes and walks are kept: every kept
/// activity is of one of these four types, and every activity of one of
/// them is kept.
pub proof fn law_only_trail_sports_are_kept(s: Seq<StravaActivity>)
    ensures
        forall|i: int|
            0 <= i < allowed_only(s).len() ==> {
                let t = (#[trigger] allowed_only(s)[i]).sport_type@;
                t == "Run"@ || t == "TrailRun"@ || t == "Hike"@ || t == "Walk"@
            },
        forall|i: int|
            0 <= i < s.len() ==> {
                let t = (#[trigger] s[i]).sport_type@;
                t == "Run"@ || t == "TrailRun"@ || t == "Hike"@ || t == "Walk"@
            } ==> allowed_only(s).contains(s[i]),
    decreases s.len(),
{
    law_kept_activities_are_allowed(s);
    assert forall|i: int| 0 <= i < allowed_only(s).len() implies {
        let t = (#[trigger] allowed_only(s)[i]).sport_type@;
        t == "Run"@ || t == "TrailRun"@ || t == "Hike"@ || t == "Walk"@
    } by {
        assert(allowed_type(allowed_only(s)[i].sport_type@));
    }
    if s.len() > 0 {
        let d = s.drop_last();
        law_only_trail_sports_are_kept(d);
        let r = allowed_only(d);
        assert forall|i: int| 0 <= i < s.len() && {
            let t = (#[trigger] s[i]).sport_type@;
            t == "Run"@ || t == "TrailRun"@ || t == "Hike"@ || t == "Walk"@
        } implies allowed_only(s).contains(s[i]) by {
            let a = allowed_only(s);
            if i < d.len() {
                assert(s[i] == d[i]);
                assert(r.contains(d[i]));
                let k = choose|k: int| 0 <= k < r.len() && r[k] == d[i];
                assert(a[k] == r[k]);
            } else {
                assert(s[i] == s.last());
                assert(a[a.len() - 1] == s.last());
            }
        }
    }
}

/// Keeps the trail-relevant activities, in order.
pub fn filter_allowed(activities: &Vec<StravaActivity>) -> (r: Vec<StravaActivity>)
    ensures
        r@ == allowed_only(activities@),
{
    let mut r: Vec<StravaActivity> = Vec::new();
    for i in 0..activities.len()
        invariant
            r@ == allowed_only(activities@.take(i as int)),
    {
        let ghost next = activities@.take(i + 1);
        assert(next.drop_last() == activities@.take(i as int));
        if is_allowed_type(activities[i].sport_type.as_str()) {
            r.push(activities[i].clone());
        }
    }
    assert(activities@.take(activities.len() as int) == activities@);
    r
}

/// The URL of page `page` of the athlete's activities.
pub open spec fn activities_url_text(page: u32, per_page: u32, after: Option<i64>) -> Seq<char> {
    STRAVA_API_BASE@ + "/athlete/activities?page="@ + int_text(page as int) + "&per_page="@
        + int_text(per_page as int) + match after {
        Some(a) => "&after="@ + int_text(a as int),
        None => Seq::<char>::empty(),
    }
}

/// The URL listing the athlete's activities, paginated, optionally only
/// those after a timestamp.
pub fn activities_url(page: u32, per_page: u32, after: Option<i64>) -> (url: String)
    ensures
        url@ == activities_url_text(page, per_page, after),
{
    let mut out: Vec<char> = Vec::new();
    push_str_chars(&mut out, STRAVA_API_BASE);
    push_str_chars(&mut out, "/athlete/activities?page=");
    push_padded(&mut out, page as i64, 0);
    push_str_chars(&mut out, "&per_page=");
    push_padded(&mut out, per_page as i64, 0);
    if let Some(a) = after {
        push_str_chars(&mut out, "&after=");
        push_padded(&mut out, a, 0);
    }
    assert(out@ =~= activities_url_text(page, per_page, after));
    string_of(&out)
}

/// The URL of the latlng/altitude/time streams of an activity.
pub open spec fn streams_url_text(activity_id: i64) -> Seq<char> {
    STRAVA_API_BASE@ + "/activities/"@ + int_text(activity_id as int)
        + "/streams?keys=latlng,altitude,time&key_type=distance"@
}

/// The URL of the streams of an activity.
pub fn streams_url(activity_id: i64) -> (url: String)
    ensures
        url@ == streams_url_text(activity_id),
{
    let mut out: Vec<char> = Vec::new();
    push_str_chars(&mut out, STRAVA_API_BASE);
    push_str_chars(&mut out, "/activities/");
    push_padded(&mut out, activity_id, 0);
    push_str_chars(&mut out, "/streams?keys=latlng,altitude,time&key_type=distance");
    string_of(&out)
}

/// The URL of a single activity.
pub open spec fn activity_url_text(activity_id: i64) -> Seq<char> {
    STRAVA_API_BASE@ + "/activities/"@ + int_text(activity_id as int)
}

/// The URL of a single activity.
pub fn activity_url(activity_id: i64) -> (url: String)
    ensures
        url@ == activity_url_text(activity_id),
{
    let mut out: Vec<char> = Vec::new();
    push_str_chars(&mut out, STRAVA_API_BASE);
    push_str_chars(&mut out, "/activities/");
    push_padded(&mut out, activity_id, 0);
    string_of(&out)
}

// -- Stream fetching --------------------------------------------------------

/// What the choice of streams reads of one stream of an activity: its
/// `type`, when that is a string, and whether its `data` is an array.
pub struct StreamOutline {
    pub kind: Option<String>,
    pub has_data: bool,
}

/// The streams an activity's track is read from: for each of `latlng`,
/// `altitude` and `time`, the position of the stream whose data is used.
#[derive(Debug, PartialEq, Eq)]
pub struct StreamChoice {
    pub latlng: Option<usize>,
    pub altitude: Option<usize>,
    pub time: Option<usize>,
}

/// The stream of kind `kind` whose data is used: the last stream of that
/// kind decides, and gives none when its data is not an array.
pub open spec fn chosen_stream(s: Seq<StreamOutline>, kind: Seq<char>) -> Option<usize>
    decreases s.len(),
{
    if s.len() == 0 {
        None
    } else {
        let last = s.last();
        if last.kind is Some && last.kind.unwrap()@ == kind {
            if last.has_data {
                Some((s.len() - 1) as usize)
            } else {
                None
            }
        } else {
            chosen_stream(s.drop_last(), kind)
        }
    }
}

/// Chooses the `latlng`, `altitude` and `time` streams of an activity.
pub fn choose_streams(streams: &Vec<StreamOutline>) -> (r: StreamChoice)
    ensures
        r.latlng == chosen_stream(streams@, "latlng"@),
        r.altitude == chosen_stream(streams@, "altitude"@),
        r.time == chosen_stream(streams@, "time"@),
{
    let mut choice = StreamChoice { latlng: None, altitude: None, time: None };
    for i in 0..streams.len()
        invariant
            choice.latlng == chosen_stream(streams@.take(i as int), "latlng"@),
            choice.altitude == chosen_stream(streams@.take(i as int), "altitude"@),
            choice.time == chosen_stream(streams@.take(i as int), "time"@),
    {
        let ghost next = streams@.take(i + 1);
        assert(next.drop_last() == streams@.take(i as int));
        assert(next.last() == streams@[i as int]);
        let s = &streams[i];
        let picked: Option<usize> = if s.has_data {
            Some(i)
        } else {
            None
        };
        if let Some(kind) = &s.kind {
            if same_text(kind.as_str(), "latlng") {
                choice.latlng = picked;
            } else if same_text(kind.as_str(), "altitude") {
                choice.altitude = picked;
            } else if same_text(kind.as_str(), "time") {
                choice.time = picked;
            }
        }
        proof {
            reveal_strlit("latlng");
            reveal_strlit("altitude");
            reveal_strlit("time");
            assert("latlng"@.len() == 6 && "altitude"@.len() == 8 && "time"@.len() == 4);
            assert("latlng"@ != "altitude"@ && "latlng"@ != "time"@ && "altitude"@ != "time"@);
        }
    }
    assert(streams@.take(streams.len() as int) == streams@);
    choice
}

// -- GPX conversion ---------------------------------------------------------

/// The XML escape of one character.
pub open spec fn escape_char(c: char) -> Seq<char> {
    if c == '&' {
        "&amp;"@
    } else if c == '<' {
        "&lt;"@
    } else if c == '>' {
        "&gt;"@
    } else if c == '"' {
        "&quot;"@
    } else if c == '\'' {
        "&apos;"@
    } else {
        seq![c]
    }
}

/// `s` with `&`, `<`, `>`, `"` and `'` replaced by their XML entities.
pub open spec fn xml_escaped(s: Seq<char>) -> Seq<char>
    decreases s.len(),
{
    if s.len() == 0 {
        seq![]
    } else {
        xml_escaped(s.drop_last()) + escape_char(s.last())
    }
}

/// Escaped text holds no `<`, `>`, `"` or `'`, so it cannot open or close
/// markup or an attribute.
pub proof fn law_escaped_text_has_no_markup(s: Seq<char>)
    ensures
        forall|i: int|
            0 <= i < xml_escaped(s).len() ==> {
                let c = #[trigger] xml_escaped(s)[i];
                c != '<' && c != '>' && c != '"' && c != '\''
            },
    decreases s.len(),
{
    reveal_strlit("&amp;");
    reveal_strlit("&lt;");
    reveal_strlit("&gt;");
    reveal_strlit("&quot;");
    reveal_strlit("&apos;");
    if s.len() > 0 {
        law_escaped_text_has_no_markup(s.drop_last());
        let a = xml_escaped(s.drop_last());
        let b = escape_char(s.last());
        assert forall|i: int| 0 <= i < xml_escaped(s).len() implies {
            let c = #[trigger] xml_escaped(s)[i];
            c != '<' && c != '>' && c != '"' && c != '\''
        } by {
            if i < a.len() {
                assert(xml_escaped(s)[i] == a[i]);
            } else {
                assert(xml_escaped(s)[i] == b[i - a.len()]);
            }
        }
    }
}

/// Whether `c` is one of the five characters XML escaping replaces.
pub open spec fn xml_special(c: char) -> bool {
    c == '&' || c == '<' || c == '>' || c == '"' || c == '\''
}

/// Whether `t` starts with `p`.
pub open spec fn begins_with(t: Seq<char>, p: Seq<char>) -> bool {
    t.len() >= p.len() && t.take(p.len() as int) == p
}

/// Whether `t` starts with one of the five entities escaping writes.
pub open spec fn starts_entity(t: Seq<char>) -> bool {
    begins_with(t, "&amp;"@) || begins_with(t, "&lt;"@) || begins_with(t, "&gt;"@)
        || begins_with(t, "&quot;"@) || begins_with(t, "&apos;"@)
}

/// XML text with each of the five entities, read left to right, replaced by
/// the character it stands for.
pub open spec fn xml_unescaped(t: Seq<char>) -> Seq<char>
    decreases t.len(),
{
    if t.len() == 0 {
        seq![]
    } else if begins_with(t, "&amp;"@) && "&amp;"@.len() > 0 {
        seq!['&'] + xml_unescaped(t.skip("&amp;"@.len() as int))
    } else if begins_with(t, "&lt;"@) && "&lt;"@.len() > 0 {
        seq!['<'] + xml_unescaped(t.skip("&lt;"@.len() as int))
    } else if begins_with(t, "&gt;"@) && "&gt;"@.len() > 0 {
        seq!['>'] + xml_unescaped(t.skip("&gt;"@.len() as int))
    } else if begins_with(t, "&quot;"@) && "&quot;"@.len() > 0 {
        seq!['"'] + xml_unescaped(t.skip("&quot;"@.len() as int))
    } else if begins_with(t, "&apos;"@) && "&apos;"@.len() > 0 {
        seq!['\''] + xml_unescaped(t.skip("&apos;"@.len() as int))
    } else {
        seq![t[0]] + xml_unescaped(t.skip(1))
    }
}

/// Escaping distributes over the first character.
proof fn lemma_escaped_front(s: Seq<char>)
    requires
        s.len() > 0,
    ensures
        xml_escaped(s) == escape_char(s[0]) + xml_escaped(s.skip(1)),
    decreases s.len(),
{
    if s.len() == 1 {
        assert(s.drop_last() =~= seq![]);
        assert(s.skip(1) =~= seq![]);
        assert(xml_escaped(s.skip(1)) =~= seq![]);
        assert(xml_escaped(s) =~= escape_char(s[0]));
    } else {
        let d = s.drop_last();
        lemma_escaped_front(d);
        assert(d[0] == s[0]);
        assert(d.skip(1) =~= s.skip(1).drop_last());
        assert(s.skip(1).last() == s.last());
        assert(xml_escaped(s) =~= escape_char(s[0]) + xml_escaped(s.skip(1)));
    }
}

/// Reading back one escaped character.
proof fn lemma_unescape_one(c: char, t: Seq<char>)
    ensures
        xml_unescaped(escape_char(c) + t) == seq![c] + xml_unescaped(t),
{
    reveal_strlit("&amp;");
    reveal_strlit("&lt;");
    reveal_strlit("&gt;");
    reveal_strlit("&quot;");
    reveal_strlit("&apos;");
    let e = escape_char(c);
    let u = e + t;
    assert(u.len() > 0);
    assert(u.take(e.len() as int) =~= e);
    assert(u.skip(e.len() as int) =~= t);
    assert(u[0] == e[0]);
    if c == '&' {
        assert(begins_with(u, "&amp;"@));
    } else if c == '<' {
        assert(u[1] == 'l');
        assert(!begins_with(u, "&amp;"@)) by {
            if begins_with(u, "&amp;"@) {
                assert(u.take(5)[1] == 'a');
            }
        }
        assert(begins_with(u, "&lt;"@));
    } else if c == '>' {
        assert(u[1] == 'g');
        assert(!begins_with(u, "&amp;"@)) by {
            if begins_with(u, "&amp;"@) {
                assert(u.take(5)[1] == 'a');
            }
        }
        assert(!begins_with(u, "&lt;"@)) by {
            if begins_with(u, "&lt;"@) {
                assert(u.take(4)[1] == 'l');
            }
        }
        assert(begins_with(u, "&gt;"@));
    } else if c == '"' {
        assert(u[1] == 'q');
        assert(!begins_with(u, "&amp;"@)) by {
            if begins_with(u, "&amp;"@) {
                assert(u.take(5)[1] == 'a');
            }
        }
        assert(!begins_with(u, "&lt;"@)) by {
            if begins_with(u, "&lt;"@) {
                assert(u.take(4)[1] == 'l');
            }
        }
        assert(!begins_with(u, "&gt;"@)) by {
            if begins_with(u, "&gt;"@) {
                assert(u.take(4)[1] == 'g');
            }
        }
        assert(begins_with(u, "&quot;"@));
    } else if c == '\'' {
        assert(u[1] == 'a');
        assert(u[2] == 'p');
        assert(!begins_with(u, "&amp;"@)) by {
            if begins_with(u, "&amp;"@) {
                assert(u.take(5)[2] == 'm');
            }
        }
        assert(!begins_with(u, "&lt;"@)) by {
            if begins_with(u, "&lt;"@) {
                assert(u.take(4)[1] == 'l');
            }
        }
        assert(!begins_with(u, "&gt;"@)) by {
            if begins_with(u, "&gt;"@) {
                assert(u.take(4)[1] == 'g');
            }
        }
        assert(!begins_with(u, "&quot;"@)) by {
            if begins_with(u, "&quot;"@) {
                assert(u.take(6)[1] == 'q');
            }
        }
        assert(begins_with(u, "&apos;"@));
    } else {
        assert(u[0] == c);
        assert(!starts_entity(u)) by {
            if begins_with(u, "&amp;"@) {
                assert(u.take(5)[0] == '&');
            }
            if begins_with(u, "&lt;"@) {
                assert(u.take(4)[0] == '&');
            }
            if begins_with(u, "&gt;"@) {
                assert(u.take(4)[0] == '&');
            }
            if begins_with(u, "&quot;"@) {
                assert(u.take(6)[0] == '&');
            }
            if begins_with(u, "&apos;"@) {
                assert(u.take(6)[0] == '&');
            }
        }
        assert(u.skip(1) =~= t);
    }
}

/// Unescaping escaped text gives the text back.
pub proof fn law_unescape_inverts_escape(s: Seq<char>)
    ensures
        xml_unescaped(xml_escaped(s)) == s,
    decreases s.len(),
{
    if s.len() == 0 {
        assert(xml_escaped(s) =~= seq![]);
    } else {
        lemma_escaped_front(s);
        lemma_unescape_one(s[0], xml_escaped(s.skip(1)));
        law_unescape_inverts_escape(s.skip(1));
        assert(s =~= seq![s[0]] + s.skip(1));
    }
}

/// Text without any of the five special characters is left as it is.
pub proof fn law_escape_keeps_plain_text(s: Seq<char>)
    requires
        forall|i: int| 0 <= i < s.len() ==> !xml_special(#[trigger] s[i]),
    ensures
        xml_escaped(s) == s,
    decreases s.len(),
{
    if s.len() > 0 {
        law_escape_keeps_plain_text(s.drop_last());
        assert(s.last() == s[s.len() - 1]);
        assert(s =~= s.drop_last() + seq![s.last()]);
    } else {
        assert(xml_escaped(s) =~= s);
    }
}

/// Every `&` of escaped text starts one of the five entities, so the text
/// reads back without ambiguity.
pub proof fn law_ampersands_start_entities(s: Seq<char>)
    ensures
        forall|i: int|
            0 <= i < xml_escaped(s).len() && #[trigger] xml_escaped(s)[i] == '&' ==> starts_entity(
                xml_escaped(s).skip(i),
            ),
    decreases s.len(),
{
    reveal_strlit("&amp;");
    reveal_strlit("&lt;");
    reveal_strlit("&gt;");
    reveal_strlit("&quot;");
    reveal_strlit("&apos;");
    if s.len() == 0 {
        assert(xml_escaped(s) =~= seq![]);
    } else {
        lemma_escaped_front(s);
        law_ampersands_start_entities(s.skip(1));
        let e = escape_char(s[0]);
        let r = xml_escaped(s.skip(1));
        let u = xml_escaped(s);
        assert forall|i: int| 0 <= i < u.len() && #[trigger] u[i] == '&' implies starts_entity(
            u.skip(i),
        ) by {
            if i < e.len() {
                assert(u[i] == e[i]);
                assert(i == 0 && xml_special(s[0]));
                assert(u.skip(0) =~= u);
                assert(u.take(e.len() as int) =~= e);
            } else {
                let j = i - e.len();
                assert(u[i] == r[j]);
                assert(u.skip(i) =~= r.skip(j));
            }
        }
    }
}

/// Escapes the five XML special characters of `s`.
pub fn xml_escape(s: &str) -> (r: String)
    ensures
        r@ == xml_escaped(s@),
{
    let cs = chars_of(s);
    let mut out: Vec<char> = Vec::new();
    for i in 0..cs.len()
        invariant
            cs@ == s@,
            out@ == xml_escaped(cs@.take(i as int)),
    {
        let c = cs[i];
        let ghost before = out@;
        if c == '&' {
            push_str_chars(&mut out, "&amp;");
        } else if c == '<' {
            push_str_chars(&mut out, "&lt;");
        } else if c == '>' {
            push_str_chars(&mut out, "&gt;");
        } else if c == '"' {
            push_str_chars(&mut out, "&quot;");
        } else if c == '\'' {
            push_str_chars(&mut out, "&apos;");
        } else {
            out.push(c);
        }
        assert(out@ == before + escape_char(c));
        assert(cs@.take(i + 1).drop_last() == cs@.take(i as int));
    }
    assert(cs@.take(cs.len() as int) == cs@);
    string_of(&out)
}

/// A track point of an activity's streams, with its coordinates already
/// rendered to text (latitude and longitude to seven decimals, elevation to
/// one), and its time as an offset in seconds from the activity's start.
pub struct GpxPoint {
    pub lat: String,
    pub lon: String,
    pub ele: Option<String>,
    pub time_offset: Option<i64>,
}

/// The `<trkpt>` element of one point; it has a time when the start time
/// parsed and the point has an offset.
pub open spec fn point_text(p: GpxPoint, base: Option<i64>) -> Seq<char> {
    "      <trkpt lat=\""@ + p.lat@ + "\" lon=\""@ + p.lon@ + "\">\n"@ + match p.ele {
        Some(e) => "        <ele>"@ + e@ + "</ele>\n"@,
        None => Seq::<char>::empty(),
    } + match (base, p.time_offset) {
        (Some(b), Some(o)) => "        <time>"@ + unix_time_text(b + o) + "</time>\n"@,
        _ => Seq::<char>::empty(),
    } + "      </trkpt>\n"@
}

/// The `<trkpt>` elements of the points, in order.
pub open spec fn points_text(ps: Seq<GpxPoint>, base: Option<i64>) -> Seq<char>
    decreases ps.len(),
{
    if ps.len() == 0 {
        seq![]
    } else {
        points_text(ps.drop_last(), base) + point_text(ps.last(), base)
    }
}

/// The GPX 1.1 document of one track named `name` holding the points, their
/// times counted from `start_time`.
pub open spec fn gpx_text(ps: Seq<GpxPoint>, name: Seq<char>, start_time: Seq<char>) -> Seq<char> {
    "<?xml version=\"1.0\" encoding=\"UTF-8\"?>\n"@
        + "<gpx version=\"1.1\" creator=\"grid-challenge-strava-sync\">\n"@ + "  <trk>\n"@
        + "    <name>"@ + xml_escaped(name) + "</name>\n"@ + "    <trkseg>\n"@ + points_text(
        ps,
        iso8601_value(start_time),
    ) + "    </trkseg>\n"@ + "  </trk>\n"@ + "</gpx>\n"@
}

/// The inputs `streams_to_gpx` accepts: the start time parses without
/// overflow, and every point time (start plus offset) fits in an `i64`.
pub open spec fn gpx_inputs_ok(ps: Seq<GpxPoint>, start_time: Seq<char>) -> bool {
    &&& iso8601_in_domain(start_time)
    &&& forall|i: int|
        0 <= i < ps.len() ==> match (iso8601_value(start_time), #[trigger] ps[i].time_offset) {
            (Some(b), Some(o)) => i64::MIN <= b + o <= i64::MAX,
            _ => true,
        }
}

/// Whether `streams_to_gpx` accepts these inputs.
pub fn gpx_inputs_supported(points: &Vec<GpxPoint>, start_time: &str) -> (b: bool)
    ensures
        b == gpx_inputs_ok(points@, start_time@),
{
    if !iso8601_supported(start_time) {
        return false;
    }
    let base = parse_iso8601(start_time);
    for i in 0..points.len()
        invariant
            iso8601_in_domain(start_time@),
            base == iso8601_value(start_time@),
            forall|k: int|
                0 <= k < i ==> match (base, #[trigger] points@[k].time_offset) {
                    (Some(b), Some(o)) => i64::MIN <= b + o <= i64::MAX,
                    _ => true,
                },
    {
        if let (Some(b), Some(o)) = (base, points[i].time_offset) {
            if b.checked_add(o).is_none() {
                return false;
            }
        }
    }
    true
}

/// Appends the `<trkpt>` element of `p`.
fn push_point(out: &mut Vec<char>, p: &GpxPoint, base: Option<i64>)
    requires
        match (base, p.time_offset) {
            (Some(b), Some(o)) => i64::MIN <= b + o <= i64::MAX,
            _ => true,
        },
    ensures
        final(out)@ == old(out)@ + point_text(*p, base),
{
    let ghost start = out@;
    push_str_chars(out, "      <trkpt lat=\"");
    push_str_chars(out, p.lat.as_str());
    push_str_chars(out, "\" lon=\"");
    push_str_chars(out, p.lon.as_str());
    push_str_chars(out, "\">\n");
    let ghost mid1 = out@;
    if let Some(ele) = &p.ele {
        push_str_chars(out, "        <ele>");
        push_str_chars(out, ele.as_str());
        push_str_chars(out, "</ele>\n");
    }
    let ghost mid2 = out@;
    match (base, p.time_offset) {
        (Some(b), Some(offset)) => {
            let ts = b + offset;
            push_str_chars(out, "        <time>");
            let text = format_unix_time(ts);
            push_str_chars(out, text.as_str());
            push_str_chars(out, "</time>\n");
        },
        _ => {},
    }
    push_str_chars(out, "      </trkpt>\n");
    assert(out@ =~= start + point_text(*p, base));
}

/// Convert stream points to a GPX XML document.
pub fn streams_to_gpx(points: &Vec<GpxPoint>, name: &str, start_time: &str) -> (gpx: String)
    requires
        gpx_inputs_ok(points@, start_time@),
    ensures
        gpx@ == gpx_text(points@, name@, start_time@),
{
    let mut out: Vec<char> = Vec::new();
    push_str_chars(&mut out, "<?xml version=\"1.0\" encoding=\"UTF-8\"?>\n");
    push_str_chars(&mut out, "<gpx version=\"1.1\" creator=\"grid-challenge-strava-sync\">\n");
    push_str_chars(&mut out, "  <trk>\n");
    push_str_chars(&mut out, "    <name>");
    let escaped = xml_escape(name);
    push_str_chars(&mut out, escaped.as_str());
    push_str_chars(&mut out, "</name>\n");
    push_str_chars(&mut out, "    <trkseg>\n");

    // Parse start time for offset calculation
    let base_time = parse_iso8601(start_time);
    let ghost head = out@;
    for i in 0..points.len()
        invariant
            gpx_inputs_ok(points@, start_time@),
            base_time == iso8601_value(start_time@),
            out@ == head + points_text(points@.take(i as int), base_time),
    {
        assert(points@[i as int] == points[i as int]);
        push_point(&mut out, &points[i], base_time);
        assert(points@.take(i + 1).drop_last() == points@.take(i as int));
    }
    assert(points@.take(points.len() as int) == points@);
    push_str_chars(&mut out, "    </trkseg>\n");
    push_str_chars(&mut out, "  </trk>\n");
    push_str_chars(&mut out, "</gpx>\n");
    assert(out@ =~= gpx_text(points@, name@, start_time@));
    string_of(&out)
}

// -- Import -----------------------------------------------------------------

/// The file name an imported activity is stored under.
pub open spec fn strava_filename_text(activity_id: i64) -> Seq<char> {
    "strava_"@ + int_text(activity_id as int) + ".gpx"@
}

/// The file name an imported activity is stored under: `strava_{id}.gpx`.
pub fn strava_filename(activity_id: i64) -> (r: String)
    ensures
        r@ == strava_filename_text(activity_id),
{
    let mut out: Vec<char> = Vec::new();
    push_str_chars(&mut out, "strava_");
    push_padded(&mut out, activity_id, 0);
    push_str_chars(&mut out, ".gpx");
    string_of(&out)
}

/// The directory holding a user's GPX files.
pub open spec fn gpx_dir_text(user_id: i64) -> Seq<char> {
    "data/gpx/"@ + int_text(user_id as int)
}

/// The directory holding a user's GPX files: `data/gpx/{user_id}`.
pub fn user_gpx_dir(user_id: i64) -> (r: String)
    ensures
        r@ == gpx_dir_text(user_id),
{
    let mut out: Vec<char> = Vec::new();
    push_str_chars(&mut out, "data/gpx/");
    push_padded(&mut out, user_id, 0);
    string_of(&out)
}

/// The result of an import once the file record was inserted (or not): the
/// file name on success; nothing when the file was already uploaded (a
/// duplicate is skipped); the error otherwise.
pub fn import_outcome(inserted: Result<i64, AppError>, filename: String) -> (r: Result<
    Option<String>,
    AppError,
>)
    ensures
        match inserted {
            Ok(_) => r == Ok::<Option<String>, AppError>(Some(filename)),
            Err(e) => if contains_text(e.message@, "already uploaded"@) {
                r == Ok::<Option<String>, AppError>(None)
            } else {
                r == Err::<Option<String>, AppError>(e)
            },
        },
{
    match inserted {
        Ok(_) => Ok(Some(filename)),
        Err(e) => {
            let msg = chars_of(e.message.as_str());
            let pat = chars_of("already uploaded");
            if contains_chars(&msg, &pat) {
                Ok(None)
            } else {
                Err(e)
            }
        },
    }
}

} // verus!
