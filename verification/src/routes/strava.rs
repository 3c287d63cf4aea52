//! Strava connection: configuration, webhooks, and the sync procedure.
use vstd::prelude::*;

use crate::db::StravaConfig;
use crate::errors::{AppError, BAD_REQUEST, NOT_IMPLEMENTED};
use crate::strava::StravaActivity;
use crate::text::{chars_of, same_text, string_of};

verus! {

/// The query of the OAuth callback.
pub struct CallbackQuery {
    pub code: String,
}

/// The query of a disconnect request.
pub struct DisconnectQuery {
    pub delete_files: bool,
}

/// The query of a webhook subscription check (`hub.mode`,
/// `hub.verify_token`, `hub.challenge`).
pub struct WebhookVerifyQuery {
    pub mode: Option<String>,
    pub verify_token: Option<String>,
    pub challenge: Option<String>,
}

/// An incoming webhook event.
pub struct WebhookEvent {
    pub object_type: String,
    pub aspect_type: String,
    pub object_id: i64,
    pub owner_id: i64,
}

/// The Strava configuration, or `501 Not Implemented` when there is none.
pub fn require_strava(config: &Option<StravaConfig>) -> (r: Result<&StravaConfig, AppError>)
    ensures
        match config {
            Some(c) => r == Ok::<&StravaConfig, AppError>(c),
            None => r matches Err(e) && e.status == NOT_IMPLEMENTED && e.message@
                == "Strava integration not configured"@,
        },
{
    match config {
        Some(c) => Ok(c),
        None => Err(
            AppError {
                status: NOT_IMPLEMENTED,
                message: string_of(&chars_of("Strava integration not configured")),
            },
        ),
    }
}

/// The text of an optional string, empty when absent.
pub open spec fn text_or_empty(s: Option<String>) -> Seq<char> {
    match s {
        Some(t) => t@,
        None => Seq::<char>::empty(),
    }
}

/// Answers a webhook subscription check: the challenge to echo back, when
/// the mode is `subscribe` and the verify token is the configured one.
pub fn check_webhook_verify(config: &StravaConfig, query: &WebhookVerifyQuery) -> (r: Result<
    String,
    AppError,
>)
    ensures
        query.challenge is None ==> (r matches Err(e) && e.status == BAD_REQUEST && e.message@
            == "Missing hub.challenge"@),
        query.challenge is Some && (text_or_empty(query.mode) != "subscribe"@ || text_or_empty(
            query.verify_token,
        ) != config.webhook_verify_token@) ==> (r matches Err(e) && e.status == BAD_REQUEST
            && e.message@ == "Invalid verify token"@),
        query.challenge is Some && text_or_empty(query.mode) == "subscribe"@ && text_or_empty(
            query.verify_token,
        ) == config.webhook_verify_token@ ==> (r matches Ok(c) && c@ == query.challenge.unwrap()@),
{
    let mode: &str = match &query.mode {
        Some(m) => m.as_str(),
        None => "",
    };
    let verify_token: &str = match &query.verify_token {
        Some(t) => t.as_str(),
        None => "",
    };
    assert(mode@ == text_or_empty(query.mode)) by {
        if query.mode is None {
            reveal_strlit("");
        }
    }
    assert(verify_token@ == text_or_empty(query.verify_token)) by {
        if query.verify_token is None {
            reveal_strlit("");
        }
    }
    let challenge = match &query.challenge {
        Some(c) => c,
        None => return Err(AppError::bad_request("Missing hub.challenge")),
    };
    if !same_text(mode, "subscribe") || !same_text(verify_token, config.webhook_verify_token.as_str()) {
        return Err(AppError::bad_request("Invalid verify token"));
    }
    Ok(challenge.clone())
}

/// Whether a webhook event announces a newly created activity (the only
/// events acted on).
pub fn is_activity_create(event: &WebhookEvent) -> (b: bool)
    ensures
        b == (event.object_type@ == "activity"@ && event.aspect_type@ == "create"@),
{
    same_text(event.object_type.as_str(), "activity") && same_text(
        event.aspect_type.as_str(),
        "create",
    )
}

// -- Sync -------------------------------------------------------------------

/// Activities listed per page.
pub const SYNC_PAGE_SIZE: u32 = 50;

/// The most pages listed in one sync.
pub const SYNC_MAX_PAGES: u32 = 10;

/// The most activities imported in one sync.
pub const SYNC_MAX_IMPORTS: u32 = 200;

/// What a sync does next.
#[derive(Debug, PartialEq, Eq)]
pub enum SyncAction {
    /// List this page of the athlete's activities.
    ListPage(u32),
    /// Import the listed activity at this index.
    Import(usize),
    /// Stop; recompute coverage when anything was imported.
    Finish { imported: u32, recompute: bool },
}

/// The progress of a sync: first listing pages of activities, then
/// importing them in order.
pub struct SyncState {
    pub listing: bool,
    pub page: u32,
    pub activities: Vec<StravaActivity>,
    pub next: usize,
    pub imported: u32,
}

/// What a sync does once listing is over, from the import position and
/// count.
pub open spec fn import_action(next: int, total: int, imported: u32) -> SyncAction {
    if next < total && imported < SYNC_MAX_IMPORTS {
        SyncAction::Import(next as usize)
    } else {
        SyncAction::Finish { imported, recompute: imported > 0 }
    }
}

impl SyncState {
    /// The sync's invariant: the page being listed is one of the first ten,
    /// imports go forward through the listed activities, and no more than
    /// 200 are imported.
    pub open spec fn wf(&self) -> bool {
        &&& self.listing ==> 1 <= self.page <= SYNC_MAX_PAGES
        &&& self.listing ==> self.next == 0 && self.imported == 0
        &&& self.next <= self.activities@.len()
        &&& self.imported <= self.next
        &&& self.imported <= SYNC_MAX_IMPORTS
    }

    /// A sync that starts by listing page 1.
    pub fn new() -> (s: SyncState)
        ensures
            s.wf(),
            s.listing,
            s.page == 1,
            s.activities@.len() == 0,
            s.next == 0,
            s.imported == 0,
    {
        SyncState { listing: true, page: 1, activities: Vec::new(), next: 0, imported: 0 }
    }

    /// The first action: listing page 1.
    pub fn first_action(&self) -> (a: SyncAction)
        requires
            self.listing,
        ensures
            a == SyncAction::ListPage(self.page),
    {
        SyncAction::ListPage(self.page)
    }

    fn decide_import(&self) -> (a: SyncAction)
        ensures
            a == import_action(self.next as int, self.activities@.len() as int, self.imported),
    {
        if self.next < self.activities.len() && self.imported < SYNC_MAX_IMPORTS {
            SyncAction::Import(self.next)
        } else {
            SyncAction::Finish { imported: self.imported, recompute: self.imported > 0 }
        }
    }

    /// A page was listed: an empty page, or the tenth, ends the listing and
    /// starts importing; otherwise the next page is listed. The page's
    /// activities are kept, in order.
    pub fn on_listed(&mut self, batch: Vec<StravaActivity>) -> (a: SyncAction)
        requires
            old(self).wf(),
            old(self).listing,
        ensures
            final(self).wf(),
            final(self).activities@ == old(self).activities@ + batch@,
            final(self).imported == 0,
            final(self).next == 0,
            batch@.len() > 0 && old(self).page < SYNC_MAX_PAGES ==> {
                &&& final(self).listing
                &&& final(self).page == old(self).page + 1
                &&& a == SyncAction::ListPage(final(self).page)
            },
            batch@.len() == 0 || old(self).page >= SYNC_MAX_PAGES ==> {
                &&& !final(self).listing
                &&& a == import_action(0, final(self).activities@.len() as int, 0)
            },
    {
        let stop = batch.len() == 0 || self.page >= SYNC_MAX_PAGES;
        let ghost before = self.activities@;
        for i in 0..batch.len()
            invariant
                self.activities@ == before + batch@.take(i as int),
                self.next == 0,
                self.imported == 0,
                self.listing == old(self).listing,
                self.page == old(self).page,
                1 <= self.page <= SYNC_MAX_PAGES,
                stop == (batch@.len() == 0 || old(self).page >= SYNC_MAX_PAGES),
        {
            self.activities.push(batch[i].clone());
            assert(batch@.take(i + 1) == batch@.take(i as int).push(batch@[i as int]));
        }
        assert(batch@.take(batch.len() as int) == batch@);
        if stop {
            self.listing = false;
            self.decide_import()
        } else {
            self.page = self.page + 1;
            SyncAction::ListPage(self.page)
        }
    }

    /// The activity at the import position was handled: `imported_one`
    /// says whether it was imported (rather than skipped or failed).
    pub fn on_imported(&mut self, imported_one: bool) -> (a: SyncAction)
        requires
            old(self).wf(),
            !old(self).listing,
            old(self).next < old(self).activities.len(),
            old(self).imported < SYNC_MAX_IMPORTS,
        ensures
            final(self).wf(),
            !final(self).listing,
            final(self).activities@ == old(self).activities@,
            final(self).next == old(self).next + 1,
            final(self).imported == old(self).imported + (if imported_one { 1int } else { 0int }),
            a == import_action(
                final(self).next as int,
                final(self).activities@.len() as int,
                final(self).imported,
            ),
    {
        if imported_one {
            self.imported = self.imported + 1;
        }
        self.next = self.next + 1;
        self.decide_import()
    }
}

} // verus!
