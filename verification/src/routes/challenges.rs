//! Challenges: input checks and identifiers.
use vstd::prelude::*;

use rand::Rng;

use crate::errors::{AppError, BAD_REQUEST, NOT_FOUND};
use crate::text::{chars_of, string_of, trim, trim_chars};

verus! {

/// A draw from `rand::rng().random_range(0..bound)`: uniformly random below
/// `bound` (which must be positive, else rand panics). Nothing is claimed
/// of the value but the range it is drawn from.
#[verifier::external_body]
fn random_below(bound: usize) -> (r: usize)
    requires
        bound > 0,
    ensures
        r < bound,
{
    rand::rng().random_range(0..bound)
}

/// The characters challenge ids are drawn from.
pub open spec fn id_charset() -> Seq<char> {
    "0123456789abcdefghjkmnpqrstvwxyz"@
}

/// The characters share tokens are drawn from.
pub open spec fn token_charset() -> Seq<char> {
    "abcdefghijklmnopqrstuvwxyzABCDEFGHIJKLMNOPQRSTUVWXYZ0123456789"@
}

/// The text whose `i`-th character is `charset[draws[i]]`.
pub fn text_from_draws(charset: &str, draws: &Vec<usize>) -> (r: String)
    requires
        forall|i: int| 0 <= i < draws@.len() ==> #[trigger] draws@[i] < charset@.len(),
    ensures
        r@.len() == draws@.len(),
        forall|i: int| 0 <= i < draws@.len() ==> #[trigger] r@[i] == charset@[draws@[i] as int],
{
    let cs = chars_of(charset);
    let mut out: Vec<char> = Vec::new();
    for k in 0..draws.len()
        invariant
            cs@ == charset@,
            forall|i: int| 0 <= i < draws@.len() ==> #[trigger] draws@[i] < charset@.len(),
            out@.len() == k,
            forall|i: int| 0 <= i < k ==> #[trigger] out@[i] == charset@[draws@[i] as int],
    {
        out.push(cs[draws[k]]);
    }
    string_of(&out)
}

/// `len` indices drawn at random below `bound`.
fn random_draws(bound: usize, len: usize) -> (r: Vec<usize>)
    requires
        bound > 0,
    ensures
        r@.len() == len,
        forall|i: int| 0 <= i < len ==> #[trigger] r@[i] < bound,
{
    let mut out: Vec<usize> = Vec::new();
    for k in 0..len
        invariant
            bound > 0,
            out@.len() == k,
            forall|i: int| 0 <= i < k ==> #[trigger] out@[i] < bound,
    {
        out.push(random_below(bound));
    }
    out
}

/// `len` characters drawn at random from `charset`: each is the character
/// of `charset` at an index drawn below its length.
fn random_text(charset: &str, len: usize) -> (r: String)
    requires
        charset@.len() > 0,
    ensures
        r@.len() == len,
        forall|i: int| 0 <= i < len ==> charset@.contains(#[trigger] r@[i]),
{
    let n = chars_of(charset).len();
    let draws = random_draws(n, len);
    let r = text_from_draws(charset, &draws);
    assert forall|i: int| 0 <= i < len implies charset@.contains(#[trigger] r@[i]) by {
        assert(r@[i] == charset@[draws@[i] as int]);
    }
    r
}

/// Who may see or change a challenge: the user who owns it. `owner` is the
/// owner's id, `None` where no challenge has the id asked for; a missing
/// challenge and one of another user both answer `404 Challenge not found`.
pub fn check_owner(owner: Option<i64>, user_id: i64) -> (r: Result<(), AppError>)
    ensures
        r is Ok <==> owner == Some(user_id),
        r matches Err(e) ==> e.status == NOT_FOUND && e.message@ == "Challenge not found"@,
{
    match owner {
        Some(o) if o == user_id => Ok(()),
        _ => Err(AppError::not_found("Challenge not found")),
    }
}

/// Generate a short unique ID (8 chars, URL-safe).
pub fn generate_id() -> (r: String)
    ensures
        r@.len() == 8,
        forall|i: int| 0 <= i < 8 ==> id_charset().contains(#[trigger] r@[i]),
{
    proof {
        reveal_strlit("0123456789abcdefghjkmnpqrstvwxyz");
    }
    random_text("0123456789abcdefghjkmnpqrstvwxyz", 8)
}

/// Generate a share token (12 alphanumeric chars).
pub fn generate_token() -> (r: String)
    ensures
        r@.len() == 12,
        forall|i: int| 0 <= i < 12 ==> token_charset().contains(#[trigger] r@[i]),
{
    proof {
        reveal_strlit("abcdefghijklmnopqrstuvwxyzABCDEFGHIJKLMNOPQRSTUVWXYZ0123456789");
    }
    random_text("abcdefghijklmnopqrstuvwxyzABCDEFGHIJKLMNOPQRSTUVWXYZ0123456789", 12)
}

/// A challenge name, trimmed; a blank one is refused with `message`.
fn trimmed_name(name: &str, message: &str) -> (r: Result<String, AppError>)
    ensures
        trim(name@).len() == 0 ==> (r matches Err(e) && e.status == BAD_REQUEST && e.message@
            == message@),
        trim(name@).len() > 0 ==> (r matches Ok(t) && t@ == trim(name@)),
{
    let t = trim_chars(&chars_of(name));
    if t.len() == 0 {
        return Err(AppError::bad_request(message));
    }
    Ok(string_of(&t))
}

/// The name of a new challenge, trimmed; it must not be blank.
pub fn check_new_name(name: &str) -> (r: Result<String, AppError>)
    ensures
        trim(name@).len() == 0 ==> (r matches Err(e) && e.status == BAD_REQUEST && e.message@
            == "Name is required"@),
        trim(name@).len() > 0 ==> (r matches Ok(t) && t@ == trim(name@)),
{
    trimmed_name(name, "Name is required")
}

/// The new name of a renamed challenge, trimmed; it must not be blank.
pub fn check_renamed(name: &str) -> (r: Result<String, AppError>)
    ensures
        trim(name@).len() == 0 ==> (r matches Err(e) && e.status == BAD_REQUEST && e.message@
            == "Name cannot be empty"@),
        trim(name@).len() > 0 ==> (r matches Ok(t) && t@ == trim(name@)),
{
    trimmed_name(name, "Name cannot be empty")
}

/// A challenge polygon needs at least three points.
pub fn check_polygon_size(points: usize) -> (r: Result<(), AppError>)
    ensures
        points < 3 ==> (r matches Err(e) && e.status == BAD_REQUEST && e.message@
            == "Polygon needs at least 3 points"@),
        points >= 3 ==> r is Ok,
{
    if points < 3 {
        return Err(AppError::bad_request("Polygon needs at least 3 points"));
    }
    Ok(())
}

/// The stored value of a start or end date sent in an update: an empty
/// string clears it.
pub fn date_value(s: &str) -> (r: Option<String>)
    ensures
        s@.len() == 0 ==> r is None,
        s@.len() > 0 ==> (r matches Some(t) && t@ == s@),
{
    if s.is_empty() {
        None
    } else {
        Some(string_of(&chars_of(s)))
    }
}

/// Whether an update changes what the computed trails and coverage depend
/// on (the polygon, the grid size, or a date), so that they are cleared and
/// recomputed; a rename alone keeps them.
pub fn needs_recompute(polygon_given: bool, grid_given: bool, start_given: bool, end_given: bool) -> (b:
    bool)
    ensures
        b == (polygon_given || grid_given || start_given || end_given),
{
    polygon_given || grid_given || start_given || end_given
}

/// Where a challenge's view takes its data from.
#[derive(Debug, PartialEq, Eq)]
pub enum ResponseSource {
    /// Both stages are computed: coverage segments and cells, with the
    /// trails' bounding box, grid and totals.
    Coverage,
    /// Only the trails are computed: their segments and cells, with nothing
    /// covered yet.
    TrailsOnly,
    /// Nothing is computed yet (coverage without trails is ignored).
    Nothing,
}

/// Chooses the data of a challenge's view from the stages computed.
pub fn response_source(has_trails: bool, has_coverage: bool) -> (r: ResponseSource)
    ensures
        has_trails && has_coverage ==> r == ResponseSource::Coverage,
        has_trails && !has_coverage ==> r == ResponseSource::TrailsOnly,
        !has_trails ==> r == ResponseSource::Nothing,
{
    if has_trails && has_coverage {
        ResponseSource::Coverage
    } else if has_trails {
        ResponseSource::TrailsOnly
    } else {
        ResponseSource::Nothing
    }
}

/// Whether a challenge's view shows GPX statistics: only when some run
/// touches it.
pub fn shows_gpx_stats(run_count: i64) -> (b: bool)
    ensures
        b == (run_count > 0),
{
    run_count > 0
}

} // verus!
