use vstd::prelude::*;

use mal_api::anime::error::AnimeApiError;
use mal_api::anime::requests::{AnimeCommonFields, GetAnimeList};
use mal_api::oauth::{Authenticated, OauthClient, OauthError, RedirectResponse, Unauthenticated};

use crate::db::MalSettings;
use crate::text::{
    chars_of, first_line, has_no_whitespace, law_replace_absent, law_three_words,
    lemma_line_end_at, spec_is_whitespace, law_trim_start, law_trim_start_drops_run,
    lemma_replace_after_plain, lemma_replace_at_pattern, lemma_replace_plain, nth_word, occurs_in, replace_chars,
    spec_first_line, spec_replace, spec_trim_start, spec_words, string_of, trim_start,
};

verus! {

/// What the page template holds in place of the page title.
pub open spec fn title_slot() -> Seq<char> {
    "{{title}}"@
}

/// What the page template holds in place of the page heading.
pub open spec fn header_slot() -> Seq<char> {
    "{{header}}"@
}

/// What the page template holds in place of the message.
pub open spec fn message_slot() -> Seq<char> {
    "{{message}}"@
}

/// The page made from `template` by filling its title, heading and message
/// slots, in that order, each with `str::replace`.
pub open spec fn spec_render_page(
    template: Seq<char>,
    title: Seq<char>,
    header: Seq<char>,
    message: Seq<char>,
) -> Seq<char> {
    spec_replace(
        spec_replace(spec_replace(template, title_slot(), title), header_slot(), header),
        message_slot(),
        message,
    )
}

/// The status line and headers that precede the page in the reply to the
/// browser.
pub open spec fn response_head() -> Seq<char> {
    "HTTP/1.1 200 OK\r\nContent-Type: text/html\r\n\r\n"@
}

/// The full HTTP reply that carries `body`.
pub open spec fn spec_http_response(body: Seq<char>) -> Seq<char> {
    response_head() + body
}

/// The request target of an HTTP request: the second word of its first line.
pub open spec fn spec_request_target(request: Seq<char>) -> Option<Seq<char>> {
    match spec_first_line(request) {
        Some(line) => if spec_words(line).len() > 1 {
            Some(spec_words(line)[1])
        } else {
            None
        },
        None => None,
    }
}

/// The URL that the login continues with: the redirect URL, a `/`, and the
/// request target without its leading slashes.
pub open spec fn spec_callback_url(redirect_url: Seq<char>, target: Seq<char>) -> Seq<char> {
    redirect_url + "/"@ + spec_trim_start(target, '/')
}

/// The message of the page shown after a successful login.
pub open spec fn success_message() -> Seq<char> {
    "You can now close this tab and return to the app."@
}

/// The error of a callback request that names no URL.
pub open spec fn empty_url_error() -> Seq<char> {
    "URL is empty."@
}

/// How the reply to a callback request whose text is `request` is made: the
/// request target of its first line, appended to the redirect URL, is what
/// the login goes on with, and the browser gets the success page; a request
/// without a target gets the failure page and the error `"URL is empty."`.
pub open spec fn callback_reply_matches(
    request: Seq<char>,
    redirect_url: Seq<char>,
    template: Seq<char>,
    r: CallbackReply,
) -> bool {
    match spec_request_target(request) {
        Some(target) => {
            &&& r.result matches Ok(url) && url@ == spec_callback_url(redirect_url, target)
            &&& r.response@ == spec_http_response(
                spec_render_page(template, "Success"@, "Operation Successful"@, success_message()),
            )
        },
        None => {
            &&& r.result matches Err(e) && e@ == empty_url_error()
            &&& r.response@ == spec_http_response(
                spec_render_page(template, "Failed"@, "Something Went Wrong"@, empty_url_error()),
            )
        },
    }
}

/// The text that `String::from_utf8_lossy` makes of `bytes`.
pub uninterp spec fn utf8_lossy(bytes: Seq<u8>) -> Seq<char>;

/// Whether every byte is an ASCII byte.
pub open spec fn all_ascii(bytes: Seq<u8>) -> bool {
    forall|i: int| 0 <= i < bytes.len() ==> bytes[i] < 0x80
}

/// Decodes bytes as UTF-8 with `String::from_utf8_lossy`, which puts U+FFFD
/// in place of each invalid sequence. Claimed: the result is `utf8_lossy` of
/// the bytes, and ASCII bytes (valid UTF-8, one character per byte) decode
/// to the characters with the same codes.
#[verifier::external_body]
fn decode_lossy(bytes: &[u8]) -> (r: String)
    ensures
        r@ == utf8_lossy(bytes@),
        all_ascii(bytes@) ==> r@ == bytes@.map_values(|b: u8| b as char),
{
    String::from_utf8_lossy(bytes).into_owned()
}

/// Answers the browser's callback request as it was read from the socket:
/// the bytes are decoded as UTF-8, invalid sequences replaced.
pub fn handle_callback_bytes(request: &[u8], redirect_url: &str, template: &str) -> (r:
    CallbackReply)
    ensures
        callback_reply_matches(utf8_lossy(request@), redirect_url@, template@, r),
        all_ascii(request@) ==> callback_reply_matches(
            request@.map_values(|b: u8| b as char),
            redirect_url@,
            template@,
            r,
        ),
{
    let text = decode_lossy(request);
    handle_callback(text.as_str(), redirect_url, template)
}

/// Fills the title, heading and message slots of the page template.
pub fn render_page(template: &str, title: &str, header: &str, message: &str) -> (r: String)
    ensures
        r@ == spec_render_page(template@, title@, header@, message@),
{
    proof {
        reveal_strlit("{{title}}");
        reveal_strlit("{{header}}");
        reveal_strlit("{{message}}");
    }
    let page = chars_of(template);
    let page = replace_chars(&page, &chars_of("{{title}}"), &chars_of(title));
    let page = replace_chars(&page, &chars_of("{{header}}"), &chars_of(header));
    let page = replace_chars(&page, &chars_of("{{message}}"), &chars_of(message));
    string_of(&page)
}

/// The HTTP reply that carries `body` as an HTML page.
pub fn http_response(body: &str) -> (r: String)
    ensures
        r@ == spec_http_response(body@),
{
    let mut r = "HTTP/1.1 200 OK\r\nContent-Type: text/html\r\n\r\n".to_owned();
    r.append(body);
    r
}

/// The reply to the browser's callback request and what the login goes on
/// with.
#[derive(Debug, PartialEq, Eq)]
pub struct CallbackReply {
    /// The HTTP reply to send back to the browser.
    pub response: String,
    /// The URL holding the authorization code, or why there is none.
    pub result: Result<String, String>,
}

/// Answers the browser's callback request: the request target of its first
/// line, appended to the redirect URL, is what the login goes on with; a
/// request without a target gets a failure page and the error
/// `"URL is empty."`.
pub fn handle_callback(request: &str, redirect_url: &str, template: &str) -> (r: CallbackReply)
    ensures
        callback_reply_matches(request@, redirect_url@, template@, r),
{
    let request_chars = chars_of(request);
    let target = match first_line(&request_chars) {
        Some(line) => nth_word(&line, 1),
        None => None,
    };
    match target {
        None => {
            let err = "URL is empty.";
            let body = render_page(template, "Failed", "Something Went Wrong", err);
            CallbackReply { response: http_response(body.as_str()), result: Err(err.to_owned()) }
        },
        Some(target) => {
            let mut url = redirect_url.to_owned();
            url.append("/");
            let path = string_of(&trim_start(&target, '/'));
            url.append(path.as_str());
            let body = render_page(
                template,
                "Success",
                "Operation Successful",
                "You can now close this tab and return to the app.",
            );
            CallbackReply { response: http_response(body.as_str()), result: Ok(url) }
        },
    }
}

/// The value that `x as i64` gives for an unsigned 64-bit `x`.
pub open spec fn wrap_to_i64(x: int) -> int {
    if x <= i64::MAX {
        x
    } else {
        x - 0x1_0000_0000_0000_0000
    }
}

/// The value that `x as u64` gives for a signed 64-bit `x`.
pub open spec fn wrap_to_u64(x: int) -> int {
    if x >= 0 {
        x
    } else {
        x + 0x1_0000_0000_0000_0000
    }
}

/// The expiry time saved with the credentials: the expiry that the client
/// reports plus the current time, taken as an `i64`.
pub open spec fn spec_saved_expiry(client_expiry: u64, now: u64) -> int {
    wrap_to_i64(client_expiry + now)
}

/// The seconds left before a saved expiry time, at time `now`.
pub open spec fn spec_remaining(saved_expiry: i64, now: u64) -> int {
    saved_expiry - wrap_to_i64(now as int)
}

/// The expiry time to save with the credentials of a freshly authenticated
/// client.
pub fn saved_expiry(client_expiry: u64, now: u64) -> (r: i64)
    requires
        client_expiry + now <= u64::MAX,
    ensures
        r == spec_saved_expiry(client_expiry, now),
{
    let sum = client_expiry + now;
    assert(sum <= 0x7fff_ffff_ffff_ffff ==> sum as i64 == sum) by (bit_vector);
    assert(sum > 0x7fff_ffff_ffff_ffff ==> sum as i64 == sum - 0x1_0000_0000_0000_0000)
        by (bit_vector);
    sum as i64
}

/// What a saved login amounts to at a given time.
#[derive(Debug, Clone, Copy, PartialEq, Eq)]
pub struct StoredLogin {
    /// Seconds left before the saved expiry time (not positive once it has
    /// passed).
    pub remaining: i64,
    /// How many seconds ago the token expired, once it has.
    pub expired_by: Option<u64>,
    /// The expiry handed to the client that is rebuilt from the saved
    /// credentials: `remaining` taken as a `u64`.
    pub client_expiry: u64,
}

/// What a saved expiry time amounts to at time `now`: the seconds left,
/// how long ago it expired once it has, and those seconds taken as a `u64`
/// for the rebuilt client.
pub open spec fn stored_login_matches(saved_expiry: i64, now: u64, r: StoredLogin) -> bool {
    &&& r.remaining == spec_remaining(saved_expiry, now)
    &&& r.expired_by == (if r.remaining <= 0 {
        Some((-r.remaining) as u64)
    } else {
        None::<u64>
    })
    &&& r.client_expiry == wrap_to_u64(r.remaining as int)
}

/// Evaluates a saved expiry time at time `now`.
pub fn stored_login(saved_expiry: i64, now: u64) -> (r: StoredLogin)
    requires
        i64::MIN < spec_remaining(saved_expiry, now) <= i64::MAX,
    ensures
        stored_login_matches(saved_expiry, now, r),
{
    assert(now <= 0x7fff_ffff_ffff_ffff ==> now as i64 == now) by (bit_vector);
    assert(now > 0x7fff_ffff_ffff_ffff ==> now as i64 == now - 0x1_0000_0000_0000_0000)
        by (bit_vector);
    let remaining = saved_expiry - now as i64;
    let expired_by = if remaining <= 0 {
        Some((0 - remaining) as u64)
    } else {
        None
    };
    assert(remaining >= 0 ==> remaining as u64 == remaining) by (bit_vector);
    assert(remaining < 0 ==> remaining as u64 == remaining + 0x1_0000_0000_0000_0000)
        by (bit_vector);
    StoredLogin { remaining, expired_by, client_expiry: remaining as u64 }
}

#[verifier::external_type_specification]
#[verifier::external_body]
#[verifier::reject_recursive_types(State)]
pub struct ExOauthClient<State>(OauthClient<State>);

#[verifier::external_type_specification]
#[verifier::external_body]
pub struct ExAuthenticated(Authenticated);

#[verifier::external_type_specification]
#[verifier::external_body]
pub struct ExUnauthenticated(Unauthenticated);

#[verifier::external_type_specification]
#[verifier::external_body]
pub struct ExOauthError(OauthError);

#[verifier::external_type_specification]
#[verifier::external_body]
pub struct ExRedirectResponse(RedirectResponse);

#[verifier::external_type_specification]
#[verifier::external_body]
pub struct ExGetAnimeList(GetAnimeList);

#[verifier::external_type_specification]
#[verifier::external_body]
pub struct ExAnimeApiError(AnimeApiError);

#[verifier::external_type_specification]
#[verifier::external_body]
pub struct ExAnimeCommonFields(AnimeCommonFields);

/// Whether `RedirectUrl::new` of the OAuth library accepts this redirect
/// URL: the one check by which building a MyAnimeList OAuth client can fail.
pub uninterp spec fn oauth_redirect_url_ok(redirect_url: Seq<char>) -> bool;

/// The client that `OauthClient::new` builds, without a client secret, from
/// a client id and a redirect URL.
pub uninterp spec fn new_login_client(client_id: Seq<char>, redirect_url: Seq<char>) -> OauthClient<
    Unauthenticated,
>;

/// The authenticated client that `OauthClient::load_from_values` builds,
/// without a client secret, from saved tokens, a client id, a redirect URL
/// and an expiry.
pub uninterp spec fn loaded_client(
    access_token: Seq<char>,
    refresh_token: Seq<char>,
    client_id: Seq<char>,
    redirect_url: Seq<char>,
    expires_at: u64,
) -> OauthClient<Authenticated>;

/// Whether `RedirectResponse::try_from` finds a code and a state in this URL.
pub uninterp spec fn redirect_response_ok(url: Seq<char>) -> bool;

/// The code and state that `RedirectResponse::try_from` reads from this URL.
pub uninterp spec fn redirect_response_for(url: Seq<char>) -> RedirectResponse;

/// The query that `GetAnimeList::new` builds, without a list of fields,
/// from a name, the adult-title switch, a result limit and an offset.
pub uninterp spec fn anime_list_query_for(
    name: Seq<char>,
    nsfw: bool,
    limit: u16,
    offset: Option<u32>,
) -> GetAnimeList;

/// `OauthClient::new`, which prepares the PKCE login. Claimed: it succeeds
/// exactly when the redirect URL is accepted (in its source, with or without
/// a client secret, the only step that can fail is `RedirectUrl::new` of the
/// redirect URL), and, without a client secret, the client is
/// `new_login_client` of the client id and the redirect URL (its source
/// builds it from them and from fixed empty tokens alone).
#[verifier::external_body]
fn oauth_client_new(client_id: &str, client_secret: Option<&str>, redirect_url: &str) -> (r: Result<
    OauthClient<Unauthenticated>,
    OauthError,
>)
    ensures
        r is Ok == oauth_redirect_url_ok(redirect_url@),
        client_secret is None ==> (r matches Ok(c) ==> c == new_login_client(
            client_id@,
            redirect_url@,
        )),
{
    OauthClient::new(client_id, client_secret, redirect_url)
}

/// `OauthClient::load_from_values`, which rebuilds an authenticated client
/// from saved tokens. Claimed: it succeeds exactly when the redirect URL is
/// accepted (in its source the expiry is compared with the Unix epoch
/// measured from itself, zero, which no `u64` is below; what is left to fail
/// is `RedirectUrl::new` of the redirect URL), and, without a client secret,
/// the client is `loaded_client` of the other arguments (its source builds
/// it from them alone).
#[verifier::external_body]
fn oauth_client_load(
    access_token: &str,
    refresh_token: &str,
    client_id: &str,
    client_secret: Option<&str>,
    redirect_url: &str,
    expires_at: u64,
) -> (r: Result<OauthClient<Authenticated>, OauthError>)
    ensures
        r is Ok == oauth_redirect_url_ok(redirect_url@),
        client_secret is None ==> (r matches Ok(c) ==> c == loaded_client(
            access_token@,
            refresh_token@,
            client_id@,
            redirect_url@,
            expires_at,
        )),
{
    OauthClient::load_from_values(
        access_token,
        refresh_token,
        client_id,
        client_secret,
        redirect_url,
        expires_at,
    )
}

/// `RedirectResponse::try_from`, which reads the `code` and `state` query
/// parameters of the URL that the browser was sent back to. Claimed: it
/// succeeds exactly when `redirect_response_ok` holds of the URL, and what
/// it reads is `redirect_response_for` of the URL (its source parses the
/// URL and decodes its query, from the URL alone).
#[verifier::external_body]
fn redirect_response_try_from(url: String) -> (r: Result<RedirectResponse, OauthError>)
    ensures
        r is Ok == redirect_response_ok(url@),
        r matches Ok(v) ==> v == redirect_response_for(url@),
{
    RedirectResponse::try_from(url)
}

/// `GetAnimeList::new`, the anime search query. Claimed: it succeeds exactly
/// when the name is not empty (its source refuses an empty query and
/// nothing else, and clamps the limit), and, built without a list of fields,
/// the query is `anime_list_query_for` of the other arguments (its source
/// builds it from them alone).
#[verifier::external_body]
fn anime_list_query(
    name: &str,
    nsfw: bool,
    fields: Option<&AnimeCommonFields>,
    limit: u16,
    offset: Option<u32>,
) -> (r: Result<GetAnimeList, AnimeApiError>)
    ensures
        r is Ok == (name@.len() > 0),
        fields is None ==> (r matches Ok(q) ==> q == anime_list_query_for(name@, nsfw, limit, offset)),
{
    GetAnimeList::new(name, nsfw, fields, Some(limit), offset)
}

/// The client that begins a browser login; the application has no client
/// secret.
pub fn login_client(client_id: &str, redirect_url: &str) -> (r: Result<
    OauthClient<Unauthenticated>,
    OauthError,
>)
    ensures
        r is Ok == oauth_redirect_url_ok(redirect_url@),
        r matches Ok(c) ==> c == new_login_client(client_id@, redirect_url@),
{
    oauth_client_new(client_id, None, redirect_url)
}

/// Reads the authorization code and state from the URL that the callback
/// request named.
pub fn redirect_response(url: String) -> (r: Result<RedirectResponse, OauthError>)
    ensures
        r is Ok == redirect_response_ok(url@),
        r matches Ok(v) ==> v == redirect_response_for(url@),
{
    redirect_response_try_from(url)
}

/// The query that searches MyAnimeList for an anime by name: up to five
/// results, adult titles included.
pub fn anime_search_query(name: &str) -> (r: GetAnimeList)
    requires
        name@.len() > 0,
    ensures
        r == anime_list_query_for(name@, true, 5, None),
{
    let query = anime_list_query(name, true, None, 5, None);
    query.unwrap()
}

/// What became of a saved login.
pub enum LoginResume {
    /// Nothing was saved.
    NothingSaved,
    /// The saved tokens were loaded into a client; it still has to be
    /// refreshed.
    Restored { times: StoredLogin, client: OauthClient<Authenticated> },
    /// The saved tokens were refused.
    Refused { times: StoredLogin, error: OauthError },
}

/// What resuming a saved login gives: nothing without one; otherwise the
/// saved expiry evaluated at `now`, and the client loaded from the saved
/// tokens, the client id, the redirect URL and the seconds left taken as a
/// `u64` when the redirect URL is accepted, a refusal when it is not.
pub open spec fn resume_matches(
    settings: Option<MalSettings>,
    now: u64,
    client_id: Seq<char>,
    redirect_url: Seq<char>,
    r: LoginResume,
) -> bool {
    match settings {
        None => r is NothingSaved,
        Some(s) => match r {
            LoginResume::NothingSaved => false,
            LoginResume::Restored { times, client } => {
                &&& stored_login_matches(s.mal_token_expires_at, now, times)
                &&& oauth_redirect_url_ok(redirect_url)
                &&& client == loaded_client(
                    s.mal_access_token@,
                    s.mal_refresh_token@,
                    client_id,
                    redirect_url,
                    times.client_expiry,
                )
            },
            LoginResume::Refused { times, .. } => {
                &&& stored_login_matches(s.mal_token_expires_at, now, times)
                &&& !oauth_redirect_url_ok(redirect_url)
            },
        },
    }
}

/// Whether a saved login can be evaluated at time `now` without overflow.
pub open spec fn resumable(settings: Option<MalSettings>, now: u64) -> bool {
    settings matches Some(s) ==> i64::MIN < spec_remaining(s.mal_token_expires_at, now) <= i64::MAX
}

/// Rebuilds the client from the saved login, if there is one: the saved
/// expiry is turned into the seconds left, and those, taken as a `u64`, are
/// handed to the client with the saved tokens.
pub fn resume_login(
    settings: Option<MalSettings>,
    now: u64,
    client_id: &str,
    redirect_url: &str,
) -> (r: LoginResume)
    requires
        resumable(settings, now),
    ensures
        resume_matches(settings, now, client_id@, redirect_url@, r),
{
    match settings {
        None => LoginResume::NothingSaved,
        Some(s) => {
            let times = stored_login(s.mal_token_expires_at, now);
            match oauth_client_load(
                s.mal_access_token.as_str(),
                s.mal_refresh_token.as_str(),
                client_id,
                None,
                redirect_url,
                times.client_expiry,
            ) {
                Ok(client) => LoginResume::Restored { times, client },
                Err(error) => LoginResume::Refused { times, error },
            }
        },
    }
}

/// What is saved is read back: the expiry saved for a client at time `now`,
/// evaluated again at the same time, gives back the seconds that the client
/// reported, for every reported expiry and time whose sum fits in an `i64`.
pub proof fn law_saved_expiry_read_back(client_expiry: u64, now: u64)
    requires
        client_expiry + now <= i64::MAX,
    ensures
        spec_remaining(spec_saved_expiry(client_expiry, now) as i64, now) == client_expiry,
{
}

/// The seconds left at `later` of a login saved at `saved_at` for a client
/// that reported `client_expiry` seconds: the saved sum and the later time,
/// each taken as an `i64`, subtracted.
pub open spec fn spec_read_back(client_expiry: u64, saved_at: u64, later: u64) -> int {
    wrap_to_i64(client_expiry + saved_at) - wrap_to_i64(later as int)
}

/// What is saved is read back at a later (or earlier) time shifted by the
/// time gone by: for every reported expiry and saving time whose sum fits in
/// a `u64` (as saving asks) and every later time, the seconds left are
/// `spec_read_back`; when the sum and the later time fit in an `i64`, that
/// is the seconds that the client reported, plus the time of saving, minus
/// `later`.
pub proof fn law_saved_expiry_read_back_later(client_expiry: u64, saved_at: u64, later: u64)
    requires
        client_expiry + saved_at <= u64::MAX,
    ensures
        spec_remaining(spec_saved_expiry(client_expiry, saved_at) as i64, later) == spec_read_back(
            client_expiry,
            saved_at,
            later,
        ),
        client_expiry + saved_at <= i64::MAX && later <= i64::MAX ==> spec_read_back(
            client_expiry,
            saved_at,
            later,
        ) == client_expiry + saved_at - later,
{
}

/// A login saved at `saved_at` for a client that reported `client_expiry`
/// seconds, and evaluated again at `later`, hands the rebuilt client the
/// seconds left (`spec_read_back`) taken as a `u64`, and counts as expired,
/// by minus those seconds, exactly when they are not positive.
pub proof fn law_saved_login_resumed(
    client_expiry: u64,
    saved_at: u64,
    later: u64,
    times: StoredLogin,
)
    requires
        client_expiry + saved_at <= u64::MAX,
        stored_login_matches(spec_saved_expiry(client_expiry, saved_at) as i64, later, times),
    ensures
        times.remaining == spec_read_back(client_expiry, saved_at, later),
        times.client_expiry == wrap_to_u64(spec_read_back(client_expiry, saved_at, later)),
        times.expired_by == (if spec_read_back(client_expiry, saved_at, later) <= 0 {
            Some((-spec_read_back(client_expiry, saved_at, later)) as u64)
        } else {
            None::<u64>
        }),
{
    law_saved_expiry_read_back_later(client_expiry, saved_at, later);
}

/// Saving and then resuming gives back the same login: credentials saved at
/// `saved_at` for a client that reported `client_expiry` seconds, resumed at
/// `later` with an accepted redirect URL, give the client loaded from the
/// same access and refresh tokens, with the seconds left (`spec_read_back`)
/// taken as a `u64`.
pub proof fn law_saved_login_restored(
    client_expiry: u64,
    saved_at: u64,
    later: u64,
    saved: MalSettings,
    client_id: Seq<char>,
    redirect_url: Seq<char>,
    r: LoginResume,
)
    requires
        client_expiry + saved_at <= u64::MAX,
        saved.mal_token_expires_at == spec_saved_expiry(client_expiry, saved_at),
        oauth_redirect_url_ok(redirect_url),
        resume_matches(Some(saved), later, client_id, redirect_url, r),
    ensures
        r matches LoginResume::Restored { times, client } && client == loaded_client(
            saved.mal_access_token@,
            saved.mal_refresh_token@,
            client_id,
            redirect_url,
            wrap_to_u64(spec_read_back(client_expiry, saved_at, later)) as u64,
        ),
{
    law_saved_expiry_read_back_later(client_expiry, saved_at, later);
}

/// A saved expiry counts as expired exactly from the moment it is reached:
/// the seconds left are not positive exactly when `now` is at or after it
/// (for times up to `i64::MAX`).
pub proof fn law_expired_when_reached(saved_expiry: i64, now: u64)
    requires
        now <= i64::MAX,
    ensures
        (spec_remaining(saved_expiry, now) <= 0) == (now >= saved_expiry),
{
}

/// The URL that a callback continues with is the redirect URL, a `/`, and a
/// suffix of the request target that does not start with `/`.
pub proof fn law_callback_url_shape(redirect_url: Seq<char>, target: Seq<char>)
    ensures
        spec_callback_url(redirect_url, target).take(redirect_url.len() + 1int) == redirect_url + "/"@,
        ({
            let rest = spec_callback_url(redirect_url, target).skip(redirect_url.len() + 1int);
            &&& rest.len() == 0 || rest[0] != '/'
            &&& rest == target.skip(target.len() - rest.len())
        }),
{
    reveal_strlit("/");
    law_trim_start(target, '/');
    let url = spec_callback_url(redirect_url, target);
    assert(url.take(redirect_url.len() + 1int) =~= redirect_url + "/"@);
    assert(url.skip(redirect_url.len() + 1int) =~= spec_trim_start(target, '/'));
}

/// A template without slots is sent as it is.
pub proof fn law_render_without_slots(
    template: Seq<char>,
    title: Seq<char>,
    header: Seq<char>,
    message: Seq<char>,
)
    requires
        !occurs_in(template, title_slot()),
        !occurs_in(template, header_slot()),
        !occurs_in(template, message_slot()),
    ensures
        spec_render_page(template, title, header, message) == template,
{
    reveal_strlit("{{title}}");
    reveal_strlit("{{header}}");
    reveal_strlit("{{message}}");
    law_replace_absent(template, title_slot(), title);
    law_replace_absent(template, header_slot(), header);
    law_replace_absent(template, message_slot(), message);
}

/// A step of the login to MyAnimeList at which something can fail.
#[derive(Debug, Clone, Copy, PartialEq, Eq)]
pub enum LoginFailure {
    /// The OAuth client could not be built.
    CreateClient,
    /// The browser could not be opened.
    OpenBrowser,
    /// No callback URL came back from the browser.
    Callback,
    /// The callback URL held no code and state.
    Redirect,
    /// The code could not be traded for tokens.
    Authenticate,
    /// The tokens could not be refreshed.
    Refresh,
    /// The credentials could not be saved.
    SaveCredentials,
}

/// The steps of the login to MyAnimeList.
#[derive(Debug, Clone, Copy, PartialEq, Eq)]
pub enum LoginStep {
    /// Try the saved credentials.
    TrySaved,
    /// Build the OAuth client for a login in the browser.
    CreateClient,
    /// Open the authorization page in the browser.
    OpenBrowser,
    /// Wait for the browser's callback request.
    AwaitCallback,
    /// Read the code and state from the callback URL.
    ReadRedirect,
    /// Trade the code for tokens.
    Authenticate,
    /// Refresh the new tokens.
    Refresh,
    /// Save the credentials for the next start.
    SaveCredentials,
    /// Logged in.
    Done,
    /// The login failed at this step, and the program ends.
    Failed(LoginFailure),
}

/// The step after `step`, once its work has succeeded or failed.
pub open spec fn spec_next_login_step(step: LoginStep, succeeded: bool) -> LoginStep {
    match step {
        LoginStep::TrySaved => if succeeded {
            LoginStep::Done
        } else {
            LoginStep::CreateClient
        },
        LoginStep::CreateClient => if succeeded {
            LoginStep::OpenBrowser
        } else {
            LoginStep::Failed(LoginFailure::CreateClient)
        },
        LoginStep::OpenBrowser => if succeeded {
            LoginStep::AwaitCallback
        } else {
            LoginStep::Failed(LoginFailure::OpenBrowser)
        },
        LoginStep::AwaitCallback => if succeeded {
            LoginStep::ReadRedirect
        } else {
            LoginStep::Failed(LoginFailure::Callback)
        },
        LoginStep::ReadRedirect => if succeeded {
            LoginStep::Authenticate
        } else {
            LoginStep::Failed(LoginFailure::Redirect)
        },
        LoginStep::Authenticate => if succeeded {
            LoginStep::Refresh
        } else {
            LoginStep::Failed(LoginFailure::Authenticate)
        },
        LoginStep::Refresh => if succeeded {
            LoginStep::SaveCredentials
        } else {
            LoginStep::Failed(LoginFailure::Refresh)
        },
        LoginStep::SaveCredentials => if succeeded {
            LoginStep::Done
        } else {
            LoginStep::Failed(LoginFailure::SaveCredentials)
        },
        LoginStep::Done => LoginStep::Done,
        LoginStep::Failed(f) => LoginStep::Failed(f),
    }
}

/// Whether the login has ended.
pub open spec fn login_finished(step: LoginStep) -> bool {
    step is Done || step is Failed
}

/// How far along the login a step is.
pub open spec fn login_progress(step: LoginStep) -> int {
    match step {
        LoginStep::TrySaved => 0,
        LoginStep::CreateClient => 1,
        LoginStep::OpenBrowser => 2,
        LoginStep::AwaitCallback => 3,
        LoginStep::ReadRedirect => 4,
        LoginStep::Authenticate => 5,
        LoginStep::Refresh => 6,
        LoginStep::SaveCredentials => 7,
        LoginStep::Done => 8,
        LoginStep::Failed(_) => 8,
    }
}

/// The step after `step`: saved credentials that work end the login;
/// otherwise each step of the login in the browser leads to the next when
/// it succeeds and ends the login when it fails.
pub fn next_login_step(step: LoginStep, succeeded: bool) -> (r: LoginStep)
    ensures
        r == spec_next_login_step(step, succeeded),
{
    match step {
        LoginStep::TrySaved => if succeeded {
            LoginStep::Done
        } else {
            LoginStep::CreateClient
        },
        LoginStep::CreateClient => if succeeded {
            LoginStep::OpenBrowser
        } else {
            LoginStep::Failed(LoginFailure::CreateClient)
        },
        LoginStep::OpenBrowser => if succeeded {
            LoginStep::AwaitCallback
        } else {
            LoginStep::Failed(LoginFailure::OpenBrowser)
        },
        LoginStep::AwaitCallback => if succeeded {
            LoginStep::ReadRedirect
        } else {
            LoginStep::Failed(LoginFailure::Callback)
        },
        LoginStep::ReadRedirect => if succeeded {
            LoginStep::Authenticate
        } else {
            LoginStep::Failed(LoginFailure::Redirect)
        },
        LoginStep::Authenticate => if succeeded {
            LoginStep::Refresh
        } else {
            LoginStep::Failed(LoginFailure::Authenticate)
        },
        LoginStep::Refresh => if succeeded {
            LoginStep::SaveCredentials
        } else {
            LoginStep::Failed(LoginFailure::Refresh)
        },
        LoginStep::SaveCredentials => if succeeded {
            LoginStep::Done
        } else {
            LoginStep::Failed(LoginFailure::SaveCredentials)
        },
        LoginStep::Done => LoginStep::Done,
        LoginStep::Failed(f) => LoginStep::Failed(f),
    }
}

/// The message that is printed, before the details of the error, when the
/// login fails at a step.
pub fn failure_message(failure: &LoginFailure) -> (r: &'static str)
    ensures
        r@ == match failure {
            LoginFailure::CreateClient => "Failed to create OauthClient: "@,
            LoginFailure::OpenBrowser => "Failed to open browser"@,
            LoginFailure::Callback => "Failed to get code:\n"@,
            LoginFailure::Redirect => "Failed to parse RedirectResponse: "@,
            LoginFailure::Authenticate => "Failed: "@,
            LoginFailure::Refresh => "Failed to refresh token: "@,
            LoginFailure::SaveCredentials => "Failed to acquire database connection: "@,
        },
{
    match failure {
        LoginFailure::CreateClient => "Failed to create OauthClient: ",
        LoginFailure::OpenBrowser => "Failed to open browser",
        LoginFailure::Callback => "Failed to get code:\n",
        LoginFailure::Redirect => "Failed to parse RedirectResponse: ",
        LoginFailure::Authenticate => "Failed: ",
        LoginFailure::Refresh => "Failed to refresh token: ",
        LoginFailure::SaveCredentials => "Failed to acquire database connection: ",
    }
}

/// The login only moves forward: every step before the end leads to a step
/// further along, and an ended login stays as it is. So it ends after at
/// most eight steps, whatever succeeds or fails.
pub proof fn law_login_moves_forward(step: LoginStep, succeeded: bool)
    ensures
        !login_finished(step) ==> login_progress(spec_next_login_step(step, succeeded))
            > login_progress(step),
        login_finished(step) ==> spec_next_login_step(step, succeeded) == step,
        login_progress(step) <= 8,
        login_finished(step) <==> login_progress(step) == 8,
{
}

/// Once the login in the browser has begun, a step that fails ends the
/// login in `Failed`.
pub proof fn law_login_failure_is_final(step: LoginStep)
    requires
        !login_finished(step),
        !(step is TrySaved),
    ensures
        spec_next_login_step(step, false) is Failed,
{
}

/// A request whose first line is a method, a target and a version, each a
/// non-empty run without whitespace, separated by single spaces and ended by
/// CR LF, has that target, whatever follows; so the login continues with
/// the redirect URL, a `/`, and the target without its leading slashes.
pub proof fn law_callback_request_target(
    method: Seq<char>,
    target: Seq<char>,
    version: Seq<char>,
    rest: Seq<char>,
)
    requires
        method.len() > 0,
        target.len() > 0,
        version.len() > 0,
        has_no_whitespace(method),
        has_no_whitespace(target),
        has_no_whitespace(version),
    ensures
        spec_request_target(
            method + seq![' '] + target + seq![' '] + version + seq!['\r', '\n'] + rest,
        ) == Some(target),
{
    let line = method + seq![' '] + target + seq![' '] + version;
    let request = line + seq!['\r', '\n'] + rest;
    let k: int = line.len() + 1int;
    assert forall|j: int| 0 <= j < k implies request[j] != '\n' by {
        if j < line.len() {
            assert(request[j] == line[j]);
            if j < method.len() {
                assert(!spec_is_whitespace(method[j]));
            } else if j == method.len() {
            } else if j < method.len() + 1 + target.len() {
                assert(line[j] == target[j - method.len() - 1]);
                assert(!spec_is_whitespace(target[j - method.len() - 1]));
            } else if j == method.len() + 1 + target.len() {
            } else {
                assert(line[j] == version[j - method.len() - 2 - target.len()]);
                assert(!spec_is_whitespace(version[j - method.len() - 2 - target.len()]));
            }
        }
    }
    assert(request[k] == '\n');
    lemma_line_end_at(request, k);
    assert(request.take(k).drop_last() =~= line);
    law_three_words(method, target, version);
}

/// The reply to a callback request whose first line is a method, a target
/// and a version continues the login with the redirect URL, a `/`, and the
/// whole target after its leading slashes, whatever its length: when the
/// first `k` characters of the target are `/` and the next is not, the URL is
/// the redirect URL, `/`, and the target from position `k` to its end (so it
/// ends with the target's last character).
pub proof fn law_callback_keeps_whole_target(
    method: Seq<char>,
    target: Seq<char>,
    version: Seq<char>,
    rest: Seq<char>,
    redirect_url: Seq<char>,
    template: Seq<char>,
    k: int,
    r: CallbackReply,
)
    requires
        method.len() > 0,
        target.len() > 0,
        version.len() > 0,
        has_no_whitespace(method),
        has_no_whitespace(target),
        has_no_whitespace(version),
        0 <= k <= target.len(),
        forall|j: int| 0 <= j < k ==> target[j] == '/',
        k < target.len() ==> target[k] != '/',
        callback_reply_matches(
            method + seq![' '] + target + seq![' '] + version + seq!['\r', '\n'] + rest,
            redirect_url,
            template,
            r,
        ),
    ensures
        r.result matches Ok(url) && url@ == redirect_url + "/"@ + target.skip(k),
        r.result matches Ok(url) && url@.len() == redirect_url.len() + 1 + target.len() - k,
        k < target.len() ==> (r.result matches Ok(url) && url@.last() == target.last()),
{
    reveal_strlit("/");
    law_callback_request_target(method, target, version, rest);
    law_trim_start_drops_run(target, '/', k);
}

/// Every slot of the page is filled: a template holding the title, heading
/// and message slots once each, in that order, between texts without `{`,
/// filled with a title, heading and message without `{`, becomes those texts
/// with the title, heading and message in place of the slots, whatever else
/// (line breaks included) the texts hold.
pub proof fn law_render_fills_every_slot(
    a: Seq<char>,
    b: Seq<char>,
    c: Seq<char>,
    d: Seq<char>,
    title: Seq<char>,
    header: Seq<char>,
    message: Seq<char>,
)
    requires
        !a.contains('{'),
        !b.contains('{'),
        !c.contains('{'),
        !d.contains('{'),
        !title.contains('{'),
        !header.contains('{'),
        !message.contains('{'),
    ensures
        spec_render_page(
            a + title_slot() + b + header_slot() + c + message_slot() + d,
            title,
            header,
            message,
        ) == a + title + b + header + c + message + d,
{
    reveal_strlit("{{title}}");
    reveal_strlit("{{header}}");
    reveal_strlit("{{message}}");
    let ts = title_slot();
    let hs = header_slot();
    let ms = message_slot();
    assert(ts[0] == '{' && hs[0] == '{' && ms[0] == '{');
    // Slot texts other than the title slot start with `{` but are not the
    // title slot, and hold no `{` after their first two characters.
    let tail1 = b + hs + c + ms + d;
    let t0 = a + ts + b + hs + c + ms + d;
    assert(t0 =~= a + (ts + tail1));
    lemma_replace_after_plain(a, ts + tail1, ts, title);
    lemma_replace_at_pattern(tail1, ts, title);
    // In `tail1`, the header and message slots do not hold the title slot.
    assert(!occurs_in(tail1, ts)) by {
        if occurs_in(tail1, ts) {
            let i = choose|i: int|
                0 <= i && i + ts.len() <= tail1.len() && #[trigger] tail1.subrange(
                    i,
                    i + ts.len(),
                ) == ts;
            lemma_no_title_slot(b, c, d, i);
        }
    }
    law_replace_absent(tail1, ts, title);
    let t1 = a + title + tail1;
    assert(spec_replace(t0, ts, title) =~= t1);
    let tail2 = c + ms + d;
    let pre2 = a + title + b;
    assert(!pre2.contains('{')) by {
        if pre2.contains('{') {
            let j = choose|j: int| 0 <= j < pre2.len() && pre2[j] == '{';
            if j < a.len() {
                assert(a[j] == '{');
            } else if j < a.len() + title.len() {
                assert(title[j - a.len()] == '{');
            } else {
                assert(b[j - a.len() - title.len()] == '{');
            }
        }
    }
    assert(t1 =~= pre2 + (hs + tail2));
    lemma_replace_after_plain(pre2, hs + tail2, hs, header);
    lemma_replace_at_pattern(tail2, hs, header);
    assert(!occurs_in(tail2, hs)) by {
        if occurs_in(tail2, hs) {
            let i = choose|i: int|
                0 <= i && i + hs.len() <= tail2.len() && #[trigger] tail2.subrange(
                    i,
                    i + hs.len(),
                ) == hs;
            lemma_no_header_slot(c, d, i);
        }
    }
    law_replace_absent(tail2, hs, header);
    let t2 = pre2 + header + tail2;
    assert(spec_replace(t1, hs, header) =~= t2);
    let pre3 = pre2 + header + c;
    assert(!pre3.contains('{')) by {
        if pre3.contains('{') {
            let j = choose|j: int| 0 <= j < pre3.len() && pre3[j] == '{';
            if j < pre2.len() {
                assert(pre2[j] == '{');
            } else if j < pre2.len() + header.len() {
                assert(header[j - pre2.len()] == '{');
            } else {
                assert(c[j - pre2.len() - header.len()] == '{');
            }
        }
    }
    assert(t2 =~= pre3 + (ms + d));
    lemma_replace_after_plain(pre3, ms + d, ms, message);
    lemma_replace_at_pattern(d, ms, message);
    lemma_replace_plain(d, ms, message);
    assert(spec_replace(t2, ms, message) =~= a + title + b + header + c + message + d);
}

/// The title slot does not occur in `b`, the heading slot, `c`, the message
/// slot and `d`, when `b`, `c` and `d` hold no `{`.
proof fn lemma_no_title_slot(b: Seq<char>, c: Seq<char>, d: Seq<char>, i: int)
    requires
        !b.contains('{'),
        !c.contains('{'),
        !d.contains('{'),
        0 <= i,
        i + title_slot().len() <= (b + header_slot() + c + message_slot() + d).len(),
    ensures
        (b + header_slot() + c + message_slot() + d).subrange(i, i + title_slot().len())
            != title_slot(),
{
    reveal_strlit("{{title}}");
    reveal_strlit("{{header}}");
    reveal_strlit("{{message}}");
    let t = b + header_slot() + c + message_slot() + d;
    let w = t.subrange(i, i + 9);
    let hb = b.len();
    let hc = hb + 10 + c.len();
    // `w` starts with `{{`, then `t`; only the slots hold `{`.
    if w == title_slot() {
        assert(title_slot()[0] == '{' && title_slot()[1] == '{' && title_slot()[2] == 't');
        assert(w[0] == t[i] && w[1] == t[i + 1] && w[2] == t[i + 2]);
        assert(t[i] == '{');
        assert(t[i + 1] == '{');
        assert(t[i + 2] == 't');
        if i < hb {
            assert(b[i] == '{');
        } else if i < hb + 10 {
            assert(t[i] == header_slot()[i - hb]);
            assert(t[i + 1] == header_slot()[i + 1 - hb]);
            assert(t[i + 2] == header_slot()[i + 2 - hb]);
        } else if i < hc {
            assert(c[i - hb - 10] == '{');
        } else if i < hc + 11 {
            assert(t[i] == message_slot()[i - hc]);
            assert(t[i + 1] == message_slot()[i + 1 - hc]);
            assert(t[i + 2] == message_slot()[i + 2 - hc]);
        } else {
            assert(d[i - hc - 11] == '{');
        }
    }
}

/// The heading slot does not occur in `c`, the message slot and `d`, when
/// `c` and `d` hold no `{`.
proof fn lemma_no_header_slot(c: Seq<char>, d: Seq<char>, i: int)
    requires
        !c.contains('{'),
        !d.contains('{'),
        0 <= i,
        i + header_slot().len() <= (c + message_slot() + d).len(),
    ensures
        (c + message_slot() + d).subrange(i, i + header_slot().len()) != header_slot(),
{
    reveal_strlit("{{header}}");
    reveal_strlit("{{message}}");
    let t = c + message_slot() + d;
    let w = t.subrange(i, i + 10);
    let hc = c.len();
    if w == header_slot() {
        assert(header_slot()[0] == '{' && header_slot()[1] == '{' && header_slot()[2] == 'h');
        assert(w[0] == t[i] && w[1] == t[i + 1] && w[2] == t[i + 2]);
        assert(t[i] == '{');
        assert(t[i + 1] == '{');
        assert(t[i + 2] == 'h');
        if i < hc {
            assert(c[i] == '{');
        } else if i < hc + 11 {
            assert(t[i] == message_slot()[i - hc]);
            assert(t[i + 1] == message_slot()[i + 1 - hc]);
            assert(t[i + 2] == message_slot()[i + 2 - hc]);
        } else {
            assert(d[i - hc - 11] == '{');
        }
    }
}

} // verus!
