use anitrack::db::MalSettings;
use mal_api::anime::requests::GetAnimeList;
use anitrack::mal::{
    anime_search_query, failure_message, handle_callback, handle_callback_bytes, http_response,
    login_client, next_login_step, redirect_response, render_page, resume_login, saved_expiry,
    stored_login, LoginFailure, LoginResume, LoginStep, StoredLogin,
};

const TEMPLATE: &str = "<html><title>{{title}}</title><h1>{{header}}</h1><p>{{message}}</p></html>";
const REDIRECT: &str = "http://localhost:8080";

fn page(title: &str, header: &str, message: &str) -> String {
    TEMPLATE.replace("{{title}}", title).replace("{{header}}", header).replace("{{message}}", message)
}

#[test]
fn render_page_fills_the_slots() {
    assert_eq!(
        render_page(TEMPLATE, "Success", "Operation Successful", "done"),
        "<html><title>Success</title><h1>Operation Successful</h1><p>done</p></html>"
    );
    assert_eq!(render_page("plain", "a", "b", "c"), "plain");
    assert_eq!(render_page("{{title}}{{title}}", "{{header}}", "H", "M"), "HH");
}

#[test]
fn http_response_prefixes_headers() {
    assert_eq!(http_response("<p>x</p>"), "HTTP/1.1 200 OK\r\nContent-Type: text/html\r\n\r\n<p>x</p>");
}

#[test]
fn callback_with_target_continues_the_login() {
    let request = "GET /?code=abc&state=xyz HTTP/1.1\r\nHost: localhost:8080\r\n\r\n";
    let reply = handle_callback(request, REDIRECT, TEMPLATE);
    assert_eq!(reply.result, Ok("http://localhost:8080/?code=abc&state=xyz".to_string()));
    let body = page("Success", "Operation Successful", "You can now close this tab and return to the app.");
    assert_eq!(reply.response, format!("HTTP/1.1 200 OK\r\nContent-Type: text/html\r\n\r\n{}", body));
}

#[test]
fn callback_url_drops_leading_slashes() {
    let reply = handle_callback("GET ///callback?code=1 HTTP/1.1", REDIRECT, TEMPLATE);
    assert_eq!(reply.result, Ok("http://localhost:8080/callback?code=1".to_string()));
    let reply = handle_callback("GET x", REDIRECT, TEMPLATE);
    assert_eq!(reply.result, Ok("http://localhost:8080/x".to_string()));
}

#[test]
fn callback_without_target_fails() {
    let body = page("Failed", "Something Went Wrong", "URL is empty.");
    let expected = format!("HTTP/1.1 200 OK\r\nContent-Type: text/html\r\n\r\n{}", body);
    for request in ["", "GET", "GET\r\n/path HTTP/1.1", "   \n"] {
        let reply = handle_callback(request, REDIRECT, TEMPLATE);
        assert_eq!(reply.result, Err("URL is empty.".to_string()), "request {:?}", request);
        assert_eq!(reply.response, expected);
    }
}

#[test]
fn callback_bytes_are_decoded_lossily() {
    let reply = handle_callback_bytes(b"GET /a\xffb HTTP/1.1\r\n", REDIRECT, TEMPLATE);
    assert_eq!(reply.result, Ok("http://localhost:8080/a\u{FFFD}b".to_string()));
    let reply = handle_callback_bytes(b"GET /?code=1 HTTP/1.1", REDIRECT, TEMPLATE);
    assert_eq!(reply.result, Ok("http://localhost:8080/?code=1".to_string()));
    let reply = handle_callback_bytes(b"", REDIRECT, TEMPLATE);
    assert_eq!(reply.result, Err("URL is empty.".to_string()));
}

#[test]
fn saved_expiry_adds_now() {
    assert_eq!(saved_expiry(3600, 1_700_000_000), 1_700_003_600);
    assert_eq!(saved_expiry(u64::MAX, 0), -1);
    assert_eq!(saved_expiry(1 << 63, 0), i64::MIN);
}

#[test]
fn stored_login_counts_down() {
    assert_eq!(
        stored_login(1_700_003_600, 1_700_000_000),
        StoredLogin { remaining: 3600, expired_by: None, client_expiry: 3600 }
    );
    assert_eq!(
        stored_login(100, 130),
        StoredLogin { remaining: -30, expired_by: Some(30), client_expiry: u64::MAX - 29 }
    );
    assert_eq!(stored_login(100, 100), StoredLogin { remaining: 0, expired_by: Some(0), client_expiry: 0 });
}

#[test]
fn saved_expiry_is_read_back() {
    for (expiry, now) in [(0u64, 0u64), (3600, 1_700_000_000), (2_415_600, 5)] {
        let saved = saved_expiry(expiry, now);
        assert_eq!(stored_login(saved, now).remaining, expiry as i64);
    }
}

#[test]
fn expired_exactly_when_reached() {
    assert!(stored_login(50, 49).expired_by.is_none());
    assert!(stored_login(50, 50).expired_by.is_some());
    assert!(stored_login(50, 51).expired_by.is_some());
}

#[test]
fn login_steps_follow_the_flow() {
    let mut step = LoginStep::TrySaved;
    step = next_login_step(step, false);
    assert_eq!(step, LoginStep::CreateClient);
    let mut seen = vec![step];
    while step != LoginStep::Done {
        step = next_login_step(step, true);
        seen.push(step);
    }
    assert_eq!(
        seen,
        vec![
            LoginStep::CreateClient,
            LoginStep::OpenBrowser,
            LoginStep::AwaitCallback,
            LoginStep::ReadRedirect,
            LoginStep::Authenticate,
            LoginStep::Refresh,
            LoginStep::SaveCredentials,
            LoginStep::Done,
        ]
    );
    assert_eq!(next_login_step(LoginStep::TrySaved, true), LoginStep::Done);
    assert_eq!(next_login_step(LoginStep::Done, false), LoginStep::Done);
}

#[test]
fn a_failed_step_ends_the_login() {
    let cases = [
        (LoginStep::CreateClient, LoginFailure::CreateClient),
        (LoginStep::OpenBrowser, LoginFailure::OpenBrowser),
        (LoginStep::AwaitCallback, LoginFailure::Callback),
        (LoginStep::ReadRedirect, LoginFailure::Redirect),
        (LoginStep::Authenticate, LoginFailure::Authenticate),
        (LoginStep::Refresh, LoginFailure::Refresh),
        (LoginStep::SaveCredentials, LoginFailure::SaveCredentials),
    ];
    for (step, failure) in cases {
        assert_eq!(next_login_step(step, false), LoginStep::Failed(failure));
        assert_eq!(next_login_step(LoginStep::Failed(failure), true), LoginStep::Failed(failure));
    }
}

#[test]
fn login_ends_within_eight_steps() {
    for pattern in 0u32..512 {
        let mut step = LoginStep::TrySaved;
        for i in 0..8 {
            step = next_login_step(step, pattern & (1 << i) != 0);
        }
        assert!(matches!(step, LoginStep::Done | LoginStep::Failed(_)));
    }
}

#[test]
fn failure_messages() {
    assert_eq!(failure_message(&LoginFailure::CreateClient), "Failed to create OauthClient: ");
    assert_eq!(failure_message(&LoginFailure::OpenBrowser), "Failed to open browser");
    assert_eq!(failure_message(&LoginFailure::Callback), "Failed to get code:\n");
    assert_eq!(failure_message(&LoginFailure::Redirect), "Failed to parse RedirectResponse: ");
    assert_eq!(failure_message(&LoginFailure::Authenticate), "Failed: ");
    assert_eq!(failure_message(&LoginFailure::Refresh), "Failed to refresh token: ");
    assert_eq!(failure_message(&LoginFailure::SaveCredentials), "Failed to acquire database connection: ");
}

#[test]
fn login_client_needs_a_redirect_url() {
    assert!(login_client("client", REDIRECT).is_ok());
    assert!(login_client("client", "not a url").is_err());
}

#[test]
fn redirect_response_needs_code_and_state() {
    assert!(redirect_response("http://localhost:8080/?code=abc&state=xyz".to_string()).is_ok());
    assert!(redirect_response("http://localhost:8080/".to_string()).is_err());
    assert!(redirect_response("http://localhost:8080/?code=abc".to_string()).is_err());
    assert!(redirect_response("not a url".to_string()).is_err());
}

#[test]
fn anime_search_query_for_a_name() {
    let query = anime_search_query("Toradora");
    let expected = GetAnimeList::builder("Toradora").enable_nsfw().limit(5).build().unwrap();
    assert_eq!(format!("{:?}", query), format!("{:?}", expected));
    let other = GetAnimeList::builder("Naruto").enable_nsfw().limit(5).build().unwrap();
    assert_ne!(format!("{:?}", query), format!("{:?}", other));
}

fn settings(expires_at: i64) -> MalSettings {
    MalSettings {
        mal_access_token: "access".to_string(),
        mal_refresh_token: "refresh".to_string(),
        mal_token_expires_at: expires_at,
    }
}

#[test]
fn nothing_saved_means_no_resume() {
    assert!(matches!(resume_login(None, 10, "client", REDIRECT), LoginResume::NothingSaved));
}

#[test]
fn saved_login_is_restored() {
    match resume_login(Some(settings(1_000)), 400, "client", REDIRECT) {
        LoginResume::Restored { times, .. } => {
            assert_eq!(times, StoredLogin { remaining: 600, expired_by: None, client_expiry: 600 })
        },
        _ => panic!("expected a restored client"),
    }
    match resume_login(Some(settings(1_000)), 1_400, "client", "not a url") {
        LoginResume::Refused { times, .. } => {
            assert_eq!(times.remaining, -400);
            assert_eq!(times.expired_by, Some(400));
        },
        _ => panic!("expected a refused login"),
    }
}

#[test]
fn request_line_target_is_what_the_login_continues_with() {
    for (request, url) in [
        ("POST /x?y=1 HTTP/2\r\nanything at all", "http://localhost:8080/x?y=1"),
        ("GET //?code=q&state=s HTTP/1.1\r\n\r\n", "http://localhost:8080/?code=q&state=s"),
        ("GET done HTTP/1.0\r\n", "http://localhost:8080/done"),
    ] {
        assert_eq!(handle_callback(request, REDIRECT, TEMPLATE).result, Ok(url.to_string()));
    }
}

#[test]
fn saved_expiry_is_read_back_later() {
    let saved = saved_expiry(3600, 1_000);
    assert_eq!(stored_login(saved, 1_600), StoredLogin { remaining: 3000, expired_by: None, client_expiry: 3000 });
    assert_eq!(
        stored_login(saved, 5_000),
        StoredLogin { remaining: -400, expired_by: Some(400), client_expiry: u64::MAX - 399 }
    );
    match resume_login(Some(settings(saved)), 5_000, "client", REDIRECT) {
        LoginResume::Restored { times, .. } => assert_eq!(times.expired_by, Some(400)),
        _ => panic!("expected a restored client"),
    }
}
