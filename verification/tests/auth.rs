use base64::Engine;
use lam_tui::auth::{
    apply_refresh, auth_file_from_token_response, check_account, check_exchange,
    credentials_from_file, decode_jwt, default_headers, ensure_overwrite_allowed, join_path,
    needs_refresh, refresh_error_message, refresh_token, truncate, validate_auth_file,
    ChatGptClaims, CodexAuthError, CodexAuthFile, CodexCredentialStore, CodexTokens,
    RefreshResponse, TokenExchangeResponse,
};
use lam_tui::oauth::{
    build_authorize_url, code_from_request, exchange_form, oauth_state, parse_query, parse_redirect,
    percent_decode, pkce_challenge, pkce_verifier, redirect_uri, request_line, url_encode,
};

const NOW: u64 = 1_700_000_000;

fn jwt(payload: &str) -> String {
    let encoded = base64::engine::general_purpose::URL_SAFE_NO_PAD.encode(payload);
    format!("header.{encoded}.signature")
}

fn id_token(account: &str, fedramp: bool) -> String {
    jwt(&format!(
        "{{\"https://api.openai.com/auth\":{{\"chatgpt_account_id\":\"{account}\",\"chatgpt_account_is_fedramp\":{fedramp}}}}}"
    ))
}

/// The claims of a token, as the host decodes them.
fn claims(token: &str) -> Option<ChatGptClaims> {
    let value: serde_json::Value = serde_json::from_slice(&decode_jwt(token).unwrap()).unwrap();
    let auth = value.get("https://api.openai.com/auth")?;
    Some(ChatGptClaims {
        account_id: auth["chatgpt_account_id"].as_str().map(str::to_owned),
        is_fedramp: auth["chatgpt_account_is_fedramp"].as_bool().unwrap_or(false),
    })
}

fn expiry(token: &str) -> u64 {
    let value: serde_json::Value = serde_json::from_slice(&decode_jwt(token).unwrap()).unwrap();
    value["exp"].as_u64().unwrap()
}

fn auth_file(expiry: u64) -> CodexAuthFile {
    CodexAuthFile {
        auth_mode: Some("chatgpt".to_owned()),
        tokens: Some(CodexTokens {
            id_token: id_token("account-123", false),
            access_token: jwt(&format!("{{\"exp\":{expiry}}}")),
            refresh_token: "refresh-old".to_owned(),
            account_id: None,
        }),
    }
}

#[test]
fn reads_account_and_builds_codex_headers() {
    let file = auth_file(NOW + 3_600);
    let tokens = file.tokens.as_ref().unwrap();
    let credentials =
        credentials_from_file(&file, claims(&tokens.id_token), "auth.json").unwrap();
    assert_eq!(credentials.account_id, "account-123");
    assert!(!needs_refresh(expiry(&tokens.access_token), NOW));
    let headers = default_headers(&credentials);
    let value = |name: &str| {
        headers.iter().find(|(key, _)| key == name).map(|(_, value)| value.as_str())
    };
    assert_eq!(value("ChatGPT-Account-ID"), Some("account-123"));
    assert_eq!(value("originator"), Some("codex_cli_rs"));
    assert_eq!(value("version"), Some("0.146.0"));
    assert_eq!(value("user-agent"), Some("codex_cli_rs/0.146.0 (lam-agent)"));
    assert_eq!(value("X-OpenAI-Fedramp"), None);
}

#[test]
fn pkce_verifier_is_base64url_and_in_range() {
    let verifier = pkce_verifier().unwrap();
    assert!((43..=128).contains(&verifier.len()));
    assert!(verifier
        .bytes()
        .all(|byte| byte.is_ascii_alphanumeric() || byte == b'-' || byte == b'_'));
    let state = oauth_state().unwrap();
    assert_eq!(state.len(), 22);
}

#[test]
fn pkce_challenge_matches_sha256_test_vector() {
    assert_eq!(
        pkce_challenge("hello"),
        "LPJNul-wow4m6DsqxbninhsWHlwfp0JecwQzYpOLmCQ"
    );
}

#[test]
fn parses_redirect_query_with_percent_decoding() {
    let params = parse_query("code=abc123&state=xyz");
    assert_eq!(params.get("code").map(String::as_str), Some("abc123"));
    assert_eq!(params.get("state").map(String::as_str), Some("xyz"));
    let params = parse_query("code=a%2Bb%20c&state=s%2Ft");
    assert_eq!(params.get("code").map(String::as_str), Some("a+b c"));
    assert_eq!(params.get("state").map(String::as_str), Some("s/t"));
    assert_eq!(params.get("missing"), None);
}

#[test]
fn parses_redirect_target_and_validates_state() {
    let code = parse_redirect("/auth/callback?code=abc&state=xyz", "xyz").unwrap();
    assert_eq!(code.code, "abc");
    assert!(matches!(
        parse_redirect("/auth/callback?code=abc&state=wrong", "xyz"),
        Err(CodexAuthError::OAuthStateMismatch)
    ));
    assert!(matches!(
        parse_redirect(
            "/auth/callback?error=access_denied&error_description=declined",
            "xyz"
        ),
        Err(CodexAuthError::OAuthDenied(message)) if message == "declined"
    ));
    assert!(matches!(
        parse_redirect("/auth/callback?state=xyz", "xyz"),
        Err(CodexAuthError::OAuthRedirect(_))
    ));
    assert!(matches!(
        parse_redirect("/other?code=abc&state=xyz", "xyz"),
        Err(CodexAuthError::OAuthRedirect(_))
    ));
}

#[test]
fn auth_file_from_token_response_round_trips_through_store() {
    let id = id_token("account-oauth", true);
    let token = TokenExchangeResponse {
        access_token: Some(jwt(&format!("{{\"exp\":{}}}", NOW + 3_600))),
        refresh_token: Some("refresh-oauth".to_owned()),
        id_token: Some(id.clone()),
        error: None,
        error_description: None,
    };
    let file = auth_file_from_token_response(token, true, claims(&id), "auth.json").unwrap();
    assert_eq!(
        file.tokens.as_ref().unwrap().account_id.as_deref(),
        Some("account-oauth")
    );
    assert_eq!(file.auth_mode.as_deref(), Some("chatgpt"));
    let credentials = credentials_from_file(&file, claims(&id), "auth.json").unwrap();
    assert_eq!(credentials.account_id, "account-oauth");
    assert!(credentials.is_fedramp);
    assert!(default_headers(&credentials)
        .iter()
        .any(|(name, value)| name == "X-OpenAI-Fedramp" && value == "true"));
}

#[test]
fn login_refuses_to_overwrite_valid_credentials_without_force() {
    let store = CodexCredentialStore::new("/home/.codex/auth.json".to_owned());
    assert!(matches!(
        ensure_overwrite_allowed(&store, true, false),
        Err(CodexAuthError::CredentialsExist { .. })
    ));
    assert!(ensure_overwrite_allowed(&store, true, true).is_ok());
    assert!(ensure_overwrite_allowed(&store, false, false).is_ok());
}

#[test]
fn authorize_url_matches_the_official_cli_contract() {
    let url = build_authorize_url(
        "https://auth.openai.com/oauth/authorize",
        "http://localhost:1455/auth/callback",
        "challenge",
        "state",
    );
    for expected in [
        "response_type=code",
        "client_id=app_EMoamEEZ73f0CkXaXp7hrann",
        "redirect_uri=http%3A%2F%2Flocalhost%3A1455%2Fauth%2Fcallback",
        "scope=openid%20profile%20email%20offline_access",
        "code_challenge=challenge",
        "code_challenge_method=S256",
        "state=state",
        "id_token_add_organizations=true",
        "codex_cli_simplified_flow=true",
        "originator=lam-agent",
    ] {
        assert!(url.contains(expected), "authorize URL missing {expected}: {url}");
    }
    assert!(!url.contains("audience="), "official client sends no audience: {url}");
}

#[test]
fn random_tokens_differ() {
    assert_ne!(pkce_verifier().unwrap(), pkce_verifier().unwrap());
    assert_ne!(oauth_state().unwrap(), oauth_state().unwrap());
}

#[test]
fn encoding_and_decoding_are_inverse() {
    for sample in ["", "plain-._~", "a b&c=d/é", "100%+"] {
        assert_eq!(percent_decode(&url_encode(sample)), sample);
    }
    assert_eq!(url_encode("a b/é"), "a%20b%2F%C3%A9");
    assert_eq!(percent_decode("%zz%4"), "%zz%4");
    assert_eq!(percent_decode("a%ff"), "a\u{fffd}");
    assert_eq!(redirect_uri(1455), "http://localhost:1455/auth/callback");
}

#[test]
fn request_lines_carry_the_code() {
    let line = "GET /auth/callback?code=abc&state=s HTTP/1.1";
    assert_eq!(code_from_request(line, "s").unwrap().code, "abc");
    assert!(code_from_request("POST / HTTP/1.1", "s").is_err());
    assert!(code_from_request("", "s").is_err());
}

#[test]
fn request_lines_end_at_the_newline() {
    assert_eq!(request_line(&b"GET /x HTTP/1.1\r\nHost: a\r\n".to_vec()).unwrap(), "GET /x HTTP/1.1");
    assert_eq!(request_line(&b"\n".to_vec()).unwrap(), "");
    assert_eq!(request_line(&b"a\xff\n".to_vec()).unwrap(), "a\u{fffd}");
    assert_eq!(request_line(&b"GET /x".to_vec()), None);
}

#[test]
fn tokens_near_their_end_are_refreshed() {
    assert!(needs_refresh(NOW + 30, NOW));
    assert!(!needs_refresh(NOW + 3_600, NOW));
    assert!(needs_refresh(0, NOW));
}

#[test]
fn refreshed_tokens_replace_what_came_back() {
    let file = auth_file(NOW + 30);
    assert_eq!(refresh_token(&file, "auth.json").unwrap(), "refresh-old");
    let tokens = apply_refresh(
        file.tokens.unwrap(),
        RefreshResponse {
            id_token: None,
            access_token: Some("access-new".to_owned()),
            refresh_token: Some("refresh-new".to_owned()),
        },
    );
    assert_eq!(tokens.access_token, "access-new");
    assert_eq!(tokens.refresh_token, "refresh-new");
    assert_eq!(tokens.id_token, id_token("account-123", false));
}

#[test]
fn other_accounts_are_refused() {
    assert!(check_account(&Some("a".to_owned()), "a").is_ok());
    assert!(check_account(&None, "a").is_ok());
    assert!(matches!(
        check_account(&Some("a".to_owned()), "b"),
        Err(CodexAuthError::AccountChanged)
    ));
}

#[test]
fn broken_tokens_are_refused() {
    assert!(matches!(decode_jwt("no dots"), Err(CodexAuthError::InvalidJwt)));
    assert!(matches!(decode_jwt("a.***.c"), Err(CodexAuthError::InvalidJwt)));
    assert_eq!(decode_jwt(&jwt("{}")).unwrap(), b"{}");
}

#[test]
fn incomplete_credentials_are_refused() {
    let no_tokens = CodexAuthFile { auth_mode: Some("chatgpt".to_owned()), tokens: None };
    assert!(matches!(
        validate_auth_file(&no_tokens, "auth.json"),
        Err(CodexAuthError::InvalidCredentials { .. })
    ));
    let mut file = auth_file(NOW);
    file.auth_mode = Some("apikey".to_owned());
    assert!(matches!(
        validate_auth_file(&file, "auth.json"),
        Err(CodexAuthError::InvalidCredentials { .. })
    ));
    let without_account = credentials_from_file(&auth_file(NOW), None, "auth.json");
    assert!(without_account.is_err());
}

#[test]
fn refused_exchanges_say_why() {
    let refused = TokenExchangeResponse {
        access_token: None,
        refresh_token: None,
        id_token: None,
        error: Some("invalid_grant".to_owned()),
        error_description: Some("expired".to_owned()),
    };
    assert!(check_exchange(&refused).is_err());
}

#[test]
fn refresh_errors_are_read_from_the_body() {
    assert_eq!(refresh_error_message("{\"error\":{\"message\":\"expired\"}}"), "expired");
    assert_eq!(refresh_error_message("{\"message\":\"gone\"}"), "gone");
    let shown = "Codex token refresh failed; run `lam-agent login openai`";
    assert_eq!(refresh_error_message("{\"message\":\" \"}"), shown);
    assert_eq!(refresh_error_message("not json"), shown);
    let long = format!("{{\"message\":\"{}\"}}", "x".repeat(600));
    assert_eq!(refresh_error_message(&long), "x".repeat(500));
    assert_eq!(truncate(&"é".repeat(513)), format!("{}…", "é".repeat(512)));
    assert_eq!(truncate("short"), "short");
}

#[test]
fn credential_paths_follow_the_environment() {
    let store = CodexCredentialStore::default_store(Some("/codex"), Some("/home/me")).unwrap();
    assert_eq!(store.path(), "/codex/auth.json");
    let store = CodexCredentialStore::default_store(None, Some("/home/me/")).unwrap();
    assert_eq!(store.path(), "/home/me/.codex/auth.json");
    assert!(matches!(
        CodexCredentialStore::default_store(None, None),
        Err(CodexAuthError::HomeUnavailable)
    ));
    assert_eq!(join_path("", "name"), "name");
}

#[test]
fn messages_of_authentication_errors() {
    assert_eq!(
        CodexAuthError::OAuthStateMismatch.message(),
        "OpenAI OAuth redirect state did not match; refusing the redirect"
    );
    assert_eq!(
        CodexAuthError::OAuthTokenStatus { status: 500, body: "oops".to_owned() }.message(),
        "OpenAI token exchange returned HTTP 500: oops"
    );
    assert_eq!(
        CodexAuthError::OAuthRandom.message(),
        "could not generate a secure random PKCE verifier"
    );
}

#[test]
fn codes_are_exchanged_by_form() {
    let body = exchange_form("the-code", "the-verifier", "http://localhost:9999/auth/callback");
    assert!(body.starts_with("grant_type=authorization_code&"));
    assert!(body.contains("code=the-code"));
    assert!(body.contains("code_verifier=the-verifier"));
    assert!(body.contains("client_id=app_EMoamEEZ73f0CkXaXp7hrann"));
    assert!(body.contains("redirect_uri=http%3A%2F%2Flocalhost%3A9999%2Fauth%2Fcallback"));
    assert_eq!(
        exchange_form("a&b=c d", "v~*é", "r"),
        "grant_type=authorization_code&client_id=app_EMoamEEZ73f0CkXaXp7hrann\
         &code=a%26b%3Dc+d&redirect_uri=r&code_verifier=v%7E*%C3%A9"
    );
    assert_eq!(parse_query("code=a%26b%3Dc+d").get("code").unwrap(), "a&b=c d");
}

#[test]
fn login_urls_carry_exactly_their_parameters() {
    let url =
        build_authorize_url("https://host/authorize", "http://localhost:1/a?b&c", "ch=al", "s t");
    assert_eq!(
        url,
        "https://host/authorize?response_type=code&client_id=app_EMoamEEZ73f0CkXaXp7hrann\
         &redirect_uri=http%3A%2F%2Flocalhost%3A1%2Fa%3Fb%26c\
         &scope=openid%20profile%20email%20offline_access&code_challenge=ch%3Dal\
         &code_challenge_method=S256&state=s%20t&id_token_add_organizations=true\
         &codex_cli_simplified_flow=true&originator=lam-agent"
    );
    let params = parse_query(url.split_once('?').unwrap().1);
    assert_eq!(params.get("redirect_uri").unwrap(), "http://localhost:1/a?b&c");
    assert_eq!(params.get("scope").unwrap(), "openid profile email offline_access");
    assert_eq!(params.get("code_challenge").unwrap(), "ch=al");
    assert_eq!(params.get("state").unwrap(), "s t");
    assert!(params.get("audience").is_none());
}

#[test]
fn lock_files_replace_the_extension() {
    for (path, lock) in [
        ("/home/.codex/auth.json", "/home/.codex/auth.lock"),
        ("/home/.codex/auth", "/home/.codex/auth.lock"),
        ("/home/.codex", "/home/.codex.lock"),
        ("auth.json/", "auth.lock"),
        ("auth.json/.", "auth.lock"),
        ("a.b/c", "a.b/c.lock"),
        ("/", "/"),
        ("", ""),
        (".", "."),
        ("a/..", "a/.."),
    ] {
        assert_eq!(CodexCredentialStore::new(path.to_owned()).lock_path(), lock);
        assert_eq!(std::path::Path::new(path).with_extension("lock").to_str(), Some(lock));
    }
}
