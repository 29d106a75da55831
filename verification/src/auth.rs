//! Credentials of a ChatGPT subscription, as the official login cache keeps
//! them.

use crate::oauth::decode_base64;
use crate::oauth;
use crate::text;
use vstd::prelude::*;
use vstd::string::*;

verus! {

/// Seconds before its expiry at which a token is renewed.
pub const REFRESH_SKEW: u64 = 300;

/// Why a login or its credentials cannot be used. Causes are texts.
#[derive(Debug, PartialEq, Eq)]
pub enum CodexAuthError {
    HomeUnavailable,
    Read { path: String, source: String },
    Parse { path: String, source: String },
    InvalidCredentials { path: String, message: String },
    InvalidJwt,
    AccountChanged,
    CredentialsExist { path: String },
    Serialize { path: String, source: String },
    Write { path: String, source: String },
    RefreshHttp(String),
    RefreshStatus { status: u16, message: String },
    InvalidHeader(String),
    OAuthHttp(String),
    OAuthListener(String),
    OAuthTimedOut,
    OAuthStateMismatch,
    OAuthDenied(String),
    OAuthRedirect(String),
    OAuthTokenStatus { status: u16, body: String },
    OAuthJson { source: String },
    OAuthRandom,
}

/// The value of a [`CodexAuthError`].
pub enum AuthFault {
    HomeUnavailable,
    Read(Seq<char>, Seq<char>),
    Parse(Seq<char>, Seq<char>),
    InvalidCredentials(Seq<char>, Seq<char>),
    InvalidJwt,
    AccountChanged,
    CredentialsExist(Seq<char>),
    Serialize(Seq<char>, Seq<char>),
    Write(Seq<char>, Seq<char>),
    RefreshHttp(Seq<char>),
    RefreshStatus(u16, Seq<char>),
    InvalidHeader(Seq<char>),
    OAuthHttp(Seq<char>),
    OAuthListener(Seq<char>),
    OAuthTimedOut,
    OAuthStateMismatch,
    OAuthDenied(Seq<char>),
    OAuthRedirect(Seq<char>),
    OAuthTokenStatus(u16, Seq<char>),
    OAuthJson(Seq<char>),
    OAuthRandom,
}

impl View for CodexAuthError {
    type V = AuthFault;

    open spec fn view(&self) -> AuthFault {
        match self {
            CodexAuthError::HomeUnavailable => AuthFault::HomeUnavailable,
            CodexAuthError::Read { path, source } => AuthFault::Read(path@, source@),
            CodexAuthError::Parse { path, source } => AuthFault::Parse(path@, source@),
            CodexAuthError::InvalidCredentials { path, message } => {
                AuthFault::InvalidCredentials(path@, message@)
            },
            CodexAuthError::InvalidJwt => AuthFault::InvalidJwt,
            CodexAuthError::AccountChanged => AuthFault::AccountChanged,
            CodexAuthError::CredentialsExist { path } => AuthFault::CredentialsExist(path@),
            CodexAuthError::Serialize { path, source } => AuthFault::Serialize(path@, source@),
            CodexAuthError::Write { path, source } => AuthFault::Write(path@, source@),
            CodexAuthError::RefreshHttp(e) => AuthFault::RefreshHttp(e@),
            CodexAuthError::RefreshStatus { status, message } => {
                AuthFault::RefreshStatus(*status, message@)
            },
            CodexAuthError::InvalidHeader(e) => AuthFault::InvalidHeader(e@),
            CodexAuthError::OAuthHttp(e) => AuthFault::OAuthHttp(e@),
            CodexAuthError::OAuthListener(e) => AuthFault::OAuthListener(e@),
            CodexAuthError::OAuthTimedOut => AuthFault::OAuthTimedOut,
            CodexAuthError::OAuthStateMismatch => AuthFault::OAuthStateMismatch,
            CodexAuthError::OAuthDenied(e) => AuthFault::OAuthDenied(e@),
            CodexAuthError::OAuthRedirect(e) => AuthFault::OAuthRedirect(e@),
            CodexAuthError::OAuthTokenStatus { status, body } => {
                AuthFault::OAuthTokenStatus(*status, body@)
            },
            CodexAuthError::OAuthJson { source } => AuthFault::OAuthJson(source@),
            CodexAuthError::OAuthRandom => AuthFault::OAuthRandom,
        }
    }
}

impl AuthFault {
    /// The text of the error.
    pub open spec fn text(self) -> Seq<char> {
        match self {
            AuthFault::HomeUnavailable => "could not determine CODEX_HOME or the home directory"@,
            AuthFault::Read(path, source) => "could not read Codex credentials at `"@ + path
                + "`: "@ + source + "; run `lam-agent login openai`"@,
            AuthFault::Parse(path, source) => "could not parse Codex credentials at `"@ + path
                + "`: "@ + source,
            AuthFault::InvalidCredentials(path, message) => "invalid Codex credentials at `"@
                + path + "`: "@ + message,
            AuthFault::InvalidJwt => "Codex credential token is not a valid JWT"@,
            AuthFault::AccountChanged => {
                "the Codex login changed to another ChatGPT workspace; restart Lam"@
            },
            AuthFault::CredentialsExist(path) => "Codex credentials already exist at `"@ + path
                + "`; run `lam-agent logout openai` first, or pass --force to replace them"@,
            AuthFault::Serialize(path, source) => "could not serialize Codex credentials at `"@
                + path + "`: "@ + source,
            AuthFault::Write(path, source) => "could not write Codex credentials at `"@ + path
                + "`: "@ + source,
            AuthFault::RefreshHttp(e) => "Codex token refresh request failed: "@ + e,
            AuthFault::RefreshStatus(status, message) => "Codex token refresh returned HTTP "@
                + text::decimal(status as nat) + ": "@ + message,
            AuthFault::InvalidHeader(e) => "invalid Codex request header: "@ + e,
            AuthFault::OAuthHttp(e) => "OpenAI OAuth request failed: "@ + e,
            AuthFault::OAuthListener(e) => {
                "could not start the local OAuth callback listener (the Codex flow needs port 1455 free): "@
                    + e
            },
            AuthFault::OAuthTimedOut => {
                "OpenAI authorization timed out; no browser redirect was received"@
            },
            AuthFault::OAuthStateMismatch => {
                "OpenAI OAuth redirect state did not match; refusing the redirect"@
            },
            AuthFault::OAuthDenied(e) => "OpenAI authorization was denied: "@ + e,
            AuthFault::OAuthRedirect(e) => "invalid OpenAI OAuth redirect: "@ + e,
            AuthFault::OAuthTokenStatus(status, body) => "OpenAI token exchange returned HTTP "@
                + text::decimal(status as nat) + ": "@ + body,
            AuthFault::OAuthJson(source) => "OpenAI token exchange returned invalid JSON: "@
                + source,
            AuthFault::OAuthRandom => "could not generate a secure random PKCE verifier"@,
        }
    }
}

fn joined4(a: &str, b: &str, c: &str, d: &str) -> (r: String)
    ensures
        r@ == a@ + b@ + c@ + d@,
{
    let mut r = text::concat3(a, b, c);
    r.append(d);
    r
}

impl CodexAuthError {
    /// The text of the error.
    pub fn message(&self) -> (r: String)
        ensures
            r@ == self@.text(),
    {
        match self {
            CodexAuthError::HomeUnavailable => {
                "could not determine CODEX_HOME or the home directory".to_owned()
            },
            CodexAuthError::Read { path, source } => {
                let mut r = joined4(
                    "could not read Codex credentials at `",
                    path.as_str(),
                    "`: ",
                    source.as_str(),
                );
                r.append("; run `lam-agent login openai`");
                r
            },
            CodexAuthError::Parse { path, source } => joined4(
                "could not parse Codex credentials at `",
                path.as_str(),
                "`: ",
                source.as_str(),
            ),
            CodexAuthError::InvalidCredentials { path, message } => joined4(
                "invalid Codex credentials at `",
                path.as_str(),
                "`: ",
                message.as_str(),
            ),
            CodexAuthError::InvalidJwt => "Codex credential token is not a valid JWT".to_owned(),
            CodexAuthError::AccountChanged => {
                "the Codex login changed to another ChatGPT workspace; restart Lam".to_owned()
            },
            CodexAuthError::CredentialsExist { path } => text::concat3(
                "Codex credentials already exist at `",
                path.as_str(),
                "`; run `lam-agent logout openai` first, or pass --force to replace them",
            ),
            CodexAuthError::Serialize { path, source } => joined4(
                "could not serialize Codex credentials at `",
                path.as_str(),
                "`: ",
                source.as_str(),
            ),
            CodexAuthError::Write { path, source } => joined4(
                "could not write Codex credentials at `",
                path.as_str(),
                "`: ",
                source.as_str(),
            ),
            CodexAuthError::RefreshHttp(e) => {
                text::concat("Codex token refresh request failed: ", e.as_str())
            },
            CodexAuthError::RefreshStatus { status, message } => joined4(
                "Codex token refresh returned HTTP ",
                text::decimal_text(*status as u64).as_str(),
                ": ",
                message.as_str(),
            ),
            CodexAuthError::InvalidHeader(e) => {
                text::concat("invalid Codex request header: ", e.as_str())
            },
            CodexAuthError::OAuthHttp(e) => {
                text::concat("OpenAI OAuth request failed: ", e.as_str())
            },
            CodexAuthError::OAuthListener(e) => text::concat(
                "could not start the local OAuth callback listener (the Codex flow needs port 1455 free): ",
                e.as_str(),
            ),
            CodexAuthError::OAuthTimedOut => {
                "OpenAI authorization timed out; no browser redirect was received".to_owned()
            },
            CodexAuthError::OAuthStateMismatch => {
                "OpenAI OAuth redirect state did not match; refusing the redirect".to_owned()
            },
            CodexAuthError::OAuthDenied(e) => {
                text::concat("OpenAI authorization was denied: ", e.as_str())
            },
            CodexAuthError::OAuthRedirect(e) => {
                text::concat("invalid OpenAI OAuth redirect: ", e.as_str())
            },
            CodexAuthError::OAuthTokenStatus { status, body } => joined4(
                "OpenAI token exchange returned HTTP ",
                text::decimal_text(*status as u64).as_str(),
                ": ",
                body.as_str(),
            ),
            CodexAuthError::OAuthJson { source } => {
                text::concat("OpenAI token exchange returned invalid JSON: ", source.as_str())
            },
            CodexAuthError::OAuthRandom => {
                "could not generate a secure random PKCE verifier".to_owned()
            },
        }
    }
}

/// The tokens of a login.
#[derive(Clone, Debug, PartialEq, Eq)]
pub struct CodexTokens {
    pub id_token: String,
    pub access_token: String,
    pub refresh_token: String,
    pub account_id: Option<String>,
}

/// The part of the login cache that is read here.
#[derive(Clone, Debug, PartialEq, Eq)]
pub struct CodexAuthFile {
    pub auth_mode: Option<String>,
    pub tokens: Option<CodexTokens>,
}

/// What an identity token says of the account.
#[derive(Clone, Debug, PartialEq, Eq)]
pub struct ChatGptClaims {
    pub account_id: Option<String>,
    pub is_fedramp: bool,
}

/// Credentials ready for use.
#[derive(Clone, Debug, PartialEq, Eq)]
pub struct CodexCredentials {
    pub access_token: String,
    pub account_id: String,
    pub is_fedramp: bool,
}

/// Where the login cache is.
#[derive(Clone, Debug, PartialEq, Eq)]
pub struct CodexCredentialStore {
    path: String,
}

/// Position behind the last slash of a path.
pub open spec fn name_start(path: Seq<char>) -> int {
    match text::last_index_of(path, path.len() as int, '/') {
        Some(i) => i + 1,
        None => 0,
    }
}

/// A path below a directory.
pub open spec fn below(dir: Seq<char>, name: Seq<char>) -> Seq<char> {
    if dir.len() == 0 || dir.last() == '/' {
        dir + name
    } else {
        dir + "/"@ + name
    }
}

/// The path of `name` below a directory.
pub fn join_path(dir: &str, name: &str) -> (r: String)
    ensures
        r@ == below(dir@, name@),
{
    let count: usize = dir.unicode_len();
    if count == 0 || dir.get_char(count - 1) == '/' {
        text::concat(dir, name)
    } else {
        text::concat3(dir, "/", name)
    }
}

/// Length of a path without the separators and the `.` components at its end.
pub open spec fn path_end(path: Seq<char>, n: int) -> int
    decreases n,
{
    if 0 < n <= path.len() && (path[n - 1] == '/' || (n > 1 && path[n - 1] == '.' && path[n - 2]
        == '/')) {
        path_end(path, n - 1)
    } else {
        n
    }
}

proof fn lemma_path_end(path: Seq<char>, n: int)
    requires
        0 <= n <= path.len(),
    ensures
        0 <= path_end(path, n) <= n,
    decreases n,
{
    if n > 0 {
        lemma_path_end(path, n - 1);
    }
}

/// Whether a last component is the name of a file.
pub open spec fn names_a_file(name: Seq<char>) -> bool {
    name.len() > 0 && name != "."@ && name != ".."@
}

/// The path with the extension of its file replaced. A leading dot is part of
/// the name; a path that ends in no name stays as it is.
pub open spec fn with_extension(path: Seq<char>, extension: Seq<char>) -> Seq<char> {
    let file = path.take(path_end(path, path.len() as int));
    let start = name_start(file);
    if !names_a_file(file.skip(start)) {
        path
    } else {
        match text::last_index_of(file, file.len() as int, '.') {
            Some(i) => if i > start {
                file.take(i) + "."@ + extension
            } else {
                file + "."@ + extension
            },
            None => file + "."@ + extension,
        }
    }
}

/// The path without the separators and the `.` components at its end.
fn without_trailing(path: &str) -> (r: String)
    ensures
        r@ == path@.take(path_end(path@, path@.len() as int)),
{
    let chars = text::chars_of(path);
    let mut n: usize = chars.len();
    proof {
        lemma_path_end(path@, path@.len() as int);
    }
    while n > 0 && (chars[n - 1] == '/' || (n > 1 && chars[n - 1] == '.' && chars[n - 2] == '/'))
        invariant
            chars@ == path@,
            n <= chars@.len(),
            path_end(path@, path@.len() as int) == path_end(path@, n as int),
        decreases n,
    {
        n -= 1;
    }
    let r = text::text_of(&chars, 0, n);
    proof {
        assert(r@ =~= path@.take(n as int));
    }
    r
}

/// The path with the extension of its file replaced.
pub(crate) fn replace_extension(path: &str, extension: &str) -> (r: String)
    ensures
        r@ == with_extension(path@, extension@),
{
    let file = without_trailing(path);
    let chars = text::chars_of(file.as_str());
    let count: usize = chars.len();
    let start: usize = match text::rfind(&chars, '/') {
        Some(i) => i + 1,
        None => 0,
    };
    let name = text::text_of(&chars, start, count);
    proof {
        assert(name@ =~= file@.skip(start as int));
    }
    if name.as_str().is_empty() || text::same(name.as_str(), ".") || text::same(
        name.as_str(),
        "..",
    ) {
        return path.to_owned();
    }
    if let Some(i) = text::rfind(&chars, '.') {
        if i > start {
            let head = text::text_of(&chars, 0, i);
            proof {
                assert(head@ =~= file@.take(i as int));
            }
            return text::concat3(head.as_str(), ".", extension);
        }
    }
    text::concat3(file.as_str(), ".", extension)
}

impl CodexCredentialStore {
    pub closed spec fn path_view(self) -> Seq<char> {
        self.path@
    }

    pub fn new(path: String) -> (r: Self)
        ensures
            r.path_view() == path@,
    {
        CodexCredentialStore { path }
    }

    /// The cache of a user: in `codex_home` if it is set, else in the home
    /// directory.
    pub fn default_store(codex_home: Option<&str>, home: Option<&str>) -> (r: Result<
        Self,
        CodexAuthError,
    >)
        ensures
            match codex_home {
                Some(dir) => r is Ok && r->Ok_0.path_view() == below(dir@, "auth.json"@),
                None => match home {
                    Some(dir) => r is Ok && r->Ok_0.path_view() == below(
                        dir@,
                        ".codex/auth.json"@,
                    ),
                    None => r is Err && r->Err_0@ == AuthFault::HomeUnavailable,
                },
            },
    {
        match codex_home {
            Some(dir) => Ok(CodexCredentialStore { path: join_path(dir, "auth.json") }),
            None => match home {
                Some(dir) => Ok(
                    CodexCredentialStore { path: join_path(dir, ".codex/auth.json") },
                ),
                None => Err(CodexAuthError::HomeUnavailable),
            },
        }
    }

    pub fn path(&self) -> (r: &str)
        ensures
            r@ == self.path_view(),
    {
        self.path.as_str()
    }

    /// The lock file beside the cache.
    pub fn lock_path(&self) -> (r: String)
        ensures
            r@ == with_extension(self.path_view(), "lock"@),
    {
        replace_extension(self.path.as_str(), "lock")
    }

    /// The file that a process writes before it replaces the cache.
    pub fn temp_path(&self, process: u64) -> (r: String)
        ensures
            r@ == with_extension(
                self.path_view(),
                "json.lam."@ + text::decimal(process as nat) + ".tmp"@,
            ),
    {
        let extension = text::concat3(
            "json.lam.",
            text::decimal_text(process).as_str(),
            ".tmp",
        );
        replace_extension(self.path.as_str(), extension.as_str())
    }
}

/// Refuses to replace a usable login unless forced: other tools share it.
pub fn ensure_overwrite_allowed(store: &CodexCredentialStore, usable: bool, force: bool) -> (r:
    Result<(), CodexAuthError>)
    ensures
        r is Ok == (force || !usable),
        r matches Err(e) ==> e@ == AuthFault::CredentialsExist(store.path_view()),
{
    if !force && usable {
        return Err(CodexAuthError::CredentialsExist { path: store.path().to_owned() });
    }
    Ok(())
}

/// The outcome of a check as a mathematical value.
pub open spec fn checked(r: Result<(), CodexAuthError>) -> Option<AuthFault> {
    match r {
        Ok(_) => None,
        Err(e) => Some(e@),
    }
}

/// What is wrong with a login cache.
pub open spec fn file_fault(file: CodexAuthFile, path: Seq<char>) -> Option<AuthFault> {
    if text::opt_text(file.auth_mode) != Some("chatgpt"@) {
        Some(
            AuthFault::InvalidCredentials(
                path,
                "Codex is not signed in with ChatGPT; run `lam-agent login openai`"@,
            ),
        )
    } else {
        match file.tokens {
            None => Some(
                AuthFault::InvalidCredentials(
                    path,
                    "token data is missing; run `lam-agent login openai`"@,
                ),
            ),
            Some(tokens) => if text::is_blank(tokens.access_token@) || text::is_blank(
                tokens.id_token@,
            ) {
                Some(
                    AuthFault::InvalidCredentials(
                        path,
                        "token data is incomplete; run `lam-agent login openai`"@,
                    ),
                )
            } else {
                None
            },
        }
    }
}

fn invalid(path: &str, message: &str) -> (r: CodexAuthError)
    ensures
        r@ == AuthFault::InvalidCredentials(path@, message@),
{
    CodexAuthError::InvalidCredentials { path: path.to_owned(), message: message.to_owned() }
}

/// Checks a login cache.
pub fn validate_auth_file(file: &CodexAuthFile, path: &str) -> (r: Result<(), CodexAuthError>)
    ensures
        checked(r) == file_fault(*file, path@),
{
    let chatgpt = match &file.auth_mode {
        Some(mode) => text::same(mode.as_str(), "chatgpt"),
        None => false,
    };
    if !chatgpt {
        return Err(
            invalid(path, "Codex is not signed in with ChatGPT; run `lam-agent login openai`"),
        );
    }
    match &file.tokens {
        None => Err(invalid(path, "token data is missing; run `lam-agent login openai`")),
        Some(tokens) => {
            if text::blank(tokens.access_token.as_str()) || text::blank(
                tokens.id_token.as_str(),
            ) {
                return Err(
                    invalid(path, "token data is incomplete; run `lam-agent login openai`"),
                );
            }
            Ok(())
        },
    }
}

/// The account that a cache and its claims name: the cache's own if it is not
/// blank.
pub open spec fn account_of(tokens: CodexTokens, claims: Option<ChatGptClaims>) -> Option<
    Seq<char>,
> {
    match tokens.account_id {
        Some(id) => if !text::is_blank(id@) {
            Some(id@)
        } else {
            claimed_account(claims)
        },
        None => claimed_account(claims),
    }
}

pub open spec fn claimed_account(claims: Option<ChatGptClaims>) -> Option<Seq<char>> {
    match claims {
        Some(c) => text::opt_text(c.account_id),
        None => None,
    }
}

/// The credentials of a login cache whose identity token makes the given
/// claims.
pub fn credentials_from_file(
    file: &CodexAuthFile,
    claims: Option<ChatGptClaims>,
    path: &str,
) -> (r: Result<CodexCredentials, CodexAuthError>)
    requires
        file.tokens is Some,
    ensures
        match account_of(file.tokens->0, claims) {
            Some(account) => {
                &&& r is Ok
                &&& r->Ok_0.access_token@ == file.tokens->0.access_token@
                &&& r->Ok_0.account_id@ == account
                &&& r->Ok_0.is_fedramp == (claims matches Some(c) && c.is_fedramp)
            },
            None => r is Err && r->Err_0@ == AuthFault::InvalidCredentials(
                path@,
                "ChatGPT account ID is missing; run `lam-agent login openai`"@,
            ),
        },
{
    match &file.tokens {
        None => Err(invalid(path, "token data is missing; run `lam-agent login openai`")),
        Some(tokens) => {
            let is_fedramp = match &claims {
                Some(c) => c.is_fedramp,
                None => false,
            };
            let own = match &tokens.account_id {
                Some(id) => if text::blank(id.as_str()) {
                    None
                } else {
                    Some(id.clone())
                },
                None => None,
            };
            let account = match own {
                Some(id) => Some(id),
                None => match claims {
                    Some(c) => c.account_id,
                    None => None,
                },
            };
            match account {
                Some(account_id) => Ok(
                    CodexCredentials {
                        access_token: tokens.access_token.clone(),
                        account_id,
                        is_fedramp,
                    },
                ),
                None => Err(
                    invalid(path, "ChatGPT account ID is missing; run `lam-agent login openai`"),
                ),
            }
        },
    }
}

/// Whether a token that expires at `expiry` has to be renewed at `now`.
pub open spec fn is_due(expiry: u64, now: u64) -> bool {
    now + REFRESH_SKEW >= expiry || now + REFRESH_SKEW > u64::MAX
}

/// Whether a token that expires at `expiry` has to be renewed at `now`, both
/// in seconds.
pub fn needs_refresh(expiry: u64, now: u64) -> (r: bool)
    ensures
        r == is_due(expiry, now),
{
    now.saturating_add(REFRESH_SKEW) >= expiry
}

/// The payload of a JSON web token: its second part.
pub open spec fn payload_part(token: Seq<char>) -> Option<Seq<char>> {
    let parts = text::split(token, '.');
    if parts.len() > 1 && parts[1].len() > 0 {
        Some(parts[1])
    } else {
        None
    }
}

/// The bytes that the payload of a token holds. The signature is not checked:
/// the token comes from a place that is trusted for the token itself.
pub fn decode_jwt(token: &str) -> (r: Result<Vec<u8>, CodexAuthError>)
    ensures
        match r {
            Ok(bytes) => payload_part(token@) == Some(oauth::base64_text(bytes@)),
            Err(e) => e@ == AuthFault::InvalidJwt && (payload_part(token@) matches Some(part)
                ==> forall|bytes: Seq<u8>| #[trigger] oauth::base64_text(bytes) != part),
        },
{
    let parts = text::split_on(token, '.');
    proof {
        let all = text::texts(parts@);
        assert(all.len() == parts@.len());
        if all.len() > 1 {
            assert(all[1] == parts@[1]@);
        }
    }
    if parts.len() < 2 || parts[1].as_str().is_empty() {
        return Err(CodexAuthError::InvalidJwt);
    }
    match decode_base64(parts[1].as_str()) {
        Some(bytes) => Ok(bytes),
        None => Err(CodexAuthError::InvalidJwt),
    }
}

/// What a renewal brought.
#[derive(Clone, Debug, PartialEq, Eq)]
pub struct RefreshResponse {
    pub id_token: Option<String>,
    pub access_token: Option<String>,
    pub refresh_token: Option<String>,
}

/// The token that renews a login.
pub fn refresh_token(file: &CodexAuthFile, path: &str) -> (r: Result<String, CodexAuthError>)
    ensures
        match file.tokens {
            Some(tokens) => if text::is_blank(tokens.refresh_token@) {
                r is Err && r->Err_0@ == AuthFault::InvalidCredentials(
                    path@,
                    "refresh token is missing; run `lam-agent login openai`"@,
                )
            } else {
                r is Ok && r->Ok_0@ == tokens.refresh_token@
            },
            None => r is Err && r->Err_0@ == AuthFault::InvalidCredentials(
                path@,
                "refresh token is missing; run `lam-agent login openai`"@,
            ),
        },
{
    if let Some(tokens) = &file.tokens {
        if !text::blank(tokens.refresh_token.as_str()) {
            return Ok(tokens.refresh_token.clone());
        }
    }
    Err(invalid(path, "refresh token is missing; run `lam-agent login openai`"))
}

/// A token after a renewal that may have replaced it.
pub open spec fn renewed(old_token: Seq<char>, new_token: Option<String>) -> Seq<char> {
    match new_token {
        Some(t) => t@,
        None => old_token,
    }
}

/// The tokens after a renewal: each that it brought replaces the old one.
pub fn apply_refresh(tokens: CodexTokens, response: RefreshResponse) -> (r: CodexTokens)
    ensures
        r.id_token@ == renewed(tokens.id_token@, response.id_token),
        r.access_token@ == renewed(tokens.access_token@, response.access_token),
        r.refresh_token@ == renewed(tokens.refresh_token@, response.refresh_token),
        r.account_id == tokens.account_id,
{
    let mut r = tokens;
    if let Some(t) = response.id_token {
        r.id_token = t;
    }
    if let Some(t) = response.access_token {
        r.access_token = t;
    }
    if let Some(t) = response.refresh_token {
        r.refresh_token = t;
    }
    r
}

/// Checks that a login is still that of the account it started with.
pub fn check_account(expected: &Option<String>, account_id: &str) -> (r: Result<
    (),
    CodexAuthError,
>)
    ensures
        r is Ok == (expected matches Some(e) ==> e@ == account_id@),
        r matches Err(e) ==> e@ == AuthFault::AccountChanged,
{
    match expected {
        Some(e) => if text::same(e.as_str(), account_id) {
            Ok(())
        } else {
            Err(CodexAuthError::AccountChanged)
        },
        None => Ok(()),
    }
}

/// The string at a pointer of a JSON text: absent, no string, or a string.
pub uninterp spec fn json_pointer(json: Seq<char>, pointer: Seq<char>) -> Option<
    Option<Seq<char>>,
>;

/// `serde_json::Value::pointer` on the value that a JSON text holds.
#[verifier::external_body]
fn text_at(json: &str, pointer: &str) -> (r: Option<Option<String>>)
    ensures
        (match r {
            Some(s) => Some(text::opt_text(s)),
            None => None,
        }) == json_pointer(json@, pointer@),
{
    let value: serde_json::Value = serde_json::from_str(json).ok()?;
    value.pointer(pointer).map(|found| found.as_str().map(str::to_owned))
}

/// Characters of a server's message that are shown.
pub const REFRESH_MESSAGE_CHARS: usize = 500;

/// The message that is shown for a failed renewal.
pub open spec fn refresh_message(found: Option<Option<Seq<char>>>) -> Seq<char> {
    let message = match found {
        Some(Some(m)) => if text::is_blank(m) {
            "Codex token refresh failed; run `lam-agent login openai`"@
        } else {
            m
        },
        _ => "Codex token refresh failed; run `lam-agent login openai`"@,
    };
    if message.len() <= REFRESH_MESSAGE_CHARS {
        message
    } else {
        message.take(REFRESH_MESSAGE_CHARS as int)
    }
}

/// Where the answer to a failed renewal holds its message.
pub open spec fn message_in(body: Seq<char>) -> Option<Option<Seq<char>>> {
    match json_pointer(body, "/error/message"@) {
        Some(m) => Some(m),
        None => json_pointer(body, "/message"@),
    }
}

/// The message to show for what was found in an answer.
pub fn shown_refresh_message(found: Option<Option<String>>) -> (r: String)
    ensures
        r@ == refresh_message(
            match found {
                Some(s) => Some(text::opt_text(s)),
                None => None,
            },
        ),
{
    let message = match found {
        Some(Some(m)) => if text::blank(m.as_str()) {
            "Codex token refresh failed; run `lam-agent login openai`".to_owned()
        } else {
            m
        },
        _ => "Codex token refresh failed; run `lam-agent login openai`".to_owned(),
    };
    text::first_chars(message.as_str(), REFRESH_MESSAGE_CHARS)
}

/// The message to show for the answer to a failed renewal.
pub fn refresh_error_message(body: &str) -> (r: String)
    ensures
        r@ == refresh_message(message_in(body@)),
{
    let found = match text_at(body, "/error/message") {
        Some(m) => Some(m),
        None => text_at(body, "/message"),
    };
    shown_refresh_message(found)
}

/// Characters of a server's answer that are shown.
pub const TRUNCATED_CHARS: usize = 512;

/// The start of a text, with an ellipsis where it was cut.
pub open spec fn truncated(body: Seq<char>) -> Seq<char> {
    if body.len() <= TRUNCATED_CHARS {
        body
    } else {
        body.take(TRUNCATED_CHARS as int).push('…')
    }
}

/// The start of a text, with an ellipsis where it was cut.
pub fn truncate(body: &str) -> (r: String)
    ensures
        r@ == truncated(body@),
{
    let count: usize = body.unicode_len();
    let mut r = text::first_chars(body, TRUNCATED_CHARS);
    if count > TRUNCATED_CHARS {
        r.push('…');
    }
    r
}

/// What a token endpoint answered.
#[derive(Clone, Debug, PartialEq, Eq)]
pub struct TokenExchangeResponse {
    pub access_token: Option<String>,
    pub refresh_token: Option<String>,
    pub id_token: Option<String>,
    pub error: Option<String>,
    pub error_description: Option<String>,
}

/// A text that is there and not blank.
pub open spec fn present(s: Option<String>) -> bool {
    s matches Some(t) && !text::is_blank(t@)
}

fn is_present(s: &Option<String>) -> (r: bool)
    ensures
        r == present(*s),
{
    match s {
        Some(t) => !text::blank(t.as_str()),
        None => false,
    }
}

/// Rejects an answer that reports an error; a description is preferred.
pub fn check_exchange(token: &TokenExchangeResponse) -> (r: Result<(), CodexAuthError>)
    ensures
        checked(r) == (match token.error {
            Some(error) => Some(
                AuthFault::OAuthDenied(
                    if present(token.error_description) {
                        token.error_description->0@
                    } else {
                        error@
                    },
                ),
            ),
            None => None,
        }),
{
    match &token.error {
        None => Ok(()),
        Some(error) => {
            if let Some(description) = &token.error_description {
                if !text::blank(description.as_str()) {
                    return Err(CodexAuthError::OAuthDenied(description.clone()));
                }
            }
            Err(CodexAuthError::OAuthDenied(error.clone()))
        },
    }
}

/// What is wrong with a token response; `decoded` tells whether its identity
/// token could be read, `claims` what it claims.
pub open spec fn token_fault(
    token: TokenExchangeResponse,
    decoded: bool,
    claims: Option<ChatGptClaims>,
    path: Seq<char>,
) -> Option<AuthFault> {
    if !present(token.id_token) {
        Some(
            AuthFault::InvalidCredentials(
                path,
                "the OAuth token response is missing id_token"@,
            ),
        )
    } else if !present(token.access_token) {
        Some(
            AuthFault::InvalidCredentials(
                path,
                "the OAuth token response is missing access_token"@,
            ),
        )
    } else if !present(token.refresh_token) {
        Some(
            AuthFault::InvalidCredentials(
                path,
                "the OAuth token response is missing refresh_token"@,
            ),
        )
    } else if !decoded {
        Some(AuthFault::InvalidJwt)
    } else {
        match claimed_account(claims) {
            Some(id) => if text::is_blank(id) {
                Some(
                    AuthFault::InvalidCredentials(
                        path,
                        "id_token is missing the ChatGPT account id"@,
                    ),
                )
            } else {
                None
            },
            None => Some(
                AuthFault::InvalidCredentials(
                    path,
                    "id_token is missing the ChatGPT account id"@,
                ),
            ),
        }
    }
}

/// Builds the login cache from the answer of a token endpoint.
pub fn auth_file_from_token_response(
    token: TokenExchangeResponse,
    decoded: bool,
    claims: Option<ChatGptClaims>,
    path: &str,
) -> (r: Result<CodexAuthFile, CodexAuthError>)
    ensures
        match token_fault(token, decoded, claims, path@) {
            Some(fault) => r is Err && r->Err_0@ == fault,
            None => {
                &&& r is Ok
                &&& file_fault(r->Ok_0, path@) is None
                &&& r->Ok_0.tokens is Some
                &&& r->Ok_0.tokens->0.id_token@ == token.id_token->0@
                &&& r->Ok_0.tokens->0.access_token@ == token.access_token->0@
                &&& r->Ok_0.tokens->0.refresh_token@ == token.refresh_token->0@
                &&& text::opt_text(r->Ok_0.tokens->0.account_id) == claimed_account(claims)
            },
        },
{
    if !is_present(&token.id_token) {
        return Err(invalid(path, "the OAuth token response is missing id_token"));
    }
    if !is_present(&token.access_token) {
        return Err(invalid(path, "the OAuth token response is missing access_token"));
    }
    if !is_present(&token.refresh_token) {
        return Err(invalid(path, "the OAuth token response is missing refresh_token"));
    }
    if !decoded {
        return Err(CodexAuthError::InvalidJwt);
    }
    let account = match claims {
        Some(c) => c.account_id,
        None => None,
    };
    if !is_present(&account) {
        return Err(invalid(path, "id_token is missing the ChatGPT account id"));
    }
    match (token.id_token, token.access_token, token.refresh_token) {
        (Some(id_token), Some(access_token), Some(refresh_token)) => Ok(
            CodexAuthFile {
                auth_mode: Some("chatgpt".to_owned()),
                tokens: Some(
                    CodexTokens { id_token, access_token, refresh_token, account_id: account },
                ),
            },
        ),
        _ => Err(CodexAuthError::InvalidJwt),
    }
}

/// The headers of a model request, by name and value.
pub open spec fn headers_of(credentials: CodexCredentials) -> Seq<(Seq<char>, Seq<char>)> {
    let base = seq![
        ("originator"@, "codex_cli_rs"@),
        ("version"@, "0.146.0"@),
        ("user-agent"@, "codex_cli_rs/0.146.0 (lam-agent)"@),
        ("ChatGPT-Account-ID"@, credentials.account_id@),
    ];
    if credentials.is_fedramp {
        base.push(("X-OpenAI-Fedramp"@, "true"@))
    } else {
        base
    }
}

/// The values of a list of headers.
pub open spec fn header_values(v: Seq<(String, String)>) -> Seq<(Seq<char>, Seq<char>)> {
    v.map_values(|h: (String, String)| (h.0@, h.1@))
}

fn push_header(headers: &mut Vec<(String, String)>, name: &str, value: &str)
    ensures
        header_values(final(headers)@) == header_values(old(headers)@).push((name@, value@)),
{
    let ghost before = headers@;
    headers.push((name.to_owned(), value.to_owned()));
    proof {
        assert(header_values(headers@) =~= header_values(before).push((name@, value@)));
    }
}

/// The headers of a model request. The backend routes by the identity of the
/// official client.
pub fn default_headers(credentials: &CodexCredentials) -> (r: Vec<(String, String)>)
    ensures
        header_values(r@) == headers_of(*credentials),
{
    let mut r: Vec<(String, String)> = Vec::new();
    proof {
        assert(header_values(r@) =~= Seq::empty());
    }
    push_header(&mut r, "originator", "codex_cli_rs");
    push_header(&mut r, "version", "0.146.0");
    push_header(&mut r, "user-agent", "codex_cli_rs/0.146.0 (lam-agent)");
    push_header(&mut r, "ChatGPT-Account-ID", credentials.account_id.as_str());
    if credentials.is_fedramp {
        push_header(&mut r, "X-OpenAI-Fedramp", "true");
    }
    proof {
        assert(header_values(r@) =~= headers_of(*credentials));
    }
    r
}

} // verus!
