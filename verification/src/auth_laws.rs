//! What signing in asks for, accepts and refuses.

use crate::auth;
use crate::auth::{AuthFault, ChatGptClaims, CodexAuthFile, CodexCredentials, CodexTokens, TokenExchangeResponse};
use crate::oauth;
use crate::oauth::Param;
use crate::text;
use vstd::prelude::*;

verus! {

/// The last parameter of a name counts.
pub proof fn later_parameters_win(params: Seq<Param>, key: Seq<char>, k: int)
    requires
        0 <= k < params.len(),
        params[k].key == key,
        forall|i: int| k < i < params.len() ==> (#[trigger] params[i]).key != key,
    ensures
        oauth::param_of(params, key) == Some(params[k].value),
{
    lemma_param(params, params.len() as int, key, k);
}

proof fn lemma_param(params: Seq<Param>, n: int, key: Seq<char>, k: int)
    requires
        0 <= k < n <= params.len(),
        params[k].key == key,
        forall|i: int| k < i < n ==> (#[trigger] params[i]).key != key,
    ensures
        oauth::param(params, n, key) == Some(params[k].value),
    decreases n,
{
    if k < n - 1 {
        lemma_param(params, n - 1, key, k);
    }
}

/// A parameter that is not there has no value.
pub proof fn missing_parameters_have_no_value(params: Seq<Param>, key: Seq<char>)
    requires
        forall|i: int| 0 <= i < params.len() ==> (#[trigger] params[i]).key != key,
    ensures
        oauth::param_of(params, key) is None,
{
    lemma_param_missing(params, params.len() as int, key);
}

proof fn lemma_param_missing(params: Seq<Param>, n: int, key: Seq<char>)
    requires
        0 <= n <= params.len(),
        forall|i: int| 0 <= i < n ==> (#[trigger] params[i]).key != key,
    ensures
        oauth::param(params, n, key) is None,
    decreases n,
{
    if n > 0 {
        lemma_param_missing(params, n - 1, key);
    }
}

/// A redirect that reports an error is a denial, one that brings back another
/// state is refused, one without a code is incomplete; from any other the code
/// is taken.
pub proof fn redirects_bring_a_code_or_a_reason(params: Seq<Param>, expected: Seq<char>)
    ensures
        ({
            let r = oauth::redirect_outcome(params, expected);
            let error = oauth::param_of(params, "error"@);
            let state = oauth::param_of(params, "state"@);
            let code = oauth::param_of(params, "code"@);
            &&& r is Ok <==> error is None && state == Some(expected) && (code is Some
                && !text::is_blank(code->0))
            &&& r matches Ok(taken) ==> code == Some(taken)
            &&& error is Some ==> r->Err_0 is OAuthDenied
            &&& error is Some && oauth::param_of(params, "error_description"@) is None ==> r
                == Err::<Seq<char>, AuthFault>(AuthFault::OAuthDenied(error->0))
            &&& error is Some && (oauth::param_of(params, "error_description"@) is Some
                && !text::is_blank(oauth::param_of(params, "error_description"@)->0)) ==> r
                == Err::<Seq<char>, AuthFault>(
                AuthFault::OAuthDenied(oauth::param_of(params, "error_description"@)->0),
            )
            &&& error is None && state != Some(expected) ==> r == Err::<Seq<char>, AuthFault>(
                AuthFault::OAuthStateMismatch,
            )
        }),
{
}

proof fn lemma_cut(a: Seq<char>, c: char, b: Seq<char>)
    requires
        !a.contains(c),
    ensures
        oauth::cut(a + seq![c] + b, c) == Some((a, b)),
{
    let s = a + seq![c] + b;
    let n = a.len() as int;
    assert forall|k: int| 0 <= k < n implies #[trigger] s[k] != c by {
        assert(s[k] == a[k]);
        if a[k] == c {
            assert(a.contains(c));
        }
    }
    assert(s[n] == c);
    text::lemma_index_is(s, 0, n, c);
    assert(s.take(n) =~= a);
    assert(s.skip(n + 1) =~= b);
}

/// The redirect of a login that was allowed gives back the code, whatever
/// characters it holds; on another path nothing is taken.
pub proof fn allowed_logins_give_back_their_code(
    code: Seq<char>,
    state: Seq<char>,
    path: Seq<char>,
)
    requires
        !text::is_blank(code),
        !path.contains('?'),
    ensures
        ({
            let params = seq![
                Param { key: "code"@, value: code },
                Param { key: "state"@, value: state },
            ];
            let query = oauth::query_text(params, false);
            let r = oauth::redirect_to(path + "?"@ + query, state);
            &&& path == "/auth/callback"@ ==> r == Ok::<Seq<char>, AuthFault>(code)
            &&& path != "/auth/callback"@ ==> r is Err
        }),
{
    let params = seq![
        Param { key: "code"@, value: code },
        Param { key: "state"@, value: state },
    ];
    let query = oauth::query_text(params, false);
    oauth::queries_read_back(params, false);
    reveal_strlit("?");
    assert("?"@ =~= seq!['?']);
    lemma_cut(path, '?', query);
    reveal_strlit("code");
    reveal_strlit("state");
    reveal_strlit("error");
    assert("code"@.len() == 4 && "state"@.len() == 5 && "error"@.len() == 5);
    assert("state"@[0] == 's' && "error"@[0] == 'e');
    missing_parameters_have_no_value(params, "error"@);
    later_parameters_win(params, "state"@, 1);
    later_parameters_win(params, "code"@, 0);
}

/// Only a GET request is a redirect, and what it asks for is its second word.
pub proof fn only_get_requests_are_redirects(line: Seq<char>, expected: Seq<char>)
    ensures
        ({
            let words = text::words(line);
            let r = oauth::request_outcome(line, expected);
            &&& words.len() >= 2 && words[0] == "GET"@ ==> r == oauth::redirect_to(
                words[1],
                expected,
            )
            &&& words.len() == 0 || words[0] != "GET"@ ==> r is Err
        }),
{
    reveal_strlit("GET");
    assert("GET"@.len() == 3);
}

/// A login asks for a code under its own challenge and state, and to be
/// redirected to its own address; the URL can be read back.
pub proof fn login_urls_carry_what_was_asked(
    base: Seq<char>,
    redirect_uri: Seq<char>,
    challenge: Seq<char>,
    state: Seq<char>,
)
    requires
        !base.contains('?'),
    ensures
        ({
            let url = oauth::authorize_url(base, redirect_uri, challenge, state);
            let (before, query) = oauth::target_parts(url);
            let params = oauth::query_params(query);
            &&& before == base
            &&& oauth::param_of(params, "redirect_uri"@) == Some(redirect_uri)
            &&& oauth::param_of(params, "code_challenge"@) == Some(challenge)
            &&& oauth::param_of(params, "code_challenge_method"@) == Some("S256"@)
            &&& oauth::param_of(params, "state"@) == Some(state)
            &&& oauth::param_of(params, "response_type"@) == Some("code"@)
        }),
{
    let params = oauth::login_params(redirect_uri, challenge, state);
    let query = oauth::query_text(params, false);
    oauth::queries_read_back(params, false);
    reveal_strlit("?");
    assert("?"@ =~= seq!['?']);
    lemma_cut(base, '?', query);
    reveal_strlit("response_type");
    reveal_strlit("client_id");
    reveal_strlit("redirect_uri");
    reveal_strlit("scope");
    reveal_strlit("code_challenge");
    reveal_strlit("code_challenge_method");
    reveal_strlit("state");
    reveal_strlit("id_token_add_organizations");
    reveal_strlit("codex_cli_simplified_flow");
    reveal_strlit("originator");
    assert("response_type"@.len() == 13 && "client_id"@.len() == 9 && "redirect_uri"@.len() == 12);
    assert("scope"@.len() == 5 && "scope"@[1] == 'c' && "code_challenge"@.len() == 14);
    assert("code_challenge_method"@.len() == 21 && "state"@.len() == 5 && "state"@[1] == 't');
    assert("id_token_add_organizations"@.len() == 26);
    assert("codex_cli_simplified_flow"@.len() == 25 && "originator"@.len() == 10);
    later_parameters_win(params, "response_type"@, 0);
    later_parameters_win(params, "redirect_uri"@, 2);
    later_parameters_win(params, "code_challenge"@, 4);
    later_parameters_win(params, "code_challenge_method"@, 5);
    later_parameters_win(params, "state"@, 6);
}

/// The exchange of a code carries the code, the verifier and the address of
/// its login, and can be read back.
pub proof fn exchanges_carry_their_code(
    code: Seq<char>,
    verifier: Seq<char>,
    redirect_uri: Seq<char>,
)
    ensures
        ({
            let params = oauth::query_params(oauth::exchange_text(code, verifier, redirect_uri));
            &&& oauth::param_of(params, "code"@) == Some(code)
            &&& oauth::param_of(params, "code_verifier"@) == Some(verifier)
            &&& oauth::param_of(params, "redirect_uri"@) == Some(redirect_uri)
            &&& oauth::param_of(params, "grant_type"@) == Some("authorization_code"@)
        }),
{
    let params = oauth::exchange_params(code, verifier, redirect_uri);
    oauth::queries_read_back(params, true);
    reveal_strlit("grant_type");
    reveal_strlit("client_id");
    reveal_strlit("code");
    reveal_strlit("redirect_uri");
    reveal_strlit("code_verifier");
    assert("grant_type"@.len() == 10 && "client_id"@.len() == 9 && "code"@.len() == 4);
    assert("redirect_uri"@.len() == 12 && "code_verifier"@.len() == 13);
    later_parameters_win(params, "grant_type"@, 0);
    later_parameters_win(params, "code"@, 2);
    later_parameters_win(params, "redirect_uri"@, 3);
    later_parameters_win(params, "code_verifier"@, 4);
}

/// A login cache is used exactly when it is one of ChatGPT and holds both an
/// access token and an identity token.
pub proof fn complete_logins_are_used(file: CodexAuthFile, path: Seq<char>)
    ensures
        auth::file_fault(file, path) is None <==> {
            &&& file.auth_mode matches Some(mode) && mode@ == "chatgpt"@
            &&& file.tokens matches Some(tokens) && !text::is_blank(tokens.access_token@)
                && !text::is_blank(tokens.id_token@)
        },
{
}

/// The account is the one that the cache names, or else the one that the
/// identity token claims.
pub proof fn accounts_are_named_or_claimed(tokens: CodexTokens, claims: Option<ChatGptClaims>)
    ensures
        (tokens.account_id matches Some(id) && !text::is_blank(id@)) ==> auth::account_of(
            tokens,
            claims,
        ) == Some(tokens.account_id->0@),
        (tokens.account_id is None || text::is_blank(tokens.account_id->0@)) ==> {
            &&& claims is None ==> auth::account_of(tokens, claims) is None
            &&& claims matches Some(c) ==> auth::account_of(tokens, claims) == text::opt_text(
                c.account_id,
            )
        },
{
}

/// A renewal replaces the tokens that it brings and keeps the others.
pub proof fn renewals_keep_what_they_do_not_bring(held: Seq<char>, brought: Option<String>)
    ensures
        brought matches Some(t) ==> auth::renewed(held, brought) == t@,
        brought is None ==> auth::renewed(held, brought) == held,
{
}

/// The payload of a token of three parts is the second.
pub proof fn payloads_are_the_second_part(head: Seq<char>, payload: Seq<char>, tail: Seq<char>)
    requires
        !head.contains('.'),
        !payload.contains('.'),
        payload.len() > 0,
    ensures
        auth::payload_part(head + seq!['.'] + payload + seq!['.'] + tail) == Some(payload),
{
    let rest = payload + seq!['.'] + tail;
    let token = head + seq!['.'] + payload + seq!['.'] + tail;
    assert(token =~= head + seq!['.'] + rest);
    lemma_first_piece(head, rest, '.');
    lemma_first_piece(payload, tail, '.');
    assert(text::split(token, '.') == seq![head] + text::split(rest, '.'));
    assert(text::split(rest, '.') == seq![payload] + text::split(tail, '.'));
    assert(text::split(token, '.')[1] == payload);
}

proof fn lemma_first_piece(a: Seq<char>, b: Seq<char>, c: char)
    requires
        !a.contains(c),
    ensures
        text::split(a + seq![c] + b, c) == seq![a] + text::split(b, c),
{
    text::lemma_split_around(a, b, c);
    assert(a.push(c) =~= a + seq![c]);
    let n = a.len() as int;
    assert forall|k: int| 0 <= k < n implies #[trigger] a[k] != c by {
        if a[k] == c {
            assert(a.contains(c));
        }
    }
    text::lemma_index_is(a, 0, n, c);
    assert(text::split(a, c) == seq![a.skip(0)]);
    assert(a.skip(0) =~= a);
}

/// An answer with tokens is accepted exactly when it holds all three, its
/// identity token can be read, and that names an account.
pub proof fn complete_answers_are_accepted(
    token: TokenExchangeResponse,
    decoded: bool,
    claims: Option<ChatGptClaims>,
    path: Seq<char>,
)
    ensures
        auth::token_fault(token, decoded, claims, path) is None <==> {
            &&& token.id_token matches Some(t) && !text::is_blank(t@)
            &&& token.access_token matches Some(t) && !text::is_blank(t@)
            &&& token.refresh_token matches Some(t) && !text::is_blank(t@)
            &&& decoded
            &&& claims matches Some(c) && (c.account_id matches Some(id) && !text::is_blank(id@))
        },
{
}

/// A failed renewal is reported in the words of the answer, cut to a length,
/// or in words of its own where there are none.
pub proof fn failed_renewals_are_reported(found: Option<Option<Seq<char>>>)
    ensures
        (found matches Some(Some(m)) && !text::is_blank(m)) ==> text::starts_with(
            found->0->0,
            auth::refresh_message(found),
        ),
        (found matches Some(Some(m)) && !text::is_blank(m) && m.len()
            <= auth::REFRESH_MESSAGE_CHARS) ==> auth::refresh_message(found) == found->0->0,
        auth::refresh_message(found).len() <= auth::REFRESH_MESSAGE_CHARS,
{
    if let Some(Some(m)) = found {
        assert(m.take(m.len() as int) =~= m);
    }
}

/// Requests say which account they are for, and only those of a federal
/// account say that.
pub proof fn requests_name_their_account(credentials: CodexCredentials)
    ensures
        auth::headers_of(credentials).contains(
            ("ChatGPT-Account-ID"@, credentials.account_id@),
        ),
        auth::headers_of(credentials).contains(("X-OpenAI-Fedramp"@, "true"@))
            <==> credentials.is_fedramp,
{
    let headers = auth::headers_of(credentials);
    assert(headers[3] == ("ChatGPT-Account-ID"@, credentials.account_id@));
    reveal_strlit("originator");
    reveal_strlit("version");
    reveal_strlit("user-agent");
    reveal_strlit("ChatGPT-Account-ID");
    reveal_strlit("X-OpenAI-Fedramp");
    assert("originator"@.len() == 10 && "version"@.len() == 7 && "user-agent"@.len() == 10);
    assert("ChatGPT-Account-ID"@.len() == 18 && "X-OpenAI-Fedramp"@.len() == 16);
    if credentials.is_fedramp {
        assert(headers[4] == ("X-OpenAI-Fedramp"@, "true"@));
    }
}

/// The six bits that a base64 character stands for.
pub open spec fn base64_value(c: char) -> int {
    if 'A' <= c <= 'Z' {
        c as int - 65
    } else if 'a' <= c <= 'z' {
        c as int - 97 + 26
    } else if '0' <= c <= '9' {
        c as int - 48 + 52
    } else if c == '-' {
        62
    } else if c == '_' {
        63
    } else {
        64
    }
}

proof fn lemma_base64_char(v: int)
    requires
        0 <= v < 64,
    ensures
        base64_value(oauth::base64_char(v)) == v,
{
}

proof fn lemma_sextet(bytes: Seq<u8>, i: int)
    requires
        0 <= i,
    ensures
        0 <= oauth::sextet(bytes, i) < 64,
{
    let g = 3 * (i / 4);
    assert(0 <= oauth::byte_at(bytes, g) < 256);
    assert(0 <= oauth::byte_at(bytes, g + 1) < 256);
    assert(0 <= oauth::byte_at(bytes, g + 2) < 256);
}

/// Base64 keeps every byte: four characters give back the three bytes that
/// they stand for, in the alphabet that needs no escape in a URL, and no
/// padding follows.
pub proof fn base64_gives_back_the_bytes(bytes: Seq<u8>, g: int)
    requires
        0 <= g,
        3 * g + 2 < bytes.len(),
    ensures
        ({
            let t = oauth::base64_text(bytes);
            let a = base64_value(t[4 * g]);
            let b = base64_value(t[4 * g + 1]);
            let c = base64_value(t[4 * g + 2]);
            let d = base64_value(t[4 * g + 3]);
            &&& 4 * g + 3 < t.len() == (4 * bytes.len() + 2) / 3
            &&& bytes[3 * g] == 4 * a + b / 16
            &&& bytes[3 * g + 1] == 16 * (b % 16) + c / 4
            &&& bytes[3 * g + 2] == 64 * (c % 4) + d
        }),
{
    let t = oauth::base64_text(bytes);
    let i = 4 * g;
    lemma_sextet(bytes, i);
    lemma_sextet(bytes, i + 1);
    lemma_sextet(bytes, i + 2);
    lemma_sextet(bytes, i + 3);
    lemma_base64_char(oauth::sextet(bytes, i));
    lemma_base64_char(oauth::sextet(bytes, i + 1));
    lemma_base64_char(oauth::sextet(bytes, i + 2));
    lemma_base64_char(oauth::sextet(bytes, i + 3));
    assert(i / 4 == g && (i + 1) / 4 == g && (i + 2) / 4 == g && (i + 3) / 4 == g);
    assert(i % 4 == 0 && (i + 1) % 4 == 1 && (i + 2) % 4 == 2 && (i + 3) % 4 == 3);
    assert(4 * g + 3 < (4 * bytes.len() + 2) / 3);
    let x = bytes[3 * g] as int;
    let y = bytes[3 * g + 1] as int;
    let z = bytes[3 * g + 2] as int;
    assert(oauth::sextet(bytes, i) == x / 4);
    assert(oauth::sextet(bytes, i + 1) == (x % 4) * 16 + y / 16);
    assert(oauth::sextet(bytes, i + 2) == (y % 16) * 4 + z / 64);
    assert(oauth::sextet(bytes, i + 3) == z % 64);
}

/// The two hexadecimal digits of a byte.
pub open spec fn hex_value(c: char) -> int {
    if '0' <= c <= '9' {
        c as int - 48
    } else if 'A' <= c <= 'F' {
        c as int - 65 + 10
    } else {
        16
    }
}

/// In a URL, letters, digits and `-` stand for themselves and everything
/// outside printable ASCII, and what parts a query, is written as a percent
/// sign and two digits; in a form, a space is a plus sign.
pub proof fn encoding_escapes_what_parts_a_query(b: u8, form: bool)
    ensures
        ({
            let text = oauth::encoded_byte(b, form);
            let alphanumeric = (48 <= b <= 57) || (65 <= b <= 90) || (97 <= b <= 122);
            let parts = b == 37 || b == 38 || b == 43 || b == 61 || b == 35 || b == 63 || b == 47
                || b <= 31 || b >= 127;
            &&& alphanumeric || b == 45 ==> text == seq![b as char]
            &&& parts ==> text.len() == 3 && text[0] == '%' && b == 16 * hex_value(text[1])
                + hex_value(text[2])
            &&& b == 32 && form ==> text == seq!['+']
            &&& b == 32 && !form ==> text == seq!['%', '2', '0']
        }),
{
    let text = oauth::encoded_byte(b, form);
    let hi = b as int / 16;
    let lo = b as int % 16;
    assert(hex_value(oauth::hex_char(hi)) == hi);
    assert(hex_value(oauth::hex_char(lo)) == lo);
    if b == 32 && !form {
        assert(text =~= seq!['%', '2', '0']);
    }
}

/// Tokens are renewed from five minutes before they expire on, and once due
/// they stay due.
pub proof fn tokens_are_renewed_before_they_expire(expiry: u64, now: u64, later: u64)
    ensures
        expiry >= 300 ==> (auth::is_due(expiry, now) <==> now >= expiry - 300),
        now >= expiry ==> auth::is_due(expiry, now),
        auth::is_due(expiry, now) && now <= later ==> auth::is_due(expiry, later),
{
}

/// Of a long answer its beginning is shown, with an ellipsis behind it.
pub proof fn answers_are_shown_from_their_beginning(body: Seq<char>)
    ensures
        body.len() <= 512 ==> auth::truncated(body) == body,
        body.len() > 512 ==> auth::truncated(body).len() == 513 && auth::truncated(body).last()
            == '…' && forall|i: int| 0 <= i < 512 ==> auth::truncated(body)[i] == body[i],
{
}

/// The reason of a failed renewal is the message of its error, or else the
/// message beside it.
pub proof fn reasons_are_looked_for_in_two_places(body: Seq<char>)
    ensures
        auth::json_pointer(body, "/error/message"@) is Some ==> auth::message_in(body)
            == auth::json_pointer(body, "/error/message"@),
        auth::json_pointer(body, "/error/message"@) is None ==> auth::message_in(body)
            == auth::json_pointer(body, "/message"@),
{
}

} // verus!
