//! Provider authentication profiles: which scheme a provider authenticates
//! with, which header carries the secret, and the header list a request is
//! sent with. Secrets are never stored in a profile.

use vstd::prelude::*;
use vstd::string::*;

use crate::text::{
    ascii_lower, ascii_lowercase, any_char_in, concat, is_ascii_alphanumeric, is_blank, is_whitespace, owned, str_eq, trim,
    trim_str, CharClass, is_control,
};

verus! {

// ---------------------------------------------------------------------------
// Scheme
// ---------------------------------------------------------------------------

/// How a provider request is authenticated.
#[derive(Debug, Clone, Copy, PartialEq, Eq)]
pub enum AuthScheme {
    /// `Authorization: Bearer <secret>`.
    Bearer,
    /// `<header>: <secret>`, usually `x-api-key`.
    ApiKey,
    /// The profile names the header; the value is the secret itself.
    Custom,
    /// No authentication header.
    NoAuth,
}

/// The canonical manifest spelling of each scheme, after trimming.
pub open spec fn scheme_from(value: Seq<char>) -> Option<AuthScheme> {
    let t = trim(value);
    if t == "bearer"@ {
        Some(AuthScheme::Bearer)
    } else if t == "api-key"@ {
        Some(AuthScheme::ApiKey)
    } else if t == "custom"@ {
        Some(AuthScheme::Custom)
    } else if t == "none"@ {
        Some(AuthScheme::NoAuth)
    } else {
        None
    }
}

// ---------------------------------------------------------------------------
// Errors
// ---------------------------------------------------------------------------

#[derive(Debug, Clone, Copy, PartialEq, Eq)]
pub enum AuthErrorKind {
    UnsupportedScheme,
    HeaderNotAllowed,
    BearerRequiresAuthorization,
    HeaderRequired,
    InvalidHeaderName,
    ProtectedHeader,
    SecretNotAllowed,
    SecretMissing,
    ProfileMissingHeader,
    UnsafeSecret,
}

/// An authentication rule that was broken, with the offending text where the
/// message names one.
#[derive(Debug, Clone, PartialEq)]
pub struct AuthError {
    pub kind: AuthErrorKind,
    pub detail: String,
}

pub type AuthFault = (AuthErrorKind, Seq<char>);

pub open spec fn auth_fault(kind: AuthErrorKind) -> AuthFault {
    (kind, Seq::empty())
}

/// The description of an authentication error of `kind` naming `detail`.
pub open spec fn auth_text(kind: AuthErrorKind, detail: Seq<char>) -> Seq<char> {
    match kind {
        AuthErrorKind::UnsupportedScheme => "不支持的 Gateway auth scheme: "@ + detail,
        AuthErrorKind::HeaderNotAllowed => "auth scheme 'none' 不允许声明 header"@,
        AuthErrorKind::BearerRequiresAuthorization => "bearer auth 必须使用 Authorization header"@,
        AuthErrorKind::HeaderRequired => "api-key/custom auth 必须声明 header"@,
        AuthErrorKind::InvalidHeaderName => "认证 header 名称无效"@,
        AuthErrorKind::ProtectedHeader => "认证 header 不允许使用受保护的 header: "@ + detail,
        AuthErrorKind::SecretNotAllowed => "auth scheme 'none' 不允许绑定 secret_ref"@,
        AuthErrorKind::SecretMissing => "Provider 未解析到 secret_ref"@,
        AuthErrorKind::ProfileMissingHeader => "认证 profile 缺少 header"@,
        AuthErrorKind::UnsafeSecret => "认证 secret 不能作为安全的 HTTP header 注入"@,
    }
}

impl AuthError {
    pub open spec fn fault(&self) -> AuthFault {
        (self.kind, self.detail@)
    }

    /// The description of the error, as a value.
    pub open spec fn text(&self) -> Seq<char> {
        auth_text(self.kind, self.detail@)
    }

    pub fn to_string(&self) -> (r: String)
        ensures
            r@ == self.text(),
    {
        match self.kind {
            AuthErrorKind::UnsupportedScheme => concat(
                "不支持的 Gateway auth scheme: ",
                self.detail.as_str(),
            ),
            AuthErrorKind::HeaderNotAllowed => owned("auth scheme 'none' 不允许声明 header"),
            AuthErrorKind::BearerRequiresAuthorization => owned(
                "bearer auth 必须使用 Authorization header",
            ),
            AuthErrorKind::HeaderRequired => owned("api-key/custom auth 必须声明 header"),
            AuthErrorKind::InvalidHeaderName => owned("认证 header 名称无效"),
            AuthErrorKind::ProtectedHeader => concat(
                "认证 header 不允许使用受保护的 header: ",
                self.detail.as_str(),
            ),
            AuthErrorKind::SecretNotAllowed => owned("auth scheme 'none' 不允许绑定 secret_ref"),
            AuthErrorKind::SecretMissing => owned("Provider 未解析到 secret_ref"),
            AuthErrorKind::ProfileMissingHeader => owned("认证 profile 缺少 header"),
            AuthErrorKind::UnsafeSecret => owned("认证 secret 不能作为安全的 HTTP header 注入"),
        }
    }
}

fn auth_err(kind: AuthErrorKind, detail: &str) -> (e: AuthError)
    ensures
        e.fault() == (kind, detail@),
{
    AuthError { kind, detail: owned(detail) }
}

fn auth_err0(kind: AuthErrorKind) -> (e: AuthError)
    ensures
        e.fault() == auth_fault(kind),
{
    let e = AuthError { kind, detail: String::new() };
    assert(e.detail@ =~= Seq::<char>::empty());
    e
}

/// `r` is `Ok` with the text of `expected`, or its error.
pub open spec fn text_result(r: Result<String, AuthError>, expected: Result<Seq<char>, AuthFault>) -> bool {
    match expected {
        Ok(v) => r matches Ok(x) && x@ == v,
        Err(f) => r matches Err(e) && e.fault() == f,
    }
}

impl AuthScheme {
    /// Parses the canonical manifest spelling, ignoring surrounding whitespace.
    pub fn parse(value: &str) -> (r: Result<AuthScheme, AuthError>)
        ensures
            match scheme_from(value@) {
                Some(s) => r == Ok::<AuthScheme, AuthError>(s),
                None => r matches Err(e) && e.fault() == (AuthErrorKind::UnsupportedScheme, trim(value@)),
            },
    {
        let t = trim_str(value);
        if str_eq(t.as_str(), "bearer") {
            Ok(AuthScheme::Bearer)
        } else if str_eq(t.as_str(), "api-key") {
            Ok(AuthScheme::ApiKey)
        } else if str_eq(t.as_str(), "custom") {
            Ok(AuthScheme::Custom)
        } else if str_eq(t.as_str(), "none") {
            Ok(AuthScheme::NoAuth)
        } else {
            proof {
                reveal_strlit("bearer");
                reveal_strlit("api-key");
                reveal_strlit("custom");
                reveal_strlit("none");
            }
            Err(auth_err(AuthErrorKind::UnsupportedScheme, t.as_str()))
        }
    }
}

// ---------------------------------------------------------------------------
// HTTP header rules
// ---------------------------------------------------------------------------

/// The bytes an HTTP header name may hold (RFC 7230 `tchar`).
pub open spec fn is_header_token(c: char) -> bool {
    is_ascii_alphanumeric(c) || c == '!' || c == '#' || c == '$' || c == '%' || c == '&' || c
        == '\'' || c == '*' || c == '+' || c == '-' || c == '.' || c == '^' || c == '_' || c
        == '`' || c == '|' || c == '~'
}

/// The normalised form of a header name, when it is one.
pub open spec fn normalized_header_name(s: Seq<char>) -> Option<Seq<char>> {
    if 1 <= s.len() <= 65535 && (forall|i: int| 0 <= i < s.len() ==> #[trigger] is_header_token(s[i])) {
        Some(ascii_lowercase(s))
    } else {
        None
    }
}

/// The characters an HTTP header value may hold: visible ASCII, tab, and
/// anything beyond ASCII.
pub open spec fn is_header_value_char(c: char) -> bool {
    ((c as u32) >= 32 && (c as u32) != 127) || c == '\t'
}

/// Parses `name` as an HTTP header name and gives back its normalised text.
///
/// Calls `reqwest::header::HeaderName::from_bytes` and `HeaderName::as_str`.
/// Claimed from the `http` source: the name is accepted exactly when it is
/// 1 to 65535 bytes of `tchar`, and it is normalised to ASCII lowercase.
#[verifier::external_body]
fn http_header_name(name: &str) -> (r: Option<String>)
    ensures
        match normalized_header_name(name@) {
            Some(n) => r matches Some(s) && s@ == n,
            None => r is None,
        },
{
    reqwest::header::HeaderName::from_bytes(name.as_bytes()).ok().map(|n| n.as_str().to_string())
}

/// Whether `value` is a valid HTTP header value.
///
/// Calls `reqwest::header::HeaderValue::from_str`. Claimed from the `http`
/// source: every byte must be at least 32 and not 127, or a tab; the bytes of
/// a non-ASCII character all lie above 127.
#[verifier::external_body]
fn http_header_value_ok(value: &str) -> (r: bool)
    ensures
        r == (forall|i: int| 0 <= i < value@.len() ==> #[trigger] is_header_value_char(value@[i])),
{
    reqwest::header::HeaderValue::from_str(value).is_ok()
}

/// Headers a provider profile may never take over.
pub open spec fn is_protected_header(n: Seq<char>) -> bool {
    n == "host"@ || n == "content-length"@ || n == "connection"@ || n == "transfer-encoding"@
        || n == "cookie"@
}

pub open spec fn has_whitespace(s: Seq<char>) -> bool {
    exists|i: int| 0 <= i < s.len() && #[trigger] is_whitespace(s[i])
}

pub open spec fn has_control(s: Seq<char>) -> bool {
    exists|i: int| 0 <= i < s.len() && #[trigger] is_control(s[i])
}

/// A header name as a profile accepts it: trimmed, at most 128 bytes, no
/// whitespace, a valid HTTP name, and not a protected header.
pub open spec fn header_name_check(value: Seq<char>) -> Result<Seq<char>, AuthFault> {
    let t = trim(value);
    if t.len() == 0 || vstd::utf8::encode_utf8(t).len() > 128 || has_whitespace(t) {
        Err(auth_fault(AuthErrorKind::InvalidHeaderName))
    } else {
        match normalized_header_name(t) {
            None => Err(auth_fault(AuthErrorKind::InvalidHeaderName)),
            Some(n) => if is_protected_header(n) {
                Err((AuthErrorKind::ProtectedHeader, t))
            } else {
                Ok(t)
            },
        }
    }
}

fn is_protected_header_name(n: &str) -> (r: bool)
    ensures
        r == is_protected_header(n@),
{
    str_eq(n, "host") || str_eq(n, "content-length") || str_eq(n, "connection") || str_eq(
        n,
        "transfer-encoding",
    ) || str_eq(n, "cookie")
}

/// Checks a header name for a profile and returns it trimmed.
pub fn validate_auth_header_name(value: &str) -> (r: Result<String, AuthError>)
    ensures
        text_result(r, header_name_check(value@)),
{
    let t = trim_str(value);
    let ts = t.as_str();
    let too_long = ts.as_bytes().len() > 128;
    if is_blank(ts) || too_long || any_char_in(ts, CharClass::Whitespace) {
        proof {
            crate::text::lemma_trim_empty(t@);
        }
        return Err(auth_err0(AuthErrorKind::InvalidHeaderName));
    }
    assert(!has_whitespace(t@)) by {
        if has_whitespace(t@) {
            let i = choose|i: int| 0 <= i < t@.len() && #[trigger] is_whitespace(t@[i]);
            assert(crate::text::in_class(CharClass::Whitespace, t@[i]));
        }
    }
    match http_header_name(ts) {
        None => Err(auth_err0(AuthErrorKind::InvalidHeaderName)),
        Some(n) => {
            if is_protected_header_name(n.as_str()) {
                Err(auth_err(AuthErrorKind::ProtectedHeader, ts))
            } else {
                Ok(t)
            }
        },
    }
}

/// A secret as a header value: non-empty, at most 8192 bytes, no control
/// characters, and a valid HTTP header value.
pub open spec fn secret_value_ok(value: Seq<char>) -> bool {
    value.len() != 0 && vstd::utf8::encode_utf8(value).len() <= 8192 && !has_control(value)
        && (forall|i: int| 0 <= i < value.len() ==> #[trigger] is_header_value_char(value[i]))
}

/// Checks that a secret can be sent as a header value.
pub fn validate_secret_header_value(value: &str) -> (r: Result<(), AuthError>)
    ensures
        secret_value_ok(value@) ==> r is Ok,
        !secret_value_ok(value@) ==> (r matches Err(e) && e.fault() == auth_fault(
            AuthErrorKind::UnsafeSecret,
        )),
{
    if value.unicode_len() == 0 || value.as_bytes().len() > 8192 || any_char_in(value, CharClass::Control) {
        return Err(auth_err0(AuthErrorKind::UnsafeSecret));
    }
    assert(!has_control(value@)) by {
        if has_control(value@) {
            let i = choose|i: int| 0 <= i < value@.len() && #[trigger] is_control(value@[i]);
            assert(crate::text::in_class(CharClass::Control, value@[i]));
        }
    }
    if !http_header_value_ok(value) {
        return Err(auth_err0(AuthErrorKind::UnsafeSecret));
    }
    Ok(())
}

/// `s` equals `t` up to ASCII case; `t` is lowercase.
pub open spec fn eq_ignore_ascii_case(s: Seq<char>, t: Seq<char>) -> bool {
    ascii_lowercase(s) == t
}

fn lower_matches(c: char, t: char) -> (r: bool)
    ensures
        r == (ascii_lower(c) == t),
{
    if 'A' <= c && c <= 'Z' {
        let u = (c as u32) + 32;
        assert(((u as char) as u32) == u);
        u == (t as u32)
    } else {
        c == t
    }
}

/// Whether `s` is `lower` up to ASCII case (`lower` is already lowercase).
fn equals_ignoring_ascii_case(s: &str, lower: &str) -> (r: bool)
    ensures
        r == eq_ignore_ascii_case(s@, lower@),
{
    let n = s.unicode_len();
    if n != lower.unicode_len() {
        assert(ascii_lowercase(s@).len() == s@.len());
        return false;
    }
    for i in 0..n
        invariant
            n == s@.len(),
            n == lower@.len(),
            forall|k: int| 0 <= k < i ==> ascii_lower(#[trigger] s@[k]) == lower@[k],
    {
        if !lower_matches(s.get_char(i), lower.get_char(i)) {
            assert(ascii_lowercase(s@)[i as int] != lower@[i as int]);
            return false;
        }
    }
    assert(ascii_lowercase(s@) =~= lower@);
    true
}

// ---------------------------------------------------------------------------
// Profile
// ---------------------------------------------------------------------------

/// The header a profile is built with, for `scheme` and the declared header
/// (`None` when nothing was declared).
pub open spec fn profile_header(scheme: AuthScheme, header: Option<Seq<char>>) -> Result<
    Option<Seq<char>>,
    AuthFault,
> {
    match scheme {
        AuthScheme::NoAuth => match header {
            Some(h) => if trim(h).len() != 0 {
                Err(auth_fault(AuthErrorKind::HeaderNotAllowed))
            } else {
                Ok(None)
            },
            None => Ok(None),
        },
        AuthScheme::Bearer => {
            let h = match header {
                Some(h) => h,
                None => "Authorization"@,
            };
            match header_name_check(h) {
                Err(f) => Err(f),
                Ok(n) => if eq_ignore_ascii_case(n, "authorization"@) {
                    Ok(Some(n))
                } else {
                    Err(auth_fault(AuthErrorKind::BearerRequiresAuthorization))
                },
            }
        },
        _ => match header {
            None => Err(auth_fault(AuthErrorKind::HeaderRequired)),
            Some(h) => match header_name_check(h) {
                Err(f) => Err(f),
                Ok(n) => Ok(Some(n)),
            },
        },
    }
}

/// A profile as a value: scheme, header, and whether a secret is required.
pub type ProfileView = (AuthScheme, Option<Seq<char>>, bool);

/// The profile an extension declaration gives: a scheme other than `none`
/// always requires a secret.
pub open spec fn manifest_profile(scheme: Seq<char>, header: Seq<char>) -> Result<ProfileView, AuthFault> {
    match scheme_from(scheme) {
        None => Err((AuthErrorKind::UnsupportedScheme, trim(scheme))),
        Some(s) => match profile_header(s, Some(header)) {
            Err(f) => Err(f),
            Ok(h) => Ok((s, h, s != AuthScheme::NoAuth)),
        },
    }
}

pub open spec fn builtin_profile(scheme: AuthScheme, header: Option<Seq<char>>, requires_secret: bool) -> Result<ProfileView, AuthFault> {
    match profile_header(scheme, header) {
        Err(f) => Err(f),
        Ok(h) => Ok((scheme, h, requires_secret)),
    }
}

pub open spec fn profile_result(r: Result<ProviderAuthProfile, AuthError>, expected: Result<ProfileView, AuthFault>) -> bool {
    match expected {
        Ok(v) => r matches Ok(p) && p@ == v,
        Err(f) => r matches Err(e) && e.fault() == f,
    }
}

pub open spec fn opt_view(o: Option<String>) -> Option<Seq<char>> {
    match o {
        Some(s) => Some(s@),
        None => None,
    }
}

pub open spec fn opt_str_view(o: Option<&str>) -> Option<Seq<char>> {
    match o {
        Some(s) => Some(s@),
        None => None,
    }
}

/// The authentication a provider uses. It describes the scheme and where the
/// secret goes; the secret itself is resolved only when a request is sent.
#[derive(Debug, Clone, PartialEq, Eq)]
pub struct ProviderAuthProfile {
    scheme: AuthScheme,
    header: Option<String>,
    requires_secret: bool,
}

fn header_for(scheme: AuthScheme, header: Option<&str>) -> (r: Result<Option<String>, AuthError>)
    ensures
        match profile_header(scheme, opt_str_view(header)) {
            Ok(h) => r matches Ok(x) && opt_view(x) == h,
            Err(f) => r matches Err(e) && e.fault() == f,
        },
{
    match scheme {
        AuthScheme::NoAuth => {
            match header {
                Some(h) => {
                    if !is_blank(h) {
                        return Err(auth_err0(AuthErrorKind::HeaderNotAllowed));
                    }
                },
                None => {},
            }
            Ok(None)
        },
        AuthScheme::Bearer => {
            let h = match header {
                Some(h) => h,
                None => "Authorization",
            };
            let n = validate_auth_header_name(h)?;
            proof {
                reveal_strlit("authorization");
            }
            if !equals_ignoring_ascii_case(n.as_str(), "authorization") {
                return Err(auth_err0(AuthErrorKind::BearerRequiresAuthorization));
            }
            Ok(Some(n))
        },
        _ => {
            match header {
                None => Err(auth_err0(AuthErrorKind::HeaderRequired)),
                Some(h) => {
                    let n = validate_auth_header_name(h)?;
                    Ok(Some(n))
                },
            }
        },
    }
}

impl ProviderAuthProfile {
    pub closed spec fn view(&self) -> ProfileView {
        (self.scheme, opt_view(self.header), self.requires_secret)
    }

    /// The profile an extension declares; only `none` can go without a secret.
    pub fn from_manifest(scheme: &str, header: &str) -> (r: Result<Self, AuthError>)
        ensures
            profile_result(r, manifest_profile(scheme@, header@)),
    {
        let scheme = AuthScheme::parse(scheme)?;
        let header = header_for(scheme, Some(header))?;
        let requires_secret = match scheme {
            AuthScheme::NoAuth => false,
            _ => true,
        };
        Ok(ProviderAuthProfile { scheme, header, requires_secret })
    }

    /// A profile that sends no authentication.
    pub fn none() -> (r: Self)
        ensures
            r@ == (AuthScheme::NoAuth, None::<Seq<char>>, false),
    {
        ProviderAuthProfile { scheme: AuthScheme::NoAuth, header: None, requires_secret: false }
    }

    /// The runtime profile of a builtin provider; bearer defaults to
    /// `Authorization`.
    pub fn from_builtin(scheme: AuthScheme, header: Option<&str>, requires_secret: bool) -> (r:
        Result<Self, AuthError>)
        ensures
            profile_result(r, builtin_profile(scheme, opt_str_view(header), requires_secret)),
    {
        let header = header_for(scheme, header)?;
        Ok(ProviderAuthProfile { scheme, header, requires_secret })
    }

    pub fn scheme(&self) -> (r: AuthScheme)
        ensures
            r == self@.0,
    {
        self.scheme
    }

    pub fn header_name(&self) -> (r: Option<&str>)
        ensures
            opt_str_view(r) == self@.1,
    {
        match &self.header {
            Some(h) => Some(h.as_str()),
            None => None,
        }
    }

    pub fn requires_secret(&self) -> (r: bool)
        ensures
            r == self@.2,
    {
        self.requires_secret
    }

    /// The headers a request is sent with, as (name, value) pairs: the JSON
    /// content type, then the authentication header if there is one.
    pub fn auth_headers(&self, secret: Option<&str>) -> (r: Result<Vec<(String, String)>, AuthError>)
        ensures
            match auth_header_entries(self@, opt_str_view(secret)) {
                Ok(entries) => r matches Ok(v) && pair_views(v@) == entries,
                Err(f) => r matches Err(e) && e.fault() == f,
            },
    {
        let mut out: Vec<(String, String)> = Vec::new();
        out.push((owned("content-type"), owned("application/json")));
        proof {
            reveal_strlit("content-type");
            reveal_strlit("application/json");
            reveal_strlit("authorization");
            reveal_strlit("Bearer ");
        }
        match (self.scheme, secret) {
            (AuthScheme::NoAuth, Some(_)) => {
                return Err(auth_err0(AuthErrorKind::SecretNotAllowed));
            },
            (AuthScheme::NoAuth, None) => {},
            (_, None) => {
                if self.requires_secret {
                    return Err(auth_err0(AuthErrorKind::SecretMissing));
                }
            },
            (AuthScheme::Bearer, Some(secret)) => {
                let value = concat("Bearer ", secret);
                validate_secret_header_value(value.as_str())?;
                if !http_header_value_ok(value.as_str()) {
                    return Err(auth_err0(AuthErrorKind::UnsafeSecret));
                }
                out.push((owned("authorization"), value));
            },
            (_, Some(secret)) => {
                let header = match &self.header {
                    Some(h) => h.as_str(),
                    None => {
                        return Err(auth_err0(AuthErrorKind::ProfileMissingHeader));
                    },
                };
                validate_secret_header_value(secret)?;
                let name = match http_header_name(header) {
                    Some(n) => n,
                    None => {
                        return Err(auth_err0(AuthErrorKind::InvalidHeaderName));
                    },
                };
                if !http_header_value_ok(secret) {
                    return Err(auth_err0(AuthErrorKind::UnsafeSecret));
                }
                out.push((name, owned(secret)));
            },
        }
        proof {
            assert(pair_views(out@) =~= auth_header_entries(self@, opt_str_view(secret))->Ok_0);
        }
        Ok(out)
    }
}

pub open spec fn pair_views(v: Seq<(String, String)>) -> Seq<(Seq<char>, Seq<char>)> {
    v.map_values(|p: (String, String)| (p.0@, p.1@))
}

/// The headers a request carries under profile `p` with `secret`.
pub open spec fn auth_header_entries(p: ProfileView, secret: Option<Seq<char>>) -> Result<
    Seq<(Seq<char>, Seq<char>)>,
    AuthFault,
> {
    let base = seq![("content-type"@, "application/json"@)];
    match (p.0, secret) {
        (AuthScheme::NoAuth, Some(_)) => Err(auth_fault(AuthErrorKind::SecretNotAllowed)),
        (AuthScheme::NoAuth, None) => Ok(base),
        (_, None) => if p.2 {
            Err(auth_fault(AuthErrorKind::SecretMissing))
        } else {
            Ok(base)
        },
        (AuthScheme::Bearer, Some(s)) => {
            let value = "Bearer "@ + s;
            if secret_value_ok(value) {
                Ok(base.push(("authorization"@, value)))
            } else {
                Err(auth_fault(AuthErrorKind::UnsafeSecret))
            }
        },
        (_, Some(s)) => match p.1 {
            None => Err(auth_fault(AuthErrorKind::ProfileMissingHeader)),
            Some(h) => if !secret_value_ok(s) {
                Err(auth_fault(AuthErrorKind::UnsafeSecret))
            } else {
                match normalized_header_name(h) {
                    None => Err(auth_fault(AuthErrorKind::InvalidHeaderName)),
                    Some(n) => Ok(base.push((n, s))),
                }
            },
        },
    }
}

/// The header value a secret is sent as under `scheme`.
pub open spec fn sent_value(scheme: AuthScheme, secret: Seq<char>) -> Seq<char> {
    if scheme == AuthScheme::Bearer {
        "Bearer "@ + secret
    } else {
        secret
    }
}

/// A profile an extension declared with a scheme other than `none` sends any
/// secret that is a safe header value: the request carries the JSON content
/// type and exactly one authentication header holding it.
pub proof fn law_declared_profile_sends_secret(scheme: Seq<char>, header: Seq<char>, secret: Seq<char>)
    requires
        manifest_profile(scheme, header) is Ok,
        scheme_from(scheme) != Some(AuthScheme::NoAuth),
        secret_value_ok(sent_value(scheme_from(scheme)->Some_0, secret)),
    ensures
        auth_header_entries(manifest_profile(scheme, header)->Ok_0, Some(secret)) matches Ok(entries)
            && entries.len() == 2 && entries[1].1 == sent_value(scheme_from(scheme)->Some_0, secret),
{
    let p = manifest_profile(scheme, header)->Ok_0;
    let s = scheme_from(scheme)->Some_0;
    if s != AuthScheme::Bearer {
        let h = p.1->Some_0;
        assert(header_name_check(header) == Ok::<Seq<char>, AuthFault>(h));
        assert(normalized_header_name(h) is Some);
    }
}

/// A profile with scheme `none` never carries a secret.
pub proof fn law_no_auth_refuses_secret(p: ProfileView, secret: Seq<char>)
    requires
        p.0 == AuthScheme::NoAuth,
    ensures
        auth_header_entries(p, Some(secret)) == Err::<Seq<(Seq<char>, Seq<char>)>, AuthFault>(
            auth_fault(AuthErrorKind::SecretNotAllowed),
        ),
{
}

} // verus!
