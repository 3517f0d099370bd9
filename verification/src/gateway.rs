//! Declarative Gateway conversion: runtime ids of extension resources, the
//! rules on adapter and provider declarations, and the registration plan a
//! Gateway contribution turns into.

use vstd::prelude::*;
use vstd::string::*;

use crate::auth::{has_whitespace, manifest_profile, AuthErrorKind, ProfileView, ProviderAuthProfile};
use crate::models::{
    GatewayAdapterRegistration, GatewayContributions, GatewayModelRegistration,
    GatewayProviderRegistration, LSPServerConfig, LanguageRegistration, ProviderCapabilities,
};
use crate::seqs::{
    contains_text, first_error, indices, lemma_first_error_ends, lemma_first_error_hit,
    lemma_first_error_step, push_view, views,
};
use crate::text::{
    any_char_in, concat, concat3, concat4, concat5, contains_char, is_blank, owned, starts_with,
    str_eq, trim, trim_str, CharClass,
};

verus! {

// ---------------------------------------------------------------------------
// Runtime ids
// ---------------------------------------------------------------------------

/// What is wrong with a Gateway or tool declaration.
#[derive(Debug, Clone, Copy, PartialEq, Eq)]
pub enum GatewayErrorKind {
    InvalidAdapterId,
    InvalidProviderId,
    InvalidModelId,
    EmptyProviderSegment,
    ProviderSegmentSlash,
    EmptyProtocolId,
    ProtocolIdWhitespace,
    ProtocolIdCustomPrefix,
    AdapterProtocol(ProtocolFault),
    BuiltinKindRequired,
    DeclarativeKindRequired,
    EmptyProviderName,
    EmptyBaseUrl,
    NoModels,
    DuplicateModel,
    UnknownDefaultModel,
    Auth(AuthErrorKind),
    NoDeclarations,
    DuplicateAdapter,
    DuplicateProtocol,
    DuplicateProvider,
    UnknownAdapter,
    UnsupportedRisk,
}

/// Why a protocol id is refused.
#[derive(Debug, Clone, Copy, PartialEq, Eq)]
pub enum ProtocolFault {
    Empty,
    Whitespace,
    CustomPrefix,
}

/// A refused declaration: what is wrong, the id it concerns, and a second
/// value where the message names one.
#[derive(Debug, Clone, PartialEq)]
pub struct GatewayError {
    pub kind: GatewayErrorKind,
    pub subject: String,
    pub detail: String,
}

pub type GatewayFault = (GatewayErrorKind, Seq<char>, Seq<char>);

impl GatewayError {
    pub open spec fn fault(&self) -> GatewayFault {
        (self.kind, self.subject@, self.detail@)
    }

    /// The description of the error, as a value.
    pub open spec fn text(&self) -> Seq<char> {
        match self.kind {
            GatewayErrorKind::InvalidAdapterId => "Gateway adapter ID '"@ + self.subject@ + "' is invalid"@,
            GatewayErrorKind::InvalidProviderId => "Gateway provider ID '"@ + self.subject@ + "' is invalid"@,
            GatewayErrorKind::InvalidModelId => "Gateway model ID '"@ + self.subject@ + "' is invalid"@,
            GatewayErrorKind::EmptyProviderSegment => "Extension provider ID segments must not be empty"@,
            GatewayErrorKind::ProviderSegmentSlash => "Extension provider ID segments must not contain '/'"@,
            GatewayErrorKind::EmptyProtocolId => protocol_text(ProtocolFault::Empty, self.subject@),
            GatewayErrorKind::ProtocolIdWhitespace => protocol_text(ProtocolFault::Whitespace, self.subject@),
            GatewayErrorKind::ProtocolIdCustomPrefix => protocol_text(ProtocolFault::CustomPrefix, self.subject@),
            GatewayErrorKind::AdapterProtocol(f) => "Gateway adapter '"@ + self.subject@ + "' has invalid protocolId: "@ + protocol_text(f, self.detail@),
            GatewayErrorKind::BuiltinKindRequired => "Builtin Gateway protocol '"@ + self.subject@ + "' must use adapter kind 'builtin'"@,
            GatewayErrorKind::DeclarativeKindRequired => "Extension Gateway protocol '"@ + self.subject@ + "' must use adapter kind 'declarative'"@,
            GatewayErrorKind::EmptyProviderName => "Gateway provider '"@ + self.subject@ + "' name cannot be empty"@,
            GatewayErrorKind::EmptyBaseUrl => "Gateway provider '"@ + self.subject@ + "' baseUrl cannot be empty"@,
            GatewayErrorKind::NoModels => "Gateway provider '"@ + self.subject@ + "' must declare models"@,
            GatewayErrorKind::DuplicateModel => "Gateway provider '"@ + self.subject@ + "' contains duplicate model ID '"@ + self.detail@ + "',"@,
            GatewayErrorKind::UnknownDefaultModel => "Gateway provider '"@ + self.subject@ + "' defaultModel '"@ + self.detail@ + "' is not declared"@,
            GatewayErrorKind::Auth(kind) => "Invalid extension Gateway provider declaration: "@ + crate::auth::auth_text(kind, self.detail@),
            GatewayErrorKind::NoDeclarations => "Gateway contribution must declare an adapter or provider"@,
            GatewayErrorKind::DuplicateAdapter => "Duplicate Gateway adapter ID '"@ + self.subject@ + "'"@,
            GatewayErrorKind::DuplicateProtocol => "Duplicate Gateway protocolId '"@ + self.subject@ + "'"@,
            GatewayErrorKind::DuplicateProvider => "Duplicate Gateway provider ID '"@ + self.subject@ + "'"@,
            GatewayErrorKind::UnknownAdapter => "Gateway provider '"@ + self.subject@ + "' references unknown adapter '"@ + self.detail@ + "'"@,
            GatewayErrorKind::UnsupportedRisk => "Unsupported MCP tool risk level '"@ + self.subject@ + "'"@,
        }
    }

    pub fn to_string(&self) -> (r: String)
        ensures
            r@ == self.text(),
    {
        let s = self.subject.as_str();
        let d = self.detail.as_str();
        match self.kind {
            GatewayErrorKind::InvalidAdapterId => concat3("Gateway adapter ID '", s, "' is invalid"),
            GatewayErrorKind::InvalidProviderId => concat3("Gateway provider ID '", s, "' is invalid"),
            GatewayErrorKind::InvalidModelId => concat3("Gateway model ID '", s, "' is invalid"),
            GatewayErrorKind::EmptyProviderSegment => owned(
                "Extension provider ID segments must not be empty",
            ),
            GatewayErrorKind::ProviderSegmentSlash => owned(
                "Extension provider ID segments must not contain '/'",
            ),
            GatewayErrorKind::EmptyProtocolId => protocol_message(ProtocolFault::Empty, s),
            GatewayErrorKind::ProtocolIdWhitespace => protocol_message(ProtocolFault::Whitespace, s),
            GatewayErrorKind::ProtocolIdCustomPrefix => protocol_message(
                ProtocolFault::CustomPrefix,
                s,
            ),
            GatewayErrorKind::AdapterProtocol(f) => {
                let inner = protocol_message(f, d);
                concat4("Gateway adapter '", s, "' has invalid protocolId: ", inner.as_str())
            },
            GatewayErrorKind::BuiltinKindRequired => concat3(
                "Builtin Gateway protocol '",
                s,
                "' must use adapter kind 'builtin'",
            ),
            GatewayErrorKind::DeclarativeKindRequired => concat3(
                "Extension Gateway protocol '",
                s,
                "' must use adapter kind 'declarative'",
            ),
            GatewayErrorKind::EmptyProviderName => concat3(
                "Gateway provider '",
                s,
                "' name cannot be empty",
            ),
            GatewayErrorKind::EmptyBaseUrl => concat3(
                "Gateway provider '",
                s,
                "' baseUrl cannot be empty",
            ),
            GatewayErrorKind::NoModels => concat3("Gateway provider '", s, "' must declare models"),
            GatewayErrorKind::DuplicateModel => concat5(
                "Gateway provider '",
                s,
                "' contains duplicate model ID '",
                d,
                "',",
            ),
            GatewayErrorKind::UnknownDefaultModel => concat5(
                "Gateway provider '",
                s,
                "' defaultModel '",
                d,
                "' is not declared",
            ),
            GatewayErrorKind::Auth(kind) => {
                let e = crate::auth::AuthError { kind, detail: owned(d) };
                concat(
                    "Invalid extension Gateway provider declaration: ",
                    e.to_string().as_str(),
                )
            },
            GatewayErrorKind::NoDeclarations => owned(
                "Gateway contribution must declare an adapter or provider",
            ),
            GatewayErrorKind::DuplicateAdapter => concat3("Duplicate Gateway adapter ID '", s, "'"),
            GatewayErrorKind::DuplicateProtocol => concat3(
                "Duplicate Gateway protocolId '",
                s,
                "'",
            ),
            GatewayErrorKind::DuplicateProvider => concat3(
                "Duplicate Gateway provider ID '",
                s,
                "'",
            ),
            GatewayErrorKind::UnknownAdapter => concat5(
                "Gateway provider '",
                s,
                "' references unknown adapter '",
                d,
                "'",
            ),
            GatewayErrorKind::UnsupportedRisk => concat3(
                "Unsupported MCP tool risk level '",
                s,
                "'",
            ),
        }
    }
}

/// The description of a refused protocol id.
pub open spec fn protocol_text(f: ProtocolFault, protocol_id: Seq<char>) -> Seq<char> {
    match f {
        ProtocolFault::Empty => "Gateway adapter protocolId cannot be empty"@,
        ProtocolFault::Whitespace => "Gateway adapter protocolId '"@ + protocol_id + "' cannot contain whitespace"@,
        ProtocolFault::CustomPrefix => "Gateway adapter protocolId '"@ + protocol_id
            + "' must not use the explicit custom: prefix"@,
    }
}

fn protocol_message(f: ProtocolFault, protocol_id: &str) -> (r: String)
    ensures
        r@ == protocol_text(f, protocol_id@),
{
    match f {
        ProtocolFault::Empty => owned("Gateway adapter protocolId cannot be empty"),
        ProtocolFault::Whitespace => concat3(
            "Gateway adapter protocolId '",
            protocol_id,
            "' cannot contain whitespace",
        ),
        ProtocolFault::CustomPrefix => concat3(
            "Gateway adapter protocolId '",
            protocol_id,
            "' must not use the explicit custom: prefix",
        ),
    }
}

pub open spec fn gfault(kind: GatewayErrorKind, subject: Seq<char>, detail: Seq<char>) -> GatewayFault {
    (kind, subject, detail)
}

fn gerr(kind: GatewayErrorKind, subject: &str, detail: &str) -> (e: GatewayError)
    ensures
        e.fault() == gfault(kind, subject@, detail@),
{
    GatewayError { kind, subject: owned(subject), detail: owned(detail) }
}

fn gerr1(kind: GatewayErrorKind, subject: &str) -> (e: GatewayError)
    ensures
        e.fault() == gfault(kind, subject@, Seq::empty()),
{
    let e = GatewayError { kind, subject: owned(subject), detail: String::new() };
    assert(e.detail@ =~= Seq::<char>::empty());
    e
}

fn gerr0(kind: GatewayErrorKind) -> (e: GatewayError)
    ensures
        e.fault() == gfault(kind, Seq::empty(), Seq::empty()),
{
    let e = GatewayError { kind, subject: String::new(), detail: String::new() };
    assert(e.subject@ =~= Seq::<char>::empty());
    assert(e.detail@ =~= Seq::<char>::empty());
    e
}

/// `r` is `Ok` with the text `expected` holds, or its error.
pub open spec fn gateway_text_result(r: Result<String, GatewayError>, expected: Result<Seq<char>, GatewayFault>) -> bool {
    match expected {
        Ok(v) => r matches Ok(x) && x@ == v,
        Err(f) => r matches Err(e) && e.fault() == f,
    }
}

/// `extension:{extension}/{provider}`, for segments that are not blank and
/// hold no `/`.
pub open spec fn provider_runtime_id(extension_id: Seq<char>, provider_id: Seq<char>) -> Result<Seq<char>, GatewayFault> {
    if trim(extension_id).len() == 0 || trim(provider_id).len() == 0 {
        Err(gfault(GatewayErrorKind::EmptyProviderSegment, Seq::empty(), Seq::empty()))
    } else if extension_id.contains('/') || provider_id.contains('/') {
        Err(gfault(GatewayErrorKind::ProviderSegmentSlash, Seq::empty(), Seq::empty()))
    } else {
        Ok("extension:"@ + extension_id + "/"@ + provider_id)
    }
}

/// The runtime id of an extension provider; registration, rollback and
/// disable all go by this id.
pub fn extension_provider_id(extension_id: &str, provider_id: &str) -> (r: Result<String, GatewayError>)
    ensures
        gateway_text_result(r, provider_runtime_id(extension_id@, provider_id@)),
{
    proof {
        reveal_strlit("extension:");
        reveal_strlit("/");
        reveal_strlit("");
    }
    if is_blank(extension_id) || is_blank(provider_id) {
        return Err(gerr0(GatewayErrorKind::EmptyProviderSegment));
    }
    if contains_char(extension_id, '/') || contains_char(provider_id, '/') {
        return Err(gerr0(GatewayErrorKind::ProviderSegmentSlash));
    }
    Ok(concat4("extension:", extension_id, "/", provider_id))
}

/// The server id all tools of one extension share: `extension:{extension}`.
pub fn extension_tool_server_id(extension_id: &str) -> (r: String)
    ensures
        r@ == "extension:"@ + extension_id@,
{
    proof {
        reveal_strlit("extension:");
    }
    concat("extension:", extension_id)
}

/// The id of an extension MCP server: `extension:{extension}/{server}`.
pub fn extension_mcp_server_id(extension_id: &str, server_name: &str) -> (r: String)
    ensures
        r@ == "extension:"@ + extension_id@ + "/"@ + server_name@,
{
    proof {
        reveal_strlit("extension:");
        reveal_strlit("/");
    }
    concat4("extension:", extension_id, "/", server_name)
}

/// The server an MCP tool override applies to: `builtin` and ids already
/// under the extension prefix stay as they are; any other name is taken as
/// a server of `extension_id`.
pub open spec fn override_server_id(extension_id: Seq<char>, server: Seq<char>) -> Seq<char> {
    if server == "builtin"@ || "extension:"@.is_prefix_of(server) {
        server
    } else {
        "extension:"@ + extension_id + "/"@ + server
    }
}

pub fn mcp_override_server_id(extension_id: &str, server: &str) -> (r: String)
    ensures
        r@ == override_server_id(extension_id@, server@),
{
    proof {
        reveal_strlit("extension:");
        reveal_strlit("builtin");
        reveal_strlit("/");
    }
    if str_eq(server, "builtin") || starts_with(server, "extension:") {
        owned(server)
    } else {
        concat4("extension:", extension_id, "/", server)
    }
}

// ---------------------------------------------------------------------------
// Declaration ids and protocol ids
// ---------------------------------------------------------------------------

/// Which declaration an id belongs to.
#[derive(Debug, Clone, Copy, PartialEq, Eq)]
pub enum IdKind {
    Adapter,
    Provider,
    Model,
}

pub open spec fn invalid_id_kind(kind: IdKind) -> GatewayErrorKind {
    match kind {
        IdKind::Adapter => GatewayErrorKind::InvalidAdapterId,
        IdKind::Provider => GatewayErrorKind::InvalidProviderId,
        IdKind::Model => GatewayErrorKind::InvalidModelId,
    }
}

/// A declaration id, once trimmed, must be non-empty and hold no `/`, `\`
/// or whitespace.
pub open spec fn manifest_id_fault(kind: IdKind, id: Seq<char>) -> Option<GatewayFault> {
    let t = trim(id);
    if t.len() == 0 || t.contains('/') || t.contains('\\') || has_whitespace(t) {
        Some(gfault(invalid_id_kind(kind), t, Seq::empty()))
    } else {
        None
    }
}

pub open spec fn unit_result(r: Result<(), GatewayError>, expected: Option<GatewayFault>) -> bool {
    match expected {
        None => r is Ok,
        Some(f) => r matches Err(e) && e.fault() == f,
    }
}

pub fn validate_manifest_id(kind: IdKind, id: &str) -> (r: Result<(), GatewayError>)
    ensures
        unit_result(r, manifest_id_fault(kind, id@)),
{
    let t = trim_str(id);
    let ts = t.as_str();
    if is_blank(ts) || contains_char(ts, '/') || contains_char(ts, '\\') || any_char_in(
        ts,
        CharClass::Whitespace,
    ) {
        proof {
            crate::text::lemma_trim_empty(t@);
        }
        let k = match kind {
            IdKind::Adapter => GatewayErrorKind::InvalidAdapterId,
            IdKind::Provider => GatewayErrorKind::InvalidProviderId,
            IdKind::Model => GatewayErrorKind::InvalidModelId,
        };
        return Err(gerr1(k, ts));
    }
    proof {
        crate::text::lemma_trim_empty(t@);
        if has_whitespace(t@) {
            let i = choose|i: int| 0 <= i < t@.len() && #[trigger] crate::text::is_whitespace(t@[i]);
            assert(crate::text::in_class(CharClass::Whitespace, t@[i]));
        }
    }
    Ok(())
}

/// A protocol id, trimmed: not empty, no whitespace, no explicit `custom:`.
pub open spec fn protocol_check(protocol_id: Seq<char>) -> Result<Seq<char>, (ProtocolFault, Seq<char>)> {
    let t = trim(protocol_id);
    if t.len() == 0 {
        Err((ProtocolFault::Empty, t))
    } else if has_whitespace(t) {
        Err((ProtocolFault::Whitespace, t))
    } else if "custom:"@.is_prefix_of(t) {
        Err((ProtocolFault::CustomPrefix, t))
    } else {
        Ok(t)
    }
}

pub open spec fn protocol_fault_kind(f: ProtocolFault) -> GatewayErrorKind {
    match f {
        ProtocolFault::Empty => GatewayErrorKind::EmptyProtocolId,
        ProtocolFault::Whitespace => GatewayErrorKind::ProtocolIdWhitespace,
        ProtocolFault::CustomPrefix => GatewayErrorKind::ProtocolIdCustomPrefix,
    }
}

/// The protocol check as a Gateway error.
pub open spec fn protocol_id_result(protocol_id: Seq<char>) -> Result<Seq<char>, GatewayFault> {
    match protocol_check(protocol_id) {
        Ok(t) => Ok(t),
        Err((f, t)) => Err(gfault(
            protocol_fault_kind(f),
            if f == ProtocolFault::Empty {
                Seq::empty()
            } else {
                t
            },
            Seq::empty(),
        )),
    }
}

fn check_protocol_id(protocol_id: &str) -> (r: Result<String, ProtocolFault>)
    ensures
        match protocol_check(protocol_id@) {
            Ok(t) => r matches Ok(x) && x@ == t,
            Err((f, _)) => r == Err::<String, ProtocolFault>(f),
        },
{
    let t = trim_str(protocol_id);
    if t.as_str().unicode_len() == 0 {
        return Err(ProtocolFault::Empty);
    }
    if any_char_in(t.as_str(), CharClass::Whitespace) {
        proof {
            let i = choose|i: int| 0 <= i < t@.len() && #[trigger] crate::text::in_class(CharClass::Whitespace, t@[i]);
            assert(crate::text::is_whitespace(t@[i]));
        }
        return Err(ProtocolFault::Whitespace);
    }
    proof {
        if has_whitespace(t@) {
            let i = choose|i: int| 0 <= i < t@.len() && #[trigger] crate::text::is_whitespace(t@[i]);
            assert(crate::text::in_class(CharClass::Whitespace, t@[i]));
        }
        reveal_strlit("custom:");
    }
    if starts_with(t.as_str(), "custom:") {
        return Err(ProtocolFault::CustomPrefix);
    }
    Ok(t)
}

/// Checks an adapter's protocol id and returns it trimmed.
pub fn validate_protocol_id(protocol_id: &str) -> (r: Result<String, GatewayError>)
    ensures
        gateway_text_result(r, protocol_id_result(protocol_id@)),
{
    proof {
        reveal_strlit("");
    }
    match check_protocol_id(protocol_id) {
        Ok(t) => Ok(t),
        Err(ProtocolFault::Empty) => Err(gerr0(GatewayErrorKind::EmptyProtocolId)),
        Err(f) => {
            let t = trim_str(protocol_id);
            let k = match f {
                ProtocolFault::Whitespace => GatewayErrorKind::ProtocolIdWhitespace,
                _ => GatewayErrorKind::ProtocolIdCustomPrefix,
            };
            proof {
                reveal_strlit("");
            }
            Err(gerr1(k, t.as_str()))
        },
    }
}

// ---------------------------------------------------------------------------
// Protocols, models and providers
// ---------------------------------------------------------------------------

/// The wire protocol a model is spoken to with.
#[derive(Debug, Clone, PartialEq, Eq)]
pub enum ApiProtocol {
    ChatCompletions,
    Responses,
    /// A protocol registered at runtime, by its id.
    Custom(String),
}

/// A protocol as a value.
pub enum ProtocolView {
    ChatCompletions,
    Responses,
    Custom(Seq<char>),
}

/// The protocol a protocol id names: the two builtin ids, or a custom
/// protocol (an explicit `custom:` prefix is dropped).
pub open spec fn protocol_from(s: Seq<char>) -> ProtocolView {
    if s == "chat_completions"@ {
        ProtocolView::ChatCompletions
    } else if s == "responses"@ {
        ProtocolView::Responses
    } else if "custom:"@.is_prefix_of(s) {
        ProtocolView::Custom(s.skip(7))
    } else {
        ProtocolView::Custom(s)
    }
}

impl ApiProtocol {
    pub open spec fn view(&self) -> ProtocolView {
        match self {
            ApiProtocol::ChatCompletions => ProtocolView::ChatCompletions,
            ApiProtocol::Responses => ProtocolView::Responses,
            ApiProtocol::Custom(id) => ProtocolView::Custom(id@),
        }
    }

    pub fn from_str(s: &str) -> (r: ApiProtocol)
        ensures
            r@ == protocol_from(s@),
    {
        proof {
            reveal_strlit("chat_completions");
            reveal_strlit("responses");
            reveal_strlit("custom:");
        }
        if str_eq(s, "chat_completions") {
            ApiProtocol::ChatCompletions
        } else if str_eq(s, "responses") {
            ApiProtocol::Responses
        } else if starts_with(s, "custom:") {
            ApiProtocol::Custom(crate::text::substring(s, 7, s.unicode_len()))
        } else {
            ApiProtocol::Custom(owned(s))
        }
    }

    pub fn as_str(&self) -> (r: &str)
        ensures
            r@ == match self@ {
                ProtocolView::ChatCompletions => "chat_completions"@,
                ProtocolView::Responses => "responses"@,
                ProtocolView::Custom(id) => id,
            },
    {
        proof {
            reveal_strlit("chat_completions");
            reveal_strlit("responses");
        }
        match self {
            ApiProtocol::ChatCompletions => "chat_completions",
            ApiProtocol::Responses => "responses",
            ApiProtocol::Custom(id) => id.as_str(),
        }
    }

    pub fn duplicate(&self) -> (r: ApiProtocol)
        ensures
            r@ == self@,
    {
        match self {
            ApiProtocol::ChatCompletions => ApiProtocol::ChatCompletions,
            ApiProtocol::Responses => ApiProtocol::Responses,
            ApiProtocol::Custom(id) => ApiProtocol::Custom(owned(id.as_str())),
        }
    }
}

/// What a provider can do, as the Gateway evaluates it.
#[derive(Debug, Clone, Copy, PartialEq, Eq)]
pub struct CapabilitySet {
    pub tools: bool,
    pub streaming: bool,
    pub multimodal: bool,
    pub reasoning: bool,
    pub structured_output: bool,
    pub usage: bool,
    pub model_catalog: bool,
}

/// A provider's declared capabilities; a declared provider always has a
/// model catalog.
pub fn provider_capability_set(capabilities: &ProviderCapabilities) -> (r: CapabilitySet)
    ensures
        r == (CapabilitySet {
            tools: capabilities.supports_tools,
            streaming: capabilities.supports_streaming,
            multimodal: capabilities.supports_multimodal,
            reasoning: capabilities.supports_reasoning_effort,
            structured_output: capabilities.supports_structured_output,
            usage: capabilities.supports_usage,
            model_catalog: true,
        }),
{
    CapabilitySet {
        tools: capabilities.supports_tools,
        streaming: capabilities.supports_streaming,
        multimodal: capabilities.supports_multimodal,
        reasoning: capabilities.supports_reasoning_effort,
        structured_output: capabilities.supports_structured_output,
        usage: capabilities.supports_usage,
        model_catalog: true,
    }
}

// ---------------------------------------------------------------------------
// Adapters
// ---------------------------------------------------------------------------

/// How one adapter is registered: its protocol, and for a declarative
/// protocol the declared configuration.
#[derive(Debug, Clone)]
pub struct GatewayAdapterPlan {
    pub adapter_id: String,
    pub protocol: ApiProtocol,
    pub custom_config: Option<String>,
}

/// An adapter's protocol and whether it is declarative. The builtin
/// protocols need kind `builtin`; every other protocol needs `declarative`.
pub open spec fn adapter_check(a: GatewayAdapterRegistration) -> Result<(ProtocolView, bool), GatewayFault> {
    match protocol_check(a.protocol_id@) {
        Err((f, t)) => Err(gfault(GatewayErrorKind::AdapterProtocol(f), a.id@, t)),
        Ok(t) => if t == "chat_completions"@ || t == "responses"@ {
            if a.kind@ != "builtin"@ {
                Err(gfault(GatewayErrorKind::BuiltinKindRequired, t, Seq::empty()))
            } else {
                Ok((protocol_from(t), false))
            }
        } else if a.kind@ != "declarative"@ {
            Err(gfault(GatewayErrorKind::DeclarativeKindRequired, t, Seq::empty()))
        } else {
            Ok((protocol_from(t), true))
        },
    }
}

pub open spec fn adapter_plan_matches(p: GatewayAdapterPlan, a: GatewayAdapterRegistration) -> bool {
    &&& adapter_check(a) matches Ok((protocol, declarative))
    &&& p.adapter_id == a.id
    &&& p.protocol@ == protocol
    &&& p.custom_config == (if declarative {
        Some(a.config)
    } else {
        None
    })
}

pub fn gateway_adapter_plan(adapter: &GatewayAdapterRegistration) -> (r: Result<GatewayAdapterPlan, GatewayError>)
    ensures
        match adapter_check(*adapter) {
            Ok(_) => r matches Ok(p) && adapter_plan_matches(p, *adapter),
            Err(f) => r matches Err(e) && e.fault() == f,
        },
{
    let t = match check_protocol_id(adapter.protocol_id.as_str()) {
        Ok(t) => t,
        Err(f) => {
            let t = trim_str(adapter.protocol_id.as_str());
            return Err(gerr(GatewayErrorKind::AdapterProtocol(f), adapter.id.as_str(), t.as_str()));
        },
    };
    proof {
        reveal_strlit("chat_completions");
        reveal_strlit("responses");
        reveal_strlit("builtin");
        reveal_strlit("declarative");
    }
    if str_eq(t.as_str(), "chat_completions") || str_eq(t.as_str(), "responses") {
        if !str_eq(adapter.kind.as_str(), "builtin") {
            return Err(gerr1(GatewayErrorKind::BuiltinKindRequired, t.as_str()));
        }
        Ok(GatewayAdapterPlan {
            adapter_id: adapter.id.clone(),
            protocol: ApiProtocol::from_str(t.as_str()),
            custom_config: None,
        })
    } else {
        if !str_eq(adapter.kind.as_str(), "declarative") {
            return Err(gerr1(GatewayErrorKind::DeclarativeKindRequired, t.as_str()));
        }
        Ok(GatewayAdapterPlan {
            adapter_id: adapter.id.clone(),
            protocol: ApiProtocol::from_str(t.as_str()),
            custom_config: Some(adapter.config.clone()),
        })
    }
}

// ---------------------------------------------------------------------------
// Providers
// ---------------------------------------------------------------------------

/// A model of a provider, as the Gateway runs it.
#[derive(Debug, Clone, PartialEq)]
pub struct ModelConfig {
    pub id: String,
    pub name: String,
    pub context_window: u32,
    pub max_output_tokens: u32,
    pub supports_tools: bool,
    pub supports_streaming: bool,
    pub supports_multimodal: bool,
    pub supports_reasoning_effort: bool,
    pub supports_structured_output: bool,
    pub supports_usage: bool,
    pub api_protocol: ApiProtocol,
}

/// A provider as the Gateway runs it.
#[derive(Debug, Clone, PartialEq)]
pub struct ProviderConfig {
    pub id: String,
    pub provider_type: String,
    pub name: String,
    pub base_url: String,
    pub secret_ref: Option<String>,
    pub auth_profile: Option<ProviderAuthProfile>,
    pub models: Vec<ModelConfig>,
    pub default_model: String,
}

/// A declared model, spoken to with `protocol`.
pub open spec fn model_matches(m: ModelConfig, d: GatewayModelRegistration, protocol: ProtocolView) -> bool {
    &&& m.id == d.id
    &&& m.name == d.name
    &&& m.context_window == d.context_window
    &&& m.max_output_tokens == d.max_output_tokens
    &&& m.supports_tools == d.capabilities.supports_tools
    &&& m.supports_streaming == d.capabilities.supports_streaming
    &&& m.supports_multimodal == d.capabilities.supports_multimodal
    &&& m.supports_reasoning_effort == d.capabilities.supports_reasoning_effort
    &&& m.supports_structured_output == d.capabilities.supports_structured_output
    &&& m.supports_usage == d.capabilities.supports_usage
    &&& m.api_protocol@ == protocol
}

pub open spec fn model_ids(ms: Seq<GatewayModelRegistration>) -> Seq<Seq<char>> {
    ms.map_values(|m: GatewayModelRegistration| m.id@)
}

/// Model `i` of a provider: a valid id, not declared before.
pub open spec fn model_fault_at(provider: GatewayProviderRegistration, i: int) -> Option<GatewayFault> {
    let ms = provider.models@;
    match manifest_id_fault(IdKind::Model, ms[i].id@) {
        Some(f) => Some(f),
        None => if model_ids(ms).subrange(0, i).contains(ms[i].id@) {
            Some(gfault(GatewayErrorKind::DuplicateModel, provider.id@, ms[i].id@))
        } else {
            None
        },
    }
}

pub open spec fn models_fault(provider: GatewayProviderRegistration) -> Option<GatewayFault> {
    first_error(indices(provider.models@.len()), |i: int| model_fault_at(provider, i))
}

/// The rules on a provider declaration, in the order they are checked; on
/// success its runtime id and authentication profile.
pub open spec fn provider_check(extension_id: Seq<char>, provider: GatewayProviderRegistration) -> Result<(Seq<char>, ProfileView), GatewayFault> {
    if manifest_id_fault(IdKind::Provider, provider.id@) is Some {
        Err(manifest_id_fault(IdKind::Provider, provider.id@)->Some_0)
    } else if trim(provider.name@).len() == 0 {
        Err(gfault(GatewayErrorKind::EmptyProviderName, provider.id@, Seq::empty()))
    } else if trim(provider.base_url@).len() == 0 {
        Err(gfault(GatewayErrorKind::EmptyBaseUrl, provider.id@, Seq::empty()))
    } else if provider.models@.len() == 0 {
        Err(gfault(GatewayErrorKind::NoModels, provider.id@, Seq::empty()))
    } else {
        match provider_runtime_id(extension_id, provider.id@) {
            Err(f) => Err(f),
            Ok(pid) => match models_fault(provider) {
                Some(f) => Err(f),
                None => if !model_ids(provider.models@).contains(provider.default_model@) {
                    Err(gfault(
                        GatewayErrorKind::UnknownDefaultModel,
                        provider.id@,
                        provider.default_model@,
                    ))
                } else {
                    match manifest_profile(provider.auth.scheme@, provider.auth.header@) {
                        Err(f) => Err(gfault(GatewayErrorKind::Auth(f.0), Seq::empty(), f.1)),
                        Ok(profile) => Ok((pid, profile)),
                    }
                },
            },
        }
    }
}

/// The configuration a valid provider declaration converts to.
pub open spec fn provider_config_matches(
    c: ProviderConfig,
    provider: GatewayProviderRegistration,
    protocol: ProtocolView,
    runtime_id: Seq<char>,
    profile: ProfileView,
) -> bool {
    &&& c.id@ == runtime_id
    &&& c.provider_type@ == runtime_id
    &&& c.name == provider.name
    &&& c.base_url == provider.base_url
    &&& c.secret_ref == provider.auth.secret_ref
    &&& c.auth_profile matches Some(a) && a@ == profile
    &&& c.models@.len() == provider.models@.len()
    &&& forall|i: int| 0 <= i < c.models@.len() ==> #[trigger] model_matches(c.models@[i], provider.models@[i], protocol)
    &&& c.default_model == provider.default_model
}

fn model_config(d: &GatewayModelRegistration, protocol: &ApiProtocol) -> (m: ModelConfig)
    ensures
        model_matches(m, *d, protocol@),
{
    ModelConfig {
        id: d.id.clone(),
        name: d.name.clone(),
        context_window: d.context_window,
        max_output_tokens: d.max_output_tokens,
        supports_tools: d.capabilities.supports_tools,
        supports_streaming: d.capabilities.supports_streaming,
        supports_multimodal: d.capabilities.supports_multimodal,
        supports_reasoning_effort: d.capabilities.supports_reasoning_effort,
        supports_structured_output: d.capabilities.supports_structured_output,
        supports_usage: d.capabilities.supports_usage,
        api_protocol: protocol.duplicate(),
    }
}

/// Converts a provider declaration to the Gateway's provider configuration,
/// speaking `protocol`; ids are checked and made extension-scoped. The
/// configuration is handed to the Gateway host as built: the host's own
/// rules for a provider configuration are the host's to apply.
pub fn extension_provider_config(
    extension_id: &str,
    provider: &GatewayProviderRegistration,
    protocol: &ApiProtocol,
) -> (r: Result<ProviderConfig, GatewayError>)
    ensures
        match provider_check(extension_id@, *provider) {
            Ok((pid, profile)) => r matches Ok(c) && provider_config_matches(
                c,
                *provider,
                protocol@,
                pid,
                profile,
            ),
            Err(f) => r matches Err(e) && e.fault() == f,
        },
{
    validate_manifest_id(IdKind::Provider, provider.id.as_str())?;
    if is_blank(provider.name.as_str()) {
        return Err(gerr1(GatewayErrorKind::EmptyProviderName, provider.id.as_str()));
    }
    if is_blank(provider.base_url.as_str()) {
        return Err(gerr1(GatewayErrorKind::EmptyBaseUrl, provider.id.as_str()));
    }
    if provider.models.len() == 0 {
        return Err(gerr1(GatewayErrorKind::NoModels, provider.id.as_str()));
    }
    let provider_id = extension_provider_id(extension_id, provider.id.as_str())?;
    let ghost ms = provider.models@;
    let ghost f = |i: int| model_fault_at(*provider, i);
    let ghost idx = indices(ms.len());
    proof {
        lemma_first_error_ends(idx, f);
    }
    let n = provider.models.len();
    let mut seen: Vec<String> = Vec::new();
    let mut models: Vec<ModelConfig> = Vec::new();
    for i in 0..n
        invariant
            n == ms.len(),
            ms == provider.models@,
            manifest_id_fault(IdKind::Provider, provider.id@) is None,
            trim(provider.name@).len() != 0,
            trim(provider.base_url@).len() != 0,
            ms.len() > 0,
            provider_runtime_id(extension_id@, provider.id@) is Ok,
            idx == indices(ms.len()),
            f == (|i: int| model_fault_at(*provider, i)),
            first_error(idx, f) == first_error(idx.skip(i as int), f),
            views(seen@) == model_ids(ms).subrange(0, i as int),
            models@.len() == i,
            forall|k: int| 0 <= k < i ==> #[trigger] model_matches(models@[k], ms[k], protocol@),
    {
        assert(idx[i as int] == i);
        let d = &provider.models[i];
        assert(model_ids(ms)[i as int] == d.id@);
        if let Err(e) = validate_manifest_id(IdKind::Model, d.id.as_str()) {
            proof { lemma_first_error_hit(idx, f, i as int); }
            return Err(e);
        }
        if contains_text(&seen, d.id.as_str()) {
            proof { lemma_first_error_hit(idx, f, i as int); }
            return Err(gerr(GatewayErrorKind::DuplicateModel, provider.id.as_str(), d.id.as_str()));
        }
        proof { lemma_first_error_step(idx, f, i as int); }
        push_view(&mut seen, d.id.as_str());
        models.push(model_config(d, protocol));
        proof {
            assert(model_ids(ms).subrange(0, i + 1) =~= model_ids(ms).subrange(0, i as int).push(d.id@));
        }
    }
    proof {
        assert(model_ids(ms).subrange(0, n as int) =~= model_ids(ms));
    }
    if !contains_text(&seen, provider.default_model.as_str()) {
        return Err(gerr(
            GatewayErrorKind::UnknownDefaultModel,
            provider.id.as_str(),
            provider.default_model.as_str(),
        ));
    }
    let profile = match ProviderAuthProfile::from_manifest(
        provider.auth.scheme.as_str(),
        provider.auth.header.as_str(),
    ) {
        Ok(p) => p,
        Err(e) => {
            let g = GatewayError { kind: GatewayErrorKind::Auth(e.kind), subject: String::new(), detail: e.detail };
            assert(g.subject@ =~= Seq::<char>::empty());
            return Err(g);
        },
    };
    Ok(ProviderConfig {
        id: provider_id.clone(),
        provider_type: provider_id,
        name: provider.name.clone(),
        base_url: provider.base_url.clone(),
        secret_ref: crate::seqs::clone_opt(&provider.auth.secret_ref),
        auth_profile: Some(profile),
        models,
        default_model: provider.default_model.clone(),
    })
}

// ---------------------------------------------------------------------------
// Gateway plan
// ---------------------------------------------------------------------------

/// How one provider is registered: its configuration and capabilities.
#[derive(Debug, Clone)]
pub struct GatewayProviderPlan {
    pub config: ProviderConfig,
    pub capabilities: CapabilitySet,
}

/// What a Gateway contribution registers, adapters before providers.
#[derive(Debug, Clone)]
pub struct GatewayPlan {
    pub adapters: Vec<GatewayAdapterPlan>,
    pub providers: Vec<GatewayProviderPlan>,
}

pub open spec fn adapter_ids(a: Seq<GatewayAdapterRegistration>) -> Seq<Seq<char>> {
    a.map_values(|x: GatewayAdapterRegistration| x.id@)
}

pub open spec fn adapter_protocol_ids(a: Seq<GatewayAdapterRegistration>) -> Seq<Seq<char>> {
    a.map_values(|x: GatewayAdapterRegistration| trim(x.protocol_id@))
}

pub open spec fn provider_ids(p: Seq<GatewayProviderRegistration>) -> Seq<Seq<char>> {
    p.map_values(|x: GatewayProviderRegistration| x.id@)
}

/// Adapter `i`: a valid id not used before, a valid protocol id not used
/// before, and a protocol its kind may serve.
pub open spec fn adapter_fault_at(a: Seq<GatewayAdapterRegistration>, i: int) -> Option<GatewayFault> {
    match manifest_id_fault(IdKind::Adapter, a[i].id@) {
        Some(f) => Some(f),
        None => if adapter_ids(a).subrange(0, i).contains(a[i].id@) {
            Some(gfault(GatewayErrorKind::DuplicateAdapter, a[i].id@, Seq::empty()))
        } else {
            match protocol_id_result(a[i].protocol_id@) {
                Err(f) => Some(f),
                Ok(t) => if adapter_protocol_ids(a).subrange(0, i).contains(t) {
                    Some(gfault(GatewayErrorKind::DuplicateProtocol, t, Seq::empty()))
                } else {
                    match adapter_check(a[i]) {
                        Err(f) => Some(f),
                        Ok(_) => None,
                    }
                },
            }
        },
    }
}

pub open spec fn adapters_fault(a: Seq<GatewayAdapterRegistration>) -> Option<GatewayFault> {
    first_error(indices(a.len()), |i: int| adapter_fault_at(a, i))
}

/// The first adapter with id `id`.
pub open spec fn adapter_index(a: Seq<GatewayAdapterRegistration>, id: Seq<char>) -> Option<int> {
    if exists|k: int| 0 <= k < a.len() && (#[trigger] a[k]).id@ == id {
        Some(choose|k: int| 0 <= k < a.len() && (#[trigger] a[k]).id@ == id && (forall|j: int| 0 <= j < k ==> a[j].id@ != id))
    } else {
        None
    }
}

/// The protocol adapter `a` serves.
pub open spec fn adapter_protocol(a: GatewayAdapterRegistration) -> ProtocolView {
    protocol_from(trim(a.protocol_id@))
}

/// Provider `i`: a valid id not used before, a known adapter, and a valid
/// declaration for that adapter's protocol.
pub open spec fn provider_fault_at(
    extension_id: Seq<char>,
    g: GatewayContributions,
    i: int,
) -> Option<GatewayFault> {
    let p = g.providers@[i];
    match manifest_id_fault(IdKind::Provider, p.id@) {
        Some(f) => Some(f),
        None => if provider_ids(g.providers@).subrange(0, i).contains(p.id@) {
            Some(gfault(GatewayErrorKind::DuplicateProvider, p.id@, Seq::empty()))
        } else {
            match adapter_index(g.adapters@, p.adapter_id@) {
                None => Some(gfault(GatewayErrorKind::UnknownAdapter, p.id@, p.adapter_id@)),
                Some(_) => match provider_check(extension_id, p) {
                    Err(f) => Some(f),
                    Ok(_) => None,
                },
            }
        },
    }
}

pub open spec fn providers_fault(extension_id: Seq<char>, g: GatewayContributions) -> Option<GatewayFault> {
    first_error(indices(g.providers@.len()), |i: int| provider_fault_at(extension_id, g, i))
}

/// Why a Gateway contribution is refused, if it is: it must declare
/// something, then adapters are checked in order, then providers.
pub open spec fn gateway_plan_fault(extension_id: Seq<char>, g: GatewayContributions) -> Option<GatewayFault> {
    if g.adapters@.len() == 0 && g.providers@.len() == 0 {
        Some(gfault(GatewayErrorKind::NoDeclarations, Seq::empty(), Seq::empty()))
    } else if adapters_fault(g.adapters@) is Some {
        adapters_fault(g.adapters@)
    } else {
        providers_fault(extension_id, g)
    }
}

/// Provider plan `pp` is what provider `p` registers over adapter `a`.
pub open spec fn provider_plan_matches(
    pp: GatewayProviderPlan,
    extension_id: Seq<char>,
    p: GatewayProviderRegistration,
    a: GatewayAdapterRegistration,
) -> bool {
    &&& provider_check(extension_id, p) matches Ok((pid, profile))
    &&& provider_config_matches(pp.config, p, adapter_protocol(a), pid, profile)
    &&& pp.capabilities == (CapabilitySet {
        tools: p.capabilities.supports_tools,
        streaming: p.capabilities.supports_streaming,
        multimodal: p.capabilities.supports_multimodal,
        reasoning: p.capabilities.supports_reasoning_effort,
        structured_output: p.capabilities.supports_structured_output,
        usage: p.capabilities.supports_usage,
        model_catalog: true,
    })
}

/// The plan of a valid contribution: one adapter plan per adapter and one
/// provider plan per provider, in declaration order, each provider over the
/// adapter it names.
pub open spec fn gateway_plan_matches(plan: GatewayPlan, extension_id: Seq<char>, g: GatewayContributions) -> bool {
    &&& plan.adapters@.len() == g.adapters@.len()
    &&& forall|i: int| 0 <= i < g.adapters@.len() ==> #[trigger] adapter_plan_matches(plan.adapters@[i], g.adapters@[i])
    &&& plan.providers@.len() == g.providers@.len()
    &&& forall|i: int| 0 <= i < g.providers@.len() ==> #[trigger] provider_plan_over(plan.providers@[i], extension_id, g.providers@[i], g.adapters@)
}

/// `pp` is what `p` registers over the adapter it names among `adapters`.
pub open spec fn provider_plan_over(
    pp: GatewayProviderPlan,
    extension_id: Seq<char>,
    p: GatewayProviderRegistration,
    adapters: Seq<GatewayAdapterRegistration>,
) -> bool {
    &&& adapter_index(adapters, p.adapter_id@) is Some
    &&& provider_plan_matches(pp, extension_id, p, adapters[adapter_index(adapters, p.adapter_id@)->Some_0])
}

/// The first plan whose adapter id is `id`.
fn find_adapter_plan(plans: &Vec<GatewayAdapterPlan>, id: &str) -> (r: Option<usize>)
    ensures
        match r {
            Some(k) => k < plans@.len() && plans@[k as int].adapter_id@ == id@ && forall|j: int| 0 <= j < k ==> plans@[j].adapter_id@ != id@,
            None => forall|j: int| 0 <= j < plans@.len() ==> plans@[j].adapter_id@ != id@,
        },
{
    let n = plans.len();
    for i in 0..n
        invariant
            n == plans@.len(),
            forall|j: int| 0 <= j < i ==> plans@[j].adapter_id@ != id@,
    {
        if str_eq(plans[i].adapter_id.as_str(), id) {
            return Some(i);
        }
    }
    None
}

/// Normalises a Gateway contribution into the plan the host registers.
#[verifier::rlimit(30)]
pub fn build_gateway_plan(extension_id: &str, gateway: &GatewayContributions) -> (r: Result<GatewayPlan, GatewayError>)
    ensures
        match gateway_plan_fault(extension_id@, *gateway) {
            None => r matches Ok(plan) && gateway_plan_matches(plan, extension_id@, *gateway),
            Some(f) => r matches Err(e) && e.fault() == f,
        },
{
    if gateway.adapters.len() == 0 && gateway.providers.len() == 0 {
        return Err(gerr0(GatewayErrorKind::NoDeclarations));
    }
    let ghost a = gateway.adapters@;
    let ghost fa = |i: int| adapter_fault_at(a, i);
    let ghost ia = indices(a.len());
    proof {
        lemma_first_error_ends(ia, fa);
    }
    let na = gateway.adapters.len();
    let mut seen_ids: Vec<String> = Vec::new();
    let mut seen_protocols: Vec<String> = Vec::new();
    let mut adapter_plans: Vec<GatewayAdapterPlan> = Vec::new();
    for i in 0..na
        invariant
            na == a.len(),
            a == gateway.adapters@,
            ia == indices(a.len()),
            fa == (|i: int| adapter_fault_at(a, i)),
            first_error(ia, fa) == first_error(ia.skip(i as int), fa),
            views(seen_ids@) == adapter_ids(a).subrange(0, i as int),
            views(seen_protocols@) == adapter_protocol_ids(a).subrange(0, i as int),
            adapter_plans@.len() == i,
            forall|k: int| 0 <= k < i ==> #[trigger] adapter_plan_matches(adapter_plans@[k], a[k]),
    {
        assert(ia[i as int] == i);
        let adapter = &gateway.adapters[i];
        assert(adapter_ids(a)[i as int] == adapter.id@);
        assert(adapter_protocol_ids(a)[i as int] == trim(adapter.protocol_id@));
        if let Err(e) = validate_manifest_id(IdKind::Adapter, adapter.id.as_str()) {
            proof { lemma_first_error_hit(ia, fa, i as int); }
            return Err(e);
        }
        if contains_text(&seen_ids, adapter.id.as_str()) {
            proof { lemma_first_error_hit(ia, fa, i as int); }
            return Err(gerr1(GatewayErrorKind::DuplicateAdapter, adapter.id.as_str()));
        }
        let protocol_id = match validate_protocol_id(adapter.protocol_id.as_str()) {
            Ok(t) => t,
            Err(e) => {
                proof { lemma_first_error_hit(ia, fa, i as int); }
                return Err(e);
            },
        };
        if contains_text(&seen_protocols, protocol_id.as_str()) {
            proof { lemma_first_error_hit(ia, fa, i as int); }
            return Err(gerr1(GatewayErrorKind::DuplicateProtocol, protocol_id.as_str()));
        }
        let plan = match gateway_adapter_plan(adapter) {
            Ok(p) => p,
            Err(e) => {
                proof { lemma_first_error_hit(ia, fa, i as int); }
                return Err(e);
            },
        };
        proof { lemma_first_error_step(ia, fa, i as int); }
        push_view(&mut seen_ids, adapter.id.as_str());
        push_view(&mut seen_protocols, protocol_id.as_str());
        adapter_plans.push(plan);
        proof {
            assert(adapter_ids(a).subrange(0, i + 1) =~= adapter_ids(a).subrange(0, i as int).push(adapter.id@));
            assert(adapter_protocol_ids(a).subrange(0, i + 1) =~= adapter_protocol_ids(a).subrange(0, i as int).push(protocol_id@));
        }
    }
    proof {
        crate::seqs::lemma_first_error_none(ia, fa);
    }
    let ghost p = gateway.providers@;
    let ghost fp = |i: int| provider_fault_at(extension_id@, *gateway, i);
    let ghost ip = indices(p.len());
    proof {
        lemma_first_error_ends(ip, fp);
    }
    let np = gateway.providers.len();
    let mut seen_providers: Vec<String> = Vec::new();
    let mut providers: Vec<GatewayProviderPlan> = Vec::new();
    for i in 0..np
        invariant
            np == p.len(),
            na == a.len(),
            p == gateway.providers@,
            a == gateway.adapters@,
            adapters_fault(a) is None,
            !(a.len() == 0 && p.len() == 0),
            adapter_plans@.len() == na,
            forall|k: int| 0 <= k < na ==> #[trigger] adapter_plan_matches(adapter_plans@[k], a[k]),
            ip == indices(p.len()),
            fp == (|i: int| provider_fault_at(extension_id@, *gateway, i)),
            first_error(ip, fp) == first_error(ip.skip(i as int), fp),
            views(seen_providers@) == provider_ids(p).subrange(0, i as int),
            providers@.len() == i,
            forall|k: int| 0 <= k < i ==> #[trigger] provider_plan_over(providers@[k], extension_id@, p[k], a),
    {
        assert(ip[i as int] == i);
        let provider = &gateway.providers[i];
        assert(provider_ids(p)[i as int] == provider.id@);
        if let Err(e) = validate_manifest_id(IdKind::Provider, provider.id.as_str()) {
            proof { lemma_first_error_hit(ip, fp, i as int); }
            return Err(e);
        }
        if contains_text(&seen_providers, provider.id.as_str()) {
            proof { lemma_first_error_hit(ip, fp, i as int); }
            return Err(gerr1(GatewayErrorKind::DuplicateProvider, provider.id.as_str()));
        }
        let k = match find_adapter_plan(&adapter_plans, provider.adapter_id.as_str()) {
            Some(k) => k,
            None => {
                proof {
                    if exists|k: int| 0 <= k < a.len() && (#[trigger] a[k]).id@ == provider.adapter_id@ {
                        let k = choose|k: int| 0 <= k < a.len() && (#[trigger] a[k]).id@ == provider.adapter_id@;
                        assert(adapter_plan_matches(adapter_plans@[k], a[k]));
                    }
                    lemma_first_error_hit(ip, fp, i as int);
                }
                return Err(gerr(
                    GatewayErrorKind::UnknownAdapter,
                    provider.id.as_str(),
                    provider.adapter_id.as_str(),
                ));
            },
        };
        proof {
            assert(adapter_plan_matches(adapter_plans@[k as int], a[k as int]));
            assert forall|j: int| 0 <= j < k implies a[j].id@ != provider.adapter_id@ by {
                assert(adapter_plan_matches(adapter_plans@[j], a[j]));
            }
            let c = choose|c: int| 0 <= c < a.len() && (#[trigger] a[c]).id@ == provider.adapter_id@ && (forall|j: int| 0 <= j < c ==> a[j].id@ != provider.adapter_id@);
            assert(a[k as int].id@ == provider.adapter_id@);
            if c < k {
                assert(a[c].id@ != provider.adapter_id@);
            }
            if k < c {
                assert(a[k as int].id@ != provider.adapter_id@);
            }
            assert(adapter_index(a, provider.adapter_id@) == Some(k as int));
            assert(adapter_check(a[k as int]) is Ok);
        }
        let config = match extension_provider_config(extension_id, provider, &adapter_plans[k].protocol) {
            Ok(c) => c,
            Err(e) => {
                proof { lemma_first_error_hit(ip, fp, i as int); }
                return Err(e);
            },
        };
        proof { lemma_first_error_step(ip, fp, i as int); }
        push_view(&mut seen_providers, provider.id.as_str());
        providers.push(GatewayProviderPlan {
            config,
            capabilities: provider_capability_set(&provider.capabilities),
        });
        proof {
            assert(provider_ids(p).subrange(0, i + 1) =~= provider_ids(p).subrange(0, i as int).push(provider.id@));
            assert(adapter_protocol(a[k as int]) == adapter_plans@[k as int].protocol@);
        }
    }
    Ok(GatewayPlan { adapters: adapter_plans, providers })
}

// ---------------------------------------------------------------------------
// Laws
// ---------------------------------------------------------------------------

/// Runtime provider ids name their provider: two valid (extension,
/// provider) pairs get the same id only if they are the same pair.
pub proof fn law_provider_id_injective(e1: Seq<char>, p1: Seq<char>, e2: Seq<char>, p2: Seq<char>)
    requires
        provider_runtime_id(e1, p1) is Ok,
        provider_runtime_id(e2, p2) is Ok,
        provider_runtime_id(e1, p1) == provider_runtime_id(e2, p2),
    ensures
        e1 == e2,
        p1 == p2,
{
    let pre = "extension:"@;
    let x = pre + e1 + "/"@ + p1;
    let y = pre + e2 + "/"@ + p2;
    assert(x == y);
    reveal_strlit("extension:");
    reveal_strlit("/");
    assert(pre.len() == 10);
    if e1.len() < e2.len() {
        assert(x[10 + e1.len() as int] == '/');
        assert(y[10 + e1.len() as int] == e2[e1.len() as int]);
        assert(e2.contains(e2[e1.len() as int]));
    } else if e2.len() < e1.len() {
        assert(y[10 + e2.len() as int] == '/');
        assert(x[10 + e2.len() as int] == e1[e2.len() as int]);
        assert(e1.contains(e1[e2.len() as int]));
    }
    assert(e1.len() == e2.len());
    assert forall|k: int| 0 <= k < e1.len() implies e1[k] == e2[k] by {
        assert(x[10 + k] == e1[k]);
        assert(y[10 + k] == e2[k]);
    }
    assert(e1 =~= e2);
    assert(p1.len() == p2.len());
    assert forall|k: int| 0 <= k < p1.len() implies p1[k] == p2[k] by {
        assert(x[11 + e1.len() + k] == p1[k]);
        assert(y[11 + e2.len() + k] == p2[k]);
    }
    assert(p1 =~= p2);
}

/// Every runtime provider id is under the `extension:` prefix.
pub proof fn law_provider_id_namespaced(extension_id: Seq<char>, provider_id: Seq<char>)
    requires
        provider_runtime_id(extension_id, provider_id) is Ok,
    ensures
        "extension:"@.is_prefix_of(provider_runtime_id(extension_id, provider_id)->Ok_0),
{
    let x = provider_runtime_id(extension_id, provider_id)->Ok_0;
    reveal_strlit("extension:");
    assert forall|k: int| 0 <= k < 10 implies x[k] == "extension:"@[k] by {}
}

/// Resolving an MCP override server id twice gives the same id as once.
pub proof fn law_override_server_id_idempotent(extension_id: Seq<char>, server: Seq<char>)
    ensures
        override_server_id(extension_id, override_server_id(extension_id, server))
            == override_server_id(extension_id, server),
{
    reveal_strlit("extension:");
    let r = override_server_id(extension_id, server);
    if !(server == "builtin"@ || "extension:"@.is_prefix_of(server)) {
        assert forall|k: int| 0 <= k < 10 implies r[k] == "extension:"@[k] by {}
        assert("extension:"@.is_prefix_of(r));
    }
}

// ---------------------------------------------------------------------------
// Tool risk
// ---------------------------------------------------------------------------

/// How much a tool may affect the user's machine.
#[derive(Debug, Clone, Copy, PartialEq, Eq, PartialOrd, Ord)]
pub enum ToolRiskLevel {
    NoRisk,
    Read,
    Write,
    Network,
    Command,
    Destructive,
}

/// The risk level a declaration names, case-insensitively after trimming.
pub open spec fn risk_from(value: Seq<char>) -> Option<ToolRiskLevel> {
    let v = crate::text::ascii_lowercase(trim(value));
    if v == "none"@ {
        Some(ToolRiskLevel::NoRisk)
    } else if v == "read"@ {
        Some(ToolRiskLevel::Read)
    } else if v == "write"@ {
        Some(ToolRiskLevel::Write)
    } else if v == "network"@ {
        Some(ToolRiskLevel::Network)
    } else if v == "command"@ {
        Some(ToolRiskLevel::Command)
    } else if v == "destructive"@ {
        Some(ToolRiskLevel::Destructive)
    } else {
        None
    }
}

pub fn parse_tool_risk(value: &str) -> (r: Result<ToolRiskLevel, GatewayError>)
    ensures
        match risk_from(value@) {
            Some(level) => r == Ok::<ToolRiskLevel, GatewayError>(level),
            None => r matches Err(e) && e.fault() == gfault(
                GatewayErrorKind::UnsupportedRisk,
                crate::text::ascii_lowercase(trim(value@)),
                Seq::empty(),
            ),
        },
{
    let t = trim_str(value);
    let v = crate::text::to_ascii_lowercase(t.as_str());
    proof {
        reveal_strlit("none");
        reveal_strlit("read");
        reveal_strlit("write");
        reveal_strlit("network");
        reveal_strlit("command");
        reveal_strlit("destructive");
    }
    if str_eq(v.as_str(), "none") {
        Ok(ToolRiskLevel::NoRisk)
    } else if str_eq(v.as_str(), "read") {
        Ok(ToolRiskLevel::Read)
    } else if str_eq(v.as_str(), "write") {
        Ok(ToolRiskLevel::Write)
    } else if str_eq(v.as_str(), "network") {
        Ok(ToolRiskLevel::Network)
    } else if str_eq(v.as_str(), "command") {
        Ok(ToolRiskLevel::Command)
    } else if str_eq(v.as_str(), "destructive") {
        Ok(ToolRiskLevel::Destructive)
    } else {
        Err(gerr1(GatewayErrorKind::UnsupportedRisk, v.as_str()))
    }
}

// ---------------------------------------------------------------------------
// LSP languages
// ---------------------------------------------------------------------------

/// The LSP server configuration a language declaration projects to.
pub fn lsp_server_config_from_extension_language(language: &LanguageRegistration) -> (r: LSPServerConfig)
    ensures
        r.language_id == language.language_id,
        r.language_names@ == seq![language.display_name],
        r.file_extensions@ == language.extensions@,
        r.server_command == language.server_command,
        r.server_args@ == match language.server_args {
            Some(a) => a@,
            None => Seq::empty(),
        },
        r.initialization_options == language.initialization_options,
        r.capabilities_required@.len() == 0,
{
    let mut names: Vec<String> = Vec::new();
    names.push(language.display_name.clone());
    LSPServerConfig {
        language_id: language.language_id.clone(),
        language_names: names,
        file_extensions: clone_strings(&language.extensions),
        server_command: language.server_command.clone(),
        server_args: match &language.server_args {
            Some(a) => clone_strings(a),
            None => Vec::new(),
        },
        initialization_options: match &language.initialization_options {
            Some(o) => Some(o.clone()),
            None => None,
        },
        capabilities_required: Vec::new(),
    }
}

/// A copy of `v`, string for string.
pub fn clone_strings(v: &Vec<String>) -> (r: Vec<String>)
    ensures
        r@ == v@,
{
    let mut out: Vec<String> = Vec::new();
    let n = v.len();
    for i in 0..n
        invariant
            n == v@.len(),
            out@ == v@.subrange(0, i as int),
    {
        out.push(v[i].clone());
        proof {
            assert(out@ =~= v@.subrange(0, i + 1));
        }
    }
    proof {
        assert(v@.subrange(0, n as int) =~= v@);
    }
    out
}

} // verus!
