//! Manifest validation.
//!
//! `ExtensionLoader::validate` checks a parsed manifest in a fixed order and
//! reports the first rule it breaks. Each rule is a spec function below; the
//! fault of a manifest is the first fault in that order.

use vstd::prelude::*;
use vstd::string::*;

use crate::host_view::{is_safe_path_segment, is_safe_segment, validate_extension_view, view_fault, HostViewErrorKind};
use crate::models::{BackendServiceRegistration, BuiltinAction, CapabilityDeclaration, CommandRegistration, ComponentRegistration, ContextProviderRegistration, EventSubscriptionRegistration, ExtensionCall, ExtensionContributes, ExtensionExports, ExtensionManifest, ExtensionPermissions, HookRegistration, KeybindingRegistration, MenuRegistration, RoleDefinition, ScriptRegistration, SkillDefinition, StatusBarItemRegistration, ToolbarItemRegistration, TrayItemRegistration, TriggerRegistration, ViewRegistration, WorkModeRegistration};
use crate::seqs::{
    contains_text, indices, push_view, first_error, lemma_first_error_ends, lemma_first_error_hit,
    lemma_first_error_none, lemma_first_error_step, opt_seq, views,
};
use crate::text::{
    all_chars_in, all_in_class, any_char_in, any_in_class, concat3, concat4, concat5, concat7, contains_char,
    contains_seq, contains_str, ends_with, is_blank, is_trimmed, lemma_split_nonempty, owned,
    split, split_char, starts_with, str_eq, trim, trim_str, CharClass,
};

verus! {

/// What a manifest breaks.
#[derive(Debug, Clone, Copy, PartialEq, Eq)]
pub enum ManifestErrorKind {
    IdEmpty,
    IdUnsupportedCharacters,
    NameEmpty,
    VersionEmpty,
    MaxMemoryZero,
    CpuPercentOutOfRange,
    TimeoutZero,
    View(HostViewErrorKind),
    MenuUnknownCommand,
    KeybindingUnknownCommand,
    ToolbarItemUnknownCommand,
    TrayItemUnknownCommand,
    StatusBarItemUnknownCommand,
    CommandUnknownView(ViewAction),
    CommandEmptyScript,
    CommandUnknownScript,
    CommandEmptyMessageTarget,
    WorkModeUnknownRole,
    WorkModeUnknownCommand,
    WorkModeUnknownSkill,
    WorkModeUnknownEntryView,
    WorkModeUnknownDefaultView,
    WorkModeUnknownContextPolicy,
    TriggerPrefixMissingSlash,
    TriggerPrefixTooShort,
    TriggerPrefixUnsupportedCharacters,
    WorkModeIdEmpty,
    WorkModeIdHasColon,
    WorkModeIdDuplicate,
    HookIdEmpty,
    HookIdDuplicate,
    HookModuleEmpty,
    EventSubscriptionIdEmpty,
    EventSubscriptionIdUnsupportedCharacters,
    EventSubscriptionIdDuplicate,
    TopicEmpty,
    TopicNotAsciiToken,
    TopicBadSegment,
    ScopeKeyInvalid,
    HandlerModuleEmpty,
    HandlerModuleNotRelative,
    HandlerModuleUnsafeSegment,
    HandlerExportEmpty,
    HandlerExportInvalid,
    InvokeCommandEmpty,
    InvokeCommandUnsupportedCharacters,
    ReadKeyInvalid,
    ExtensionCallTargetEmpty,
    ExtensionCallUnsupportedAction,
    ExportUnknownView,
    ExportUnknownCommand,
    BackendServiceIdEmpty,
    BackendServiceIdHasWhitespace,
    BackendServiceIdDuplicate,
    BackendEntryEmpty,
    BackendEntryNotRelative,
    BackendEntryOutsideBackendDir,
    BackendEntryUnsafeSegment,
    ComponentIdEmpty,
    ComponentIdHasWhitespace,
    ComponentIdDuplicate,
    ComponentEntryEmpty,
    ComponentEntryNotWasm,
    ComponentEntryNotRelative,
    ComponentEntryOutsideExtensionDirs,
    ComponentEntryUnsafeSegment,
    ComponentRunOnEmpty,
    ComponentRunOnUnsupported,
}

/// The built-in command actions that open a view.
#[derive(Debug, Clone, Copy, PartialEq, Eq)]
pub enum ViewAction {
    OpenView,
    ToggleView,
    OpenDialog,
}

impl ViewAction {
    /// The action's name as the manifest spells it, as a value.
    pub open spec fn text(&self) -> Seq<char> {
        match self {
            ViewAction::OpenView => "OpenView"@,
            ViewAction::ToggleView => "ToggleView"@,
            ViewAction::OpenDialog => "OpenDialog"@,
        }
    }

    /// The action's name as the manifest spells it.
    pub fn name(&self) -> (r: &'static str)
        ensures
            r@ == self.text(),
    {
        match self {
            ViewAction::OpenView => "OpenView",
            ViewAction::ToggleView => "ToggleView",
            ViewAction::OpenDialog => "OpenDialog",
        }
    }
}

/// A refused manifest: what rule, about which declaration, naming which value.
#[derive(Debug, Clone, PartialEq)]
pub struct ManifestError {
    pub kind: ManifestErrorKind,
    pub subject: String,
    pub detail: String,
}

/// A fault as a value: the rule, the subject and the detail.
pub type Fault = (ManifestErrorKind, Seq<char>, Seq<char>);

impl ManifestError {
    pub open spec fn fault(&self) -> Fault {
        (self.kind, self.subject@, self.detail@)
    }
}

pub open spec fn fault(kind: ManifestErrorKind, subject: Seq<char>, detail: Seq<char>) -> Fault {
    (kind, subject, detail)
}

pub open spec fn result_matches(r: Result<(), ManifestError>, f: Option<Fault>) -> bool {
    match f {
        None => r is Ok,
        Some(f) => r matches Err(e) && e.fault() == f,
    }
}

fn err(kind: ManifestErrorKind, subject: &str, detail: &str) -> (e: ManifestError)
    ensures
        e.fault() == fault(kind, subject@, detail@),
{
    ManifestError { kind, subject: owned(subject), detail: owned(detail) }
}

fn empty_detail() -> (r: &'static str)
    ensures
        r@ == Seq::<char>::empty(),
{
    proof {
        reveal_strlit("");
        assert(""@ =~= Seq::<char>::empty());
    }
    ""
}

// ===========================================================================
// Identifiers
// ===========================================================================

pub open spec fn valid_extension_id(id: Seq<char>) -> bool {
    &&& 0 < id.len() <= 128
    &&& all_in_class(id, CharClass::ExtensionIdChar)
    &&& id != "."@
    &&& id != ".."@
}

/// Whether `id` may name an extension: 1 to 128 ASCII letters, digits, `.`,
/// `-` or `_`, and neither `.` nor `..`.
pub fn is_valid_extension_id(id: &str) -> (r: bool)
    ensures
        r == valid_extension_id(id@),
{
    let n = id.unicode_len();
    n > 0 && n <= 128 && all_chars_in(id, CharClass::ExtensionIdChar) && !str_eq(id, ".")
        && !str_eq(id, "..")
}

pub open spec fn valid_invoke_command_name(c: Seq<char>) -> bool {
    &&& c.len() <= 128
    &&& !(c.len() > 0 && c[0] == '.')
    &&& !(c.len() > 0 && c.last() == '.')
    &&& all_in_class(c, CharClass::InvokeCommandChar)
}

/// An IPC command name: at most 128 characters from lowercase letters,
/// digits, `.`, `-`, `_`, `:`, neither starting nor ending with `.`.
pub fn is_valid_invoke_command_name(command: &str) -> (r: bool)
    ensures
        r == valid_invoke_command_name(command@),
{
    let n = command.unicode_len();
    if n > 128 {
        return false;
    }
    if n > 0 && (command.get_char(0) == '.' || command.get_char(n - 1) == '.') {
        return false;
    }
    all_chars_in(command, CharClass::InvokeCommandChar)
}

pub open spec fn valid_handler_identifier(s: Seq<char>) -> bool {
    s.len() > 0 && in_class_first(s) && all_in_class(s.drop_first(), CharClass::IdentifierChar)
}

pub open spec fn in_class_first(s: Seq<char>) -> bool {
    crate::text::in_class(CharClass::IdentifierStart, s[0])
}

/// A handler export name: an ASCII letter, `_` or `$`, then ASCII letters,
/// digits, `_` or `$`.
pub fn is_valid_handler_identifier(export: &str) -> (r: bool)
    ensures
        r == valid_handler_identifier(export@),
{
    let n = export.unicode_len();
    if n == 0 {
        return false;
    }
    if !crate::text::char_in_class(CharClass::IdentifierStart, export.get_char(0)) {
        return false;
    }
    let rest = export.substring_char(1, n);
    proof {
        assert(rest@ =~= export@.drop_first());
    }
    all_chars_in(rest, CharClass::IdentifierChar)
}

// ===========================================================================
// Triggers
// ===========================================================================

pub open spec fn trigger_fault(t: TriggerRegistration) -> Option<Fault> {
    let p = t.prefix@;
    if !(p.len() > 0 && p[0] == '/') {
        Some(fault(ManifestErrorKind::TriggerPrefixMissingSlash, p, Seq::empty()))
    } else if p.len() == 1 {
        Some(fault(ManifestErrorKind::TriggerPrefixTooShort, p, Seq::empty()))
    } else if !all_in_class(p.drop_first(), CharClass::TriggerChar) {
        Some(fault(ManifestErrorKind::TriggerPrefixUnsupportedCharacters, p, Seq::empty()))
    } else {
        None
    }
}

pub open spec fn triggers_fault(ts: Seq<TriggerRegistration>) -> Option<Fault> {
    first_error(ts, |t: TriggerRegistration| trigger_fault(t))
}

fn check_trigger(t: &TriggerRegistration) -> (r: Result<(), ManifestError>)
    ensures
        result_matches(r, trigger_fault(*t)),
{
    let p = t.prefix.as_str();
    let n = p.unicode_len();
    if n == 0 || p.get_char(0) != '/' {
        return Err(err(ManifestErrorKind::TriggerPrefixMissingSlash, p, empty_detail()));
    }
    if n == 1 {
        return Err(err(ManifestErrorKind::TriggerPrefixTooShort, p, empty_detail()));
    }
    let body = p.substring_char(1, n);
    proof {
        assert(body@ =~= p@.drop_first());
    }
    if !all_chars_in(body, CharClass::TriggerChar) {
        return Err(err(ManifestErrorKind::TriggerPrefixUnsupportedCharacters, p, empty_detail()));
    }
    Ok(())
}

/// Trigger prefixes: `/` followed by at least one lowercase letter, digit, `-` or `.`.
pub fn validate_triggers(triggers: &Vec<TriggerRegistration>) -> (r: Result<(), ManifestError>)
    ensures
        result_matches(r, triggers_fault(triggers@)),
{
    let ghost f = |t: TriggerRegistration| trigger_fault(t);
    proof {
        lemma_first_error_ends(triggers@, f);
    }
    let n = triggers.len();
    for i in 0..n
        invariant
            n == triggers@.len(),
            f == (|t: TriggerRegistration| trigger_fault(t)),
            first_error(triggers@, f) == first_error(triggers@.skip(i as int), f),
    {
        let r = check_trigger(&triggers[i]);
        if r.is_err() {
            proof {
                lemma_first_error_hit(triggers@, f, i as int);
            }
            return r;
        }
        proof {
            lemma_first_error_step(triggers@, f, i as int);
        }
    }
    Ok(())
}

// ===========================================================================
// Work modes
// ===========================================================================

pub open spec fn work_mode_ids(modes: Seq<WorkModeRegistration>) -> Seq<Seq<char>> {
    modes.map_values(|m: WorkModeRegistration| m.id@)
}

/// The fault of the work mode at `i`, given that the ones before it passed.
pub open spec fn work_mode_fault_at(modes: Seq<WorkModeRegistration>, i: int) -> Option<Fault> {
    let id = modes[i].id@;
    if id.len() == 0 {
        Some(fault(ManifestErrorKind::WorkModeIdEmpty, id, Seq::empty()))
    } else if id.contains(':') {
        Some(fault(ManifestErrorKind::WorkModeIdHasColon, id, Seq::empty()))
    } else if work_mode_ids(modes).subrange(0, i).contains(id) {
        Some(fault(ManifestErrorKind::WorkModeIdDuplicate, id, Seq::empty()))
    } else {
        None
    }
}

pub open spec fn work_modes_fault(modes: Seq<WorkModeRegistration>) -> Option<Fault> {
    first_error(indices(modes.len()), |i: int| work_mode_fault_at(modes, i))
}

/// Work mode ids: non-empty, without `:`, unique.
pub fn validate_work_modes(modes: &Vec<WorkModeRegistration>) -> (r: Result<(), ManifestError>)
    ensures
        result_matches(r, work_modes_fault(modes@)),
{
    let ghost f = |i: int| work_mode_fault_at(modes@, i);
    let ghost idx = indices(modes@.len());
    proof {
        lemma_first_error_ends(idx, f);
    }
    let n = modes.len();
    let mut seen: Vec<String> = Vec::new();
    for i in 0..n
        invariant
            n == modes@.len(),
            idx == indices(modes@.len()),
            f == (|i: int| work_mode_fault_at(modes@, i)),
            first_error(idx, f) == first_error(idx.skip(i as int), f),
            views(seen@) == work_mode_ids(modes@).subrange(0, i as int),
    {
        let id = modes[i].id.as_str();
        assert(idx[i as int] == i);
        assert(work_mode_ids(modes@)[i as int] == id@);
        if id.unicode_len() == 0 {
            proof { lemma_first_error_hit(idx, f, i as int); }
            return Err(err(ManifestErrorKind::WorkModeIdEmpty, id, empty_detail()));
        }
        if contains_char(id, ':') {
            proof { lemma_first_error_hit(idx, f, i as int); }
            return Err(err(ManifestErrorKind::WorkModeIdHasColon, id, empty_detail()));
        }
        if contains_text(&seen, id) {
            proof { lemma_first_error_hit(idx, f, i as int); }
            return Err(err(ManifestErrorKind::WorkModeIdDuplicate, id, empty_detail()));
        }
        proof { lemma_first_error_step(idx, f, i as int); }
        push_view(&mut seen, id);
        proof {
            assert(work_mode_ids(modes@).subrange(0, i + 1) =~= work_mode_ids(modes@).subrange(
                0,
                i as int,
            ).push(id@));
        }
    }
    Ok(())
}

// ===========================================================================
// Hooks
// ===========================================================================

pub open spec fn hook_ids(hooks: Seq<HookRegistration>) -> Seq<Seq<char>> {
    hooks.map_values(|h: HookRegistration| h.id@)
}

pub open spec fn hook_fault_at(hooks: Seq<HookRegistration>, i: int) -> Option<Fault> {
    let id = hooks[i].id@;
    if trim(id).len() == 0 {
        Some(fault(ManifestErrorKind::HookIdEmpty, id, Seq::empty()))
    } else if hook_ids(hooks).subrange(0, i).contains(id) {
        Some(fault(ManifestErrorKind::HookIdDuplicate, id, Seq::empty()))
    } else if trim(hooks[i].module@).len() == 0 {
        Some(fault(ManifestErrorKind::HookModuleEmpty, id, Seq::empty()))
    } else {
        None
    }
}

pub open spec fn hooks_fault(hooks: Seq<HookRegistration>) -> Option<Fault> {
    first_error(indices(hooks.len()), |i: int| hook_fault_at(hooks, i))
}

/// Hook declarations: non-blank unique ids and non-blank modules.
pub fn validate_hooks(hooks: &Vec<HookRegistration>) -> (r: Result<(), ManifestError>)
    ensures
        result_matches(r, hooks_fault(hooks@)),
{
    let ghost f = |i: int| hook_fault_at(hooks@, i);
    let ghost idx = indices(hooks@.len());
    proof {
        lemma_first_error_ends(idx, f);
    }
    let n = hooks.len();
    let mut seen: Vec<String> = Vec::new();
    for i in 0..n
        invariant
            n == hooks@.len(),
            idx == indices(hooks@.len()),
            f == (|i: int| hook_fault_at(hooks@, i)),
            first_error(idx, f) == first_error(idx.skip(i as int), f),
            views(seen@) == hook_ids(hooks@).subrange(0, i as int),
    {
        let id = hooks[i].id.as_str();
        assert(idx[i as int] == i);
        assert(hook_ids(hooks@)[i as int] == id@);
        if is_blank(id) {
            proof { lemma_first_error_hit(idx, f, i as int); }
            return Err(err(ManifestErrorKind::HookIdEmpty, id, empty_detail()));
        }
        if contains_text(&seen, id) {
            proof { lemma_first_error_hit(idx, f, i as int); }
            return Err(err(ManifestErrorKind::HookIdDuplicate, id, empty_detail()));
        }
        if is_blank(hooks[i].module.as_str()) {
            proof { lemma_first_error_hit(idx, f, i as int); }
            return Err(err(ManifestErrorKind::HookModuleEmpty, id, empty_detail()));
        }
        proof { lemma_first_error_step(idx, f, i as int); }
        push_view(&mut seen, id);
        proof {
            assert(hook_ids(hooks@).subrange(0, i + 1) =~= hook_ids(hooks@).subrange(
                0,
                i as int,
            ).push(id@));
        }
    }
    Ok(())
}

// ===========================================================================
// Event subscriptions
// ===========================================================================

pub open spec fn is_topic_segment(seg: Seq<char>) -> bool {
    seg.len() > 0 && all_in_class(seg, CharClass::NameSegmentChar)
}

pub open spec fn all_topic_segments(segs: Seq<Seq<char>>) -> bool {
    forall|k: int| 0 <= k < segs.len() ==> is_topic_segment(#[trigger] segs[k])
}

/// A topic: non-blank, trimmed, ASCII without whitespace or control
/// characters, made of non-empty `.`-separated name segments.
pub open spec fn topic_fault(topic: Seq<char>, subject: Seq<char>) -> Option<Fault> {
    if trim(topic).len() == 0 {
        Some(fault(ManifestErrorKind::TopicEmpty, subject, topic))
    } else if trim(topic) != topic || any_in_class(topic, CharClass::NonAscii) || any_in_class(
        topic,
        CharClass::AsciiWhitespace,
    ) || any_in_class(topic, CharClass::AsciiControl) {
        Some(fault(ManifestErrorKind::TopicNotAsciiToken, subject, topic))
    } else if !all_topic_segments(split(topic, '.')) {
        Some(fault(ManifestErrorKind::TopicBadSegment, subject, topic))
    } else {
        None
    }
}

fn topic_segments_ok(segs: &Vec<String>) -> (r: bool)
    ensures
        r == all_topic_segments(views(segs@)),
{
    let n = segs.len();
    for i in 0..n
        invariant
            n == segs@.len(),
            forall|k: int| 0 <= k < i ==> is_topic_segment(#[trigger] views(segs@)[k]),
    {
        let seg = segs[i].as_str();
        assert(views(segs@)[i as int] == seg@);
        if seg.unicode_len() == 0 || !all_chars_in(seg, CharClass::NameSegmentChar) {
            return false;
        }
    }
    true
}

pub fn validate_event_topic(topic: &str, subject: &str) -> (r: Result<(), ManifestError>)
    ensures
        result_matches(r, topic_fault(topic@, subject@)),
{
    if is_blank(topic) {
        return Err(err(ManifestErrorKind::TopicEmpty, subject, topic));
    }
    if !is_trimmed(topic) || any_char_in(topic, CharClass::NonAscii) || any_char_in(
        topic,
        CharClass::AsciiWhitespace,
    ) || any_char_in(topic, CharClass::AsciiControl) {
        return Err(err(ManifestErrorKind::TopicNotAsciiToken, subject, topic));
    }
    let segs = split_char(topic, '.');
    proof {
        assert(views(segs@) =~= split(topic@, '.'));
    }
    if !topic_segments_ok(&segs) {
        return Err(err(ManifestErrorKind::TopicBadSegment, subject, topic));
    }
    Ok(())
}

pub open spec fn scope_key_fault(scope_key: Option<Seq<char>>, subject: Seq<char>) -> Option<Fault> {
    match scope_key {
        None => None,
        Some(k) => if trim(k).len() == 0 || trim(k) != k || any_in_class(k, CharClass::AsciiControl)
            || any_in_class(k, CharClass::AsciiWhitespace) {
            Some(fault(ManifestErrorKind::ScopeKeyInvalid, subject, k))
        } else {
            None
        },
    }
}

pub open spec fn opt_view(o: Option<String>) -> Option<Seq<char>> {
    match o {
        Some(s) => Some(s@),
        None => None,
    }
}

pub fn validate_scope_key(scope_key: Option<&str>, subject: &str) -> (r: Result<(), ManifestError>)
    ensures
        result_matches(
            r,
            scope_key_fault(
                match scope_key {
                    Some(k) => Some(k@),
                    None => None,
                },
                subject@,
            ),
        ),
{
    match scope_key {
        None => Ok(()),
        Some(k) => {
            if is_blank(k) || !is_trimmed(k) || any_char_in(k, CharClass::AsciiControl)
                || any_char_in(k, CharClass::AsciiWhitespace) {
                Err(err(ManifestErrorKind::ScopeKeyInvalid, subject, k))
            } else {
                Ok(())
            }
        },
    }
}

/// Every segment after the first is safe.
pub open spec fn rest_segments_safe(segs: Seq<Seq<char>>) -> bool {
    forall|k: int| 1 <= k < segs.len() ==> is_safe_segment(#[trigger] segs[k])
}

fn rest_segments_ok(segs: &Vec<String>) -> (r: bool)
    ensures
        r == rest_segments_safe(views(segs@)),
{
    let n = segs.len();
    let mut i: usize = 1;
    while i < n
        invariant
            n == segs@.len(),
            1 <= i,
            forall|k: int| 1 <= k < i && k < n ==> is_safe_segment(#[trigger] views(segs@)[k]),
        decreases n - i,
    {
        assert(views(segs@)[i as int] == segs@[i as int]@);
        if !is_safe_path_segment(segs[i].as_str()) {
            return false;
        }
        i = i + 1;
    }
    true
}

/// A handler module: `./`-relative, trimmed, not a URL or query, no `\`
/// separators, no control characters, not absolute (a leading `/`), with
/// safe segments.
pub open spec fn module_fault(m: Seq<char>, subject: Seq<char>) -> Option<Fault> {
    if trim(m).len() == 0 {
        Some(fault(ManifestErrorKind::HandlerModuleEmpty, subject, m))
    } else if trim(m) != m || !"./"@.is_prefix_of(m) || m.contains('\\') || contains_seq(
        m,
        "://"@,
    ) || m.contains('?') || m.contains('#') || any_in_class(m, CharClass::AsciiControl) || m[0]
        == '/' {
        Some(fault(ManifestErrorKind::HandlerModuleNotRelative, subject, m))
    } else if split(m, '/')[0] != "."@ || split(m, '/').len() < 2 || !rest_segments_safe(
        split(m, '/'),
    ) {
        Some(fault(ManifestErrorKind::HandlerModuleUnsafeSegment, subject, m))
    } else {
        None
    }
}

pub fn validate_handler_module(module: &str, subject: &str) -> (r: Result<(), ManifestError>)
    ensures
        result_matches(r, module_fault(module@, subject@)),
{
    if is_blank(module) {
        return Err(err(ManifestErrorKind::HandlerModuleEmpty, subject, module));
    }
    proof {
        crate::text::lemma_trim_empty(module@);
    }
    if !is_trimmed(module) || !starts_with(module, "./") || contains_char(module, '\\')
        || contains_str(module, "://") || contains_char(module, '?') || contains_char(module, '#')
        || any_char_in(module, CharClass::AsciiControl) || module.get_char(0) == '/' {
        return Err(err(ManifestErrorKind::HandlerModuleNotRelative, subject, module));
    }
    let segs = split_char(module, '/');
    proof {
        lemma_split_nonempty(module@, '/');
        assert(views(segs@) =~= split(module@, '/'));
    }
    if !str_eq(segs[0].as_str(), ".") || segs.len() < 2 || !rest_segments_ok(&segs) {
        return Err(err(ManifestErrorKind::HandlerModuleUnsafeSegment, subject, module));
    }
    Ok(())
}

pub open spec fn export_fault(e: Seq<char>, subject: Seq<char>) -> Option<Fault> {
    if e.len() == 0 {
        Some(fault(ManifestErrorKind::HandlerExportEmpty, subject, e))
    } else if trim(e) != e || !valid_handler_identifier(e) {
        Some(fault(ManifestErrorKind::HandlerExportInvalid, subject, e))
    } else {
        None
    }
}

pub fn validate_handler_export(export: &str, subject: &str) -> (r: Result<(), ManifestError>)
    ensures
        result_matches(r, export_fault(export@, subject@)),
{
    if export.unicode_len() == 0 {
        return Err(err(ManifestErrorKind::HandlerExportEmpty, subject, export));
    }
    if !is_trimmed(export) || !is_valid_handler_identifier(export) {
        return Err(err(ManifestErrorKind::HandlerExportInvalid, subject, export));
    }
    Ok(())
}

pub open spec fn subscription_ids(subs: Seq<EventSubscriptionRegistration>) -> Seq<Seq<char>> {
    subs.map_values(|s: EventSubscriptionRegistration| s.id@)
}

pub open spec fn subscription_fault_at(subs: Seq<EventSubscriptionRegistration>, i: int) -> Option<
    Fault,
> {
    let sub = subs[i];
    let id = trim(sub.id@);
    if id.len() == 0 {
        Some(fault(ManifestErrorKind::EventSubscriptionIdEmpty, sub.id@, Seq::empty()))
    } else if id != sub.id@ || !valid_extension_id(id) {
        Some(fault(ManifestErrorKind::EventSubscriptionIdUnsupportedCharacters, sub.id@, Seq::empty()))
    } else if subscription_ids(subs).subrange(0, i).contains(id) {
        Some(fault(ManifestErrorKind::EventSubscriptionIdDuplicate, sub.id@, Seq::empty()))
    } else if topic_fault(sub.topic@, id) is Some {
        topic_fault(sub.topic@, id)
    } else if scope_key_fault(opt_view(sub.scope_key), id) is Some {
        scope_key_fault(opt_view(sub.scope_key), id)
    } else if module_fault(sub.handler.module@, id) is Some {
        module_fault(sub.handler.module@, id)
    } else {
        export_fault(sub.handler.export@, id)
    }
}

pub open spec fn subscriptions_fault(subs: Seq<EventSubscriptionRegistration>) -> Option<Fault> {
    first_error(indices(subs.len()), |i: int| subscription_fault_at(subs, i))
}

fn check_subscription(
    sub: &EventSubscriptionRegistration,
    seen: &Vec<String>,
    ghost_subs: Ghost<Seq<EventSubscriptionRegistration>>,
    i: usize,
) -> (r: Result<(), ManifestError>)
    requires
        0 <= i < ghost_subs@.len(),
        ghost_subs@[i as int] == *sub,
        views(seen@) == subscription_ids(ghost_subs@).subrange(0, i as int),
    ensures
        result_matches(r, subscription_fault_at(ghost_subs@, i as int)),
{
    let id = trim_str(sub.id.as_str());
    if id.as_str().unicode_len() == 0 {
        return Err(err(ManifestErrorKind::EventSubscriptionIdEmpty, sub.id.as_str(), empty_detail()));
    }
    if !str_eq(id.as_str(), sub.id.as_str()) || !is_valid_extension_id(id.as_str()) {
        return Err(
            err(
                ManifestErrorKind::EventSubscriptionIdUnsupportedCharacters,
                sub.id.as_str(),
                empty_detail(),
            ),
        );
    }
    if contains_text(seen, id.as_str()) {
        return Err(err(ManifestErrorKind::EventSubscriptionIdDuplicate, sub.id.as_str(), empty_detail()));
    }
    validate_event_topic(sub.topic.as_str(), id.as_str())?;
    let scope = match &sub.scope_key {
        Some(k) => Some(k.as_str()),
        None => None,
    };
    validate_scope_key(scope, id.as_str())?;
    validate_handler_module(sub.handler.module.as_str(), id.as_str())?;
    validate_handler_export(sub.handler.export.as_str(), id.as_str())
}

/// Event subscription declarations: trimmed unique extension-id-shaped ids,
/// valid topics, scope keys, handler modules and handler exports.
pub fn validate_event_subscriptions(subs: &Vec<EventSubscriptionRegistration>) -> (r: Result<
    (),
    ManifestError,
>)
    ensures
        result_matches(r, subscriptions_fault(subs@)),
{
    let ghost f = |i: int| subscription_fault_at(subs@, i);
    let ghost idx = indices(subs@.len());
    proof {
        lemma_first_error_ends(idx, f);
    }
    let n = subs.len();
    let mut seen: Vec<String> = Vec::new();
    for i in 0..n
        invariant
            n == subs@.len(),
            idx == indices(subs@.len()),
            f == (|i: int| subscription_fault_at(subs@, i)),
            first_error(idx, f) == first_error(idx.skip(i as int), f),
            views(seen@) == subscription_ids(subs@).subrange(0, i as int),
    {
        assert(idx[i as int] == i);
        let r = check_subscription(&subs[i], &seen, Ghost(subs@), i);
        if r.is_err() {
            proof { lemma_first_error_hit(idx, f, i as int); }
            return r;
        }
        proof { lemma_first_error_step(idx, f, i as int); }
        let id = subs[i].id.as_str();
        assert(subscription_ids(subs@)[i as int] == id@);
        push_view(&mut seen, id);
        proof {
            assert(subscription_ids(subs@).subrange(0, i + 1) =~= subscription_ids(subs@).subrange(
                0,
                i as int,
            ).push(id@));
        }
    }
    Ok(())
}

// ===========================================================================
// Capabilities and exports
// ===========================================================================

pub open spec fn invoke_fault(c: Seq<char>) -> Option<Fault> {
    if trim(c).len() == 0 {
        Some(fault(ManifestErrorKind::InvokeCommandEmpty, c, Seq::empty()))
    } else if !valid_invoke_command_name(c) {
        Some(fault(ManifestErrorKind::InvokeCommandUnsupportedCharacters, c, Seq::empty()))
    } else {
        None
    }
}

pub open spec fn read_key_fault(k: Seq<char>) -> Option<Fault> {
    if trim(k).len() == 0 || trim(k) != k || any_in_class(k, CharClass::AsciiControl) {
        Some(fault(ManifestErrorKind::ReadKeyInvalid, k, Seq::empty()))
    } else {
        None
    }
}

pub open spec fn is_known_call_action(a: Seq<char>) -> bool {
    a == "view.open"@ || a == "view.toggle"@ || a == "command.execute"@ || a == "message.send"@
        || a == "event.emit"@ || a == "event.subscribe"@ || a == "*"@
}

pub open spec fn call_action_check(target: Seq<char>) -> spec_fn(String) -> Option<Fault> {
    |a: String|
        if is_known_call_action(a@) {
            None
        } else {
            Some(fault(ManifestErrorKind::ExtensionCallUnsupportedAction, target, a@))
        }
}

pub open spec fn call_fault(call: ExtensionCall) -> Option<Fault> {
    if trim(call.target@).len() == 0 {
        Some(fault(ManifestErrorKind::ExtensionCallTargetEmpty, call.target@, Seq::empty()))
    } else {
        first_error(call.actions@, call_action_check(call.target@))
    }
}

/// The subject used for event patterns in the capability whitelist.
pub open spec fn capability_events_subject() -> Seq<char> {
    "capabilities.events"@
}

pub open spec fn invoke_check() -> spec_fn(String) -> Option<Fault> {
    |c: String| invoke_fault(c@)
}

pub open spec fn capability_event_check() -> spec_fn(String) -> Option<Fault> {
    |e: String| topic_fault(e@, capability_events_subject())
}

pub open spec fn read_key_check() -> spec_fn(String) -> Option<Fault> {
    |k: String| read_key_fault(k@)
}

pub open spec fn call_check() -> spec_fn(ExtensionCall) -> Option<Fault> {
    |c: ExtensionCall| call_fault(c)
}

pub open spec fn capabilities_fault(caps: CapabilityDeclaration) -> Option<Fault> {
    let invoke = first_error(caps.invoke@, invoke_check());
    let events = first_error(caps.events@, capability_event_check());
    let read = first_error(caps.read@, read_key_check());
    let calls = first_error(caps.extension_calls@, call_check());
    if invoke is Some {
        invoke
    } else if events is Some {
        events
    } else if read is Some {
        read
    } else {
        calls
    }
}

/// Every supported extension-call action is accepted: a call with a
/// non-blank target whose actions are each one of `view.open`,
/// `view.toggle`, `command.execute`, `message.send`, `event.emit`,
/// `event.subscribe` or `*` has no fault.
pub proof fn law_supported_call_actions_accepted(call: ExtensionCall)
    requires
        trim(call.target@).len() > 0,
        forall|i: int|
            0 <= i < call.actions@.len() ==> {
                let a = (#[trigger] call.actions@[i])@;
                a == "view.open"@ || a == "view.toggle"@ || a == "command.execute"@ || a == "message.send"@ || a
                    == "event.emit"@ || a == "event.subscribe"@ || a == "*"@
            },
    ensures
        call_fault(call) is None,
{
    let f = call_action_check(call.target@);
    lemma_first_error_none(call.actions@, f);
    assert forall|i: int| 0 <= i < call.actions@.len() implies (#[trigger] f(call.actions@[i])) is None by {
        assert(is_known_call_action(call.actions@[i]@));
    }
}

/// An action outside the supported ones is refused, named with its call's
/// target: the first such action of a call with a non-blank target gives
/// the fault.
pub proof fn law_unsupported_call_action_refused(call: ExtensionCall, i: int)
    requires
        trim(call.target@).len() > 0,
        0 <= i < call.actions@.len(),
        ({
            let a = call.actions@[i]@;
            !(a == "view.open"@ || a == "view.toggle"@ || a == "command.execute"@ || a == "message.send"@ || a
                == "event.emit"@ || a == "event.subscribe"@ || a == "*"@)
        }),
    ensures
        call_fault(call) is Some,
{
    let f = call_action_check(call.target@);
    lemma_first_error_none(call.actions@, f);
    assert(f(call.actions@[i]) is Some);
}

pub fn is_known_extension_call_action(a: &str) -> (r: bool)
    ensures
        r == is_known_call_action(a@),
{
    str_eq(a, "view.open") || str_eq(a, "view.toggle") || str_eq(a, "command.execute") || str_eq(
        a,
        "message.send",
    ) || str_eq(a, "event.emit") || str_eq(a, "event.subscribe") || str_eq(a, "*")
}

fn check_call(call: &ExtensionCall) -> (r: Result<(), ManifestError>)
    ensures
        result_matches(r, call_fault(*call)),
{
    if is_blank(call.target.as_str()) {
        return Err(err(ManifestErrorKind::ExtensionCallTargetEmpty, call.target.as_str(), empty_detail()));
    }
    let ghost f = call_action_check(call.target@);
    proof {
        lemma_first_error_ends(call.actions@, f);
    }
    let n = call.actions.len();
    for i in 0..n
        invariant
            n == call.actions@.len(),
            trim(call.target@).len() > 0,
            f == call_action_check(call.target@),
            first_error(call.actions@, f) == first_error(call.actions@.skip(i as int), f),
    {
        let a = call.actions[i].as_str();
        if !is_known_extension_call_action(a) {
            proof { lemma_first_error_hit(call.actions@, f, i as int); }
            return Err(err(ManifestErrorKind::ExtensionCallUnsupportedAction, call.target.as_str(), a));
        }
        proof { lemma_first_error_step(call.actions@, f, i as int); }
    }
    Ok(())
}

/// The capability whitelist: valid invoke command names, event patterns,
/// read keys and cross-extension calls with known actions.
pub fn validate_capabilities(caps: &CapabilityDeclaration) -> (r: Result<(), ManifestError>)
    ensures
        result_matches(r, capabilities_fault(*caps)),
{
    let ghost fi = invoke_check();
    let ghost fe = capability_event_check();
    let ghost fr = read_key_check();
    let ghost fc = call_check();
    proof {
        lemma_first_error_ends(caps.invoke@, fi);
        lemma_first_error_ends(caps.events@, fe);
        lemma_first_error_ends(caps.read@, fr);
        lemma_first_error_ends(caps.extension_calls@, fc);
    }
    let n = caps.invoke.len();
    for i in 0..n
        invariant
            n == caps.invoke@.len(),
            fi == invoke_check(),
            first_error(caps.invoke@, fi) == first_error(caps.invoke@.skip(i as int), fi),
    {
        let c = caps.invoke[i].as_str();
        if is_blank(c) {
            proof { lemma_first_error_hit(caps.invoke@, fi, i as int); }
            return Err(err(ManifestErrorKind::InvokeCommandEmpty, c, empty_detail()));
        }
        if !is_valid_invoke_command_name(c) {
            proof { lemma_first_error_hit(caps.invoke@, fi, i as int); }
            return Err(err(ManifestErrorKind::InvokeCommandUnsupportedCharacters, c, empty_detail()));
        }
        proof { lemma_first_error_step(caps.invoke@, fi, i as int); }
    }
    let subject = "capabilities.events";
    let n = caps.events.len();
    for i in 0..n
        invariant
            n == caps.events@.len(),
            subject@ == capability_events_subject(),
            first_error(caps.invoke@, invoke_check()) is None,
            fe == capability_event_check(),
            first_error(caps.events@, fe) == first_error(caps.events@.skip(i as int), fe),
    {
        let r = validate_event_topic(caps.events[i].as_str(), subject);
        if r.is_err() {
            proof { lemma_first_error_hit(caps.events@, fe, i as int); }
            return r;
        }
        proof { lemma_first_error_step(caps.events@, fe, i as int); }
    }
    let n = caps.read.len();
    for i in 0..n
        invariant
            n == caps.read@.len(),
            first_error(caps.invoke@, invoke_check()) is None,
            first_error(caps.events@, capability_event_check()) is None,
            fr == read_key_check(),
            first_error(caps.read@, fr) == first_error(caps.read@.skip(i as int), fr),
    {
        let k = caps.read[i].as_str();
        if is_blank(k) || !is_trimmed(k) || any_char_in(k, CharClass::AsciiControl) {
            proof { lemma_first_error_hit(caps.read@, fr, i as int); }
            return Err(err(ManifestErrorKind::ReadKeyInvalid, k, empty_detail()));
        }
        proof { lemma_first_error_step(caps.read@, fr, i as int); }
    }
    let n = caps.extension_calls.len();
    for i in 0..n
        invariant
            n == caps.extension_calls@.len(),
            first_error(caps.invoke@, invoke_check()) is None,
            first_error(caps.events@, capability_event_check()) is None,
            first_error(caps.read@, read_key_check()) is None,
            fc == call_check(),
            first_error(caps.extension_calls@, fc) == first_error(
                caps.extension_calls@.skip(i as int),
                fc,
            ),
    {
        let r = check_call(&caps.extension_calls[i]);
        if r.is_err() {
            proof { lemma_first_error_hit(caps.extension_calls@, fc, i as int); }
            return r;
        }
        proof { lemma_first_error_step(caps.extension_calls@, fc, i as int); }
    }
    Ok(())
}

pub open spec fn view_ids(c: ExtensionContributes) -> Seq<Seq<char>> {
    opt_seq(c.views).map_values(|v: ViewRegistration| v.id@)
}

pub open spec fn command_ids(c: ExtensionContributes) -> Seq<Seq<char>> {
    opt_seq(c.commands).map_values(|v: CommandRegistration| v.id@)
}

pub open spec fn role_ids(c: ExtensionContributes) -> Seq<Seq<char>> {
    opt_seq(c.roles).map_values(|v: RoleDefinition| v.id@)
}

pub open spec fn skill_ids(c: ExtensionContributes) -> Seq<Seq<char>> {
    opt_seq(c.skills).map_values(|v: SkillDefinition| v.id@)
}

pub open spec fn context_provider_ids(c: ExtensionContributes) -> Seq<Seq<char>> {
    opt_seq(c.context_providers).map_values(|v: ContextProviderRegistration| v.id@)
}

pub open spec fn script_ids(c: ExtensionContributes) -> Seq<Seq<char>> {
    opt_seq(c.scripts).map_values(|v: ScriptRegistration| v.id@)
}

fn collect_view_ids(c: &ExtensionContributes) -> (r: Vec<String>)
    ensures
        views(r@) == view_ids(*c),
{
    let mut r: Vec<String> = Vec::new();
    if let Some(items) = &c.views {
        let n = items.len();
        for i in 0..n
            invariant
                n == items@.len(),
                opt_seq(c.views) == items@,
                c.views == Some(*items),
                views(r@) == items@.subrange(0, i as int).map_values(|v: ViewRegistration| v.id@),
        {
            push_view(&mut r, items[i].id.as_str());
            assert(items@.subrange(0, i + 1).map_values(|v: ViewRegistration| v.id@) =~= items@.subrange(0, i as int).map_values(|v: ViewRegistration| v.id@).push(items@[i as int].id@));
        }
        assert(items@.subrange(0, n as int) =~= items@);
    }
    assert(views(r@) =~= view_ids(*c));
    r
}

fn collect_command_ids(c: &ExtensionContributes) -> (r: Vec<String>)
    ensures
        views(r@) == command_ids(*c),
{
    let mut r: Vec<String> = Vec::new();
    if let Some(items) = &c.commands {
        let n = items.len();
        for i in 0..n
            invariant
                n == items@.len(),
                c.commands == Some(*items),
                views(r@) == items@.subrange(0, i as int).map_values(|v: CommandRegistration| v.id@),
        {
            push_view(&mut r, items[i].id.as_str());
            assert(items@.subrange(0, i + 1).map_values(|v: CommandRegistration| v.id@) =~= items@.subrange(0, i as int).map_values(|v: CommandRegistration| v.id@).push(items@[i as int].id@));
        }
        assert(items@.subrange(0, n as int) =~= items@);
    }
    assert(views(r@) =~= command_ids(*c));
    r
}

fn collect_role_ids(c: &ExtensionContributes) -> (r: Vec<String>)
    ensures
        views(r@) == role_ids(*c),
{
    let mut r: Vec<String> = Vec::new();
    if let Some(items) = &c.roles {
        let n = items.len();
        for i in 0..n
            invariant
                n == items@.len(),
                c.roles == Some(*items),
                views(r@) == items@.subrange(0, i as int).map_values(|v: RoleDefinition| v.id@),
        {
            push_view(&mut r, items[i].id.as_str());
            assert(items@.subrange(0, i + 1).map_values(|v: RoleDefinition| v.id@) =~= items@.subrange(0, i as int).map_values(|v: RoleDefinition| v.id@).push(items@[i as int].id@));
        }
        assert(items@.subrange(0, n as int) =~= items@);
    }
    assert(views(r@) =~= role_ids(*c));
    r
}

fn collect_skill_ids(c: &ExtensionContributes) -> (r: Vec<String>)
    ensures
        views(r@) == skill_ids(*c),
{
    let mut r: Vec<String> = Vec::new();
    if let Some(items) = &c.skills {
        let n = items.len();
        for i in 0..n
            invariant
                n == items@.len(),
                c.skills == Some(*items),
                views(r@) == items@.subrange(0, i as int).map_values(|v: SkillDefinition| v.id@),
        {
            push_view(&mut r, items[i].id.as_str());
            assert(items@.subrange(0, i + 1).map_values(|v: SkillDefinition| v.id@) =~= items@.subrange(0, i as int).map_values(|v: SkillDefinition| v.id@).push(items@[i as int].id@));
        }
        assert(items@.subrange(0, n as int) =~= items@);
    }
    assert(views(r@) =~= skill_ids(*c));
    r
}

fn collect_context_provider_ids(c: &ExtensionContributes) -> (r: Vec<String>)
    ensures
        views(r@) == context_provider_ids(*c),
{
    let mut r: Vec<String> = Vec::new();
    if let Some(items) = &c.context_providers {
        let n = items.len();
        for i in 0..n
            invariant
                n == items@.len(),
                c.context_providers == Some(*items),
                views(r@) == items@.subrange(0, i as int).map_values(|v: ContextProviderRegistration| v.id@),
        {
            push_view(&mut r, items[i].id.as_str());
            assert(items@.subrange(0, i + 1).map_values(|v: ContextProviderRegistration| v.id@) =~= items@.subrange(0, i as int).map_values(|v: ContextProviderRegistration| v.id@).push(items@[i as int].id@));
        }
        assert(items@.subrange(0, n as int) =~= items@);
    }
    assert(views(r@) =~= context_provider_ids(*c));
    r
}

fn collect_script_ids(c: &ExtensionContributes) -> (r: Vec<String>)
    ensures
        views(r@) == script_ids(*c),
{
    let mut r: Vec<String> = Vec::new();
    if let Some(items) = &c.scripts {
        let n = items.len();
        for i in 0..n
            invariant
                n == items@.len(),
                c.scripts == Some(*items),
                views(r@) == items@.subrange(0, i as int).map_values(|v: ScriptRegistration| v.id@),
        {
            push_view(&mut r, items[i].id.as_str());
            assert(items@.subrange(0, i + 1).map_values(|v: ScriptRegistration| v.id@) =~= items@.subrange(0, i as int).map_values(|v: ScriptRegistration| v.id@).push(items@[i as int].id@));
        }
        assert(items@.subrange(0, n as int) =~= items@);
    }
    assert(views(r@) =~= script_ids(*c));
    r
}

/// A check that reports `kind` for the first string not in `ids`.
pub open spec fn known_id_check(
    ids: Seq<Seq<char>>,
    kind: ManifestErrorKind,
    subject: Seq<char>,
) -> spec_fn(String) -> Option<Fault> {
    |s: String|
        if ids.contains(s@) {
            None
        } else {
            Some(fault(kind, subject, s@))
        }
}

/// The first string of `items` that `ids` lacks, reported as `kind` about `subject`.
fn check_known_ids(
    items: &Vec<String>,
    ids: &Vec<String>,
    kind: ManifestErrorKind,
    subject: &str,
) -> (r: Result<(), ManifestError>)
    ensures
        result_matches(r, first_error(items@, known_id_check(views(ids@), kind, subject@))),
{
    let ghost f = known_id_check(views(ids@), kind, subject@);
    proof {
        lemma_first_error_ends(items@, f);
    }
    let n = items.len();
    for i in 0..n
        invariant
            n == items@.len(),
            f == known_id_check(views(ids@), kind, subject@),
            first_error(items@, f) == first_error(items@.skip(i as int), f),
    {
        let s = items[i].as_str();
        if !contains_text(ids, s) {
            proof { lemma_first_error_hit(items@, f, i as int); }
            return Err(err(kind, subject, s));
        }
        proof { lemma_first_error_step(items@, f, i as int); }
    }
    Ok(())
}

pub open spec fn exports_fault(
    exports: ExtensionExports,
    view_ids: Seq<Seq<char>>,
    command_ids: Seq<Seq<char>>,
) -> Option<Fault> {
    let v = first_error(
        exports.views@,
        known_id_check(view_ids, ManifestErrorKind::ExportUnknownView, Seq::empty()),
    );
    if v is Some {
        v
    } else {
        first_error(
            exports.commands@,
            known_id_check(command_ids, ManifestErrorKind::ExportUnknownCommand, Seq::empty()),
        )
    }
}

/// Exported views and commands must be declared by the same manifest.
pub fn validate_extension_exports(
    contributes: &ExtensionContributes,
    exports: &ExtensionExports,
) -> (r: Result<(), ManifestError>)
    ensures
        result_matches(r, exports_fault(*exports, view_ids(*contributes), command_ids(*contributes))),
{
    let vids = collect_view_ids(contributes);
    let cids = collect_command_ids(contributes);
    check_known_ids(&exports.views, &vids, ManifestErrorKind::ExportUnknownView, empty_detail())?;
    check_known_ids(&exports.commands, &cids, ManifestErrorKind::ExportUnknownCommand, empty_detail())
}

// ===========================================================================
// Backend services and components
// ===========================================================================

/// Trimmed, no `\` separators, not a URL, not absolute, not NUL-led.
pub open spec fn is_plain_relative(e: Seq<char>) -> bool {
    &&& trim(e) == e
    &&& !e.contains('\\')
    &&& !contains_seq(e, "://"@)
    &&& e[0] != '/'
    &&& e[0] != '\0'
    &&& !crate::host_view::is_drive_rooted(e)
}

fn has_plain_relative_shape(e: &str) -> (r: bool)
    requires
        e@.len() > 0,
    ensures
        r == is_plain_relative(e@),
{
    let first = e.get_char(0);
    is_trimmed(e) && !contains_char(e, '\\') && !contains_str(e, "://") && first != '/' && first
        != '\0' && !crate::host_view::drive_rooted(e)
}

pub open spec fn backend_entry_fault(e: Seq<char>, service: Seq<char>) -> Option<Fault> {
    if trim(e).len() == 0 {
        Some(fault(ManifestErrorKind::BackendEntryEmpty, service, e))
    } else if !is_plain_relative(e) {
        Some(fault(ManifestErrorKind::BackendEntryNotRelative, service, e))
    } else if split(e, '/')[0] != "ExtensionBackend"@ || split(e, '/').len() < 2 {
        Some(fault(ManifestErrorKind::BackendEntryOutsideBackendDir, service, e))
    } else if !rest_segments_safe(split(e, '/')) {
        Some(fault(ManifestErrorKind::BackendEntryUnsafeSegment, service, e))
    } else {
        None
    }
}

pub fn validate_backend_service_entry(entry: &str, service_id: &str) -> (r: Result<(), ManifestError>)
    ensures
        result_matches(r, backend_entry_fault(entry@, service_id@)),
{
    if is_blank(entry) {
        return Err(err(ManifestErrorKind::BackendEntryEmpty, service_id, entry));
    }
    if !has_plain_relative_shape(entry) {
        return Err(err(ManifestErrorKind::BackendEntryNotRelative, service_id, entry));
    }
    let segs = split_char(entry, '/');
    proof {
        lemma_split_nonempty(entry@, '/');
        assert(views(segs@) =~= split(entry@, '/'));
    }
    if !str_eq(segs[0].as_str(), "ExtensionBackend") || segs.len() < 2 {
        return Err(err(ManifestErrorKind::BackendEntryOutsideBackendDir, service_id, entry));
    }
    if !rest_segments_ok(&segs) {
        return Err(err(ManifestErrorKind::BackendEntryUnsafeSegment, service_id, entry));
    }
    Ok(())
}

/// Whether a declared id is blank, untrimmed or holds ASCII whitespace or
/// control characters, or repeats an earlier one.
pub open spec fn declared_id_fault(
    id: Seq<char>,
    earlier: Seq<Seq<char>>,
    empty: ManifestErrorKind,
    spaced: ManifestErrorKind,
    duplicate: ManifestErrorKind,
) -> Option<Fault> {
    if trim(id).len() == 0 {
        Some(fault(empty, id, Seq::empty()))
    } else if trim(id) != id || any_in_class(id, CharClass::AsciiWhitespace) || any_in_class(
        id,
        CharClass::AsciiControl,
    ) {
        Some(fault(spaced, id, Seq::empty()))
    } else if earlier.contains(id) {
        Some(fault(duplicate, id, Seq::empty()))
    } else {
        None
    }
}

fn check_declared_id(
    id: &str,
    earlier: &Vec<String>,
    empty: ManifestErrorKind,
    spaced: ManifestErrorKind,
    duplicate: ManifestErrorKind,
) -> (r: Result<(), ManifestError>)
    ensures
        result_matches(r, declared_id_fault(id@, views(earlier@), empty, spaced, duplicate)),
{
    let t = trim_str(id);
    if t.as_str().unicode_len() == 0 {
        return Err(err(empty, id, empty_detail()));
    }
    if !str_eq(t.as_str(), id) || any_char_in(id, CharClass::AsciiWhitespace) || any_char_in(
        id,
        CharClass::AsciiControl,
    ) {
        return Err(err(spaced, id, empty_detail()));
    }
    if contains_text(earlier, id) {
        return Err(err(duplicate, id, empty_detail()));
    }
    Ok(())
}

pub open spec fn service_ids(s: Seq<BackendServiceRegistration>) -> Seq<Seq<char>> {
    s.map_values(|x: BackendServiceRegistration| x.id@)
}

pub open spec fn backend_service_fault_at(s: Seq<BackendServiceRegistration>, i: int) -> Option<Fault> {
    let id_fault = declared_id_fault(
        s[i].id@,
        service_ids(s).subrange(0, i),
        ManifestErrorKind::BackendServiceIdEmpty,
        ManifestErrorKind::BackendServiceIdHasWhitespace,
        ManifestErrorKind::BackendServiceIdDuplicate,
    );
    if id_fault is Some {
        id_fault
    } else {
        backend_entry_fault(s[i].entry@, s[i].id@)
    }
}

pub open spec fn backend_services_fault(s: Seq<BackendServiceRegistration>) -> Option<Fault> {
    first_error(indices(s.len()), |i: int| backend_service_fault_at(s, i))
}

/// Backend services: unique clean ids and entries below `ExtensionBackend/`.
pub fn validate_backend_services(services: &Vec<BackendServiceRegistration>) -> (r: Result<
    (),
    ManifestError,
>)
    ensures
        result_matches(r, backend_services_fault(services@)),
{
    let ghost f = |i: int| backend_service_fault_at(services@, i);
    let ghost idx = indices(services@.len());
    proof {
        lemma_first_error_ends(idx, f);
    }
    let n = services.len();
    let mut seen: Vec<String> = Vec::new();
    for i in 0..n
        invariant
            n == services@.len(),
            idx == indices(services@.len()),
            f == (|i: int| backend_service_fault_at(services@, i)),
            first_error(idx, f) == first_error(idx.skip(i as int), f),
            views(seen@) == service_ids(services@).subrange(0, i as int),
    {
        assert(idx[i as int] == i);
        let id = services[i].id.as_str();
        assert(service_ids(services@)[i as int] == id@);
        let r = check_declared_id(
            id,
            &seen,
            ManifestErrorKind::BackendServiceIdEmpty,
            ManifestErrorKind::BackendServiceIdHasWhitespace,
            ManifestErrorKind::BackendServiceIdDuplicate,
        );
        if r.is_err() {
            proof { lemma_first_error_hit(idx, f, i as int); }
            return r;
        }
        let r = validate_backend_service_entry(services[i].entry.as_str(), id);
        if r.is_err() {
            proof { lemma_first_error_hit(idx, f, i as int); }
            return r;
        }
        proof { lemma_first_error_step(idx, f, i as int); }
        push_view(&mut seen, id);
        proof {
            assert(service_ids(services@).subrange(0, i + 1) =~= service_ids(services@).subrange(
                0,
                i as int,
            ).push(id@));
        }
    }
    Ok(())
}

pub open spec fn component_entry_fault(e: Seq<char>, component: Seq<char>) -> Option<Fault> {
    if trim(e).len() == 0 {
        Some(fault(ManifestErrorKind::ComponentEntryEmpty, component, e))
    } else if !".wasm"@.is_suffix_of(e) {
        Some(fault(ManifestErrorKind::ComponentEntryNotWasm, component, e))
    } else if !is_plain_relative(e) {
        Some(fault(ManifestErrorKind::ComponentEntryNotRelative, component, e))
    } else if split(e, '/').len() < 2 || (split(e, '/')[0] != "ExtensionUI"@ && split(e, '/')[0]
        != "ExtensionBackend"@) {
        Some(fault(ManifestErrorKind::ComponentEntryOutsideExtensionDirs, component, e))
    } else if !rest_segments_safe(split(e, '/')) {
        Some(fault(ManifestErrorKind::ComponentEntryUnsafeSegment, component, e))
    } else {
        None
    }
}

pub fn validate_component_entry(entry: &str, component_id: &str) -> (r: Result<(), ManifestError>)
    ensures
        result_matches(r, component_entry_fault(entry@, component_id@)),
{
    if is_blank(entry) {
        return Err(err(ManifestErrorKind::ComponentEntryEmpty, component_id, entry));
    }
    if !ends_with(entry, ".wasm") {
        return Err(err(ManifestErrorKind::ComponentEntryNotWasm, component_id, entry));
    }
    if !has_plain_relative_shape(entry) {
        return Err(err(ManifestErrorKind::ComponentEntryNotRelative, component_id, entry));
    }
    let segs = split_char(entry, '/');
    proof {
        lemma_split_nonempty(entry@, '/');
        assert(views(segs@) =~= split(entry@, '/'));
    }
    if segs.len() < 2 || (!str_eq(segs[0].as_str(), "ExtensionUI") && !str_eq(
        segs[0].as_str(),
        "ExtensionBackend",
    )) {
        return Err(err(ManifestErrorKind::ComponentEntryOutsideExtensionDirs, component_id, entry));
    }
    if !rest_segments_ok(&segs) {
        return Err(err(ManifestErrorKind::ComponentEntryUnsafeSegment, component_id, entry));
    }
    Ok(())
}

pub open spec fn run_on_check(component: Seq<char>) -> spec_fn(String) -> Option<Fault> {
    |t: String|
        if trim(t@).len() == 0 {
            Some(fault(ManifestErrorKind::ComponentRunOnEmpty, component, Seq::empty()))
        } else if trim(t@) != "activation"@ && trim(t@) != "message"@ {
            Some(fault(ManifestErrorKind::ComponentRunOnUnsupported, component, trim(t@)))
        } else {
            None
        }
}

/// `runOn` triggers: only `activation` and `message` (after trimming).
pub fn validate_component_run_on(component_id: &str, run_on: &Vec<String>) -> (r: Result<
    (),
    ManifestError,
>)
    ensures
        result_matches(r, first_error(run_on@, run_on_check(component_id@))),
{
    let ghost f = run_on_check(component_id@);
    proof {
        lemma_first_error_ends(run_on@, f);
    }
    let n = run_on.len();
    for i in 0..n
        invariant
            n == run_on@.len(),
            f == run_on_check(component_id@),
            first_error(run_on@, f) == first_error(run_on@.skip(i as int), f),
    {
        let t = trim_str(run_on[i].as_str());
        if t.as_str().unicode_len() == 0 {
            proof { lemma_first_error_hit(run_on@, f, i as int); }
            return Err(err(ManifestErrorKind::ComponentRunOnEmpty, component_id, empty_detail()));
        }
        if !str_eq(t.as_str(), "activation") && !str_eq(t.as_str(), "message") {
            proof { lemma_first_error_hit(run_on@, f, i as int); }
            return Err(err(ManifestErrorKind::ComponentRunOnUnsupported, component_id, t.as_str()));
        }
        proof { lemma_first_error_step(run_on@, f, i as int); }
    }
    Ok(())
}

pub open spec fn component_ids(s: Seq<ComponentRegistration>) -> Seq<Seq<char>> {
    s.map_values(|x: ComponentRegistration| x.id@)
}

pub open spec fn component_fault_at(s: Seq<ComponentRegistration>, i: int) -> Option<Fault> {
    let id_fault = declared_id_fault(
        s[i].id@,
        component_ids(s).subrange(0, i),
        ManifestErrorKind::ComponentIdEmpty,
        ManifestErrorKind::ComponentIdHasWhitespace,
        ManifestErrorKind::ComponentIdDuplicate,
    );
    if id_fault is Some {
        id_fault
    } else if component_entry_fault(s[i].entry@, s[i].id@) is Some {
        component_entry_fault(s[i].entry@, s[i].id@)
    } else {
        first_error(s[i].run_on@, run_on_check(s[i].id@))
    }
}

pub open spec fn components_fault(s: Seq<ComponentRegistration>) -> Option<Fault> {
    first_error(indices(s.len()), |i: int| component_fault_at(s, i))
}

/// Components: unique clean ids, `.wasm` entries below `ExtensionUI/` or
/// `ExtensionBackend/`, and known `runOn` triggers.
pub fn validate_components(components: &Vec<ComponentRegistration>) -> (r: Result<
    (),
    ManifestError,
>)
    ensures
        result_matches(r, components_fault(components@)),
{
    let ghost f = |i: int| component_fault_at(components@, i);
    let ghost idx = indices(components@.len());
    proof {
        lemma_first_error_ends(idx, f);
    }
    let n = components.len();
    let mut seen: Vec<String> = Vec::new();
    for i in 0..n
        invariant
            n == components@.len(),
            idx == indices(components@.len()),
            f == (|i: int| component_fault_at(components@, i)),
            first_error(idx, f) == first_error(idx.skip(i as int), f),
            views(seen@) == component_ids(components@).subrange(0, i as int),
    {
        assert(idx[i as int] == i);
        let id = components[i].id.as_str();
        assert(component_ids(components@)[i as int] == id@);
        let r = check_declared_id(
            id,
            &seen,
            ManifestErrorKind::ComponentIdEmpty,
            ManifestErrorKind::ComponentIdHasWhitespace,
            ManifestErrorKind::ComponentIdDuplicate,
        );
        if r.is_err() {
            proof { lemma_first_error_hit(idx, f, i as int); }
            return r;
        }
        let r = validate_component_entry(components[i].entry.as_str(), id);
        if r.is_err() {
            proof { lemma_first_error_hit(idx, f, i as int); }
            return r;
        }
        let r = validate_component_run_on(id, &components[i].run_on);
        if r.is_err() {
            proof { lemma_first_error_hit(idx, f, i as int); }
            return r;
        }
        proof { lemma_first_error_step(idx, f, i as int); }
        push_view(&mut seen, id);
        proof {
            assert(component_ids(components@).subrange(0, i + 1) =~= component_ids(components@).subrange(
                0,
                i as int,
            ).push(id@));
        }
    }
    Ok(())
}

// ===========================================================================
// Permissions
// ===========================================================================

pub open spec fn permissions_fault(p: ExtensionPermissions, cpu_percent_in_range: bool) -> Option<Fault> {
    if p.resources.max_memory_mb == 0 {
        Some(fault(ManifestErrorKind::MaxMemoryZero, Seq::empty(), Seq::empty()))
    } else if !cpu_percent_in_range {
        Some(fault(ManifestErrorKind::CpuPercentOutOfRange, Seq::empty(), Seq::empty()))
    } else if p.resources.timeout_ms == 0 {
        Some(fault(ManifestErrorKind::TimeoutZero, Seq::empty(), Seq::empty()))
    } else {
        None
    }
}

/// Resource limits: memory and timeout above zero, and the CPU share within
/// (0, 100], which the caller decides on the floating-point value.
pub fn validate_permissions(p: &ExtensionPermissions, cpu_percent_in_range: bool) -> (r: Result<
    (),
    ManifestError,
>)
    ensures
        result_matches(r, permissions_fault(*p, cpu_percent_in_range)),
{
    let e = empty_detail();
    if p.resources.max_memory_mb == 0 {
        return Err(err(ManifestErrorKind::MaxMemoryZero, e, e));
    }
    if !cpu_percent_in_range {
        return Err(err(ManifestErrorKind::CpuPercentOutOfRange, e, e));
    }
    if p.resources.timeout_ms == 0 {
        return Err(err(ManifestErrorKind::TimeoutZero, e, e));
    }
    Ok(())
}

// ===========================================================================
// Cross-references between contributions
// ===========================================================================

pub open spec fn view_check() -> spec_fn(ViewRegistration) -> Option<Fault> {
    |v: ViewRegistration|
        match view_fault(v) {
            Some(f) => Some(fault(ManifestErrorKind::View(f.0), v.id@, f.1)),
            None => None,
        }
}

pub open spec fn menu_check(cmds: Seq<Seq<char>>) -> spec_fn(MenuRegistration) -> Option<Fault> {
    |m: MenuRegistration|
        if cmds.contains(m.command@) {
            None
        } else {
            Some(fault(ManifestErrorKind::MenuUnknownCommand, m.id@, m.command@))
        }
}

pub open spec fn keybinding_check(cmds: Seq<Seq<char>>) -> spec_fn(KeybindingRegistration) -> Option<
    Fault,
> {
    |k: KeybindingRegistration|
        if cmds.contains(k.command@) {
            None
        } else {
            Some(fault(ManifestErrorKind::KeybindingUnknownCommand, k.key@, k.command@))
        }
}

pub open spec fn toolbar_check(cmds: Seq<Seq<char>>) -> spec_fn(ToolbarItemRegistration) -> Option<
    Fault,
> {
    |t: ToolbarItemRegistration|
        if cmds.contains(t.command@) {
            None
        } else {
            Some(fault(ManifestErrorKind::ToolbarItemUnknownCommand, t.id@, t.command@))
        }
}

pub open spec fn tray_check(cmds: Seq<Seq<char>>) -> spec_fn(TrayItemRegistration) -> Option<Fault> {
    |t: TrayItemRegistration|
        if cmds.contains(t.command@) {
            None
        } else {
            Some(fault(ManifestErrorKind::TrayItemUnknownCommand, t.id@, t.command@))
        }
}

pub open spec fn statusbar_check(cmds: Seq<Seq<char>>) -> spec_fn(StatusBarItemRegistration) -> Option<
    Fault,
> {
    |t: StatusBarItemRegistration|
        match t.command {
            Some(c) => if cmds.contains(c@) {
                None
            } else {
                Some(fault(ManifestErrorKind::StatusBarItemUnknownCommand, t.id@, c@))
            },
            None => None,
        }
}

/// The view an action opens, for the view-opening actions.
pub open spec fn action_view(a: BuiltinAction) -> Option<Seq<char>> {
    match a {
        BuiltinAction::OpenView { view_id } => Some(view_id@),
        BuiltinAction::ToggleView { view_id } => Some(view_id@),
        BuiltinAction::OpenDialog { view_id, .. } => Some(view_id@),
        _ => None,
    }
}

/// Which view-opening action `a` is (meaningful for those three only).
pub open spec fn view_action(a: BuiltinAction) -> ViewAction {
    match a {
        BuiltinAction::ToggleView { .. } => ViewAction::ToggleView,
        BuiltinAction::OpenDialog { .. } => ViewAction::OpenDialog,
        _ => ViewAction::OpenView,
    }
}

pub open spec fn command_action_fault(
    cmd: CommandRegistration,
    vids: Seq<Seq<char>>,
    sids: Seq<Seq<char>>,
) -> Option<Fault> {
    match cmd.action {
        BuiltinAction::RunScript { script_id, .. } => if trim(script_id@).len() == 0 {
            Some(fault(ManifestErrorKind::CommandEmptyScript, cmd.id@, Seq::empty()))
        } else if !script_id@.contains(':') && !sids.contains(script_id@) {
            Some(fault(ManifestErrorKind::CommandUnknownScript, cmd.id@, script_id@))
        } else {
            None
        },
        BuiltinAction::SendMessage { target, .. } => if trim(target@).len() == 0 {
            Some(fault(ManifestErrorKind::CommandEmptyMessageTarget, cmd.id@, Seq::empty()))
        } else {
            None
        },
        _ => {
            let v = action_view(cmd.action)->0;
            if !v.contains(':') && !vids.contains(v) {
                Some(fault(ManifestErrorKind::CommandUnknownView(view_action(cmd.action)), cmd.id@, v))
            } else {
                None
            }
        },
    }
}

pub open spec fn command_check(vids: Seq<Seq<char>>, sids: Seq<Seq<char>>) -> spec_fn(
    CommandRegistration,
) -> Option<Fault> {
    |c: CommandRegistration| command_action_fault(c, vids, sids)
}

pub open spec fn is_builtin_role(r: Seq<char>) -> bool {
    r == "developer"@ || r == "technical-writer"@ || r == "assistant"@
}

pub open spec fn is_builtin_skill(s: Seq<char>) -> bool {
    s == "commit"@ || s == "refactor"@ || s == "test-gen"@ || s == "bug-fix"@ || s == "review"@
        || s == "explain"@ || s == "doc-gen"@
}

pub open spec fn is_builtin_context_policy(p: Seq<char>) -> bool {
    p == "code"@ || p == "cowork"@ || p == "default"@
}

pub open spec fn skill_check(skills: Seq<Seq<char>>, mode: Seq<char>) -> spec_fn(String) -> Option<
    Fault,
> {
    |s: String|
        if is_builtin_skill(s@) || skills.contains(s@) {
            None
        } else {
            Some(fault(ManifestErrorKind::WorkModeUnknownSkill, mode, s@))
        }
}

pub open spec fn opt_strings(o: Option<Vec<String>>) -> Seq<String> {
    opt_seq(o)
}

pub open spec fn work_mode_ref_fault(mode: WorkModeRegistration, c: ExtensionContributes) -> Option<
    Fault,
> {
    let id = mode.id@;
    let commands = first_error(
        opt_strings(mode.commands),
        known_id_check(command_ids(c), ManifestErrorKind::WorkModeUnknownCommand, id),
    );
    let skills = first_error(opt_strings(mode.skills), skill_check(skill_ids(c), id));
    let defaults = first_error(
        opt_strings(mode.default_views),
        known_id_check(view_ids(c), ManifestErrorKind::WorkModeUnknownDefaultView, id),
    );
    if mode.role is Some && !is_builtin_role(mode.role->0@) && !role_ids(c).contains(
        mode.role->0@,
    ) {
        Some(fault(ManifestErrorKind::WorkModeUnknownRole, id, mode.role->0@))
    } else if commands is Some {
        commands
    } else if skills is Some {
        skills
    } else if mode.entry_view is Some && !view_ids(c).contains(mode.entry_view->0@) {
        Some(fault(ManifestErrorKind::WorkModeUnknownEntryView, id, mode.entry_view->0@))
    } else if defaults is Some {
        defaults
    } else if mode.context_policy is Some && !is_builtin_context_policy(mode.context_policy->0@)
        && !context_provider_ids(c).contains(mode.context_policy->0@) {
        Some(fault(ManifestErrorKind::WorkModeUnknownContextPolicy, id, mode.context_policy->0@))
    } else {
        None
    }
}

pub open spec fn work_mode_ref_check(c: ExtensionContributes) -> spec_fn(WorkModeRegistration) -> Option<
    Fault,
> {
    |m: WorkModeRegistration| work_mode_ref_fault(m, c)
}

/// The first broken reference between contributions, in the order the
/// loader checks them.
pub open spec fn contributes_fault(c: ExtensionContributes) -> Option<Fault> {
    let cmds = command_ids(c);
    let views_f = first_error(opt_seq(c.views), view_check());
    let menus_f = first_error(opt_seq(c.menus), menu_check(cmds));
    let keys_f = first_error(opt_seq(c.keybindings), keybinding_check(cmds));
    let toolbar_f = first_error(opt_seq(c.toolbar_items), toolbar_check(cmds));
    let tray_f = first_error(opt_seq(c.tray_items), tray_check(cmds));
    let status_f = first_error(opt_seq(c.statusbar_items), statusbar_check(cmds));
    let commands_f = first_error(opt_seq(c.commands), command_check(view_ids(c), script_ids(c)));
    let modes_f = first_error(opt_seq(c.work_modes), work_mode_ref_check(c));
    if views_f is Some {
        views_f
    } else if menus_f is Some {
        menus_f
    } else if keys_f is Some {
        keys_f
    } else if toolbar_f is Some {
        toolbar_f
    } else if tray_f is Some {
        tray_f
    } else if status_f is Some {
        status_f
    } else if commands_f is Some {
        commands_f
    } else {
        modes_f
    }
}

fn check_views(c: &ExtensionContributes) -> (r: Result<(), ManifestError>)
    ensures
        result_matches(r, first_error(opt_seq(c.views), view_check())),
        r is Ok ==> forall|k: int|
            0 <= k < opt_seq(c.views).len() ==> view_fault(#[trigger] opt_seq(c.views)[k]) is None,
{
    let ghost f = view_check();
    proof {
        crate::seqs::lemma_first_error_none(opt_seq(c.views), f);
    }
    if let Some(items) = &c.views {
        proof {
            lemma_first_error_ends(items@, f);
        }
        let n = items.len();
        for i in 0..n
            invariant
                n == items@.len(),
                opt_seq(c.views) == items@,
                f == view_check(),
                first_error(items@, f) == first_error(items@.skip(i as int), f),
        {
            match validate_extension_view(&items[i]) {
                Ok(()) => {
                    proof { lemma_first_error_step(items@, f, i as int); }
                },
                Err(e) => {
                    proof { lemma_first_error_hit(items@, f, i as int); }
                    return Err(
                        ManifestError {
                            kind: ManifestErrorKind::View(e.kind),
                            subject: e.subject,
                            detail: e.detail,
                        },
                    );
                },
            }
        }
    }
    proof {
        assert forall|k: int| 0 <= k < opt_seq(c.views).len() implies view_fault(
            #[trigger] opt_seq(c.views)[k],
        ) is None by {
            assert(f(opt_seq(c.views)[k]) is None);
        }
    }
    Ok(())
}

fn check_menus(c: &ExtensionContributes, cmds: &Vec<String>) -> (r: Result<(), ManifestError>)
    ensures
        result_matches(r, first_error(opt_seq(c.menus), menu_check(views(cmds@)))),
{
    let ghost f = menu_check(views(cmds@));
    if let Some(items) = &c.menus {
        proof {
            lemma_first_error_ends(items@, f);
        }
        let n = items.len();
        for i in 0..n
            invariant
                n == items@.len(),
                opt_seq(c.menus) == items@,
                f == menu_check(views(cmds@)),
                first_error(items@, f) == first_error(items@.skip(i as int), f),
        {
            let it = &items[i];
            if !contains_text(cmds, it.command.as_str()) {
                proof { lemma_first_error_hit(items@, f, i as int); }
                return Err(err(ManifestErrorKind::MenuUnknownCommand, it.id.as_str(), it.command.as_str()));
            }
            proof { lemma_first_error_step(items@, f, i as int); }
        }
    }
    Ok(())
}

fn check_keybindings(c: &ExtensionContributes, cmds: &Vec<String>) -> (r: Result<(), ManifestError>)
    ensures
        result_matches(r, first_error(opt_seq(c.keybindings), keybinding_check(views(cmds@)))),
{
    let ghost f = keybinding_check(views(cmds@));
    if let Some(items) = &c.keybindings {
        proof {
            lemma_first_error_ends(items@, f);
        }
        let n = items.len();
        for i in 0..n
            invariant
                n == items@.len(),
                opt_seq(c.keybindings) == items@,
                f == keybinding_check(views(cmds@)),
                first_error(items@, f) == first_error(items@.skip(i as int), f),
        {
            let it = &items[i];
            if !contains_text(cmds, it.command.as_str()) {
                proof { lemma_first_error_hit(items@, f, i as int); }
                return Err(err(ManifestErrorKind::KeybindingUnknownCommand, it.key.as_str(), it.command.as_str()));
            }
            proof { lemma_first_error_step(items@, f, i as int); }
        }
    }
    Ok(())
}

fn check_toolbar_items(c: &ExtensionContributes, cmds: &Vec<String>) -> (r: Result<(), ManifestError>)
    ensures
        result_matches(r, first_error(opt_seq(c.toolbar_items), toolbar_check(views(cmds@)))),
{
    let ghost f = toolbar_check(views(cmds@));
    if let Some(items) = &c.toolbar_items {
        proof {
            lemma_first_error_ends(items@, f);
        }
        let n = items.len();
        for i in 0..n
            invariant
                n == items@.len(),
                opt_seq(c.toolbar_items) == items@,
                f == toolbar_check(views(cmds@)),
                first_error(items@, f) == first_error(items@.skip(i as int), f),
        {
            let it = &items[i];
            if !contains_text(cmds, it.command.as_str()) {
                proof { lemma_first_error_hit(items@, f, i as int); }
                return Err(err(ManifestErrorKind::ToolbarItemUnknownCommand, it.id.as_str(), it.command.as_str()));
            }
            proof { lemma_first_error_step(items@, f, i as int); }
        }
    }
    Ok(())
}

fn check_tray_items(c: &ExtensionContributes, cmds: &Vec<String>) -> (r: Result<(), ManifestError>)
    ensures
        result_matches(r, first_error(opt_seq(c.tray_items), tray_check(views(cmds@)))),
{
    let ghost f = tray_check(views(cmds@));
    if let Some(items) = &c.tray_items {
        proof {
            lemma_first_error_ends(items@, f);
        }
        let n = items.len();
        for i in 0..n
            invariant
                n == items@.len(),
                opt_seq(c.tray_items) == items@,
                f == tray_check(views(cmds@)),
                first_error(items@, f) == first_error(items@.skip(i as int), f),
        {
            let it = &items[i];
            if !contains_text(cmds, it.command.as_str()) {
                proof { lemma_first_error_hit(items@, f, i as int); }
                return Err(err(ManifestErrorKind::TrayItemUnknownCommand, it.id.as_str(), it.command.as_str()));
            }
            proof { lemma_first_error_step(items@, f, i as int); }
        }
    }
    Ok(())
}

fn check_statusbar_items(c: &ExtensionContributes, cmds: &Vec<String>) -> (r: Result<(), ManifestError>)
    ensures
        result_matches(r, first_error(opt_seq(c.statusbar_items), statusbar_check(views(cmds@)))),
{
    let ghost f = statusbar_check(views(cmds@));
    if let Some(items) = &c.statusbar_items {
        proof {
            lemma_first_error_ends(items@, f);
        }
        let n = items.len();
        for i in 0..n
            invariant
                n == items@.len(),
                opt_seq(c.statusbar_items) == items@,
                f == statusbar_check(views(cmds@)),
                first_error(items@, f) == first_error(items@.skip(i as int), f),
        {
            let it = &items[i];
            if let Some(cmd) = &it.command {
                if !contains_text(cmds, cmd.as_str()) {
                    proof { lemma_first_error_hit(items@, f, i as int); }
                    return Err(err(ManifestErrorKind::StatusBarItemUnknownCommand, it.id.as_str(), cmd.as_str()));
                }
            }
            proof { lemma_first_error_step(items@, f, i as int); }
        }
    }
    Ok(())
}

/// A view-opening command may name a view of this manifest; that view must
/// satisfy the HostView contract, which every declared view already does
/// once the views have been checked.
fn validate_command_view_action(c: &ExtensionContributes, view_id: &str) -> (r: Result<
    (),
    ManifestError,
>)
    requires
        forall|k: int|
            0 <= k < opt_seq(c.views).len() ==> view_fault(#[trigger] opt_seq(c.views)[k]) is None,
    ensures
        r is Ok,
{
    if let Some(items) = &c.views {
        let n = items.len();
        for i in 0..n
            invariant
                n == items@.len(),
                opt_seq(c.views) == items@,
                forall|k: int| 0 <= k < items@.len() ==> view_fault(#[trigger] items@[k]) is None,
        {
            if str_eq(items[i].id.as_str(), view_id) {
                assert(view_fault(items@[i as int]) is None);
                return match validate_extension_view(&items[i]) {
                    Ok(()) => Ok(()),
                    Err(e) => Err(
                        ManifestError {
                            kind: ManifestErrorKind::View(e.kind),
                            subject: e.subject,
                            detail: e.detail,
                        },
                    ),
                };
            }
        }
    }
    Ok(())
}

fn check_command(
    c: &ExtensionContributes,
    cmd: &CommandRegistration,
    vids: &Vec<String>,
    sids: &Vec<String>,
) -> (r: Result<(), ManifestError>)
    requires
        forall|k: int|
            0 <= k < opt_seq(c.views).len() ==> view_fault(#[trigger] opt_seq(c.views)[k]) is None,
    ensures
        result_matches(r, command_action_fault(*cmd, views(vids@), views(sids@))),
{
    match &cmd.action {
        BuiltinAction::RunScript { script_id, .. } => {
            if is_blank(script_id.as_str()) {
                return Err(err(ManifestErrorKind::CommandEmptyScript, cmd.id.as_str(), empty_detail()));
            }
            if !contains_char(script_id.as_str(), ':') && !contains_text(sids, script_id.as_str()) {
                return Err(err(ManifestErrorKind::CommandUnknownScript, cmd.id.as_str(), script_id.as_str()));
            }
            Ok(())
        },
        BuiltinAction::SendMessage { target, .. } => {
            if is_blank(target.as_str()) {
                return Err(err(ManifestErrorKind::CommandEmptyMessageTarget, cmd.id.as_str(), empty_detail()));
            }
            Ok(())
        },
        BuiltinAction::OpenView { view_id } | BuiltinAction::ToggleView { view_id }
        | BuiltinAction::OpenDialog { view_id, .. } => {
            let action = match &cmd.action {
                BuiltinAction::ToggleView { .. } => ViewAction::ToggleView,
                BuiltinAction::OpenDialog { .. } => ViewAction::OpenDialog,
                _ => ViewAction::OpenView,
            };
            let namespaced = contains_char(view_id.as_str(), ':');
            if !namespaced && !contains_text(vids, view_id.as_str()) {
                return Err(err(ManifestErrorKind::CommandUnknownView(action), cmd.id.as_str(), view_id.as_str()));
            }
            if !namespaced {
                validate_command_view_action(c, view_id.as_str())?;
            }
            Ok(())
        },
    }
}

fn check_commands(c: &ExtensionContributes, vids: &Vec<String>, sids: &Vec<String>) -> (r: Result<
    (),
    ManifestError,
>)
    requires
        forall|k: int|
            0 <= k < opt_seq(c.views).len() ==> view_fault(#[trigger] opt_seq(c.views)[k]) is None,
    ensures
        result_matches(r, first_error(opt_seq(c.commands), command_check(views(vids@), views(sids@)))),
{
    let ghost f = command_check(views(vids@), views(sids@));
    if let Some(items) = &c.commands {
        proof {
            lemma_first_error_ends(items@, f);
        }
        let n = items.len();
        for i in 0..n
            invariant
                n == items@.len(),
                opt_seq(c.commands) == items@,
                f == command_check(views(vids@), views(sids@)),
                first_error(items@, f) == first_error(items@.skip(i as int), f),
                forall|k: int|
                    0 <= k < opt_seq(c.views).len() ==> view_fault(#[trigger] opt_seq(c.views)[k]) is None,
        {
            let r = check_command(c, &items[i], vids, sids);
            if r.is_err() {
                proof { lemma_first_error_hit(items@, f, i as int); }
                return r;
            }
            proof { lemma_first_error_step(items@, f, i as int); }
        }
    }
    Ok(())
}

fn is_builtin_role_name(r: &str) -> (b: bool)
    ensures
        b == is_builtin_role(r@),
{
    str_eq(r, "developer") || str_eq(r, "technical-writer") || str_eq(r, "assistant")
}

fn is_builtin_skill_name(s: &str) -> (b: bool)
    ensures
        b == is_builtin_skill(s@),
{
    str_eq(s, "commit") || str_eq(s, "refactor") || str_eq(s, "test-gen") || str_eq(s, "bug-fix")
        || str_eq(s, "review") || str_eq(s, "explain") || str_eq(s, "doc-gen")
}

fn is_builtin_context_policy_name(p: &str) -> (b: bool)
    ensures
        b == is_builtin_context_policy(p@),
{
    str_eq(p, "code") || str_eq(p, "cowork") || str_eq(p, "default")
}

fn check_known_opt_ids(
    items: &Option<Vec<String>>,
    ids: &Vec<String>,
    kind: ManifestErrorKind,
    subject: &str,
) -> (r: Result<(), ManifestError>)
    ensures
        result_matches(r, first_error(opt_strings(*items), known_id_check(views(ids@), kind, subject@))),
{
    match items {
        Some(v) => check_known_ids(v, ids, kind, subject),
        None => Ok(()),
    }
}

fn check_mode_skills(mode: &WorkModeRegistration, skills: &Vec<String>) -> (r: Result<
    (),
    ManifestError,
>)
    ensures
        result_matches(r, first_error(opt_strings(mode.skills), skill_check(views(skills@), mode.id@))),
{
    let ghost f = skill_check(views(skills@), mode.id@);
    if let Some(items) = &mode.skills {
        proof {
            lemma_first_error_ends(items@, f);
        }
        let n = items.len();
        for i in 0..n
            invariant
                n == items@.len(),
                opt_seq(mode.skills) == items@,
                f == skill_check(views(skills@), mode.id@),
                first_error(items@, f) == first_error(items@.skip(i as int), f),
        {
            let s = items[i].as_str();
            if !is_builtin_skill_name(s) && !contains_text(skills, s) {
                proof { lemma_first_error_hit(items@, f, i as int); }
                return Err(err(ManifestErrorKind::WorkModeUnknownSkill, mode.id.as_str(), s));
            }
            proof { lemma_first_error_step(items@, f, i as int); }
        }
    }
    Ok(())
}

/// The collected ids of a manifest's contributions.
struct ContributionIds {
    views: Vec<String>,
    commands: Vec<String>,
    roles: Vec<String>,
    skills: Vec<String>,
    context_providers: Vec<String>,
    scripts: Vec<String>,
}

impl ContributionIds {
    spec fn describes(&self, c: ExtensionContributes) -> bool {
        &&& views(self.views@) == view_ids(c)
        &&& views(self.commands@) == command_ids(c)
        &&& views(self.roles@) == role_ids(c)
        &&& views(self.skills@) == skill_ids(c)
        &&& views(self.context_providers@) == context_provider_ids(c)
        &&& views(self.scripts@) == script_ids(c)
    }
}

fn collect_ids(c: &ExtensionContributes) -> (r: ContributionIds)
    ensures
        r.describes(*c),
{
    ContributionIds {
        views: collect_view_ids(c),
        commands: collect_command_ids(c),
        roles: collect_role_ids(c),
        skills: collect_skill_ids(c),
        context_providers: collect_context_provider_ids(c),
        scripts: collect_script_ids(c),
    }
}

fn check_mode_refs(
    c: &ExtensionContributes,
    mode: &WorkModeRegistration,
    ids: &ContributionIds,
) -> (r: Result<(), ManifestError>)
    requires
        ids.describes(*c),
    ensures
        result_matches(r, work_mode_ref_fault(*mode, *c)),
{
    let id = mode.id.as_str();
    if let Some(role) = &mode.role {
        if !is_builtin_role_name(role.as_str()) && !contains_text(&ids.roles, role.as_str()) {
            return Err(err(ManifestErrorKind::WorkModeUnknownRole, id, role.as_str()));
        }
    }
    check_known_opt_ids(&mode.commands, &ids.commands, ManifestErrorKind::WorkModeUnknownCommand, id)?;
    check_mode_skills(mode, &ids.skills)?;
    if let Some(entry) = &mode.entry_view {
        if !contains_text(&ids.views, entry.as_str()) {
            return Err(err(ManifestErrorKind::WorkModeUnknownEntryView, id, entry.as_str()));
        }
    }
    check_known_opt_ids(&mode.default_views, &ids.views, ManifestErrorKind::WorkModeUnknownDefaultView, id)?;
    if let Some(policy) = &mode.context_policy {
        if !is_builtin_context_policy_name(policy.as_str()) && !contains_text(
            &ids.context_providers,
            policy.as_str(),
        ) {
            return Err(err(ManifestErrorKind::WorkModeUnknownContextPolicy, id, policy.as_str()));
        }
    }
    Ok(())
}

fn check_mode_references(c: &ExtensionContributes, ids: &ContributionIds) -> (r: Result<
    (),
    ManifestError,
>)
    requires
        ids.describes(*c),
    ensures
        result_matches(r, first_error(opt_seq(c.work_modes), work_mode_ref_check(*c))),
{
    let ghost f = work_mode_ref_check(*c);
    if let Some(items) = &c.work_modes {
        proof {
            lemma_first_error_ends(items@, f);
        }
        let n = items.len();
        for i in 0..n
            invariant
                n == items@.len(),
                opt_seq(c.work_modes) == items@,
                ids.describes(*c),
                f == work_mode_ref_check(*c),
                first_error(items@, f) == first_error(items@.skip(i as int), f),
        {
            let r = check_mode_refs(c, &items[i], ids);
            if r.is_err() {
                proof { lemma_first_error_hit(items@, f, i as int); }
                return r;
            }
            proof { lemma_first_error_step(items@, f, i as int); }
        }
    }
    Ok(())
}

/// Every cross-reference between contributions resolves: views satisfy the
/// HostView contract; menus, keybindings, toolbar, tray and status bar items
/// name declared commands; command actions name declared views and scripts
/// (or namespaced ones); work modes name declared or builtin roles, commands,
/// skills, views and context policies.
pub fn validate_contributes(c: &ExtensionContributes) -> (r: Result<(), ManifestError>)
    ensures
        result_matches(r, contributes_fault(*c)),
{
    let ids = collect_ids(c);
    check_views(c)?;
    check_menus(c, &ids.commands)?;
    check_keybindings(c, &ids.commands)?;
    check_toolbar_items(c, &ids.commands)?;
    check_tray_items(c, &ids.commands)?;
    check_statusbar_items(c, &ids.commands)?;
    check_commands(c, &ids.views, &ids.scripts)?;
    check_mode_references(c, &ids)
}

// ===========================================================================
// Manifest
// ===========================================================================

pub open spec fn opt_fault<T>(o: Option<T>, f: spec_fn(T) -> Option<Fault>) -> Option<Fault> {
    match o {
        Some(x) => f(x),
        None => None,
    }
}

/// The first rule a manifest breaks, in the loader's order: identity fields,
/// permissions, cross-references, triggers, work modes, hooks, event
/// subscriptions, capabilities, exports, backend services, components.
pub open spec fn manifest_fault(m: ExtensionManifest, cpu_percent_in_range: bool) -> Option<Fault> {
    if m.id@.len() == 0 {
        Some(fault(ManifestErrorKind::IdEmpty, Seq::empty(), Seq::empty()))
    } else if !valid_extension_id(m.id@) {
        Some(fault(ManifestErrorKind::IdUnsupportedCharacters, m.id@, Seq::empty()))
    } else if m.name@.len() == 0 {
        Some(fault(ManifestErrorKind::NameEmpty, m.id@, Seq::empty()))
    } else if m.version@.len() == 0 {
        Some(fault(ManifestErrorKind::VersionEmpty, m.id@, Seq::empty()))
    } else {
        sections_fault(m, cpu_percent_in_range)
    }
}

/// The first rule broken past the identity fields, section by section.
pub open spec fn sections_fault(m: ExtensionManifest, cpu_percent_in_range: bool) -> Option<Fault> {
    let c = m.contributes;
    let steps = seq![
        permissions_fault(m.permissions, cpu_percent_in_range),
        contributes_fault(c),
        opt_fault(c.triggers, |t: Vec<TriggerRegistration>| triggers_fault(t@)),
        opt_fault(c.work_modes, |w: Vec<WorkModeRegistration>| work_modes_fault(w@)),
        opt_fault(c.hooks, |h: Vec<HookRegistration>| hooks_fault(h@)),
        opt_fault(
            c.event_subscriptions,
            |s: Vec<EventSubscriptionRegistration>| subscriptions_fault(s@),
        ),
        opt_fault(c.capabilities, |x: CapabilityDeclaration| capabilities_fault(x)),
        opt_fault(
            c.extension_exports,
            |x: ExtensionExports| exports_fault(x, view_ids(c), command_ids(c)),
        ),
        opt_fault(c.backend_services, |b: Vec<BackendServiceRegistration>| backend_services_fault(b@)),
        opt_fault(c.components, |x: Vec<ComponentRegistration>| components_fault(x@)),
    ];
    first_error(steps, |f: Option<Fault>| f)
}

/// Loads and validates extension manifests.
#[derive(Debug, Clone, Copy, PartialEq, Eq)]
pub struct ExtensionLoader;

impl ExtensionLoader {
    pub fn new() -> (r: Self)
        ensures
            r == ExtensionLoader,
    {
        ExtensionLoader
    }

    /// Validates a parsed manifest. `cpu_percent_in_range` is whether the
    /// declared CPU share lies in (0, 100]; that quantity is floating point
    /// and is compared by the caller.
    pub fn validate(&self, manifest: &ExtensionManifest, cpu_percent_in_range: bool) -> (r: Result<
        (),
        ManifestError,
    >)
        ensures
            result_matches(r, manifest_fault(*manifest, cpu_percent_in_range)),
    {
        validate_manifest(manifest, cpu_percent_in_range)
    }
}

/// Validates a parsed manifest; see `manifest_fault` for the rules and their order.
pub fn validate_manifest(m: &ExtensionManifest, cpu_percent_in_range: bool) -> (r: Result<
    (),
    ManifestError,
>)
    ensures
        result_matches(r, manifest_fault(*m, cpu_percent_in_range)),
{
    let e = empty_detail();
    if m.id.as_str().unicode_len() == 0 {
        return Err(err(ManifestErrorKind::IdEmpty, e, e));
    }
    if !is_valid_extension_id(m.id.as_str()) {
        return Err(err(ManifestErrorKind::IdUnsupportedCharacters, m.id.as_str(), e));
    }
    if m.name.as_str().unicode_len() == 0 {
        return Err(err(ManifestErrorKind::NameEmpty, m.id.as_str(), e));
    }
    if m.version.as_str().unicode_len() == 0 {
        return Err(err(ManifestErrorKind::VersionEmpty, m.id.as_str(), e));
    }
    validate_sections(m, cpu_percent_in_range)
}

/// The section-by-section checks of `validate_manifest`.
fn validate_sections(m: &ExtensionManifest, cpu_percent_in_range: bool) -> (r: Result<
    (),
    ManifestError,
>)
    ensures
        result_matches(r, sections_fault(*m, cpu_percent_in_range)),
{
    let c = &m.contributes;
    let ghost steps = seq![
        permissions_fault(m.permissions, cpu_percent_in_range),
        contributes_fault(*c),
        opt_fault(c.triggers, |t: Vec<TriggerRegistration>| triggers_fault(t@)),
        opt_fault(c.work_modes, |w: Vec<WorkModeRegistration>| work_modes_fault(w@)),
        opt_fault(c.hooks, |h: Vec<HookRegistration>| hooks_fault(h@)),
        opt_fault(
            c.event_subscriptions,
            |s: Vec<EventSubscriptionRegistration>| subscriptions_fault(s@),
        ),
        opt_fault(c.capabilities, |x: CapabilityDeclaration| capabilities_fault(x)),
        opt_fault(
            c.extension_exports,
            |x: ExtensionExports| exports_fault(x, view_ids(*c), command_ids(*c)),
        ),
        opt_fault(c.backend_services, |b: Vec<BackendServiceRegistration>| backend_services_fault(b@)),
        opt_fault(c.components, |x: Vec<ComponentRegistration>| components_fault(x@)),
    ];
    proof {
        reveal_with_fuel(first_error, 11);
    }
    let r = validate_permissions(&m.permissions, cpu_percent_in_range);
    if r.is_err() {
        return r;
    }
    let r = validate_contributes(c);
    if r.is_err() {
        return r;
    }
    if let Some(t) = &c.triggers {
        let r = validate_triggers(t);
        if r.is_err() {
            return r;
        }
    }
    if let Some(w) = &c.work_modes {
        let r = validate_work_modes(w);
        if r.is_err() {
            return r;
        }
    }
    if let Some(h) = &c.hooks {
        let r = validate_hooks(h);
        if r.is_err() {
            return r;
        }
    }
    if let Some(s) = &c.event_subscriptions {
        let r = validate_event_subscriptions(s);
        if r.is_err() {
            return r;
        }
    }
    if let Some(x) = &c.capabilities {
        let r = validate_capabilities(x);
        if r.is_err() {
            return r;
        }
    }
    if let Some(x) = &c.extension_exports {
        let r = validate_extension_exports(c, x);
        if r.is_err() {
            return r;
        }
    }
    if let Some(b) = &c.backend_services {
        let r = validate_backend_services(b);
        if r.is_err() {
            return r;
        }
    }
    if let Some(x) = &c.components {
        let r = validate_components(x);
        if r.is_err() {
            return r;
        }
    }
    Ok(())
}

impl ManifestError {
    /// The description of the error, as a value.
    pub open spec fn text(&self) -> Seq<char> {
        let s = self.subject@;
        let d = self.detail@;
        match self.kind {
            ManifestErrorKind::IdEmpty => "Extension ID is empty"@,
            ManifestErrorKind::IdUnsupportedCharacters => "Extension ID contains unsupported characters"@,
            ManifestErrorKind::NameEmpty => "Extension name is empty"@,
            ManifestErrorKind::VersionEmpty => "Extension version is empty"@,
            ManifestErrorKind::MaxMemoryZero => "max_memory_mb must be greater than 0"@,
            ManifestErrorKind::CpuPercentOutOfRange => "max_cpu_percent must be between 0 (exclusive) and 100 (inclusive)"@,
            ManifestErrorKind::TimeoutZero => "timeout_ms must be greater than 0"@,
            ManifestErrorKind::View(k) => (crate::host_view::HostViewError { kind: k, subject: self.subject, detail: self.detail, anchor_parent: false }).text(),
            ManifestErrorKind::MenuUnknownCommand => "Menu '"@ + s + "' references non-existent command '"@ + d + "'"@,
            ManifestErrorKind::KeybindingUnknownCommand => "Keybinding key '"@ + s + "' references non-existent command '"@ + d + "'"@,
            ManifestErrorKind::ToolbarItemUnknownCommand => "ToolbarItem '"@ + s + "' references non-existent command '"@ + d + "'"@,
            ManifestErrorKind::TrayItemUnknownCommand => "TrayItem '"@ + s + "' references non-existent command '"@ + d + "'"@,
            ManifestErrorKind::StatusBarItemUnknownCommand => "StatusBarItem '"@ + s + "' references non-existent command '"@ + d + "'"@,
            ManifestErrorKind::CommandUnknownView(a) => "Command '"@ + s + "' "@ + a.text() + " references non-existent view '"@ + d + "'"@,
            ManifestErrorKind::CommandEmptyScript => "Command '"@ + s + "' RunScript references empty script id"@,
            ManifestErrorKind::CommandUnknownScript => "Command '"@ + s + "' RunScript references non-existent script '"@ + d + "'"@,
            ManifestErrorKind::CommandEmptyMessageTarget => "Command '"@ + s + "' SendMessage target must not be empty"@,
            ManifestErrorKind::WorkModeUnknownRole => "WorkMode '"@ + s + "' references non-existent role '"@ + d + "'"@,
            ManifestErrorKind::WorkModeUnknownCommand => "WorkMode '"@ + s + "' references non-existent command '"@ + d + "'"@,
            ManifestErrorKind::WorkModeUnknownSkill => "WorkMode '"@ + s + "' references non-existent skill '"@ + d + "'"@,
            ManifestErrorKind::WorkModeUnknownEntryView => "WorkMode '"@ + s + "' references non-existent entry_view '"@ + d + "'"@,
            ManifestErrorKind::WorkModeUnknownDefaultView => "WorkMode '"@ + s + "' references non-existent default_view '"@ + d + "'"@,
            ManifestErrorKind::WorkModeUnknownContextPolicy => "WorkMode '"@ + s + "' references non-existent context_policy '"@ + d + "'"@,
            ManifestErrorKind::TriggerPrefixMissingSlash => "Trigger prefix '"@ + s + "' must start with '/'"@,
            ManifestErrorKind::TriggerPrefixTooShort => "Trigger prefix '"@ + s + "' is too short, must have at least one character after '/'"@,
            ManifestErrorKind::TriggerPrefixUnsupportedCharacters => "Trigger prefix '"@ + s + "' can only contain lowercase letters, digits, '-' or '.' after '/'"@,
            ManifestErrorKind::WorkModeIdEmpty => "WorkMode ID is empty"@,
            ManifestErrorKind::WorkModeIdHasColon => "WorkMode '"@ + s + "' must not contain ':'; runtime id is custom:<extensionId>/"@ + s,
            ManifestErrorKind::WorkModeIdDuplicate => "Duplicate WorkMode ID '"@ + s + "'"@,
            ManifestErrorKind::HookIdEmpty => "Hook ID is empty"@,
            ManifestErrorKind::HookIdDuplicate => "Duplicate Hook ID '"@ + s + "'"@,
            ManifestErrorKind::HookModuleEmpty => "Hook '"@ + s + "' module is empty"@,
            ManifestErrorKind::EventSubscriptionIdEmpty => "Event subscription ID is empty"@,
            ManifestErrorKind::EventSubscriptionIdUnsupportedCharacters => "Event subscription ID '"@ + s + "' contains unsupported characters"@,
            ManifestErrorKind::EventSubscriptionIdDuplicate => "Duplicate Event subscription ID '"@ + s + "'"@,
            ManifestErrorKind::TopicEmpty => "Event subscription '"@ + s + "' topic is empty"@,
            ManifestErrorKind::TopicNotAsciiToken => "Event subscription '"@ + s + "' topic must be an ASCII topic without whitespace"@,
            ManifestErrorKind::TopicBadSegment => "Event subscription '"@ + s + "' topic '"@ + d + "' must contain only dot-separated name segments"@,
            ManifestErrorKind::ScopeKeyInvalid => "Event subscription '"@ + s + "' scopeKey must be a non-empty value without whitespace"@,
            ManifestErrorKind::HandlerModuleEmpty => "Event subscription '"@ + s + "' handler module is empty"@,
            ManifestErrorKind::HandlerModuleNotRelative => "Event subscription '"@ + s + "' handler module '"@ + d + "' must be a relative './' path"@,
            ManifestErrorKind::HandlerModuleUnsafeSegment => "Event subscription '"@ + s + "' handler module '"@ + d + "' contains an unsafe path segment"@,
            ManifestErrorKind::HandlerExportEmpty => "Event subscription '"@ + s + "' handler export is empty"@,
            ManifestErrorKind::HandlerExportInvalid => "Event subscription '"@ + s + "' handler export '"@ + d + "' must be a valid export name"@,
            ManifestErrorKind::InvokeCommandEmpty => "Capabilities invoke contains an empty command name"@,
            ManifestErrorKind::InvokeCommandUnsupportedCharacters => "Capabilities invoke command '"@ + s + "' contains unsupported characters"@,
            ManifestErrorKind::ReadKeyInvalid => "Capabilities read key '"@ + s + "' must be a non-empty value without whitespace"@,
            ManifestErrorKind::ExtensionCallTargetEmpty => "Capabilities extension call target is empty"@,
            ManifestErrorKind::ExtensionCallUnsupportedAction => "Capabilities extension call '"@ + s + "' references unsupported action '"@ + d + "'"@,
            ManifestErrorKind::ExportUnknownView => "Extension exports references non-existent view '"@ + d + "'"@,
            ManifestErrorKind::ExportUnknownCommand => "Extension exports references non-existent command '"@ + d + "'"@,
            ManifestErrorKind::BackendServiceIdEmpty => "Backend service ID is empty"@,
            ManifestErrorKind::BackendServiceIdHasWhitespace => "Backend service ID '"@ + s + "' contains whitespace or control characters"@,
            ManifestErrorKind::BackendServiceIdDuplicate => "Duplicate Backend service ID '"@ + s + "'"@,
            ManifestErrorKind::BackendEntryEmpty => "Backend service '"@ + s + "' entry is empty"@,
            ManifestErrorKind::BackendEntryNotRelative => "Backend service '"@ + s + "' entry '"@ + d + "' must be a relative path using '/' separators"@,
            ManifestErrorKind::BackendEntryOutsideBackendDir => "Backend service '"@ + s + "' entry '"@ + d + "' must be located below the ExtensionBackend directory"@,
            ManifestErrorKind::BackendEntryUnsafeSegment => "Backend service '"@ + s + "' entry '"@ + d + "' contains an unsafe path segment"@,
            ManifestErrorKind::ComponentIdEmpty => "Component ID is empty"@,
            ManifestErrorKind::ComponentIdHasWhitespace => "Component ID '"@ + s + "' contains whitespace or control characters"@,
            ManifestErrorKind::ComponentIdDuplicate => "Duplicate Component ID '"@ + s + "'"@,
            ManifestErrorKind::ComponentEntryEmpty => "Component '"@ + s + "' entry is empty"@,
            ManifestErrorKind::ComponentEntryNotWasm => "Component '"@ + s + "' entry '"@ + d + "' must end with '.wasm'"@,
            ManifestErrorKind::ComponentEntryNotRelative => "Component '"@ + s + "' entry '"@ + d + "' must be a relative path using '/' separators"@,
            ManifestErrorKind::ComponentEntryOutsideExtensionDirs => "Component '"@ + s + "' entry '"@ + d + "' must be located below the ExtensionUI or ExtensionBackend directory"@,
            ManifestErrorKind::ComponentEntryUnsafeSegment => "Component '"@ + s + "' entry '"@ + d + "' contains an unsafe path segment"@,
            ManifestErrorKind::ComponentRunOnEmpty => "Component '"@ + s + "' has an empty runOn trigger"@,
            ManifestErrorKind::ComponentRunOnUnsupported => "Component '"@ + s + "' declares unsupported runOn trigger '"@ + d + "' (supported: activation, message)"@,
        }
    }

    /// A human-readable description of the error.
    pub fn to_string(&self) -> (r: String)
        ensures
            r@ == self.text(),
    {
        let s = self.subject.as_str();
        let d = self.detail.as_str();
        match self.kind {
            ManifestErrorKind::IdEmpty => owned("Extension ID is empty"),
            ManifestErrorKind::IdUnsupportedCharacters => owned("Extension ID contains unsupported characters"),
            ManifestErrorKind::NameEmpty => owned("Extension name is empty"),
            ManifestErrorKind::VersionEmpty => owned("Extension version is empty"),
            ManifestErrorKind::MaxMemoryZero => owned("max_memory_mb must be greater than 0"),
            ManifestErrorKind::CpuPercentOutOfRange => owned("max_cpu_percent must be between 0 (exclusive) and 100 (inclusive)"),
            ManifestErrorKind::TimeoutZero => owned("timeout_ms must be greater than 0"),
            ManifestErrorKind::View(k) => crate::host_view::HostViewError {
                kind: k,
                subject: owned(s),
                detail: owned(d),
                anchor_parent: false,
            }.to_string(),
            ManifestErrorKind::MenuUnknownCommand => concat5("Menu '", s, "' references non-existent command '", d, "'"),
            ManifestErrorKind::KeybindingUnknownCommand => concat5("Keybinding key '", s, "' references non-existent command '", d, "'"),
            ManifestErrorKind::ToolbarItemUnknownCommand => concat5("ToolbarItem '", s, "' references non-existent command '", d, "'"),
            ManifestErrorKind::TrayItemUnknownCommand => concat5("TrayItem '", s, "' references non-existent command '", d, "'"),
            ManifestErrorKind::StatusBarItemUnknownCommand => concat5("StatusBarItem '", s, "' references non-existent command '", d, "'"),
            ManifestErrorKind::CommandUnknownView(a) => concat7("Command '", s, "' ", a.name(), " references non-existent view '", d, "'"),
            ManifestErrorKind::CommandEmptyScript => concat3("Command '", s, "' RunScript references empty script id"),
            ManifestErrorKind::CommandUnknownScript => concat5("Command '", s, "' RunScript references non-existent script '", d, "'"),
            ManifestErrorKind::CommandEmptyMessageTarget => concat3("Command '", s, "' SendMessage target must not be empty"),
            ManifestErrorKind::WorkModeUnknownRole => concat5("WorkMode '", s, "' references non-existent role '", d, "'"),
            ManifestErrorKind::WorkModeUnknownCommand => concat5("WorkMode '", s, "' references non-existent command '", d, "'"),
            ManifestErrorKind::WorkModeUnknownSkill => concat5("WorkMode '", s, "' references non-existent skill '", d, "'"),
            ManifestErrorKind::WorkModeUnknownEntryView => concat5("WorkMode '", s, "' references non-existent entry_view '", d, "'"),
            ManifestErrorKind::WorkModeUnknownDefaultView => concat5("WorkMode '", s, "' references non-existent default_view '", d, "'"),
            ManifestErrorKind::WorkModeUnknownContextPolicy => concat5("WorkMode '", s, "' references non-existent context_policy '", d, "'"),
            ManifestErrorKind::TriggerPrefixMissingSlash => concat3("Trigger prefix '", s, "' must start with '/'"),
            ManifestErrorKind::TriggerPrefixTooShort => concat3("Trigger prefix '", s, "' is too short, must have at least one character after '/'"),
            ManifestErrorKind::TriggerPrefixUnsupportedCharacters => concat3("Trigger prefix '", s, "' can only contain lowercase letters, digits, '-' or '.' after '/'"),
            ManifestErrorKind::WorkModeIdEmpty => owned("WorkMode ID is empty"),
            ManifestErrorKind::WorkModeIdHasColon => concat4("WorkMode '", s, "' must not contain ':'; runtime id is custom:<extensionId>/", s),
            ManifestErrorKind::WorkModeIdDuplicate => concat3("Duplicate WorkMode ID '", s, "'"),
            ManifestErrorKind::HookIdEmpty => owned("Hook ID is empty"),
            ManifestErrorKind::HookIdDuplicate => concat3("Duplicate Hook ID '", s, "'"),
            ManifestErrorKind::HookModuleEmpty => concat3("Hook '", s, "' module is empty"),
            ManifestErrorKind::EventSubscriptionIdEmpty => owned("Event subscription ID is empty"),
            ManifestErrorKind::EventSubscriptionIdUnsupportedCharacters => concat3("Event subscription ID '", s, "' contains unsupported characters"),
            ManifestErrorKind::EventSubscriptionIdDuplicate => concat3("Duplicate Event subscription ID '", s, "'"),
            ManifestErrorKind::TopicEmpty => concat3("Event subscription '", s, "' topic is empty"),
            ManifestErrorKind::TopicNotAsciiToken => concat3("Event subscription '", s, "' topic must be an ASCII topic without whitespace"),
            ManifestErrorKind::TopicBadSegment => concat5("Event subscription '", s, "' topic '", d, "' must contain only dot-separated name segments"),
            ManifestErrorKind::ScopeKeyInvalid => concat3("Event subscription '", s, "' scopeKey must be a non-empty value without whitespace"),
            ManifestErrorKind::HandlerModuleEmpty => concat3("Event subscription '", s, "' handler module is empty"),
            ManifestErrorKind::HandlerModuleNotRelative => concat5("Event subscription '", s, "' handler module '", d, "' must be a relative './' path"),
            ManifestErrorKind::HandlerModuleUnsafeSegment => concat5("Event subscription '", s, "' handler module '", d, "' contains an unsafe path segment"),
            ManifestErrorKind::HandlerExportEmpty => concat3("Event subscription '", s, "' handler export is empty"),
            ManifestErrorKind::HandlerExportInvalid => concat5("Event subscription '", s, "' handler export '", d, "' must be a valid export name"),
            ManifestErrorKind::InvokeCommandEmpty => owned("Capabilities invoke contains an empty command name"),
            ManifestErrorKind::InvokeCommandUnsupportedCharacters => concat3("Capabilities invoke command '", s, "' contains unsupported characters"),
            ManifestErrorKind::ReadKeyInvalid => concat3("Capabilities read key '", s, "' must be a non-empty value without whitespace"),
            ManifestErrorKind::ExtensionCallTargetEmpty => owned("Capabilities extension call target is empty"),
            ManifestErrorKind::ExtensionCallUnsupportedAction => concat5("Capabilities extension call '", s, "' references unsupported action '", d, "'"),
            ManifestErrorKind::ExportUnknownView => concat3("Extension exports references non-existent view '", d, "'"),
            ManifestErrorKind::ExportUnknownCommand => concat3("Extension exports references non-existent command '", d, "'"),
            ManifestErrorKind::BackendServiceIdEmpty => owned("Backend service ID is empty"),
            ManifestErrorKind::BackendServiceIdHasWhitespace => concat3("Backend service ID '", s, "' contains whitespace or control characters"),
            ManifestErrorKind::BackendServiceIdDuplicate => concat3("Duplicate Backend service ID '", s, "'"),
            ManifestErrorKind::BackendEntryEmpty => concat3("Backend service '", s, "' entry is empty"),
            ManifestErrorKind::BackendEntryNotRelative => concat5("Backend service '", s, "' entry '", d, "' must be a relative path using '/' separators"),
            ManifestErrorKind::BackendEntryOutsideBackendDir => concat5("Backend service '", s, "' entry '", d, "' must be located below the ExtensionBackend directory"),
            ManifestErrorKind::BackendEntryUnsafeSegment => concat5("Backend service '", s, "' entry '", d, "' contains an unsafe path segment"),
            ManifestErrorKind::ComponentIdEmpty => owned("Component ID is empty"),
            ManifestErrorKind::ComponentIdHasWhitespace => concat3("Component ID '", s, "' contains whitespace or control characters"),
            ManifestErrorKind::ComponentIdDuplicate => concat3("Duplicate Component ID '", s, "'"),
            ManifestErrorKind::ComponentEntryEmpty => concat3("Component '", s, "' entry is empty"),
            ManifestErrorKind::ComponentEntryNotWasm => concat5("Component '", s, "' entry '", d, "' must end with '.wasm'"),
            ManifestErrorKind::ComponentEntryNotRelative => concat5("Component '", s, "' entry '", d, "' must be a relative path using '/' separators"),
            ManifestErrorKind::ComponentEntryOutsideExtensionDirs => concat5("Component '", s, "' entry '", d, "' must be located below the ExtensionUI or ExtensionBackend directory"),
            ManifestErrorKind::ComponentEntryUnsafeSegment => concat5("Component '", s, "' entry '", d, "' contains an unsafe path segment"),
            ManifestErrorKind::ComponentRunOnEmpty => concat3("Component '", s, "' has an empty runOn trigger"),
            ManifestErrorKind::ComponentRunOnUnsupported => concat5("Component '", s, "' declares unsupported runOn trigger '", d, "' (supported: activation, message)"),
        }
    }
}

} // verus!
