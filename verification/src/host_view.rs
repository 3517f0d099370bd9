//! Extension UI contribution contract: the renderers and zones a manifest
//! view may use, and the shape of the entry it points at.

use vstd::prelude::*;
use vstd::string::*;

use crate::models::ViewRegistration;
use crate::seqs::{contains_text, views};
use crate::text::{is_whitespace, lemma_trim_bounds, any_char_in, any_in_class, concat3, concat5, contains_char, contains_seq, contains_str, is_blank, lemma_split_nonempty, owned, split, split_char, split_once, split_once_char, str_eq, trim, trim_str, CharClass};

verus! {

// ---------------------------------------------------------------------------
// Renderers and zones
// ---------------------------------------------------------------------------

pub open spec fn is_supported_renderer(r: Seq<char>) -> bool {
    r == "host:panel"@ || r == "html:sandbox"@
}

pub open spec fn is_builtin_zone(z: Seq<char>) -> bool {
    z == "rightWorkspace"@ || z == "chatAside"@ || z == "bottomDrawer"@ || z
        == "settingsSection"@ || z == "dialog"@
}

/// An `owner:local` zone reference with non-blank, whitespace-free parts.
pub open spec fn is_namespaced_zone(z: Seq<char>) -> bool {
    match split_once(z, ':') {
        Some(parts) => trim(parts.0).len() > 0 && trim(parts.1).len() > 0 && !any_in_class(
            parts.0,
            CharClass::Whitespace,
        ) && !any_in_class(parts.1, CharClass::Whitespace),
        None => false,
    }
}

/// A zone a view may open in: a builtin zone or a namespaced extension zone.
pub open spec fn is_open_zone(zone: Seq<char>) -> bool {
    let z = trim(zone);
    z.len() > 0 && (is_builtin_zone(z) || is_namespaced_zone(z))
}

/// The zone a view renders in: a non-empty `zone`, else a non-empty `placement`.
pub open spec fn effective_zone(view: ViewRegistration) -> Option<Seq<char>> {
    match view.zone {
        Some(z) if z@.len() > 0 => Some(z@),
        _ => match view.placement {
            Some(p) if p@.len() > 0 => Some(p@),
            _ => None,
        },
    }
}

/// The renderer for views rendered by the host itself.
pub fn host_panel_renderer() -> (r: &'static str)
    ensures
        r@ == "host:panel"@,
{
    "host:panel"
}

/// The sandboxed static HTML renderer.
pub fn html_sandbox_renderer() -> (r: &'static str)
    ensures
        r@ == "html:sandbox"@,
{
    "html:sandbox"
}

pub fn is_supported_extension_view_renderer(renderer: &str) -> (r: bool)
    ensures
        r == is_supported_renderer(renderer@),
{
    str_eq(renderer, "host:panel") || str_eq(renderer, "html:sandbox")
}

pub fn is_builtin_extension_view_zone(zone: &str) -> (r: bool)
    ensures
        r == is_builtin_zone(zone@),
{
    str_eq(zone, "rightWorkspace") || str_eq(zone, "chatAside") || str_eq(zone, "bottomDrawer")
        || str_eq(zone, "settingsSection") || str_eq(zone, "dialog")
}

fn is_namespaced_extension_zone(zone: &str) -> (r: bool)
    ensures
        r == is_namespaced_zone(zone@),
{
    match split_once_char(zone, ':') {
        None => false,
        Some((owner, local)) => {
            !is_blank(owner.as_str()) && !is_blank(local.as_str()) && !any_char_in(
                owner.as_str(),
                CharClass::Whitespace,
            ) && !any_char_in(local.as_str(), CharClass::Whitespace)
        },
    }
}

pub fn is_open_extension_view_zone(zone: &str) -> (r: bool)
    ensures
        r == is_open_zone(zone@),
{
    let z = trim_str(zone);
    if z.as_str().unicode_len() == 0 {
        return false;
    }
    is_builtin_extension_view_zone(z.as_str()) || is_namespaced_extension_zone(z.as_str())
}

pub fn effective_view_zone(view: &ViewRegistration) -> (r: Option<&str>)
    ensures
        match effective_zone(*view) {
            Some(z) => r matches Some(s) && s@ == z,
            None => r is None,
        },
{
    if let Some(zone) = &view.zone {
        if zone.as_str().unicode_len() > 0 {
            return Some(zone.as_str());
        }
    }
    if let Some(placement) = &view.placement {
        if placement.as_str().unicode_len() > 0 {
            return Some(placement.as_str());
        }
    }
    None
}

// ---------------------------------------------------------------------------
// Entries
// ---------------------------------------------------------------------------

/// Why an entry path is refused.
#[derive(Debug, Clone, Copy, PartialEq, Eq)]
pub enum EntryFault {
    /// Empty, absolute, a URL, or using `\` separators.
    NotRelative,
    /// Not below `ExtensionUI/`.
    OutsideExtensionUi,
    /// An empty, `.`, `..` or `:`-holding path segment.
    UnsafeSegment,
}

pub open spec fn is_safe_segment(s: Seq<char>) -> bool {
    s.len() > 0 && s != "."@ && s != ".."@ && !s.contains(':')
}

/// A relative path with `/` separators.
/// A Windows drive-rooted path such as `C:/dir`: absolute on the host
/// platform this runtime targets.
pub open spec fn is_drive_rooted(e: Seq<char>) -> bool {
    e.len() >= 3 && crate::text::is_ascii_alphabetic(e[0]) && e[1] == ':' && e[2] == '/'
}

pub fn drive_rooted(e: &str) -> (r: bool)
    ensures
        r == is_drive_rooted(e@),
{
    if e.unicode_len() < 3 {
        return false;
    }
    let c = e.get_char(0);
    (('a' <= c && c <= 'z') || ('A' <= c && c <= 'Z')) && e.get_char(1) == ':' && e.get_char(2) == '/'
}

pub open spec fn is_relative_shape(e: Seq<char>) -> bool {
    &&& e.len() > 0
    &&& !e.contains('\\')
    &&& !contains_seq(e, "://"@)
    &&& e[0] != '/'
    &&& e[0] != '\0'
    &&& !is_drive_rooted(e)
}

pub open spec fn all_segments_safe(segments: Seq<Seq<char>>) -> bool {
    forall|k: int| 0 <= k < segments.len() ==> is_safe_segment(#[trigger] segments[k])
}

/// The reason `entry` is not a safe UI entry, if any.
pub open spec fn entry_fault(e: Seq<char>) -> Option<EntryFault> {
    if !is_relative_shape(e) {
        Some(EntryFault::NotRelative)
    } else if split(e, '/')[0] != "ExtensionUI"@ {
        Some(EntryFault::OutsideExtensionUi)
    } else if !all_segments_safe(split(e, '/')) {
        Some(EntryFault::UnsafeSegment)
    } else {
        None
    }
}

pub fn is_safe_path_segment(s: &str) -> (r: bool)
    ensures
        r == is_safe_segment(s@),
{
    s.unicode_len() > 0 && !str_eq(s, ".") && !str_eq(s, "..") && !contains_char(s, ':')
}

/// Whether `entry` is non-empty, relative, not a URL and uses `/` separators.
pub fn has_relative_shape(entry: &str) -> (r: bool)
    ensures
        r == is_relative_shape(entry@),
{
    if entry.unicode_len() == 0 {
        return false;
    }
    let first = entry.get_char(0);
    !contains_char(entry, '\\') && !contains_str(entry, "://") && first != '/' && first != '\0'
        && !drive_rooted(entry)
}

/// Whether every segment in `segments` is safe.
pub fn segments_safe(segments: &Vec<String>) -> (r: bool)
    ensures
        r == all_segments_safe(views(segments@)),
{
    let n = segments.len();
    for i in 0..n
        invariant
            n == segments@.len(),
            forall|k: int| 0 <= k < i ==> is_safe_segment(#[trigger] views(segments@)[k]),
    {
        if !is_safe_path_segment(segments[i].as_str()) {
            assert(views(segments@)[i as int] == segments@[i as int]@);
            return false;
        }
        assert(views(segments@)[i as int] == segments@[i as int]@);
    }
    true
}

pub fn validate_relative_entry(entry: &str) -> (r: Result<(), EntryFault>)
    ensures
        match entry_fault(entry@) {
            None => r is Ok,
            Some(f) => r == Err::<(), EntryFault>(f),
        },
{
    if !has_relative_shape(entry) {
        return Err(EntryFault::NotRelative);
    }
    let segments = split_char(entry, '/');
    proof {
        lemma_split_nonempty(entry@, '/');
        assert(views(segments@) =~= split(entry@, '/'));
    }
    if !str_eq(segments[0].as_str(), "ExtensionUI") {
        return Err(EntryFault::OutsideExtensionUi);
    }
    if !segments_safe(&segments) {
        return Err(EntryFault::UnsafeSegment);
    }
    Ok(())
}

// ---------------------------------------------------------------------------
// Views
// ---------------------------------------------------------------------------

#[derive(Debug, Clone, Copy, PartialEq, Eq)]
pub enum HostViewErrorKind {
    MissingZone,
    InvalidZone,
    UnsupportedRenderer,
    HostRendererWithEntry,
    HtmlRendererWithoutEntry,
    UnsafeEntry(EntryFault),
    NonNamespacedZone,
    ForeignZoneNamespace,
    UndeclaredZone,
}

/// A refused view, anchor or zone reference.
#[derive(Debug, Clone, PartialEq)]
pub struct HostViewError {
    pub kind: HostViewErrorKind,
    /// The view id, or the anchor parent for anchor errors.
    pub subject: String,
    /// The offending zone or renderer, where there is one.
    pub detail: String,
    /// Whether the error is about a zone's anchor parent rather than a view.
    pub anchor_parent: bool,
}

/// The kind of error a view gets and the zone or renderer it names.
pub open spec fn view_fault(view: ViewRegistration) -> Option<(HostViewErrorKind, Seq<char>)> {
    match effective_zone(view) {
        None => Some((HostViewErrorKind::MissingZone, Seq::empty())),
        Some(zone) => {
            if !is_open_zone(zone) {
                Some((HostViewErrorKind::InvalidZone, zone))
            } else if !is_supported_renderer(view.renderer@) {
                Some((HostViewErrorKind::UnsupportedRenderer, view.renderer@))
            } else if view.renderer@ == "host:panel"@ {
                if view.entry is Some {
                    Some((HostViewErrorKind::HostRendererWithEntry, Seq::empty()))
                } else {
                    None
                }
            } else {
                match view.entry {
                    Some(e) if e@.len() > 0 => match entry_fault(e@) {
                        Some(f) => Some((HostViewErrorKind::UnsafeEntry(f), e@)),
                        None => None,
                    },
                    _ => Some((HostViewErrorKind::HtmlRendererWithoutEntry, Seq::empty())),
                }
            }
        },
    }
}

pub open spec fn view_result_matches(
    view: ViewRegistration,
    r: Result<(), HostViewError>,
) -> bool {
    match view_fault(view) {
        None => r is Ok,
        Some(f) => r matches Err(e) && e.kind == f.0 && e.detail@ == f.1 && e.subject@
            == view.id@ && !e.anchor_parent,
    }
}

fn view_error(kind: HostViewErrorKind, view: &ViewRegistration, detail: &str) -> (e:
    HostViewError)
    ensures
        e.kind == kind,
        e.subject@ == view.id@,
        e.detail@ == detail@,
        !e.anchor_parent,
{
    HostViewError { kind, subject: view.id.clone(), detail: owned(detail), anchor_parent: false }
}

/// Validates a view against the HostView contract.
pub fn validate_extension_view(view: &ViewRegistration) -> (r: Result<(), HostViewError>)
    ensures
        view_result_matches(*view, r),
{
    proof {
        reveal_strlit("");
        assert(""@ =~= Seq::<char>::empty());
    }
    let zone = match effective_view_zone(view) {
        None => return Err(view_error(HostViewErrorKind::MissingZone, view, "")),
        Some(zone) => zone,
    };
    if !is_open_extension_view_zone(zone) {
        return Err(view_error(HostViewErrorKind::InvalidZone, view, zone));
    }
    if !is_supported_extension_view_renderer(view.renderer.as_str()) {
        return Err(view_error(HostViewErrorKind::UnsupportedRenderer, view, view.renderer.as_str()));
    }
    if str_eq(view.renderer.as_str(), "host:panel") {
        if view.entry.is_some() {
            return Err(view_error(HostViewErrorKind::HostRendererWithEntry, view, ""));
        }
        return Ok(());
    }
    match &view.entry {
        Some(entry) if entry.as_str().unicode_len() > 0 => {
            match validate_relative_entry(entry.as_str()) {
                Ok(()) => Ok(()),
                Err(fault) => Err(
                    view_error(HostViewErrorKind::UnsafeEntry(fault), view, entry.as_str()),
                ),
            }
        },
        _ => Err(view_error(HostViewErrorKind::HtmlRendererWithoutEntry, view, "")),
    }
}

/// A zone that starts and ends with a non-blank character is its own trim.
proof fn lemma_trim_plain(z: Seq<char>)
    requires
        z.len() > 0,
        !is_whitespace(z[0]),
        !is_whitespace(z[z.len() - 1]),
    ensures
        trim(z) == z,
{
    lemma_trim_bounds(z, 0, z.len() as int);
    assert(z.subrange(0, z.len() as int) =~= z);
}

/// The five builtin zones are open to every view and every extension: a
/// `host:panel` view without an entry whose zone is `rightWorkspace`,
/// `chatAside`, `bottomDrawer`, `settingsSection` or `dialog` is valid,
/// and needs no declared zone whatever the extension declares.
pub proof fn law_builtin_zones_accepted(view: ViewRegistration, extension_id: Seq<char>, declared: Seq<Seq<char>>)
    requires
        view.zone matches Some(z) && (z@ == "rightWorkspace"@ || z@ == "chatAside"@ || z@ == "bottomDrawer"@ || z@
            == "settingsSection"@ || z@ == "dialog"@),
        view.renderer@ == "host:panel"@,
        view.entry is None,
    ensures
        view_fault(view) is None,
        declared_zone_fault(view, extension_id, declared) is None,
{
    reveal_strlit("rightWorkspace");
    reveal_strlit("chatAside");
    reveal_strlit("bottomDrawer");
    reveal_strlit("settingsSection");
    reveal_strlit("dialog");
    reveal_strlit("host:panel");
    let z = view.zone->Some_0@;
    assert(z.len() > 0);
    lemma_trim_plain(z);
    assert(effective_zone(view) == Some(z));
    assert(is_builtin_zone(z));
}

/// The zone-namespace fault of a valid view, given the extension and its declared zones.
pub open spec fn declared_zone_fault(
    view: ViewRegistration,
    extension_id: Seq<char>,
    declared: Seq<Seq<char>>,
) -> Option<HostViewErrorKind> {
    match effective_zone(view) {
        None => None,
        Some(zone) => if is_builtin_zone(zone) {
            None
        } else {
            match split_once(zone, ':') {
                None => Some(HostViewErrorKind::NonNamespacedZone),
                Some(parts) => if parts.0 != extension_id {
                    Some(HostViewErrorKind::ForeignZoneNamespace)
                } else if !declared.contains(parts.1) {
                    Some(HostViewErrorKind::UndeclaredZone)
                } else {
                    None
                },
            }
        },
    }
}

/// Validates a view and, for a namespaced zone, that it is one of this
/// extension's declared zones.
pub fn validate_extension_view_with_declared_zones(
    view: &ViewRegistration,
    extension_id: &str,
    declared_zone_ids: &Vec<String>,
) -> (r: Result<(), HostViewError>)
    ensures
        view_fault(*view) is Some ==> view_result_matches(*view, r),
        view_fault(*view) is None ==> match declared_zone_fault(
            *view,
            extension_id@,
            views(declared_zone_ids@),
        ) {
            None => r is Ok,
            Some(k) => r matches Err(e) && e.kind == k && e.subject@ == view.id@ && e.detail@
                == effective_zone(*view)->0 && !e.anchor_parent,
        },
{
    validate_extension_view(view)?;
    let zone = match effective_view_zone(view) {
        None => return Ok(()),
        Some(zone) => zone,
    };
    if is_builtin_extension_view_zone(zone) {
        return Ok(());
    }
    match split_once_char(zone, ':') {
        None => Err(view_error(HostViewErrorKind::NonNamespacedZone, view, zone)),
        Some((owner, zone_id)) => {
            if !str_eq(owner.as_str(), extension_id) {
                Err(view_error(HostViewErrorKind::ForeignZoneNamespace, view, zone))
            } else if !contains_text(declared_zone_ids, zone_id.as_str()) {
                Err(view_error(HostViewErrorKind::UndeclaredZone, view, zone))
            } else {
                Ok(())
            }
        },
    }
}

/// The fault of a zone anchor parent, if any.
pub open spec fn anchor_parent_fault(
    parent: Seq<char>,
    extension_id: Seq<char>,
    declared: Seq<Seq<char>>,
) -> Option<HostViewErrorKind> {
    let p = trim(parent);
    if p.len() == 0 {
        Some(HostViewErrorKind::MissingZone)
    } else if is_builtin_zone(p) {
        None
    } else {
        match split_once(p, ':') {
            None => Some(HostViewErrorKind::NonNamespacedZone),
            Some(parts) => if parts.0 != extension_id {
                Some(HostViewErrorKind::ForeignZoneNamespace)
            } else if !declared.contains(parts.1) {
                Some(HostViewErrorKind::UndeclaredZone)
            } else {
                None
            },
        }
    }
}

/// Validates the parent an extension zone anchors to: a builtin zone, or one
/// of this extension's declared zones as `{extensionId}:{zoneId}`.
pub fn validate_extension_zone_anchor_parent(
    parent: &str,
    extension_id: &str,
    declared_zone_ids: &Vec<String>,
) -> (r: Result<(), HostViewError>)
    ensures
        match anchor_parent_fault(parent@, extension_id@, views(declared_zone_ids@)) {
            None => r is Ok,
            Some(k) => r matches Err(e) && e.kind == k && e.subject@ == trim(parent@)
                && e.detail@ == Seq::<char>::empty() && e.anchor_parent,
        },
{
    let p = trim_str(parent);
    if p.as_str().unicode_len() == 0 {
        return Err(HostViewError { kind: HostViewErrorKind::MissingZone, subject: p, detail: String::new(), anchor_parent: true });
    }
    if is_builtin_extension_view_zone(p.as_str()) {
        return Ok(());
    }
    match split_once_char(p.as_str(), ':') {
        None => Err(
            HostViewError {
                kind: HostViewErrorKind::NonNamespacedZone,
                subject: p,
                detail: String::new(),
                anchor_parent: true,
            },
        ),
        Some((owner, zone_id)) => {
            if !str_eq(owner.as_str(), extension_id) {
                Err(
                    HostViewError {
                        kind: HostViewErrorKind::ForeignZoneNamespace,
                        subject: p,
                        detail: String::new(),
                        anchor_parent: true,
                    },
                )
            } else if !contains_text(declared_zone_ids, zone_id.as_str()) {
                Err(
                    HostViewError {
                        kind: HostViewErrorKind::UndeclaredZone,
                        subject: p,
                        detail: String::new(),
                        anchor_parent: true,
                    },
                )
            } else {
                Ok(())
            }
        },
    }
}

impl EntryFault {
    /// The description of the fault, as a value.
    pub open spec fn text(&self) -> Seq<char> {
        match self {
            EntryFault::NotRelative => "entry must be a relative path using '/' separators"@,
            EntryFault::OutsideExtensionUi => "entry must be located below the ExtensionUI directory"@,
            EntryFault::UnsafeSegment => "entry contains an unsafe path segment"@,
        }
    }

    pub fn message(&self) -> (r: &'static str)
        ensures
            r@ == self.text(),
    {
        match self {
            EntryFault::NotRelative => "entry must be a relative path using '/' separators",
            EntryFault::OutsideExtensionUi => "entry must be located below the ExtensionUI directory",
            EntryFault::UnsafeSegment => "entry contains an unsafe path segment",
        }
    }
}

impl HostViewError {
    /// The description of the error, as a value.
    pub open spec fn text(&self) -> Seq<char> {
        let s = self.subject@;
        let d = self.detail@;
        if self.anchor_parent {
            match self.kind {
                HostViewErrorKind::MissingZone => "anchor parent must not be empty"@,
                HostViewErrorKind::NonNamespacedZone => "anchor parent '"@ + s
                    + "' must be a builtin zone or '{extId}:{zoneId}'"@,
                HostViewErrorKind::ForeignZoneNamespace => "anchor parent '"@ + s
                    + "' must reference this extension's zone namespace"@,
                _ => "anchor parent '"@ + s + "' references undeclared zone"@,
            }
        } else {
            match self.kind {
                HostViewErrorKind::MissingZone => "View '"@ + s + "' must declare a zone"@,
                HostViewErrorKind::InvalidZone => "View '"@ + s + "' uses invalid zone '"@ + d + "'"@,
                HostViewErrorKind::UnsupportedRenderer => "View '"@ + s + "' uses unsupported renderer '"@ + d + "'"@,
                HostViewErrorKind::HostRendererWithEntry => "View '"@ + s + "' host renderer must not declare entry"@,
                HostViewErrorKind::HtmlRendererWithoutEntry => "View '"@ + s + "' HTML renderer requires entry"@,
                HostViewErrorKind::UnsafeEntry(f) => "View '"@ + s + "': "@ + f.text(),
                HostViewErrorKind::NonNamespacedZone => "View '"@ + s + "' uses non-namespaced extension zone '"@ + d
                    + "'"@,
                HostViewErrorKind::ForeignZoneNamespace => "View '"@ + s + "' zone '"@ + d
                    + "' must reference this extension's zone namespace"@,
                HostViewErrorKind::UndeclaredZone => "View '"@ + s + "' references undeclared zone '"@ + d + "'"@,
            }
        }
    }

    /// A human-readable description of the error.
    pub fn to_string(&self) -> (r: String)
        ensures
            r@ == self.text(),
    {
        let s = self.subject.as_str();
        let d = self.detail.as_str();
        if self.anchor_parent {
            return match self.kind {
                HostViewErrorKind::MissingZone => owned("anchor parent must not be empty"),
                HostViewErrorKind::NonNamespacedZone => concat3(
                    "anchor parent '",
                    s,
                    "' must be a builtin zone or '{extId}:{zoneId}'",
                ),
                HostViewErrorKind::ForeignZoneNamespace => concat3(
                    "anchor parent '",
                    s,
                    "' must reference this extension's zone namespace",
                ),
                _ => concat3("anchor parent '", s, "' references undeclared zone"),
            };
        }
        match self.kind {
            HostViewErrorKind::MissingZone => concat3("View '", s, "' must declare a zone"),
            HostViewErrorKind::InvalidZone => concat5("View '", s, "' uses invalid zone '", d, "'"),
            HostViewErrorKind::UnsupportedRenderer => concat5(
                "View '",
                s,
                "' uses unsupported renderer '",
                d,
                "'",
            ),
            HostViewErrorKind::HostRendererWithEntry => concat3(
                "View '",
                s,
                "' host renderer must not declare entry",
            ),
            HostViewErrorKind::HtmlRendererWithoutEntry => concat3(
                "View '",
                s,
                "' HTML renderer requires entry",
            ),
            HostViewErrorKind::UnsafeEntry(f) => concat3("View '", s, "': ").concat(f.message()),
            HostViewErrorKind::NonNamespacedZone => concat5(
                "View '",
                s,
                "' uses non-namespaced extension zone '",
                d,
                "'",
            ),
            HostViewErrorKind::ForeignZoneNamespace => concat5(
                "View '",
                s,
                "' zone '",
                d,
                "' must reference this extension's zone namespace",
            ),
            HostViewErrorKind::UndeclaredZone => concat5(
                "View '",
                s,
                "' references undeclared zone '",
                d,
                "'",
            ),
        }
    }
}

} // verus!
