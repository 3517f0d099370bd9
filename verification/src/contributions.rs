//! The registrar of declarative UI contributions: the views, commands, menus,
//! keybindings and zones an enabled extension contributes, checked as one
//! unit and registered or refused as one unit.

use vstd::prelude::*;
use vstd::string::*;

use crate::duplicate::Duplicate;
use crate::host_view::{
    anchor_parent_fault, declared_zone_fault, effective_zone, validate_extension_view_with_declared_zones,
    validate_extension_zone_anchor_parent, view_fault, HostViewError, HostViewErrorKind,
};
use crate::models::{
    BuiltinAction, CommandRegistration, ExtensionContributes, InlineExtensionRegistration,
    KeybindingRegistration, MenuRegistration, ScriptRegistration, StatusBarItemRegistration,
    ToolbarItemRegistration, ViewRegistration, WorkModeRegistration, ZoneRegistration,
};
use crate::seqs::{
    contains_text, find_first_duplicate, first_duplicate, first_error, indices,
    lemma_first_error_ends, lemma_first_error_hit, lemma_first_error_step, push_view, views,
};
use crate::text::{
    any_char_in, concat, contains_char, concat3, concat4, concat5, is_blank, owned, split_once, split_once_char,
    str_eq, trim, trim_str, CharClass,
};

verus! {

// ---------------------------------------------------------------------------
// Registration
// ---------------------------------------------------------------------------

/// The UI contributions of one extension, as registered.
#[derive(Debug, Clone, PartialEq)]
pub struct UiContributionRegistration {
    pub extension_id: String,
    pub views: Vec<ViewRegistration>,
    pub commands: Vec<CommandRegistration>,
    pub menus: Vec<MenuRegistration>,
    pub keybindings: Vec<KeybindingRegistration>,
    pub work_modes: Vec<WorkModeRegistration>,
    pub zones: Vec<ZoneRegistration>,
    pub scripts: Vec<ScriptRegistration>,
    pub toolbar_items: Vec<ToolbarItemRegistration>,
    pub statusbar_items: Vec<StatusBarItemRegistration>,
    pub inline_extensions: Vec<InlineExtensionRegistration>,
    /// The configuration JSON schema, as JSON text.
    pub configuration: Option<String>,
}

impl UiContributionRegistration {
    pub open spec fn spec_is_empty(&self) -> bool {
        &&& self.views@.len() == 0
        &&& self.commands@.len() == 0
        &&& self.menus@.len() == 0
        &&& self.keybindings@.len() == 0
        &&& self.work_modes@.len() == 0
        &&& self.zones@.len() == 0
        &&& self.scripts@.len() == 0
        &&& self.toolbar_items@.len() == 0
        &&& self.statusbar_items@.len() == 0
        &&& self.inline_extensions@.len() == 0
        &&& self.configuration is None
    }

    /// Whether nothing is contributed.
    pub fn is_empty(&self) -> (r: bool)
        ensures
            r == self.spec_is_empty(),
    {
        self.views.len() == 0 && self.commands.len() == 0 && self.menus.len() == 0
            && self.keybindings.len() == 0 && self.work_modes.len() == 0 && self.zones.len() == 0
            && self.scripts.len() == 0 && self.toolbar_items.len() == 0
            && self.statusbar_items.len() == 0 && self.inline_extensions.len() == 0
            && self.configuration.is_none()
    }

    /// `self` holds what `other` holds.
    pub open spec fn copy_of(&self, other: &Self) -> bool {
        &&& self.extension_id == other.extension_id
        &&& self.views.copy_of(&other.views)
        &&& self.commands.copy_of(&other.commands)
        &&& self.menus.copy_of(&other.menus)
        &&& self.keybindings.copy_of(&other.keybindings)
        &&& self.work_modes.copy_of(&other.work_modes)
        &&& self.zones.copy_of(&other.zones)
        &&& self.scripts.copy_of(&other.scripts)
        &&& self.toolbar_items.copy_of(&other.toolbar_items)
        &&& self.statusbar_items.copy_of(&other.statusbar_items)
        &&& self.inline_extensions.copy_of(&other.inline_extensions)
        &&& self.configuration == other.configuration
    }

    pub fn duplicate(&self) -> (r: Self)
        ensures
            r.copy_of(self),
    {
        UiContributionRegistration {
            extension_id: self.extension_id.clone(),
            views: self.views.duplicate(),
            commands: self.commands.duplicate(),
            menus: self.menus.duplicate(),
            keybindings: self.keybindings.duplicate(),
            work_modes: self.work_modes.duplicate(),
            zones: self.zones.duplicate(),
            scripts: self.scripts.duplicate(),
            toolbar_items: self.toolbar_items.duplicate(),
            statusbar_items: self.statusbar_items.duplicate(),
            inline_extensions: self.inline_extensions.duplicate(),
            configuration: crate::seqs::clone_opt(&self.configuration),
        }
    }
}

/// A declared list, or nothing declared.
fn listed<T: Duplicate>(o: &Option<Vec<T>>) -> (r: Vec<T>)
    ensures
        match o {
            Some(v) => r.copy_of(v),
            None => r@.len() == 0,
        },
{
    match o {
        Some(v) => v.duplicate(),
        None => Vec::new(),
    }
}

pub open spec fn listed_copy<T: Duplicate>(r: Vec<T>, o: Option<Vec<T>>) -> bool {
    match o {
        Some(v) => r.copy_of(&v),
        None => r@.len() == 0,
    }
}

/// `r` is the registration `extension_id`'s contributions `c` make.
pub open spec fn normalizes(r: UiContributionRegistration, extension_id: Seq<char>, c: ExtensionContributes) -> bool {
    &&& r.extension_id@ == extension_id
    &&& listed_copy(r.views, c.views)
    &&& listed_copy(r.commands, c.commands)
    &&& listed_copy(r.menus, c.menus)
    &&& listed_copy(r.keybindings, c.keybindings)
    &&& listed_copy(r.work_modes, c.work_modes)
    &&& listed_copy(r.zones, c.zones)
    &&& listed_copy(r.scripts, c.scripts)
    &&& listed_copy(r.toolbar_items, c.toolbar_items)
    &&& listed_copy(r.statusbar_items, c.statusbar_items)
    &&& listed_copy(r.inline_extensions, c.inline_extensions)
    &&& r.configuration == c.configuration
}

/// The registration an extension's contributions make: each list as
/// declared, or empty when not declared.
pub fn normalize_registration(extension_id: &str, contributes: &ExtensionContributes) -> (r:
    UiContributionRegistration)
    ensures
        normalizes(r, extension_id@, *contributes),
        r.extension_id@ == extension_id@,
        listed_copy(r.views, contributes.views),
        listed_copy(r.commands, contributes.commands),
        listed_copy(r.menus, contributes.menus),
        listed_copy(r.keybindings, contributes.keybindings),
        listed_copy(r.work_modes, contributes.work_modes),
        listed_copy(r.zones, contributes.zones),
        listed_copy(r.scripts, contributes.scripts),
        listed_copy(r.toolbar_items, contributes.toolbar_items),
        listed_copy(r.statusbar_items, contributes.statusbar_items),
        listed_copy(r.inline_extensions, contributes.inline_extensions),
        r.configuration == contributes.configuration,
{
    UiContributionRegistration {
        extension_id: owned(extension_id),
        views: listed(&contributes.views),
        commands: listed(&contributes.commands),
        menus: listed(&contributes.menus),
        keybindings: listed(&contributes.keybindings),
        work_modes: listed(&contributes.work_modes),
        zones: listed(&contributes.zones),
        scripts: listed(&contributes.scripts),
        toolbar_items: listed(&contributes.toolbar_items),
        statusbar_items: listed(&contributes.statusbar_items),
        inline_extensions: listed(&contributes.inline_extensions),
        configuration: crate::seqs::clone_opt(&contributes.configuration),
    }
}

// ---------------------------------------------------------------------------
// Errors
// ---------------------------------------------------------------------------

/// Which list a duplicated or empty id belongs to.
#[derive(Debug, Clone, Copy, PartialEq, Eq)]
pub enum UiIdKind {
    Zone,
    View,
    Command,
    Menu,
}

/// What is wrong with a configuration schema.
#[derive(Debug, Clone, Copy, PartialEq, Eq)]
pub enum SchemaFault {
    NotObject,
    MissingType,
    InvalidType,
    PropertiesNotObject,
    ItemsNotObject,
}

#[derive(Debug, Clone, Copy, PartialEq, Eq)]
pub enum ContributionErrorKind {
    EmptyExtensionId,
    DuplicateId(UiIdKind),
    EmptyId(UiIdKind),
    ZoneAnchor,
    View,
    MissingView,
    EmptyScript,
    EmptyMessageTarget,
    InvalidMenuTarget,
    MissingCommand,
    EmptyKeybindingKey,
    KeybindingMissingCommand,
    DuplicateKeybinding,
    Configuration(SchemaFault),
    AlreadyRegistered,
}

/// A refused UI contribution: what is wrong, the id it concerns, a second
/// value where the message names one, and the HostView error behind a view
/// or zone refusal.
#[derive(Debug, Clone, PartialEq)]
pub struct ContributionError {
    pub kind: ContributionErrorKind,
    pub subject: String,
    pub detail: String,
    pub cause: Option<HostViewError>,
}

/// A HostView error as a value.
pub type HostViewFault = (HostViewErrorKind, Seq<char>, Seq<char>, bool);

pub open spec fn host_view_fault(e: HostViewError) -> HostViewFault {
    (e.kind, e.subject@, e.detail@, e.anchor_parent)
}

pub type UiFault = (ContributionErrorKind, Seq<char>, Seq<char>, Option<HostViewFault>);

pub open spec fn ui_fault(kind: ContributionErrorKind, subject: Seq<char>, detail: Seq<char>) -> UiFault {
    (kind, subject, detail, None)
}

impl ContributionError {
    pub open spec fn fault(&self) -> UiFault {
        (self.kind, self.subject@, self.detail@, match self.cause {
            Some(c) => Some(host_view_fault(c)),
            None => None,
        })
    }

    /// The description of the error, as a value.
    pub open spec fn text(&self) -> Seq<char> {
        let s = self.subject@;
        let d = self.detail@;
        let cause = match self.cause {
            Some(c) => c.text(),
            None => Seq::empty(),
        };
        match self.kind {
            ContributionErrorKind::EmptyExtensionId => "Extension ID must not be empty"@,
            ContributionErrorKind::DuplicateId(k) => "Duplicate "@ + id_kind_text(k) + " ID '"@ + s + "'"@,
            ContributionErrorKind::EmptyId(UiIdKind::Zone) => "Zone ID is empty"@,
            ContributionErrorKind::EmptyId(UiIdKind::View) => "View ID is empty"@,
            ContributionErrorKind::EmptyId(UiIdKind::Command) => "Command ID is empty"@,
            ContributionErrorKind::EmptyId(UiIdKind::Menu) => "Menu ID is empty"@,
            ContributionErrorKind::ZoneAnchor => "Zone '"@ + s + "' has an invalid anchor parent: "@ + cause,
            ContributionErrorKind::View => "View '"@ + s + "' uses an unsupported HostView contract: "@ + cause,
            ContributionErrorKind::MissingView => "Command '"@ + s + "' references non-existent view '"@ + d + "'"@,
            ContributionErrorKind::EmptyScript => "Command '"@ + s + "' references an empty script"@,
            ContributionErrorKind::EmptyMessageTarget => "Command '"@ + s + "' references an empty message target"@,
            ContributionErrorKind::InvalidMenuTarget => "Menu '"@ + s + "' uses invalid target '"@ + d + "'"@,
            ContributionErrorKind::MissingCommand => "Menu '"@ + s + "' references non-existent command '"@ + d + "'"@,
            ContributionErrorKind::EmptyKeybindingKey => "Keybinding key must not be empty"@,
            ContributionErrorKind::KeybindingMissingCommand => "Keybinding key '"@ + s
                + "' references non-existent command '"@ + d + "'"@,
            ContributionErrorKind::DuplicateKeybinding => "Duplicate keybinding '"@ + s + "' for command '"@ + d
                + "'"@,
            ContributionErrorKind::Configuration(f) => "Invalid configuration schema: "@ + schema_text(f, d),
            ContributionErrorKind::AlreadyRegistered => "Extension '"@ + s
                + "' UI contributions are already registered"@,
        }
    }

    pub fn to_string(&self) -> (r: String)
        ensures
            r@ == self.text(),
    {
        let s = self.subject.as_str();
        let d = self.detail.as_str();
        match self.kind {
            ContributionErrorKind::EmptyExtensionId => owned("Extension ID must not be empty"),
            ContributionErrorKind::DuplicateId(k) => concat5("Duplicate ", id_kind_name(k), " ID '", s, "'"),
            ContributionErrorKind::EmptyId(UiIdKind::Zone) => owned("Zone ID is empty"),
            ContributionErrorKind::EmptyId(UiIdKind::View) => owned("View ID is empty"),
            ContributionErrorKind::EmptyId(UiIdKind::Command) => owned("Command ID is empty"),
            ContributionErrorKind::EmptyId(UiIdKind::Menu) => owned("Menu ID is empty"),
            ContributionErrorKind::ZoneAnchor => {
                let cause = match &self.cause {
                    Some(c) => c.to_string(),
                    None => String::new(),
                };
                concat4("Zone '", s, "' has an invalid anchor parent: ", cause.as_str())
            },
            ContributionErrorKind::View => {
                let cause = match &self.cause {
                    Some(c) => c.to_string(),
                    None => String::new(),
                };
                concat4("View '", s, "' uses an unsupported HostView contract: ", cause.as_str())
            },
            ContributionErrorKind::MissingView => concat5(
                "Command '",
                s,
                "' references non-existent view '",
                d,
                "'",
            ),
            ContributionErrorKind::EmptyScript => concat3("Command '", s, "' references an empty script"),
            ContributionErrorKind::EmptyMessageTarget => concat3(
                "Command '",
                s,
                "' references an empty message target",
            ),
            ContributionErrorKind::InvalidMenuTarget => concat5("Menu '", s, "' uses invalid target '", d, "'"),
            ContributionErrorKind::MissingCommand => concat5(
                "Menu '",
                s,
                "' references non-existent command '",
                d,
                "'",
            ),
            ContributionErrorKind::EmptyKeybindingKey => owned("Keybinding key must not be empty"),
            ContributionErrorKind::KeybindingMissingCommand => concat5(
                "Keybinding key '",
                s,
                "' references non-existent command '",
                d,
                "'",
            ),
            ContributionErrorKind::DuplicateKeybinding => concat5(
                "Duplicate keybinding '",
                s,
                "' for command '",
                d,
                "'",
            ),
            ContributionErrorKind::Configuration(f) => concat(
                "Invalid configuration schema: ",
                schema_message(f, d).as_str(),
            ),
            ContributionErrorKind::AlreadyRegistered => concat3(
                "Extension '",
                s,
                "' UI contributions are already registered",
            ),
        }
    }
}

/// The name a kind of UI id is given in messages.
pub open spec fn id_kind_text(k: UiIdKind) -> Seq<char> {
    match k {
        UiIdKind::Zone => "zone"@,
        UiIdKind::View => "view"@,
        UiIdKind::Command => "command"@,
        UiIdKind::Menu => "menu"@,
    }
}

/// The description of a refused configuration schema.
pub open spec fn schema_text(f: SchemaFault, schema_type: Seq<char>) -> Seq<char> {
    match f {
        SchemaFault::NotObject => "configuration must be a JSON object schema"@,
        SchemaFault::MissingType => "configuration schema must declare a 'type'"@,
        SchemaFault::InvalidType => "configuration schema type '"@ + schema_type + "' is not a valid JSON Schema type"@,
        SchemaFault::PropertiesNotObject => "configuration schema 'properties' must be an object"@,
        SchemaFault::ItemsNotObject => "configuration schema 'items' must be an object"@,
    }
}

fn id_kind_name(k: UiIdKind) -> (r: &'static str)
    ensures
        r@ == id_kind_text(k),
{
    match k {
        UiIdKind::Zone => "zone",
        UiIdKind::View => "view",
        UiIdKind::Command => "command",
        UiIdKind::Menu => "menu",
    }
}

fn schema_message(f: SchemaFault, schema_type: &str) -> (r: String)
    ensures
        r@ == schema_text(f, schema_type@),
{
    match f {
        SchemaFault::NotObject => owned("configuration must be a JSON object schema"),
        SchemaFault::MissingType => owned("configuration schema must declare a 'type'"),
        SchemaFault::InvalidType => concat3(
            "configuration schema type '",
            schema_type,
            "' is not a valid JSON Schema type",
        ),
        SchemaFault::PropertiesNotObject => owned("configuration schema 'properties' must be an object"),
        SchemaFault::ItemsNotObject => owned("configuration schema 'items' must be an object"),
    }
}

fn uerr(kind: ContributionErrorKind, subject: &str, detail: &str) -> (e: ContributionError)
    ensures
        e.fault() == ui_fault(kind, subject@, detail@),
{
    ContributionError { kind, subject: owned(subject), detail: owned(detail), cause: None }
}

fn uerr1(kind: ContributionErrorKind, subject: &str) -> (e: ContributionError)
    ensures
        e.fault() == ui_fault(kind, subject@, Seq::empty()),
{
    let e = ContributionError { kind, subject: owned(subject), detail: String::new(), cause: None };
    assert(e.detail@ =~= Seq::<char>::empty());
    e
}

fn uerr0(kind: ContributionErrorKind) -> (e: ContributionError)
    ensures
        e.fault() == ui_fault(kind, Seq::empty(), Seq::empty()),
{
    let e = ContributionError { kind, subject: String::new(), detail: String::new(), cause: None };
    assert(e.subject@ =~= Seq::<char>::empty());
    assert(e.detail@ =~= Seq::<char>::empty());
    e
}

pub open spec fn unit_result(r: Result<(), ContributionError>, expected: Option<UiFault>) -> bool {
    match expected {
        None => r is Ok,
        Some(f) => r matches Err(e) && e.fault() == f,
    }
}

// ---------------------------------------------------------------------------
// Ids
// ---------------------------------------------------------------------------

/// The first id of `ids` that repeats an earlier one, as an error.
pub open spec fn unique_ids_fault(kind: UiIdKind, ids: Seq<Seq<char>>) -> Option<UiFault> {
    match first_duplicate(ids) {
        Some(i) => Some(ui_fault(ContributionErrorKind::DuplicateId(kind), ids[i], Seq::empty())),
        None => None,
    }
}

pub fn validate_unique_ids(kind: UiIdKind, ids: &Vec<String>) -> (r: Result<(), ContributionError>)
    ensures
        unit_result(r, unique_ids_fault(kind, views(ids@))),
{
    match find_first_duplicate(ids) {
        Some(i) => {
            proof {
                assert(views(ids@)[i as int] == ids@[i as int]@);
            }
            Err(uerr1(ContributionErrorKind::DuplicateId(kind), ids[i].as_str()))
        },
        None => Ok(()),
    }
}

pub open spec fn zone_ids(s: Seq<ZoneRegistration>) -> Seq<Seq<char>> {
    s.map_values(|z: ZoneRegistration| z.id@)
}

pub open spec fn view_ids(s: Seq<ViewRegistration>) -> Seq<Seq<char>> {
    s.map_values(|v: ViewRegistration| v.id@)
}

pub open spec fn command_ids(s: Seq<CommandRegistration>) -> Seq<Seq<char>> {
    s.map_values(|c: CommandRegistration| c.id@)
}

pub open spec fn menu_ids(s: Seq<MenuRegistration>) -> Seq<Seq<char>> {
    s.map_values(|m: MenuRegistration| m.id@)
}

fn collect_zone_ids(s: &Vec<ZoneRegistration>) -> (r: Vec<String>)
    ensures
        views(r@) == zone_ids(s@),
{
    let mut out: Vec<String> = Vec::new();
    let n = s.len();
    for i in 0..n
        invariant
            n == s@.len(),
            views(out@) == zone_ids(s@).subrange(0, i as int),
    {
        push_view(&mut out, s[i].id.as_str());
        proof {
            assert(zone_ids(s@).subrange(0, i + 1) =~= zone_ids(s@).subrange(0, i as int).push(s@[i as int].id@));
        }
    }
    proof {
        assert(zone_ids(s@).subrange(0, n as int) =~= zone_ids(s@));
    }
    out
}

fn collect_view_ids(s: &Vec<ViewRegistration>) -> (r: Vec<String>)
    ensures
        views(r@) == view_ids(s@),
{
    let mut out: Vec<String> = Vec::new();
    let n = s.len();
    for i in 0..n
        invariant
            n == s@.len(),
            views(out@) == view_ids(s@).subrange(0, i as int),
    {
        push_view(&mut out, s[i].id.as_str());
        proof {
            assert(view_ids(s@).subrange(0, i + 1) =~= view_ids(s@).subrange(0, i as int).push(s@[i as int].id@));
        }
    }
    proof {
        assert(view_ids(s@).subrange(0, n as int) =~= view_ids(s@));
    }
    out
}

fn collect_command_ids(s: &Vec<CommandRegistration>) -> (r: Vec<String>)
    ensures
        views(r@) == command_ids(s@),
{
    let mut out: Vec<String> = Vec::new();
    let n = s.len();
    for i in 0..n
        invariant
            n == s@.len(),
            views(out@) == command_ids(s@).subrange(0, i as int),
    {
        push_view(&mut out, s[i].id.as_str());
        proof {
            assert(command_ids(s@).subrange(0, i + 1) =~= command_ids(s@).subrange(0, i as int).push(s@[i as int].id@));
        }
    }
    proof {
        assert(command_ids(s@).subrange(0, n as int) =~= command_ids(s@));
    }
    out
}

fn collect_menu_ids(s: &Vec<MenuRegistration>) -> (r: Vec<String>)
    ensures
        views(r@) == menu_ids(s@),
{
    let mut out: Vec<String> = Vec::new();
    let n = s.len();
    for i in 0..n
        invariant
            n == s@.len(),
            views(out@) == menu_ids(s@).subrange(0, i as int),
    {
        push_view(&mut out, s[i].id.as_str());
        proof {
            assert(menu_ids(s@).subrange(0, i + 1) =~= menu_ids(s@).subrange(0, i as int).push(s@[i as int].id@));
        }
    }
    proof {
        assert(menu_ids(s@).subrange(0, n as int) =~= menu_ids(s@));
    }
    out
}

// ---------------------------------------------------------------------------
// Menu targets
// ---------------------------------------------------------------------------

pub open spec fn is_builtin_target(t: Seq<char>) -> bool {
    t == "Tools"@ || t == "InputPlus"@ || t == "ChatTitle"@ || t == "RightPanel"@ || t == "Gateway"@
        || t == "WorktreeContext"@ || t == "SessionContext"@
}

pub fn is_builtin_menu_target(target: &str) -> (r: bool)
    ensures
        r == is_builtin_target(target@),
{
    str_eq(target, "Tools") || str_eq(target, "InputPlus") || str_eq(target, "ChatTitle") || str_eq(
        target,
        "RightPanel",
    ) || str_eq(target, "Gateway") || str_eq(target, "WorktreeContext") || str_eq(
        target,
        "SessionContext",
    )
}

pub open spec fn has_whitespace(s: Seq<char>) -> bool {
    exists|i: int| 0 <= i < s.len() && #[trigger] crate::text::is_whitespace(s[i])
}

/// A menu goes to a builtin target or to `{owner}:{local}`, both parts
/// non-empty and free of whitespace; the target is trimmed first.
pub open spec fn is_valid_target(target: Seq<char>) -> bool {
    let t = trim(target);
    is_builtin_target(t) || match split_once(t, ':') {
        Some(parts) => parts.0.len() > 0 && parts.1.len() > 0 && !has_whitespace(parts.0)
            && !has_whitespace(parts.1),
        None => false,
    }
}

fn no_whitespace(s: &str) -> (r: bool)
    ensures
        r == !has_whitespace(s@),
{
    let any = any_char_in(s, CharClass::Whitespace);
    proof {
        if any {
            let i = choose|i: int| 0 <= i < s@.len() && #[trigger] crate::text::in_class(CharClass::Whitespace, s@[i]);
            assert(crate::text::is_whitespace(s@[i]));
        }
        if has_whitespace(s@) {
            let i = choose|i: int| 0 <= i < s@.len() && #[trigger] crate::text::is_whitespace(s@[i]);
            assert(crate::text::in_class(CharClass::Whitespace, s@[i]));
        }
    }
    !any
}

pub fn is_valid_menu_target(target: &str) -> (r: bool)
    ensures
        r == is_valid_target(target@),
{
    let t = trim_str(target);
    if is_builtin_menu_target(t.as_str()) {
        return true;
    }
    match split_once_char(t.as_str(), ':') {
        Some((owner, local)) => owner.as_str().unicode_len() > 0 && local.as_str().unicode_len() > 0
            && no_whitespace(owner.as_str()) && no_whitespace(local.as_str()),
        None => false,
    }
}

// ---------------------------------------------------------------------------
// Configuration schema
// ---------------------------------------------------------------------------

/// How a schema member is present.
#[derive(Debug, Clone, Copy, PartialEq, Eq)]
pub enum FieldShape {
    Absent,
    Object,
    Other,
}

/// What the configuration check reads of a JSON schema document.
#[derive(Debug, Clone, PartialEq)]
pub struct SchemaShape {
    pub is_object: bool,
    /// The `type` member, when it is a string.
    pub schema_type: Option<String>,
    pub properties: FieldShape,
    pub items: FieldShape,
}

pub open spec fn shape_view(s: SchemaShape) -> (bool, Option<Seq<char>>, FieldShape, FieldShape) {
    (s.is_object, match s.schema_type {
        Some(t) => Some(t@),
        None => None,
    }, s.properties, s.items)
}

/// What a JSON document holds where the configuration check looks: whether
/// it is an object, its `type` string, and how `properties` and `items` are
/// present.
pub uninterp spec fn json_schema_shape(json: Seq<char>) -> (bool, Option<Seq<char>>, FieldShape, FieldShape);

/// Reads the shape of a JSON schema document.
///
/// Calls `serde_json::from_str` into a `serde_json::Value` (text that does
/// not parse reads as `null`), then `Value::is_object`, `Value::get` and
/// `Value::as_str`. Its result is named by `json_schema_shape`.
#[verifier::external_body]
fn read_schema_shape(json: &str) -> (r: SchemaShape)
    ensures
        shape_view(r) == json_schema_shape(json@),
{
    let v: serde_json::Value = serde_json::from_str(json).unwrap_or(serde_json::Value::Null);
    SchemaShape {
        is_object: v.is_object(),
        schema_type: v.get("type").and_then(serde_json::Value::as_str).map(str::to_string),
        properties: match v.get("properties") { None => FieldShape::Absent, Some(serde_json::Value::Object(_)) => FieldShape::Object, Some(_) => FieldShape::Other },
        items: match v.get("items") { None => FieldShape::Absent, Some(serde_json::Value::Object(_)) => FieldShape::Object, Some(_) => FieldShape::Other },
    }
}

pub open spec fn is_schema_type(t: Seq<char>) -> bool {
    t == "string"@ || t == "object"@ || t == "array"@ || t == "number"@ || t == "boolean"@ || t
        == "integer"@ || t == "null"@
}

/// The loose schema rule: an object with a valid `type`; an object schema's
/// `properties` and an array schema's `items` must be objects when present.
pub open spec fn schema_shape_fault(shape: (bool, Option<Seq<char>>, FieldShape, FieldShape)) -> Option<(SchemaFault, Seq<char>)> {
    if !shape.0 {
        Some((SchemaFault::NotObject, Seq::empty()))
    } else {
        match shape.1 {
            None => Some((SchemaFault::MissingType, Seq::empty())),
            Some(t) => if !is_schema_type(t) {
                Some((SchemaFault::InvalidType, t))
            } else if t == "object"@ && shape.2 == FieldShape::Other {
                Some((SchemaFault::PropertiesNotObject, Seq::empty()))
            } else if t == "array"@ && shape.3 == FieldShape::Other {
                Some((SchemaFault::ItemsNotObject, Seq::empty()))
            } else {
                None
            },
        }
    }
}

pub open spec fn schema_fault_to_ui(f: Option<(SchemaFault, Seq<char>)>) -> Option<UiFault> {
    match f {
        None => None,
        Some((k, t)) => Some(ui_fault(ContributionErrorKind::Configuration(k), Seq::empty(), t)),
    }
}

fn is_other(f: FieldShape) -> (r: bool)
    ensures
        r == (f == FieldShape::Other),
{
    match f {
        FieldShape::Other => true,
        _ => false,
    }
}

/// Applies the loose schema rule to a document's shape.
pub fn check_schema_shape(shape: &SchemaShape) -> (r: Result<(), ContributionError>)
    ensures
        unit_result(r, schema_fault_to_ui(schema_shape_fault(shape_view(*shape)))),
{
    proof {
        reveal_strlit("string");
        reveal_strlit("object");
        reveal_strlit("array");
        reveal_strlit("number");
        reveal_strlit("boolean");
        reveal_strlit("integer");
        reveal_strlit("null");
    }
    if !shape.is_object {
        return Err(uerr0(ContributionErrorKind::Configuration(SchemaFault::NotObject)));
    }
    let t = match &shape.schema_type {
        None => {
            return Err(uerr0(ContributionErrorKind::Configuration(SchemaFault::MissingType)));
        },
        Some(t) => t.as_str(),
    };
    let valid = str_eq(t, "string") || str_eq(t, "object") || str_eq(t, "array") || str_eq(t, "number")
        || str_eq(t, "boolean") || str_eq(t, "integer") || str_eq(t, "null");
    if !valid {
        let e = ContributionError {
            kind: ContributionErrorKind::Configuration(SchemaFault::InvalidType),
            subject: String::new(),
            detail: owned(t),
            cause: None,
        };
        assert(e.subject@ =~= Seq::<char>::empty());
        return Err(e);
    }
    if str_eq(t, "object") && is_other(shape.properties) {
        return Err(uerr0(ContributionErrorKind::Configuration(SchemaFault::PropertiesNotObject)));
    }
    if str_eq(t, "array") && is_other(shape.items) {
        return Err(uerr0(ContributionErrorKind::Configuration(SchemaFault::ItemsNotObject)));
    }
    Ok(())
}

/// Checks a configuration schema loosely: only plainly invalid structure is
/// refused.
pub fn validate_configuration_schema(schema: &str) -> (r: Result<(), ContributionError>)
    ensures
        unit_result(r, schema_fault_to_ui(schema_shape_fault(json_schema_shape(schema@)))),
{
    let shape = read_schema_shape(schema);
    check_schema_shape(&shape)
}

// ---------------------------------------------------------------------------
// Registration sections, one rule each
// ---------------------------------------------------------------------------

/// Zone `i`: a non-blank id and an anchor parent that resolves.
pub open spec fn zone_fault_at(extension_id: Seq<char>, zones: Seq<ZoneRegistration>, i: int) -> Option<UiFault> {
    let z = zones[i];
    if trim(z.id@).len() == 0 {
        Some(ui_fault(ContributionErrorKind::EmptyId(UiIdKind::Zone), Seq::empty(), Seq::empty()))
    } else {
        match anchor_parent_fault(z.anchor.parent@, extension_id, zone_ids(zones)) {
            Some(k) => Some(
                (
                    ContributionErrorKind::ZoneAnchor,
                    z.id@,
                    Seq::empty(),
                    Some((k, trim(z.anchor.parent@), Seq::empty(), true)),
                ),
            ),
            None => None,
        }
    }
}

pub open spec fn zones_fault(extension_id: Seq<char>, zones: Seq<ZoneRegistration>) -> Option<UiFault> {
    if unique_ids_fault(UiIdKind::Zone, zone_ids(zones)) is Some {
        unique_ids_fault(UiIdKind::Zone, zone_ids(zones))
    } else {
        first_error(indices(zones.len()), |i: int| zone_fault_at(extension_id, zones, i))
    }
}

fn cause_error(kind: ContributionErrorKind, subject: &str, cause: HostViewError) -> (e: ContributionError)
    ensures
        e.fault() == (kind, subject@, Seq::<char>::empty(), Some(host_view_fault(cause))),
{
    let e = ContributionError { kind, subject: owned(subject), detail: String::new(), cause: Some(cause) };
    e
}

fn validate_zones(extension_id: &str, zones: &Vec<ZoneRegistration>, declared: &Vec<String>) -> (r: Result<(), ContributionError>)
    requires
        views(declared@) == zone_ids(zones@),
    ensures
        unit_result(r, zones_fault(extension_id@, zones@)),
{
    validate_unique_ids(UiIdKind::Zone, declared)?;
    let ghost f = |i: int| zone_fault_at(extension_id@, zones@, i);
    let ghost idx = indices(zones@.len());
    proof {
        lemma_first_error_ends(idx, f);
    }
    let n = zones.len();
    for i in 0..n
        invariant
            n == zones@.len(),
            views(declared@) == zone_ids(zones@),
            unique_ids_fault(UiIdKind::Zone, zone_ids(zones@)) is None,
            idx == indices(zones@.len()),
            f == (|i: int| zone_fault_at(extension_id@, zones@, i)),
            first_error(idx, f) == first_error(idx.skip(i as int), f),
    {
        assert(idx[i as int] == i);
        let z = &zones[i];
        if is_blank(z.id.as_str()) {
            proof { lemma_first_error_hit(idx, f, i as int); }
            return Err(uerr0(ContributionErrorKind::EmptyId(UiIdKind::Zone)));
        }
        if let Err(e) = validate_extension_zone_anchor_parent(z.anchor.parent.as_str(), extension_id, declared) {
            proof { lemma_first_error_hit(idx, f, i as int); }
            return Err(cause_error(ContributionErrorKind::ZoneAnchor, z.id.as_str(), e));
        }
        proof { lemma_first_error_step(idx, f, i as int); }
    }
    Ok(())
}

/// View `i`: a non-blank id, a valid HostView, and a zone this extension
/// declares when the zone is namespaced.
pub open spec fn view_fault_at(
    extension_id: Seq<char>,
    vs: Seq<ViewRegistration>,
    declared: Seq<Seq<char>>,
    i: int,
) -> Option<UiFault> {
    let v = vs[i];
    if trim(v.id@).len() == 0 {
        Some(ui_fault(ContributionErrorKind::EmptyId(UiIdKind::View), Seq::empty(), Seq::empty()))
    } else {
        match view_fault(v) {
            Some((k, d)) => Some((ContributionErrorKind::View, v.id@, Seq::empty(), Some((k, v.id@, d, false)))),
            None => match declared_zone_fault(v, extension_id, declared) {
                Some(k) => Some(
                    (
                        ContributionErrorKind::View,
                        v.id@,
                        Seq::empty(),
                        Some((k, v.id@, effective_zone(v)->0, false)),
                    ),
                ),
                None => None,
            },
        }
    }
}

pub open spec fn views_fault(extension_id: Seq<char>, vs: Seq<ViewRegistration>, declared: Seq<Seq<char>>) -> Option<UiFault> {
    if unique_ids_fault(UiIdKind::View, view_ids(vs)) is Some {
        unique_ids_fault(UiIdKind::View, view_ids(vs))
    } else {
        first_error(indices(vs.len()), |i: int| view_fault_at(extension_id, vs, declared, i))
    }
}

fn validate_views(extension_id: &str, vs: &Vec<ViewRegistration>, ids: &Vec<String>, declared: &Vec<String>) -> (r: Result<(), ContributionError>)
    requires
        views(ids@) == view_ids(vs@),
    ensures
        unit_result(r, views_fault(extension_id@, vs@, views(declared@))),
{
    validate_unique_ids(UiIdKind::View, ids)?;
    let ghost f = |i: int| view_fault_at(extension_id@, vs@, views(declared@), i);
    let ghost idx = indices(vs@.len());
    proof {
        lemma_first_error_ends(idx, f);
    }
    let n = vs.len();
    for i in 0..n
        invariant
            n == vs@.len(),
            views(ids@) == view_ids(vs@),
            unique_ids_fault(UiIdKind::View, view_ids(vs@)) is None,
            idx == indices(vs@.len()),
            f == (|i: int| view_fault_at(extension_id@, vs@, views(declared@), i)),
            first_error(idx, f) == first_error(idx.skip(i as int), f),
    {
        assert(idx[i as int] == i);
        let v = &vs[i];
        if is_blank(v.id.as_str()) {
            proof { lemma_first_error_hit(idx, f, i as int); }
            return Err(uerr0(ContributionErrorKind::EmptyId(UiIdKind::View)));
        }
        if let Err(e) = validate_extension_view_with_declared_zones(v, extension_id, declared) {
            proof { lemma_first_error_hit(idx, f, i as int); }
            return Err(cause_error(ContributionErrorKind::View, v.id.as_str(), e));
        }
        proof { lemma_first_error_step(idx, f, i as int); }
    }
    Ok(())
}

/// The view a command opens, toggles or shows as a dialog.
pub open spec fn action_view(a: BuiltinAction) -> Option<Seq<char>> {
    match a {
        BuiltinAction::OpenView { view_id } => Some(view_id@),
        BuiltinAction::ToggleView { view_id } => Some(view_id@),
        BuiltinAction::OpenDialog { view_id, .. } => Some(view_id@),
        _ => None,
    }
}

/// Command `i`: a non-blank id and an action whose reference resolves. A
/// view reference of another extension, `{extId}:{viewId}`, is not looked
/// up among this extension's views.
pub open spec fn command_fault_at(cs: Seq<CommandRegistration>, vids: Seq<Seq<char>>, i: int) -> Option<UiFault> {
    let c = cs[i];
    if trim(c.id@).len() == 0 {
        Some(ui_fault(ContributionErrorKind::EmptyId(UiIdKind::Command), Seq::empty(), Seq::empty()))
    } else {
        match c.action {
            BuiltinAction::RunScript { script_id, .. } => if trim(script_id@).len() == 0 {
                Some(ui_fault(ContributionErrorKind::EmptyScript, c.id@, Seq::empty()))
            } else {
                None
            },
            BuiltinAction::SendMessage { target, .. } => if trim(target@).len() == 0 {
                Some(ui_fault(ContributionErrorKind::EmptyMessageTarget, c.id@, Seq::empty()))
            } else {
                None
            },
            _ => if !action_view(c.action)->Some_0.contains(':') && !vids.contains(action_view(c.action)->Some_0) {
                Some(ui_fault(ContributionErrorKind::MissingView, c.id@, action_view(c.action)->Some_0))
            } else {
                None
            },
        }
    }
}

pub open spec fn commands_fault(cs: Seq<CommandRegistration>, vids: Seq<Seq<char>>) -> Option<UiFault> {
    if unique_ids_fault(UiIdKind::Command, command_ids(cs)) is Some {
        unique_ids_fault(UiIdKind::Command, command_ids(cs))
    } else {
        first_error(indices(cs.len()), |i: int| command_fault_at(cs, vids, i))
    }
}

fn validate_commands(cs: &Vec<CommandRegistration>, ids: &Vec<String>, vids: &Vec<String>) -> (r: Result<(), ContributionError>)
    requires
        views(ids@) == command_ids(cs@),
    ensures
        unit_result(r, commands_fault(cs@, views(vids@))),
{
    validate_unique_ids(UiIdKind::Command, ids)?;
    let ghost f = |i: int| command_fault_at(cs@, views(vids@), i);
    let ghost idx = indices(cs@.len());
    proof {
        lemma_first_error_ends(idx, f);
    }
    let n = cs.len();
    for i in 0..n
        invariant
            n == cs@.len(),
            views(ids@) == command_ids(cs@),
            unique_ids_fault(UiIdKind::Command, command_ids(cs@)) is None,
            idx == indices(cs@.len()),
            f == (|i: int| command_fault_at(cs@, views(vids@), i)),
            first_error(idx, f) == first_error(idx.skip(i as int), f),
    {
        assert(idx[i as int] == i);
        let c = &cs[i];
        if is_blank(c.id.as_str()) {
            proof { lemma_first_error_hit(idx, f, i as int); }
            return Err(uerr0(ContributionErrorKind::EmptyId(UiIdKind::Command)));
        }
        let fault: Option<ContributionError> = match &c.action {
            BuiltinAction::OpenView { view_id } | BuiltinAction::ToggleView { view_id } | BuiltinAction::OpenDialog { view_id, .. } => {
                if !contains_char(view_id.as_str(), ':') && !contains_text(vids, view_id.as_str()) {
                    Some(uerr(ContributionErrorKind::MissingView, c.id.as_str(), view_id.as_str()))
                } else {
                    None
                }
            },
            BuiltinAction::RunScript { script_id, .. } => {
                if is_blank(script_id.as_str()) {
                    Some(uerr1(ContributionErrorKind::EmptyScript, c.id.as_str()))
                } else {
                    None
                }
            },
            BuiltinAction::SendMessage { target, .. } => {
                if is_blank(target.as_str()) {
                    Some(uerr1(ContributionErrorKind::EmptyMessageTarget, c.id.as_str()))
                } else {
                    None
                }
            },
        };
        if let Some(e) = fault {
            proof { lemma_first_error_hit(idx, f, i as int); }
            return Err(e);
        }
        proof { lemma_first_error_step(idx, f, i as int); }
    }
    Ok(())
}

/// Menu `i`: a non-blank id, a valid target, and a known command.
pub open spec fn menu_fault_at(ms: Seq<MenuRegistration>, cids: Seq<Seq<char>>, i: int) -> Option<UiFault> {
    let m = ms[i];
    if trim(m.id@).len() == 0 {
        Some(ui_fault(ContributionErrorKind::EmptyId(UiIdKind::Menu), Seq::empty(), Seq::empty()))
    } else if !is_valid_target(m.target@) {
        Some(ui_fault(ContributionErrorKind::InvalidMenuTarget, m.id@, m.target@))
    } else if !cids.contains(m.command@) {
        Some(ui_fault(ContributionErrorKind::MissingCommand, m.id@, m.command@))
    } else {
        None
    }
}

pub open spec fn menus_fault(ms: Seq<MenuRegistration>, cids: Seq<Seq<char>>) -> Option<UiFault> {
    if unique_ids_fault(UiIdKind::Menu, menu_ids(ms)) is Some {
        unique_ids_fault(UiIdKind::Menu, menu_ids(ms))
    } else {
        first_error(indices(ms.len()), |i: int| menu_fault_at(ms, cids, i))
    }
}

fn validate_menus(ms: &Vec<MenuRegistration>, ids: &Vec<String>, cids: &Vec<String>) -> (r: Result<(), ContributionError>)
    requires
        views(ids@) == menu_ids(ms@),
    ensures
        unit_result(r, menus_fault(ms@, views(cids@))),
{
    validate_unique_ids(UiIdKind::Menu, ids)?;
    let ghost f = |i: int| menu_fault_at(ms@, views(cids@), i);
    let ghost idx = indices(ms@.len());
    proof {
        lemma_first_error_ends(idx, f);
    }
    let n = ms.len();
    for i in 0..n
        invariant
            n == ms@.len(),
            views(ids@) == menu_ids(ms@),
            unique_ids_fault(UiIdKind::Menu, menu_ids(ms@)) is None,
            idx == indices(ms@.len()),
            f == (|i: int| menu_fault_at(ms@, views(cids@), i)),
            first_error(idx, f) == first_error(idx.skip(i as int), f),
    {
        assert(idx[i as int] == i);
        let m = &ms[i];
        if is_blank(m.id.as_str()) {
            proof { lemma_first_error_hit(idx, f, i as int); }
            return Err(uerr0(ContributionErrorKind::EmptyId(UiIdKind::Menu)));
        }
        if !is_valid_menu_target(m.target.as_str()) {
            proof { lemma_first_error_hit(idx, f, i as int); }
            return Err(uerr(ContributionErrorKind::InvalidMenuTarget, m.id.as_str(), m.target.as_str()));
        }
        if !contains_text(cids, m.command.as_str()) {
            proof { lemma_first_error_hit(idx, f, i as int); }
            return Err(uerr(ContributionErrorKind::MissingCommand, m.id.as_str(), m.command.as_str()));
        }
        proof { lemma_first_error_step(idx, f, i as int); }
    }
    Ok(())
}

/// A keybinding is identified by its command, key and `when` clause.
pub open spec fn keybinding_identity(k: KeybindingRegistration) -> (Seq<char>, Seq<char>, Option<Seq<char>>) {
    (k.command@, k.key@, match k.when {
        Some(w) => Some(w@),
        None => None,
    })
}

pub open spec fn keybinding_identities(ks: Seq<KeybindingRegistration>) -> Seq<(Seq<char>, Seq<char>, Option<Seq<char>>)> {
    ks.map_values(|k: KeybindingRegistration| keybinding_identity(k))
}

/// Keybinding `i`: a non-blank key, a known command, and not bound the same
/// way before.
pub open spec fn keybinding_fault_at(ks: Seq<KeybindingRegistration>, cids: Seq<Seq<char>>, i: int) -> Option<UiFault> {
    let k = ks[i];
    if trim(k.key@).len() == 0 {
        Some(ui_fault(ContributionErrorKind::EmptyKeybindingKey, Seq::empty(), Seq::empty()))
    } else if !cids.contains(k.command@) {
        Some(ui_fault(ContributionErrorKind::KeybindingMissingCommand, k.key@, k.command@))
    } else if keybinding_identities(ks).subrange(0, i).contains(keybinding_identity(k)) {
        Some(ui_fault(ContributionErrorKind::DuplicateKeybinding, k.key@, k.command@))
    } else {
        None
    }
}

/// Keybinding `i` is refused as a duplicate exactly when an earlier
/// keybinding has the same command, the same key and the same `when`
/// clause (its key being non-blank and its command known). Two keybindings
/// that differ in key, command or `when` are never duplicates of each other.
pub proof fn law_duplicate_keybinding_same_binding(ks: Seq<KeybindingRegistration>, cids: Seq<Seq<char>>, i: int)
    requires
        0 <= i < ks.len(),
    ensures
        (keybinding_fault_at(ks, cids, i) matches Some(f) && f.0 == ContributionErrorKind::DuplicateKeybinding) <==> (
        trim(ks[i].key@).len() > 0 && cids.contains(ks[i].command@) && exists|j: int|
            0 <= j < i && (#[trigger] ks[j]).command@ == ks[i].command@ && ks[j].key@ == ks[i].key@ && match (
                ks[j].when,
                ks[i].when,
            ) {
                (Some(a), Some(b)) => a@ == b@,
                (None, None) => true,
                _ => false,
            }),
{
    let ids = keybinding_identities(ks).subrange(0, i);
    let k = ks[i];
    if ids.contains(keybinding_identity(k)) {
        let j = choose|j: int| 0 <= j < ids.len() && ids[j] == keybinding_identity(k);
        assert(ids[j] == keybinding_identity(ks[j]));
        assert(ks[j].command@ == k.command@ && ks[j].key@ == k.key@);
    }
    if exists|j: int|
        0 <= j < i && (#[trigger] ks[j]).command@ == ks[i].command@ && ks[j].key@ == ks[i].key@ && match (
            ks[j].when,
            ks[i].when,
        ) {
            (Some(a), Some(b)) => a@ == b@,
            (None, None) => true,
            _ => false,
        } {
        let j = choose|j: int|
            0 <= j < i && (#[trigger] ks[j]).command@ == ks[i].command@ && ks[j].key@ == ks[i].key@ && match (
                ks[j].when,
                ks[i].when,
            ) {
                (Some(a), Some(b)) => a@ == b@,
                (None, None) => true,
                _ => false,
            };
        assert(ids[j] == keybinding_identity(ks[j]));
        assert(ids[j] == keybinding_identity(k));
    }
}

pub open spec fn keybindings_fault(ks: Seq<KeybindingRegistration>, cids: Seq<Seq<char>>) -> Option<UiFault> {
    first_error(indices(ks.len()), |i: int| keybinding_fault_at(ks, cids, i))
}

fn same_when(a: &Option<String>, b: &Option<String>) -> (r: bool)
    ensures
        r == (match (a, b) {
            (Some(x), Some(y)) => x@ == y@,
            (None, None) => true,
            _ => false,
        }),
{
    match (a, b) {
        (Some(x), Some(y)) => str_eq(x.as_str(), y.as_str()),
        (None, None) => true,
        _ => false,
    }
}

fn bound_before(ks: &Vec<KeybindingRegistration>, i: usize) -> (r: bool)
    requires
        i < ks@.len(),
    ensures
        r == keybinding_identities(ks@).subrange(0, i as int).contains(keybinding_identity(ks@[i as int])),
{
    let k = &ks[i];
    let ghost ids = keybinding_identities(ks@);
    for j in 0..i
        invariant
            i < ks@.len(),
            ids == keybinding_identities(ks@),
            k == &ks@[i as int],
            forall|m: int| 0 <= m < j ==> ids[m] != keybinding_identity(*k),
    {
        let o = &ks[j];
        if str_eq(o.command.as_str(), k.command.as_str()) && str_eq(o.key.as_str(), k.key.as_str())
            && same_when(&o.when, &k.when) {
            proof {
                assert(ids[j as int] == keybinding_identity(*k));
                assert(ids.subrange(0, i as int)[j as int] == ids[j as int]);
            }
            return true;
        }
        proof {
            assert(ids[j as int] == keybinding_identity(ks@[j as int]));
        }
    }
    proof {
        assert forall|m: int| 0 <= m < i implies ids.subrange(0, i as int)[m] != keybinding_identity(*k) by {
            assert(ids.subrange(0, i as int)[m] == ids[m]);
        }
    }
    false
}

fn validate_keybindings(ks: &Vec<KeybindingRegistration>, cids: &Vec<String>) -> (r: Result<(), ContributionError>)
    ensures
        unit_result(r, keybindings_fault(ks@, views(cids@))),
{
    let ghost f = |i: int| keybinding_fault_at(ks@, views(cids@), i);
    let ghost idx = indices(ks@.len());
    proof {
        lemma_first_error_ends(idx, f);
    }
    let n = ks.len();
    for i in 0..n
        invariant
            n == ks@.len(),
            idx == indices(ks@.len()),
            f == (|i: int| keybinding_fault_at(ks@, views(cids@), i)),
            first_error(idx, f) == first_error(idx.skip(i as int), f),
    {
        assert(idx[i as int] == i);
        let k = &ks[i];
        if is_blank(k.key.as_str()) {
            proof { lemma_first_error_hit(idx, f, i as int); }
            return Err(uerr0(ContributionErrorKind::EmptyKeybindingKey));
        }
        if !contains_text(cids, k.command.as_str()) {
            proof { lemma_first_error_hit(idx, f, i as int); }
            return Err(uerr(ContributionErrorKind::KeybindingMissingCommand, k.key.as_str(), k.command.as_str()));
        }
        if bound_before(ks, i) {
            proof { lemma_first_error_hit(idx, f, i as int); }
            return Err(uerr(ContributionErrorKind::DuplicateKeybinding, k.key.as_str(), k.command.as_str()));
        }
        proof { lemma_first_error_step(idx, f, i as int); }
    }
    Ok(())
}

/// Why a registration is refused, if it is: the extension id, then zones,
/// views, commands, menus, keybindings and the configuration schema, in that
/// order.
pub open spec fn registration_fault(r: UiContributionRegistration) -> Option<UiFault> {
    if trim(r.extension_id@).len() == 0 {
        Some(ui_fault(ContributionErrorKind::EmptyExtensionId, Seq::empty(), Seq::empty()))
    } else if zones_fault(r.extension_id@, r.zones@) is Some {
        zones_fault(r.extension_id@, r.zones@)
    } else if views_fault(r.extension_id@, r.views@, zone_ids(r.zones@)) is Some {
        views_fault(r.extension_id@, r.views@, zone_ids(r.zones@))
    } else if commands_fault(r.commands@, view_ids(r.views@)) is Some {
        commands_fault(r.commands@, view_ids(r.views@))
    } else if menus_fault(r.menus@, command_ids(r.commands@)) is Some {
        menus_fault(r.menus@, command_ids(r.commands@))
    } else if keybindings_fault(r.keybindings@, command_ids(r.commands@)) is Some {
        keybindings_fault(r.keybindings@, command_ids(r.commands@))
    } else {
        match r.configuration {
            Some(c) => schema_fault_to_ui(schema_shape_fault(json_schema_shape(c@))),
            None => None,
        }
    }
}

/// Checks a registration as one unit.
pub fn validate_registration(registration: &UiContributionRegistration) -> (r: Result<(), ContributionError>)
    ensures
        unit_result(r, registration_fault(*registration)),
{
    if is_blank(registration.extension_id.as_str()) {
        return Err(uerr0(ContributionErrorKind::EmptyExtensionId));
    }
    let ext = registration.extension_id.as_str();
    let zone_id_list = collect_zone_ids(&registration.zones);
    validate_zones(ext, &registration.zones, &zone_id_list)?;
    let view_id_list = collect_view_ids(&registration.views);
    validate_views(ext, &registration.views, &view_id_list, &zone_id_list)?;
    let command_id_list = collect_command_ids(&registration.commands);
    validate_commands(&registration.commands, &command_id_list, &view_id_list)?;
    let menu_id_list = collect_menu_ids(&registration.menus);
    validate_menus(&registration.menus, &menu_id_list, &command_id_list)?;
    validate_keybindings(&registration.keybindings, &command_id_list)?;
    match &registration.configuration {
        Some(c) => validate_configuration_schema(c.as_str()),
        None => Ok(()),
    }
}

/// A checked copy of a normalised registration, ready to commit.
pub fn prepare_registration(normalized: &UiContributionRegistration) -> (r: Result<UiContributionRegistration, ContributionError>)
    ensures
        match registration_fault(*normalized) {
            Some(f) => r matches Err(e) && e.fault() == f,
            None => r matches Ok(c) && c.copy_of(normalized),
        },
{
    validate_registration(normalized)?;
    Ok(normalized.duplicate())
}

// ---------------------------------------------------------------------------
// Registrar
// ---------------------------------------------------------------------------

pub open spec fn registration_ids(s: Seq<UiContributionRegistration>) -> Seq<Seq<char>> {
    s.map_values(|r: UiContributionRegistration| r.extension_id@)
}

/// The registration of `extension_id`, if any.
pub open spec fn registration_of(s: Seq<UiContributionRegistration>, extension_id: Seq<char>) -> Option<UiContributionRegistration>
    decreases s.len(),
{
    if s.len() == 0 {
        None
    } else if s.last().extension_id@ == extension_id {
        Some(s.last())
    } else {
        registration_of(s.drop_last(), extension_id)
    }
}

/// The registrations without the one of `extension_id`.
pub open spec fn registrations_without(s: Seq<UiContributionRegistration>, extension_id: Seq<char>) -> Seq<UiContributionRegistration>
    decreases s.len(),
{
    if s.len() == 0 {
        Seq::empty()
    } else if s.last().extension_id@ == extension_id {
        registrations_without(s.drop_last(), extension_id)
    } else {
        registrations_without(s.drop_last(), extension_id).push(s.last())
    }
}

/// The enabled-state projection of UI contributions: at most one
/// registration per extension.
#[derive(Debug)]
pub struct UiContributionRegistrar {
    registrations: Vec<UiContributionRegistration>,
}

impl UiContributionRegistrar {
    pub closed spec fn view(&self) -> Seq<UiContributionRegistration> {
        self.registrations@
    }

    pub closed spec fn wf(&self) -> bool {
        crate::context::names_unique(registration_ids(self.registrations@))
    }

    pub fn new() -> (r: Self)
        ensures
            r.wf(),
            r@.len() == 0,
    {
        UiContributionRegistrar { registrations: Vec::new() }
    }

    fn index_of(&self, extension_id: &str) -> (r: Option<usize>)
        ensures
            match r {
                Some(k) => k < self@.len() && self@[k as int].extension_id@ == extension_id@
                    && registration_ids(self@).contains(extension_id@),
                None => !registration_ids(self@).contains(extension_id@),
            },
    {
        let n = self.registrations.len();
        for i in 0..n
            invariant
                n == self@.len(),
                forall|j: int| 0 <= j < i ==> registration_ids(self@)[j] != extension_id@,
        {
            assert(registration_ids(self@)[i as int] == self@[i as int].extension_id@);
            if str_eq(self.registrations[i].extension_id.as_str(), extension_id) {
                assert(registration_ids(self@)[i as int] == extension_id@);
                return Some(i);
            }
        }
        None
    }

    /// Registers an extension's contributions; an extension registers once.
    pub fn commit_registration(&mut self, registration: UiContributionRegistration) -> (r: Result<(), ContributionError>)
        requires
            old(self).wf(),
        ensures
            final(self).wf(),
            registration_ids(old(self)@).contains(registration.extension_id@) ==> (r matches Err(e)
                && e.fault() == ui_fault(ContributionErrorKind::AlreadyRegistered, registration.extension_id@, Seq::empty())
                && final(self)@ == old(self)@),
            !registration_ids(old(self)@).contains(registration.extension_id@) ==> (r is Ok
                && final(self)@ == old(self)@.push(registration)),
    {
        if let Some(_) = self.index_of(registration.extension_id.as_str()) {
            return Err(uerr1(ContributionErrorKind::AlreadyRegistered, registration.extension_id.as_str()));
        }
        let ghost before = self@;
        let ghost id = registration.extension_id@;
        self.registrations.push(registration);
        proof {
            assert(registration_ids(self@) =~= registration_ids(before).push(id));
            assert forall|a: int, b: int| 0 <= a < b < registration_ids(self@).len() implies registration_ids(self@)[a] != registration_ids(self@)[b] by {
                if b == before.len() {
                    assert(registration_ids(before)[a] == registration_ids(self@)[a]);
                }
            }
        }
        Ok(())
    }

    /// Removes an extension's registration and gives it back.
    pub fn unregister_extension(&mut self, extension_id: &str) -> (r: Option<UiContributionRegistration>)
        requires
            old(self).wf(),
        ensures
            final(self).wf(),
            r == registration_of(old(self)@, extension_id@),
            final(self)@ == registrations_without(old(self)@, extension_id@),
    {
        let ghost s = self@;
        let mut kept: Vec<UiContributionRegistration> = Vec::new();
        let mut removed: Option<UiContributionRegistration> = None;
        let mut all = Vec::new();
        std::mem::swap(&mut all, &mut self.registrations);
        let n = all.len();
        let mut i: usize = 0;
        while i < n
            invariant
                n == s.len(),
                i <= n,
                all@.len() == n - i,
                forall|k: int| 0 <= k < all@.len() ==> all@[k] == s[k + i],
                kept@ == registrations_without(s.subrange(0, i as int), extension_id@),
                removed == registration_of(s.subrange(0, i as int), extension_id@),
            decreases n - i,
        {
            let r0 = all.remove(0);
            proof {
                assert(r0 == s[i as int]);
                assert(s.subrange(0, i + 1).drop_last() =~= s.subrange(0, i as int));
                assert(s.subrange(0, i + 1).last() == s[i as int]);
            }
            if str_eq(r0.extension_id.as_str(), extension_id) {
                removed = Some(r0);
            } else {
                kept.push(r0);
            }
            i = i + 1;
        }
        proof {
            assert(s.subrange(0, n as int) =~= s);
            lemma_registrations_without_unique(s, extension_id@);
        }
        self.registrations = kept;
        removed
    }

    pub fn contains_extension(&self, extension_id: &str) -> (r: bool)
        ensures
            r == registration_ids(self@).contains(extension_id@),
    {
        self.index_of(extension_id).is_some()
    }

    /// A copy of an extension's registration.
    pub fn get(&self, extension_id: &str) -> (r: Option<UiContributionRegistration>)
        requires
            self.wf(),
        ensures
            match registration_of(self@, extension_id@) {
                Some(x) => r matches Some(c) && c.copy_of(&x),
                None => r is None,
            },
    {
        match self.index_of(extension_id) {
            Some(k) => {
                proof {
                    lemma_registration_of_unique(self@, extension_id@, k as int);
                }
                Some(self.registrations[k].duplicate())
            },
            None => {
                proof {
                    lemma_registration_of_absent(self@, extension_id@);
                }
                None
            },
        }
    }

    /// Copies of all registrations, in registration order.
    pub fn list(&self) -> (r: Vec<UiContributionRegistration>)
        ensures
            r@.len() == self@.len(),
            forall|i: int| 0 <= i < r@.len() ==> #[trigger] r@[i].copy_of(&self@[i]),
    {
        let mut out: Vec<UiContributionRegistration> = Vec::new();
        let n = self.registrations.len();
        for i in 0..n
            invariant
                n == self@.len(),
                out@.len() == i,
                forall|k: int| 0 <= k < i ==> #[trigger] out@[k].copy_of(&self@[k]),
        {
            out.push(self.registrations[i].duplicate());
        }
        out
    }
}

proof fn lemma_registration_of_unique(s: Seq<UiContributionRegistration>, extension_id: Seq<char>, k: int)
    requires
        crate::context::names_unique(registration_ids(s)),
        0 <= k < s.len(),
        s[k].extension_id@ == extension_id,
    ensures
        registration_of(s, extension_id) == Some(s[k]),
    decreases s.len(),
{
    if k < s.len() - 1 {
        let p = s.drop_last();
        assert(registration_ids(s)[k] != registration_ids(s)[s.len() - 1]);
        assert(crate::context::names_unique(registration_ids(p))) by {
            assert forall|a: int, b: int| 0 <= a < b < registration_ids(p).len() implies registration_ids(p)[a] != registration_ids(p)[b] by {
                assert(registration_ids(s)[a] != registration_ids(s)[b]);
            }
        }
        lemma_registration_of_unique(p, extension_id, k);
    }
}

proof fn lemma_registration_of_absent(s: Seq<UiContributionRegistration>, extension_id: Seq<char>)
    requires
        !registration_ids(s).contains(extension_id),
    ensures
        registration_of(s, extension_id) is None,
    decreases s.len(),
{
    if s.len() > 0 {
        assert(registration_ids(s)[s.len() - 1] == s.last().extension_id@);
        let p = s.drop_last();
        assert(!registration_ids(p).contains(extension_id)) by {
            if registration_ids(p).contains(extension_id) {
                let j = choose|j: int| 0 <= j < registration_ids(p).len() && registration_ids(p)[j] == extension_id;
                assert(registration_ids(s)[j] == registration_ids(p)[j]);
            }
        }
        lemma_registration_of_absent(p, extension_id);
    }
}

proof fn lemma_registrations_without_unique(s: Seq<UiContributionRegistration>, extension_id: Seq<char>)
    requires
        crate::context::names_unique(registration_ids(s)),
    ensures
        crate::context::names_unique(registration_ids(registrations_without(s, extension_id))),
        forall|k: int| 0 <= k < registrations_without(s, extension_id).len() ==> exists|j: int| 0 <= j < s.len() && s[j] == #[trigger] registrations_without(s, extension_id)[k],
    decreases s.len(),
{
    if s.len() > 0 {
        let p = s.drop_last();
        assert(crate::context::names_unique(registration_ids(p))) by {
            assert forall|a: int, b: int| 0 <= a < b < registration_ids(p).len() implies registration_ids(p)[a] != registration_ids(p)[b] by {
                assert(registration_ids(s)[a] != registration_ids(s)[b]);
            }
        }
        lemma_registrations_without_unique(p, extension_id);
        let w = registrations_without(s, extension_id);
        let wp = registrations_without(p, extension_id);
        assert forall|k: int| 0 <= k < w.len() implies exists|j: int| 0 <= j < s.len() && s[j] == #[trigger] w[k] by {
            if k < wp.len() {
                assert(w[k] == wp[k]);
                let j = choose|j: int| 0 <= j < p.len() && p[j] == #[trigger] wp[k];
                assert(s[j] == p[j]);
            } else {
                assert(s[s.len() - 1] == w[k]);
            }
        }
        if s.last().extension_id@ != extension_id {
            assert forall|a: int, b: int| 0 <= a < b < registration_ids(w).len() implies registration_ids(w)[a] != registration_ids(w)[b] by {
                if b < wp.len() {
                    assert(registration_ids(wp)[a] != registration_ids(wp)[b]);
                    assert(registration_ids(w)[a] == registration_ids(wp)[a]);
                    assert(registration_ids(w)[b] == registration_ids(wp)[b]);
                } else {
                    let j = choose|j: int| 0 <= j < p.len() && p[j] == #[trigger] wp[a];
                    assert(registration_ids(s)[j] != registration_ids(s)[s.len() - 1]);
                    assert(registration_ids(w)[a] == wp[a].extension_id@);
                }
            }
        }
    }
}

/// What a commit stores, an unregister gives back; afterwards the
/// extension is no longer registered.
pub proof fn law_commit_then_unregister(s: Seq<UiContributionRegistration>, registration: UiContributionRegistration)
    requires
        !registration_ids(s).contains(registration.extension_id@),
    ensures
        registration_of(s.push(registration), registration.extension_id@) == Some(registration),
        registrations_without(s.push(registration), registration.extension_id@) == registrations_without(s, registration.extension_id@),
        registration_of(registrations_without(s.push(registration), registration.extension_id@), registration.extension_id@) is None,
{
    assert(s.push(registration).drop_last() =~= s);
    lemma_without_removes(s, registration.extension_id@);
}

/// Without a registration of `extension_id`, removing it changes nothing.
pub proof fn lemma_without_absent(s: Seq<UiContributionRegistration>, extension_id: Seq<char>)
    requires
        !registration_ids(s).contains(extension_id),
    ensures
        registrations_without(s, extension_id) == s,
    decreases s.len(),
{
    if s.len() > 0 {
        let p = s.drop_last();
        assert(!registration_ids(p).contains(extension_id)) by {
            if registration_ids(p).contains(extension_id) {
                let k = choose|k: int| 0 <= k < registration_ids(p).len() && registration_ids(p)[k] == extension_id;
                assert(registration_ids(s)[k] == registration_ids(p)[k]);
            }
        }
        lemma_without_absent(p, extension_id);
        assert(registration_ids(s)[s.len() - 1] == s.last().extension_id@);
        assert(p.push(s.last()) =~= s);
    }
}

proof fn lemma_without_removes(s: Seq<UiContributionRegistration>, extension_id: Seq<char>)
    ensures
        registration_of(registrations_without(s, extension_id), extension_id) is None,
    decreases s.len(),
{
    if s.len() > 0 {
        lemma_without_removes(s.drop_last(), extension_id);
        let w = registrations_without(s, extension_id);
        if s.last().extension_id@ != extension_id {
            assert(w.drop_last() == registrations_without(s.drop_last(), extension_id));
        }
    }
}

impl Default for UiContributionRegistrar {
    fn default() -> (r: Self)
        ensures
            r.wf(),
            r@.len() == 0,
    {
        UiContributionRegistrar::new()
    }
}

} // verus!
