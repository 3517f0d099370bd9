use navis_extension::contributions::{
    is_builtin_menu_target, is_valid_menu_target, normalize_registration, prepare_registration,
    validate_configuration_schema, validate_registration, validate_unique_ids, UiContributionRegistrar,
    UiContributionRegistration, UiIdKind,
};
use navis_extension::models::{
    BuiltinAction, CommandRegistration, ExtensionContributes, KeybindingRegistration,
    KeybindingScope, MenuRegistration, ViewRegistration, ZoneAnchor, ZoneRegistration,
};

fn view(id: &str) -> ViewRegistration {
    ViewRegistration {
        id: id.to_string(),
        name: id.to_string(),
        icon: None,
        entry: None,
        zone: Some("rightWorkspace".to_string()),
        placement: None,
        renderer: "host:panel".to_string(),
        activation_events: Vec::new(),
        allow_close: Some(true),
        default_visible: Some(false),
        config: None,
    }
}

fn contributes() -> ExtensionContributes {
    let mut c = ExtensionContributes::empty();
    c.views = Some(vec![view("view")]);
    c.commands = Some(vec![CommandRegistration {
        id: "open".to_string(),
        label: "Open".to_string(),
        description: None,
        icon: None,
        category: None,
        when: None,
        action: BuiltinAction::OpenView { view_id: "view".to_string() },
    }]);
    c.menus = Some(vec![MenuRegistration {
        id: "menu".to_string(),
        label: "Open".to_string(),
        target: "Tools".to_string(),
        command: "open".to_string(),
        group: None,
        when: None,
        icon: None,
        shortcut: None,
        risk: None,
    }]);
    c.keybindings = Some(vec![KeybindingRegistration {
        command: "open".to_string(),
        key: "Ctrl+K".to_string(),
        when: None,
        scope: KeybindingScope::App,
    }]);
    c
}

fn zone(id: &str, parent: &str) -> ZoneRegistration {
    ZoneRegistration {
        id: id.into(),
        name: id.into(),
        anchor: ZoneAnchor { parent: parent.into(), position: None, size: None },
    }
}

#[test]
fn registration_is_atomic_and_unregisters_as_one_unit() {
    let mut registrar = UiContributionRegistrar::default();
    let registration =
        prepare_registration(&normalize_registration("example", &contributes())).unwrap();
    registrar.commit_registration(registration.clone()).unwrap();

    assert_eq!(registration.views.len(), 1);
    assert_eq!(registration.commands.len(), 1);
    assert_eq!(registration.menus.len(), 1);
    assert_eq!(registration.keybindings.len(), 1);
    assert_eq!(registrar.list().len(), 1);

    let removed = registrar.unregister_extension("example").unwrap();
    assert_eq!(removed, registration);
    assert!(registrar.list().is_empty());
}

#[test]
fn duplicate_or_unresolved_ui_contributions_leave_no_registration() {
    let registrar = UiContributionRegistrar::default();
    let mut invalid = contributes();
    invalid.commands.as_mut().unwrap()[0].action = BuiltinAction::ToggleView {
        view_id: "missing".to_string(),
    };

    let error = validate_registration(&normalize_registration("example", &invalid)).unwrap_err();
    assert!(error.to_string().contains("non-existent view"));
    assert!(registrar.list().is_empty());

    let mut duplicate = contributes();
    let first = duplicate.commands.as_ref().unwrap()[0].clone();
    duplicate.commands.as_mut().unwrap().push(first);
    let error = validate_registration(&normalize_registration("example", &duplicate)).unwrap_err();
    assert!(error.to_string().contains("Duplicate command ID"));
    assert!(registrar.list().is_empty());
}

#[test]
fn duplicate_registration_is_rejected_without_replacing_existing_state() {
    let mut registrar = UiContributionRegistrar::default();
    let expected = prepare_registration(&normalize_registration("example", &contributes())).unwrap();
    registrar.commit_registration(expected.clone()).unwrap();

    let error = registrar
        .commit_registration(
            prepare_registration(&normalize_registration("example", &contributes())).unwrap(),
        )
        .unwrap_err();
    assert!(error.to_string().contains("already registered"));
    assert_eq!(registrar.get("example").unwrap(), expected);
}

#[test]
fn zones_must_be_unique_and_anchor_to_known_zones() {
    let mut registration = normalize_registration("example", &contributes());
    registration.zones = vec![
        zone("customPanel", "rightWorkspace"),
        zone("chatDock", "example:customPanel"),
    ];
    assert!(validate_registration(&registration).is_ok());

    let mut duplicate = registration.clone();
    duplicate.zones.push(duplicate.zones[0].clone());
    let error = validate_registration(&duplicate).unwrap_err();
    assert!(error.to_string().contains("Duplicate zone ID"));

    let mut undeclared = registration.clone();
    undeclared.zones[1].anchor.parent = "example:missing".into();
    let error = validate_registration(&undeclared).unwrap_err();
    assert!(error.to_string().contains("undeclared zone"));

    let mut cross = registration.clone();
    cross.zones[1].anchor.parent = "other.ext:customPanel".into();
    let error = validate_registration(&cross).unwrap_err();
    assert!(error.to_string().contains("zone namespace"));

    let mut plain = registration.clone();
    plain.zones[1].anchor.parent = "floatingDock".into();
    let error = validate_registration(&plain).unwrap_err();
    assert!(error.to_string().contains("must be a builtin zone"));
}

#[test]
fn view_zone_must_be_declared_by_the_extension() {
    let mut registration = normalize_registration("example", &contributes());
    registration.zones = vec![zone("customPanel", "rightWorkspace")];
    registration.views[0].zone = Some("example:customPanel".into());
    assert!(validate_registration(&registration).is_ok());

    let mut undeclared = registration.clone();
    undeclared.views[0].zone = Some("example:missing".into());
    let error = validate_registration(&undeclared).unwrap_err();
    assert!(error.to_string().contains("undeclared zone"));

    let mut cross = registration.clone();
    cross.views[0].zone = Some("other.ext:customPanel".into());
    let error = validate_registration(&cross).unwrap_err();
    assert!(error.to_string().contains("zone namespace"));
}

#[test]
fn menu_target_accepts_builtin_and_namespaced_and_rejects_others() {
    let mut registration = normalize_registration("example", &contributes());
    let set_target = |target: &str, registration: &mut UiContributionRegistration| {
        registration.menus[0].target = target.to_string();
    };

    set_target("Tools", &mut registration);
    assert!(validate_registration(&registration).is_ok());
    set_target("example:custom", &mut registration);
    assert!(validate_registration(&registration).is_ok());

    for invalid in ["", "Foo Bar", "foo", "example:", ":custom", "exa mple:custom"] {
        let mut candidate = registration.clone();
        set_target(invalid, &mut candidate);
        assert!(validate_registration(&candidate).is_err(), "target: {invalid:?}");
    }
}

#[test]
fn configuration_schema_is_loosely_validated() {
    let mut registration = normalize_registration("example", &contributes());
    registration.configuration = Some(
        r#"{"type":"object","properties":{"theme":{"type":"string"},"count":{"type":"number"}}}"#
            .to_string(),
    );
    assert!(validate_registration(&registration).is_ok());

    let mut missing_type = registration.clone();
    missing_type.configuration = Some(r#"{"properties":{}}"#.to_string());
    let error = validate_registration(&missing_type).unwrap_err();
    assert!(error.to_string().contains("must declare a 'type'"));

    let mut bad_type = registration.clone();
    bad_type.configuration = Some(r#"{"type":"wat"}"#.to_string());
    let error = validate_registration(&bad_type).unwrap_err();
    assert!(error.to_string().contains("not a valid JSON Schema type"));

    let mut bad_properties = registration.clone();
    bad_properties.configuration = Some(r#"{"type":"object","properties":[]}"#.to_string());
    let error = validate_registration(&bad_properties).unwrap_err();
    assert!(error.to_string().contains("'properties' must be an object"));

    let mut bad_items = registration.clone();
    bad_items.configuration = Some(r#"{"type":"array","items":"string"}"#.to_string());
    let error = validate_registration(&bad_items).unwrap_err();
    assert!(error.to_string().contains("'items' must be an object"));
}

#[test]
fn configuration_must_be_an_object() {
    let error = validate_configuration_schema("[1,2]").unwrap_err();
    assert_eq!(
        error.to_string(),
        "Invalid configuration schema: configuration must be a JSON object schema"
    );
    assert!(validate_configuration_schema(r#"{"type":"array","items":{"type":"string"}}"#).is_ok());
}

#[test]
fn keybindings_need_a_key_a_command_and_no_repeat() {
    let mut registration = normalize_registration("example", &contributes());
    let first = registration.keybindings[0].clone();
    registration.keybindings.push(first);
    let error = validate_registration(&registration).unwrap_err();
    assert_eq!(error.to_string(), "Duplicate keybinding 'Ctrl+K' for command 'open'");

    let mut registration = normalize_registration("example", &contributes());
    registration.keybindings[0].when = None;
    let mut other = registration.keybindings[0].clone();
    other.when = Some("editorFocus".into());
    registration.keybindings.push(other);
    assert!(validate_registration(&registration).is_ok());

    let mut registration = normalize_registration("example", &contributes());
    registration.keybindings[0].command = "missing".into();
    let error = validate_registration(&registration).unwrap_err();
    assert_eq!(error.to_string(), "Keybinding key 'Ctrl+K' references non-existent command 'missing'");

    let mut registration = normalize_registration("example", &contributes());
    registration.keybindings[0].key = " ".into();
    let error = validate_registration(&registration).unwrap_err();
    assert_eq!(error.to_string(), "Keybinding key must not be empty");
}

#[test]
fn blank_extension_id_is_rejected() {
    let registration = normalize_registration("  ", &contributes());
    let error = validate_registration(&registration).unwrap_err();
    assert_eq!(error.to_string(), "Extension ID must not be empty");
}

#[test]
fn menu_targets() {
    assert!(is_builtin_menu_target("Gateway"));
    assert!(!is_builtin_menu_target("gateway"));
    assert!(is_valid_menu_target("  ext.demo:panel "));
    assert!(!is_valid_menu_target("ext demo:panel"));
}

#[test]
fn unique_ids() {
    assert!(validate_unique_ids(UiIdKind::View, &vec!["a".into(), "b".into()]).is_ok());
    let e = validate_unique_ids(UiIdKind::Menu, &vec!["a".into(), "b".into(), "a".into()]).unwrap_err();
    assert_eq!(e.to_string(), "Duplicate menu ID 'a'");
}

#[test]
fn empty_registration_is_empty() {
    let registration = normalize_registration("example", &ExtensionContributes::empty());
    assert!(registration.is_empty());
    assert!(!normalize_registration("example", &contributes()).is_empty());
}

#[test]
fn view_of_another_extension_is_not_looked_up_locally() {
    let mut c = ExtensionContributes::empty();
    c.commands = Some(vec![CommandRegistration {
        id: "open".to_string(),
        label: "Open".to_string(),
        description: None,
        icon: None,
        category: None,
        when: None,
        action: BuiltinAction::OpenView { view_id: "other.ext:panel".to_string() },
    }]);
    let registration = normalize_registration("example", &c);
    assert!(validate_registration(&registration).is_ok());

    let mut local = c.clone();
    local.commands.as_mut().unwrap()[0].action = BuiltinAction::ToggleView { view_id: "panel".to_string() };
    let registration = normalize_registration("example", &local);
    assert!(validate_registration(&registration).is_err());
}
