//! Faithful copies of manifest values. A derived `Clone` carries no
//! contract, so the values the registrars keep are copied through
//! `Duplicate`: a copy has the same strings, flags and lists, field by field.

use vstd::prelude::*;

use crate::models::{
    BuiltinAction, CommandRegistration, ComponentCapabilities, InlineExtensionRegistration, KeybindingRegistration,
    MenuRegistration, ScriptRegistration, SizeValue, StatusBarItemRegistration,
    ToolbarItemRegistration, ViewRegistration, WorkModeRegistration, ZoneAnchor,
    ZoneRegistration,
};

verus! {

/// A value that can be copied field by field.
pub trait Duplicate: Sized {
    /// `self` holds what `source` holds.
    spec fn copy_of(&self, source: &Self) -> bool;

    fn duplicate(&self) -> (r: Self)
        ensures
            r.copy_of(self),
    ;
}

impl Duplicate for String {
    open spec fn copy_of(&self, source: &Self) -> bool {
        *self == *source
    }

    fn duplicate(&self) -> (r: Self) {
        self.clone()
    }
}

impl Duplicate for bool {
    open spec fn copy_of(&self, source: &Self) -> bool {
        *self == *source
    }

    fn duplicate(&self) -> (r: Self) {
        *self
    }
}

impl Duplicate for u32 {
    open spec fn copy_of(&self, source: &Self) -> bool {
        *self == *source
    }

    fn duplicate(&self) -> (r: Self) {
        *self
    }
}

impl<T: Duplicate> Duplicate for Option<T> {
    open spec fn copy_of(&self, source: &Self) -> bool {
        match (self, source) {
            (Some(a), Some(b)) => a.copy_of(b),
            (None, None) => true,
            _ => false,
        }
    }

    fn duplicate(&self) -> (r: Self) {
        match self {
            Some(v) => Some(v.duplicate()),
            None => None,
        }
    }
}

impl<T: Duplicate> Duplicate for Vec<T> {
    open spec fn copy_of(&self, source: &Self) -> bool {
        self@.len() == source@.len() && forall|i: int| 0 <= i < self@.len() ==> #[trigger] self@[i].copy_of(&source@[i])
    }

    fn duplicate(&self) -> (r: Self) {
        let mut out: Vec<T> = Vec::new();
        let n = self.len();
        for i in 0..n
            invariant
                n == self@.len(),
                out@.len() == i,
                forall|k: int| 0 <= k < i ==> #[trigger] out@[k].copy_of(&self@[k]),
        {
            out.push(self[i].duplicate());
        }
        out
    }
}

impl Duplicate for ViewRegistration {
    open spec fn copy_of(&self, source: &Self) -> bool {
        &&& self.id.copy_of(&source.id)
        &&& self.name.copy_of(&source.name)
        &&& self.icon.copy_of(&source.icon)
        &&& self.entry.copy_of(&source.entry)
        &&& self.zone.copy_of(&source.zone)
        &&& self.placement.copy_of(&source.placement)
        &&& self.renderer.copy_of(&source.renderer)
        &&& self.activation_events.copy_of(&source.activation_events)
        &&& self.allow_close.copy_of(&source.allow_close)
        &&& self.default_visible.copy_of(&source.default_visible)
        &&& self.config.copy_of(&source.config)
    }

    fn duplicate(&self) -> (r: Self) {
        ViewRegistration {
            id: self.id.duplicate(),
            name: self.name.duplicate(),
            icon: self.icon.duplicate(),
            entry: self.entry.duplicate(),
            zone: self.zone.duplicate(),
            placement: self.placement.duplicate(),
            renderer: self.renderer.duplicate(),
            activation_events: self.activation_events.duplicate(),
            allow_close: self.allow_close.duplicate(),
            default_visible: self.default_visible.duplicate(),
            config: self.config.duplicate(),
        }
    }
}

impl Duplicate for BuiltinAction {
    open spec fn copy_of(&self, source: &Self) -> bool {
        match (self, source) {
            (BuiltinAction::OpenView { view_id: a }, BuiltinAction::OpenView { view_id: b }) => a.copy_of(b),
            (BuiltinAction::ToggleView { view_id: a }, BuiltinAction::ToggleView { view_id: b }) => a.copy_of(b),
            (
                BuiltinAction::OpenDialog { view_id: a, size: sa, position: pa, modal: ma },
                BuiltinAction::OpenDialog { view_id: b, size: sb, position: pb, modal: mb },
            ) => a.copy_of(b) && sa.copy_of(sb) && pa.copy_of(pb) && ma.copy_of(mb),
            (
                BuiltinAction::RunScript { script_id: a, args: x },
                BuiltinAction::RunScript { script_id: b, args: y },
            ) => a.copy_of(b) && x.copy_of(y),
            (
                BuiltinAction::SendMessage { target: a, payload: x },
                BuiltinAction::SendMessage { target: b, payload: y },
            ) => a.copy_of(b) && x.copy_of(y),
            _ => false,
        }
    }

    fn duplicate(&self) -> (r: Self) {
        match self {
            BuiltinAction::OpenView { view_id } => BuiltinAction::OpenView { view_id: view_id.duplicate() },
            BuiltinAction::ToggleView { view_id } => BuiltinAction::ToggleView { view_id: view_id.duplicate() },
            BuiltinAction::OpenDialog { view_id, size, position, modal } => BuiltinAction::OpenDialog {
                view_id: view_id.duplicate(),
                size: size.duplicate(),
                position: position.duplicate(),
                modal: modal.duplicate(),
            },
            BuiltinAction::RunScript { script_id, args } => BuiltinAction::RunScript {
                script_id: script_id.duplicate(),
                args: args.duplicate(),
            },
            BuiltinAction::SendMessage { target, payload } => BuiltinAction::SendMessage {
                target: target.duplicate(),
                payload: payload.duplicate(),
            },
        }
    }
}

impl Duplicate for CommandRegistration {
    open spec fn copy_of(&self, source: &Self) -> bool {
        &&& self.id.copy_of(&source.id)
        &&& self.label.copy_of(&source.label)
        &&& self.description.copy_of(&source.description)
        &&& self.icon.copy_of(&source.icon)
        &&& self.category.copy_of(&source.category)
        &&& self.when.copy_of(&source.when)
        &&& self.action.copy_of(&source.action)
    }

    fn duplicate(&self) -> (r: Self) {
        CommandRegistration {
            id: self.id.duplicate(),
            label: self.label.duplicate(),
            description: self.description.duplicate(),
            icon: self.icon.duplicate(),
            category: self.category.duplicate(),
            when: self.when.duplicate(),
            action: self.action.duplicate(),
        }
    }
}

impl Duplicate for MenuRegistration {
    open spec fn copy_of(&self, source: &Self) -> bool {
        &&& self.id.copy_of(&source.id)
        &&& self.label.copy_of(&source.label)
        &&& self.target.copy_of(&source.target)
        &&& self.command.copy_of(&source.command)
        &&& self.group.copy_of(&source.group)
        &&& self.when.copy_of(&source.when)
        &&& self.icon.copy_of(&source.icon)
        &&& self.shortcut.copy_of(&source.shortcut)
        &&& self.risk == source.risk
    }

    fn duplicate(&self) -> (r: Self) {
        MenuRegistration {
            id: self.id.duplicate(),
            label: self.label.duplicate(),
            target: self.target.duplicate(),
            command: self.command.duplicate(),
            group: self.group.duplicate(),
            when: self.when.duplicate(),
            icon: self.icon.duplicate(),
            shortcut: self.shortcut.duplicate(),
            risk: self.risk,
        }
    }
}

impl Duplicate for KeybindingRegistration {
    open spec fn copy_of(&self, source: &Self) -> bool {
        &&& self.command.copy_of(&source.command)
        &&& self.key.copy_of(&source.key)
        &&& self.when.copy_of(&source.when)
        &&& self.scope == source.scope
    }

    fn duplicate(&self) -> (r: Self) {
        KeybindingRegistration {
            command: self.command.duplicate(),
            key: self.key.duplicate(),
            when: self.when.duplicate(),
            scope: self.scope,
        }
    }
}

impl Duplicate for WorkModeRegistration {
    open spec fn copy_of(&self, source: &Self) -> bool {
        &&& self.id.copy_of(&source.id)
        &&& self.name.copy_of(&source.name)
        &&& self.description.copy_of(&source.description)
        &&& self.icon.copy_of(&source.icon)
        &&& self.role.copy_of(&source.role)
        &&& self.available_tools.copy_of(&source.available_tools)
        &&& self.skills.copy_of(&source.skills)
        &&& self.commands.copy_of(&source.commands)
        &&& self.context_policy.copy_of(&source.context_policy)
        &&& self.behavior_rules.copy_of(&source.behavior_rules)
        &&& self.entry_view.copy_of(&source.entry_view)
        &&& self.default_views.copy_of(&source.default_views)
        &&& self.default_model.copy_of(&source.default_model)
        &&& self.capabilities.copy_of(&source.capabilities)
    }

    fn duplicate(&self) -> (r: Self) {
        WorkModeRegistration {
            id: self.id.duplicate(),
            name: self.name.duplicate(),
            description: self.description.duplicate(),
            icon: self.icon.duplicate(),
            role: self.role.duplicate(),
            available_tools: self.available_tools.duplicate(),
            skills: self.skills.duplicate(),
            commands: self.commands.duplicate(),
            context_policy: self.context_policy.duplicate(),
            behavior_rules: self.behavior_rules.duplicate(),
            entry_view: self.entry_view.duplicate(),
            default_views: self.default_views.duplicate(),
            default_model: self.default_model.duplicate(),
            capabilities: self.capabilities.duplicate(),
        }
    }
}

impl Duplicate for SizeValue {
    open spec fn copy_of(&self, source: &Self) -> bool {
        &&& self.width.copy_of(&source.width)
        &&& self.height.copy_of(&source.height)
        &&& self.min_width.copy_of(&source.min_width)
        &&& self.max_width.copy_of(&source.max_width)
        &&& self.min_height.copy_of(&source.min_height)
        &&& self.max_height.copy_of(&source.max_height)
    }

    fn duplicate(&self) -> (r: Self) {
        SizeValue {
            width: self.width.duplicate(),
            height: self.height.duplicate(),
            min_width: self.min_width.duplicate(),
            max_width: self.max_width.duplicate(),
            min_height: self.min_height.duplicate(),
            max_height: self.max_height.duplicate(),
        }
    }
}

impl Duplicate for ZoneAnchor {
    open spec fn copy_of(&self, source: &Self) -> bool {
        &&& self.parent.copy_of(&source.parent)
        &&& self.position.copy_of(&source.position)
        &&& self.size.copy_of(&source.size)
    }

    fn duplicate(&self) -> (r: Self) {
        ZoneAnchor {
            parent: self.parent.duplicate(),
            position: self.position.duplicate(),
            size: self.size.duplicate(),
        }
    }
}

impl Duplicate for ZoneRegistration {
    open spec fn copy_of(&self, source: &Self) -> bool {
        &&& self.id.copy_of(&source.id)
        &&& self.name.copy_of(&source.name)
        &&& self.anchor.copy_of(&source.anchor)
    }

    fn duplicate(&self) -> (r: Self) {
        ZoneRegistration {
            id: self.id.duplicate(),
            name: self.name.duplicate(),
            anchor: self.anchor.duplicate(),
        }
    }
}

impl Duplicate for ScriptRegistration {
    open spec fn copy_of(&self, source: &Self) -> bool {
        &&& self.id.copy_of(&source.id)
        &&& self.entry.copy_of(&source.entry)
        &&& self.run_on.copy_of(&source.run_on)
    }

    fn duplicate(&self) -> (r: Self) {
        ScriptRegistration {
            id: self.id.duplicate(),
            entry: self.entry.duplicate(),
            run_on: self.run_on.duplicate(),
        }
    }
}

impl Duplicate for ToolbarItemRegistration {
    open spec fn copy_of(&self, source: &Self) -> bool {
        &&& self.id.copy_of(&source.id)
        &&& self.label.copy_of(&source.label)
        &&& self.icon.copy_of(&source.icon)
        &&& self.command.copy_of(&source.command)
        &&& self.position == source.position
        &&& self.group.copy_of(&source.group)
        &&& self.when.copy_of(&source.when)
    }

    fn duplicate(&self) -> (r: Self) {
        ToolbarItemRegistration {
            id: self.id.duplicate(),
            label: self.label.duplicate(),
            icon: self.icon.duplicate(),
            command: self.command.duplicate(),
            position: self.position,
            group: self.group.duplicate(),
            when: self.when.duplicate(),
        }
    }
}

impl Duplicate for ComponentCapabilities {
    open spec fn copy_of(&self, source: &Self) -> bool {
        &&& self.invoke.copy_of(&source.invoke)
        &&& self.storage.copy_of(&source.storage)
        &&& self.network.copy_of(&source.network)
        &&& self.events.copy_of(&source.events)
    }

    fn duplicate(&self) -> (r: Self) {
        ComponentCapabilities {
            invoke: self.invoke.duplicate(),
            storage: self.storage.duplicate(),
            network: self.network.duplicate(),
            events: self.events.duplicate(),
        }
    }
}

impl Duplicate for StatusBarItemRegistration {
    open spec fn copy_of(&self, source: &Self) -> bool {
        &&& self.id.copy_of(&source.id)
        &&& self.label.copy_of(&source.label)
        &&& self.icon.copy_of(&source.icon)
        &&& self.position == source.position
        &&& self.command.copy_of(&source.command)
        &&& self.priority.copy_of(&source.priority)
        &&& self.when.copy_of(&source.when)
    }

    fn duplicate(&self) -> (r: Self) {
        StatusBarItemRegistration {
            id: self.id.duplicate(),
            label: self.label.duplicate(),
            icon: self.icon.duplicate(),
            position: self.position,
            command: self.command.duplicate(),
            priority: self.priority.duplicate(),
            when: self.when.duplicate(),
        }
    }
}

impl Duplicate for InlineExtensionRegistration {
    open spec fn copy_of(&self, source: &Self) -> bool {
        &&& self.id.copy_of(&source.id)
        &&& self.name.copy_of(&source.name)
        &&& self.target == source.target
        &&& self.position == source.position
        &&& self.component.copy_of(&source.component)
        &&& self.max_items.copy_of(&source.max_items)
        &&& self.priority.copy_of(&source.priority)
        &&& self.visible.copy_of(&source.visible)
        &&& self.when.copy_of(&source.when)
        &&& self.sandbox == source.sandbox
    }

    fn duplicate(&self) -> (r: Self) {
        InlineExtensionRegistration {
            id: self.id.duplicate(),
            name: self.name.duplicate(),
            target: self.target,
            position: self.position,
            component: self.component.duplicate(),
            max_items: self.max_items.duplicate(),
            priority: self.priority.duplicate(),
            visible: self.visible.duplicate(),
            when: self.when.duplicate(),
            sandbox: self.sandbox,
        }
    }
}

} // verus!
