//! Registering an enabled extension's resources with the hosts.
//!
//! Every resource a host accepts is recorded in the extension's runtime
//! handle as soon as it is accepted, so that a failure midway leaves the
//! handle listing exactly what the release must undo.

use vstd::prelude::*;

use crate::contributions::{
    law_commit_then_unregister, lemma_without_absent, normalize_registration, normalizes, prepare_registration,
    registration_fault, registration_ids, registrations_without, UiContributionRegistrar, UiContributionRegistration,
};
use crate::gateway::{
    build_gateway_plan, extension_mcp_server_id, extension_tool_server_id, gateway_plan_fault, gateway_plan_matches,
    parse_tool_risk,
    GatewayPlan,
};
use crate::lifecycle::{count, count_of};
use crate::models::{
    BackendServiceRegistration, ComponentRegistration, EditorLanguageRegistration, ExtensionContributes,
    LSPServerConfig, LanguageSource, MCPServerConfig, SkillDefinition, ToolRegistration,
};
use crate::runtime::{
    apply_mcp_tool_overrides, language_ids, override_targets, override_views, register_lsp_languages,
    commit_ui_contributions, plan_protocols, plan_provider_ids, projects, protocol_views, register_gateway_plan,
    rollback_ui_contributions, same_gateway, unregister_gateway_resources, CleanupError, HostCallLog, HostCall,
    handle_register_logged, all_accepted, registered_in, handle_subjects, call_accepted, ResourceKind,
    lemma_register_refl, lemma_register_record, lemma_register_push, lemma_register_tool_server,
    lemma_register_trans, lemma_register_same, lemma_register_after_release, HostsPresent, handle_release_logged, ExtensionContributionCounts,
    ExtensionRuntimeHandle, ExtensionRuntimeProjection, GatewayCapabilityPort, LspCapabilityPort,
    McpCapabilityPort, ProviderValidationPort, SkillHostPort,
};
use crate::seqs::{opt_seq, push_view, views};
use crate::text::{concat3, concat5, concat6, is_blank, owned, str_eq, trim};

verus! {

// ---------------------------------------------------------------------------
// Identifiers of declared resources
// ---------------------------------------------------------------------------

/// The server ids of an extension's declared MCP servers, in order.
pub open spec fn server_ids(extension_id: Seq<char>, s: Seq<MCPServerConfig>) -> Seq<Seq<char>> {
    s.map_values(|x: MCPServerConfig| "extension:"@ + extension_id + "/"@ + x.name@)
}

/// The ids of declared skills, in order.
pub open spec fn skill_ids(s: Seq<SkillDefinition>) -> Seq<Seq<char>> {
    s.map_values(|x: SkillDefinition| x.id@)
}

/// The ids of declared editor languages, in order.
pub open spec fn editor_language_ids(s: Seq<EditorLanguageRegistration>) -> Seq<Seq<char>> {
    s.map_values(|x: EditorLanguageRegistration| x.id@)
}

// ---------------------------------------------------------------------------
// MCP servers and tools
// ---------------------------------------------------------------------------

/// Adds each declared MCP server under its extension server id, in order,
/// recording and counting each server the host accepted, and starts it when
/// the host says it starts at once. Stops at the first refusal.
#[verifier::loop_isolation(false)]
pub fn register_mcp_servers<M: McpCapabilityPort + ?Sized>(
    extension_id: &str,
    servers: &Vec<MCPServerConfig>,
    mcp: &M,
    handle: &mut ExtensionRuntimeHandle,
    log: &mut HostCallLog,
) -> (r: Result<(), String>)
    requires
        old(handle).projection.contribution_counts.mcp_servers + servers@.len() <= usize::MAX,
    ensures
        handle_register_logged(*old(handle), *final(handle), old(log).calls(), final(log).calls()),
        r is Ok ==> all_accepted(old(log).calls(), final(log).calls()),
        old(handle).mcp_servers@.len() <= final(handle).mcp_servers@.len() <= old(handle).mcp_servers@.len()
            + servers@.len(),
        views(final(handle).mcp_servers@) == views(old(handle).mcp_servers@) + server_ids(extension_id@, servers@).take(
            final(handle).mcp_servers@.len() - old(handle).mcp_servers@.len(),
        ),
        r is Ok ==> final(handle).mcp_servers@.len() == old(handle).mcp_servers@.len() + servers@.len(),
        servers@.len() == 0 ==> r is Ok,
        final(handle).projection == (ExtensionRuntimeProjection {
            contribution_counts: ExtensionContributionCounts {
                mcp_servers: (old(handle).projection.contribution_counts.mcp_servers + final(handle).mcp_servers@.len()
                    - old(handle).mcp_servers@.len()) as usize,
                ..old(handle).projection.contribution_counts
            },
            ..old(handle).projection
        }),
        same_gateway(*final(handle), *old(handle)),
        final(handle).tool_server_ids == old(handle).tool_server_ids,
        final(handle).tool_overrides == old(handle).tool_overrides,
        final(handle).skills == old(handle).skills,
        final(handle).languages == old(handle).languages,
        final(handle).ui_contribution_registered == old(handle).ui_contribution_registered,
{
    let ghost h0 = *handle;
    let ghost l0 = log.calls();
    let ghost ids = server_ids(extension_id@, servers@);
    proof {
        lemma_register_refl(h0, l0);
    }
    let n = servers.len();
    for i in 0..n
        invariant
            n == servers@.len(),
            handle.mcp_servers@.len() == h0.mcp_servers@.len() + i,
            views(handle.mcp_servers@) == views(h0.mcp_servers@) + ids.take(i as int),
            handle.projection == (ExtensionRuntimeProjection {
                contribution_counts: ExtensionContributionCounts {
                    mcp_servers: (h0.projection.contribution_counts.mcp_servers + i) as usize,
                    ..h0.projection.contribution_counts
                },
                ..h0.projection
            }),
            same_gateway(*handle, h0),
            handle.tool_server_ids == h0.tool_server_ids,
            handle.tool_overrides == h0.tool_overrides,
            handle.skills == h0.skills,
            handle.languages == h0.languages,
            handle.ui_contribution_registered == h0.ui_contribution_registered,
            handle_register_logged(h0, *handle, l0, log.calls()),
            all_accepted(l0, log.calls()),
    {
        let server = &servers[i];
        let server_id = extension_mcp_server_id(extension_id, server.name.as_str());
        let added = mcp.add_server(server_id.as_str(), server);
        let ghost prev = *handle;
        let ghost call = HostCall::Register { kind: ResourceKind::McpServer, subject: server_id@, accepted: added is Ok };
        proof {
            lemma_register_record(h0, prev, l0, log.calls(), call);
        }
        log.record(Ghost(call));
        let auto_start = match added {
            Ok(a) => a,
            Err(e) => return Err(e),
        };
        push_view(&mut handle.mcp_servers, server_id.as_str());
        handle.projection.contribution_counts.mcp_servers = handle.projection.contribution_counts.mcp_servers + 1;
        proof {
            assert(handle_register_logged(h0, *handle, l0, log.calls())) by {
                assert(log.calls()[log.calls().len() - 1] == call);
                assert(registered_in(log.calls(), ResourceKind::McpServer, server_id@));
                assert forall|k: ResourceKind| k != ResourceKind::McpServer implies #[trigger] handle_subjects(*handle, k)
                    == handle_subjects(prev, k) by {}
                lemma_register_push(h0, prev, *handle, ResourceKind::McpServer, server_id@, l0, log.calls());
            }
            assert(ids[i as int] == server_id@);
            assert(views(h0.mcp_servers@) + ids.take(i + 1) =~= (views(h0.mcp_servers@) + ids.take(i as int)).push(
                ids[i as int],
            ));
        }
        if auto_start {
            let started = mcp.start_server(server_id.as_str());
            let ghost start_call = HostCall::Register {
                kind: ResourceKind::McpServer,
                subject: server_id@,
                accepted: started is Ok,
            };
            proof {
                lemma_register_record(h0, *handle, l0, log.calls(), start_call);
            }
            log.record(Ghost(start_call));
            if let Err(e) = started {
                return Err(e);
            }
        }
    }
    proof {
        assert(ids.take(n as int) =~= ids);
    }
    Ok(())
}

/// Records the extension's tool server, then registers each declared tool
/// under it, in order, with its parsed risk level. Stops at the first
/// declaration whose risk level is unknown or that the host refuses.
#[verifier::loop_isolation(false)]
pub fn register_tools<M: McpCapabilityPort + ?Sized>(
    extension_id: &str,
    tools: &Vec<ToolRegistration>,
    mcp: &M,
    handle: &mut ExtensionRuntimeHandle,
    log: &mut HostCallLog,
) -> (r: Result<(), String>)
    ensures
        handle_register_logged(*old(handle), *final(handle), old(log).calls(), final(log).calls()),
        r is Ok ==> all_accepted(old(log).calls(), final(log).calls()),
        views(final(handle).tool_server_ids@) == views(old(handle).tool_server_ids@).push("extension:"@ + extension_id@),
        same_gateway(*final(handle), *old(handle)),
        final(handle).tool_overrides == old(handle).tool_overrides,
        final(handle).mcp_servers == old(handle).mcp_servers,
        final(handle).skills == old(handle).skills,
        final(handle).languages == old(handle).languages,
        final(handle).ui_contribution_registered == old(handle).ui_contribution_registered,
        final(handle).projection == old(handle).projection,
{
    let ghost h0 = *handle;
    let ghost l0 = log.calls();
    let server_id = extension_tool_server_id(extension_id);
    push_view(&mut handle.tool_server_ids, server_id.as_str());
    proof {
        lemma_register_refl(h0, l0);
        assert forall|k: ResourceKind| k != ResourceKind::ToolServer implies #[trigger] handle_subjects(*handle, k)
            == handle_subjects(h0, k) by {}
        lemma_register_tool_server(h0, h0, *handle, l0, l0);
    }
    let ghost h1 = *handle;
    let n = tools.len();
    for i in 0..n
        invariant
            n == tools@.len(),
            *handle == h1,
            handle_register_logged(h0, h1, l0, log.calls()),
            all_accepted(l0, log.calls()),
    {
        let tool = &tools[i];
        let declared_risk = match &tool.declared_risk {
            Some(v) => match parse_tool_risk(v.as_str()) {
                Ok(level) => Some(level),
                Err(e) => return Err(e.to_string()),
            },
            None => None,
        };
        let answer = mcp.register_tool(server_id.as_str(), tool, declared_risk);
        let ghost call = HostCall::Register { kind: ResourceKind::ToolServer, subject: server_id@, accepted: answer is Ok };
        proof {
            lemma_register_record(h0, h1, l0, log.calls(), call);
        }
        log.record(Ghost(call));
        if let Err(e) = answer {
            return Err(e);
        }
    }
    Ok(())
}

// ---------------------------------------------------------------------------
// Skills
// ---------------------------------------------------------------------------

/// Registers each declared skill with the skills host, in order, recording
/// each accepted skill id. Stops at the first refusal.
#[verifier::loop_isolation(false)]
pub fn register_skills<S: SkillHostPort + ?Sized>(
    extension_id: &str,
    skills: &Vec<SkillDefinition>,
    host: &S,
    handle: &mut ExtensionRuntimeHandle,
    log: &mut HostCallLog,
) -> (r: Result<(), String>)
    ensures
        handle_register_logged(*old(handle), *final(handle), old(log).calls(), final(log).calls()),
        r is Ok ==> all_accepted(old(log).calls(), final(log).calls()),
        old(handle).skills@.len() <= final(handle).skills@.len() <= old(handle).skills@.len() + skills@.len(),
        views(final(handle).skills@) == views(old(handle).skills@) + skill_ids(skills@).take(
            final(handle).skills@.len() - old(handle).skills@.len(),
        ),
        r is Ok ==> final(handle).skills@.len() == old(handle).skills@.len() + skills@.len(),
        skills@.len() == 0 ==> r is Ok,
        same_gateway(*final(handle), *old(handle)),
        final(handle).tool_server_ids == old(handle).tool_server_ids,
        final(handle).tool_overrides == old(handle).tool_overrides,
        final(handle).mcp_servers == old(handle).mcp_servers,
        final(handle).languages == old(handle).languages,
        final(handle).ui_contribution_registered == old(handle).ui_contribution_registered,
        final(handle).projection == old(handle).projection,
{
    let ghost h0 = *handle;
    let ghost l0 = log.calls();
    proof {
        lemma_register_refl(h0, l0);
    }
    let ghost ids = skill_ids(skills@);
    let n = skills.len();
    for i in 0..n
        invariant
            n == skills@.len(),
            handle.skills@.len() == h0.skills@.len() + i,
            views(handle.skills@) == views(h0.skills@) + ids.take(i as int),
            same_gateway(*handle, h0),
            handle.tool_server_ids == h0.tool_server_ids,
            handle.tool_overrides == h0.tool_overrides,
            handle.mcp_servers == h0.mcp_servers,
            handle.languages == h0.languages,
            handle.ui_contribution_registered == h0.ui_contribution_registered,
            handle.projection == h0.projection,
            handle_register_logged(h0, *handle, l0, log.calls()),
            all_accepted(l0, log.calls()),
    {
        let skill = &skills[i];
        let answer = host.register_extension_skill(extension_id, skill);
        let ghost prev = *handle;
        let ghost call = HostCall::Register { kind: ResourceKind::Skill, subject: skill.id@, accepted: answer is Ok };
        proof {
            lemma_register_record(h0, prev, l0, log.calls(), call);
        }
        log.record(Ghost(call));
        if let Err(e) = answer {
            return Err(e);
        }
        push_view(&mut handle.skills, skill.id.as_str());
        proof {
            assert(handle_register_logged(h0, *handle, l0, log.calls())) by {
                assert(log.calls()[log.calls().len() - 1] == call);
                assert(registered_in(log.calls(), ResourceKind::Skill, skill.id@));
                assert forall|k: ResourceKind| k != ResourceKind::Skill implies #[trigger] handle_subjects(*handle, k)
                    == handle_subjects(prev, k) by {}
                lemma_register_push(h0, prev, *handle, ResourceKind::Skill, skill.id@, l0, log.calls());
            }
            assert(ids[i as int] == skill.id@);
            assert(views(h0.skills@) + ids.take(i + 1) =~= (views(h0.skills@) + ids.take(i as int)).push(
                ids[i as int],
            ));
        }
    }
    proof {
        assert(ids.take(n as int) =~= ids);
    }
    Ok(())
}

// ---------------------------------------------------------------------------
// Editor languages
// ---------------------------------------------------------------------------

/// The LSP configuration of an editor language: its id, name and file
/// extensions, and no server.
pub fn editor_language_server_config(language: &EditorLanguageRegistration) -> (r: LSPServerConfig)
    ensures
        r.language_id@ == language.id@,
        r.language_names@.len() == 1,
        r.language_names@[0]@ == language.name@,
        views(r.file_extensions@) == views(language.extensions@),
        r.server_command@ == Seq::<char>::empty(),
        r.server_args@.len() == 0,
        r.initialization_options is None,
        r.capabilities_required@.len() == 0,
{
    let mut names: Vec<String> = Vec::new();
    names.push(owned(language.name.as_str()));
    let mut file_extensions: Vec<String> = Vec::new();
    let n = language.extensions.len();
    for i in 0..n
        invariant
            n == language.extensions@.len(),
            views(file_extensions@) == views(language.extensions@).take(i as int),
    {
        let ghost prev = file_extensions@;
        push_view(&mut file_extensions, language.extensions[i].as_str());
        proof {
            assert(views(language.extensions@).take(i + 1) =~= views(language.extensions@).take(i as int).push(
                language.extensions@[i as int]@,
            ));
        }
    }
    proof {
        assert(views(language.extensions@).take(n as int) =~= views(language.extensions@));
    }
    LSPServerConfig {
        language_id: owned(language.id.as_str()),
        language_names: names,
        file_extensions,
        server_command: String::new(),
        server_args: Vec::new(),
        initialization_options: None,
        capabilities_required: Vec::new(),
    }
}

/// Registers each editor language with the LSP host on behalf of
/// `extension_id`, in order, recording each accepted language id with the
/// extension's other languages. Stops at the first refusal.
#[verifier::loop_isolation(false)]
pub fn register_editor_languages<L: LspCapabilityPort + ?Sized>(
    extension_id: &str,
    languages: &Vec<EditorLanguageRegistration>,
    lsp: &L,
    handle: &mut ExtensionRuntimeHandle,
    log: &mut HostCallLog,
) -> (r: Result<(), String>)
    ensures
        handle_register_logged(*old(handle), *final(handle), old(log).calls(), final(log).calls()),
        r is Ok ==> all_accepted(old(log).calls(), final(log).calls()),
        old(handle).languages@.len() <= final(handle).languages@.len() <= old(handle).languages@.len()
            + languages@.len(),
        views(final(handle).languages@) == views(old(handle).languages@) + editor_language_ids(languages@).take(
            final(handle).languages@.len() - old(handle).languages@.len(),
        ),
        r is Ok ==> final(handle).languages@.len() == old(handle).languages@.len() + languages@.len(),
        languages@.len() == 0 ==> r is Ok,
        same_gateway(*final(handle), *old(handle)),
        final(handle).tool_server_ids == old(handle).tool_server_ids,
        final(handle).tool_overrides == old(handle).tool_overrides,
        final(handle).mcp_servers == old(handle).mcp_servers,
        final(handle).skills == old(handle).skills,
        final(handle).ui_contribution_registered == old(handle).ui_contribution_registered,
        final(handle).projection == old(handle).projection,
{
    let ghost h0 = *handle;
    let ghost l0 = log.calls();
    proof {
        lemma_register_refl(h0, l0);
    }
    let ghost ids = editor_language_ids(languages@);
    let n = languages.len();
    for i in 0..n
        invariant
            n == languages@.len(),
            handle.languages@.len() == h0.languages@.len() + i,
            views(handle.languages@) == views(h0.languages@) + ids.take(i as int),
            same_gateway(*handle, h0),
            handle.tool_server_ids == h0.tool_server_ids,
            handle.tool_overrides == h0.tool_overrides,
            handle.mcp_servers == h0.mcp_servers,
            handle.skills == h0.skills,
            handle.ui_contribution_registered == h0.ui_contribution_registered,
            handle.projection == h0.projection,
            handle_register_logged(h0, *handle, l0, log.calls()),
            all_accepted(l0, log.calls()),
    {
        let language = &languages[i];
        let config = editor_language_server_config(language);
        let source = LanguageSource::Extension { owner: owned(extension_id) };
        let answer = lsp.register_language(config, source);
        let ghost prev = *handle;
        let ghost call = HostCall::Register { kind: ResourceKind::Language, subject: language.id@, accepted: answer is Ok };
        proof {
            lemma_register_record(h0, prev, l0, log.calls(), call);
        }
        log.record(Ghost(call));
        if let Err(e) = answer {
            return Err(
                concat6(
                    "Extension '",
                    extension_id,
                    "' failed to register editor language '",
                    language.id.as_str(),
                    "': ",
                    e.as_str(),
                ),
            );
        }
        push_view(&mut handle.languages, language.id.as_str());
        proof {
            assert(handle_register_logged(h0, *handle, l0, log.calls())) by {
                assert(log.calls()[log.calls().len() - 1] == call);
                assert(registered_in(log.calls(), ResourceKind::Language, language.id@));
                assert forall|k: ResourceKind| k != ResourceKind::Language implies #[trigger] handle_subjects(*handle, k)
                    == handle_subjects(prev, k) by {}
                lemma_register_push(h0, prev, *handle, ResourceKind::Language, language.id@, l0, log.calls());
            }
            assert(ids[i as int] == language.id@);
            assert(views(h0.languages@) + ids.take(i + 1) =~= (views(h0.languages@) + ids.take(i as int)).push(
                ids[i as int],
            ));
        }
    }
    proof {
        assert(ids.take(n as int) =~= ids);
    }
    Ok(())
}


// ---------------------------------------------------------------------------
// Backend services and components
// ---------------------------------------------------------------------------

/// The backend process host, as the lifecycle uses it.
pub trait BackendServicePort {
    fn spawn_for_lifecycle(&self, extension_id: &str, service: &BackendServiceRegistration) -> Result<(), String>;

    fn kill_all_for_extension(&self, extension_id: &str);
}

/// The component host, as the lifecycle uses it.
pub trait ComponentHostPort {
    /// Loads a component and answers its id.
    fn load(&mut self, extension_id: &str, component: &ComponentRegistration) -> Result<String, String>;

    fn activate(&mut self, extension_id: &str, component_id: &str) -> Result<(), String>;

    fn dispose_all_for_extension(&mut self, extension_id: &str);
}

/// A component is activated as soon as it is loaded when it starts at once,
/// or runs on activation, or must stay instantiated to receive messages.
pub open spec fn runs_on_load(c: ComponentRegistration) -> bool {
    c.autostart || exists|k: int|
        0 <= k < c.run_on@.len() && (#[trigger] c.run_on@[k]@ == "activation"@ || c.run_on@[k]@ == "message"@)
}

/// Whether a component is activated as soon as it is loaded.
pub fn activates_on_load(component: &ComponentRegistration) -> (r: bool)
    ensures
        r == runs_on_load(*component),
{
    if component.autostart {
        return true;
    }
    let n = component.run_on.len();
    let mut i: usize = 0;
    while i < n
        invariant
            n == component.run_on@.len(),
            i <= n,
            !component.autostart,
            forall|k: int|
                0 <= k < i ==> !(#[trigger] component.run_on@[k]@ == "activation"@ || component.run_on@[k]@
                    == "message"@),
        decreases n - i,
    {
        let event = component.run_on[i].as_str();
        if str_eq(event, "activation") || str_eq(event, "message") {
            return true;
        }
        i = i + 1;
    }
    false
}

/// Starts each backend service that starts at once; when one fails, every
/// process of the extension is stopped.
fn commit_backend_services<B: BackendServicePort + ?Sized>(
    extension_id: &str,
    services: &Vec<BackendServiceRegistration>,
    backend: &B,
) -> (r: Result<(), String>)
    ensures
        (forall|i: int| 0 <= i < services@.len() ==> !(#[trigger] services@[i]).autostart) ==> r is Ok,
        r matches Err(e) ==> exists|i: int|
            0 <= i < services@.len() && (#[trigger] services@[i]).autostart && ("Extension '"@ + extension_id@
                + "' failed to start backend service '"@ + services@[i].id@ + "': "@).is_prefix_of(e@),
{
    let n = services.len();
    for i in 0..n
        invariant
            n == services@.len(),
    {
        let service = &services[i];
        if service.autostart {
            if let Err(e) = backend.spawn_for_lifecycle(extension_id, service) {
                backend.kill_all_for_extension(extension_id);
                let m = concat6(
                    "Extension '",
                    extension_id,
                    "' failed to start backend service '",
                    service.id.as_str(),
                    "': ",
                    e.as_str(),
                );
                proof {
                    let p = "Extension '"@ + extension_id@ + "' failed to start backend service '"@ + service.id@
                        + "': "@;
                    assert(m@.subrange(0, p.len() as int) =~= p);
                    assert(services@[i as int] == *service);
                }
                return Err(m);
            }
        }
    }
    Ok(())
}

/// Loads each component, activating those that run on load; when one
/// fails, every component of the extension is disposed.
fn commit_components<C: ComponentHostPort + ?Sized>(
    extension_id: &str,
    components: &Vec<ComponentRegistration>,
    host: &mut C,
) -> (r: Result<(), String>)
    ensures
        components@.len() == 0 ==> r is Ok,
        r matches Err(e) ==> exists|i: int|
            0 <= i < components@.len() && (("Extension '"@ + extension_id@ + "' failed to load component '"@
                + (#[trigger] components@[i]).id@ + "': "@).is_prefix_of(e@) || (runs_on_load(components@[i])
                && ("Extension '"@ + extension_id@ + "' failed to activate component '"@ + components@[i].id@
                + "': "@).is_prefix_of(e@))),
{
    let n = components.len();
    for i in 0..n
        invariant
            n == components@.len(),
    {
        let component = &components[i];
        let component_id = match host.load(extension_id, component) {
            Ok(id) => id,
            Err(e) => {
                host.dispose_all_for_extension(extension_id);
                let m = concat6(
                    "Extension '",
                    extension_id,
                    "' failed to load component '",
                    component.id.as_str(),
                    "': ",
                    e.as_str(),
                );
                proof {
                    let p = "Extension '"@ + extension_id@ + "' failed to load component '"@ + component.id@ + "': "@;
                    assert(m@.subrange(0, p.len() as int) =~= p);
                    assert(components@[i as int] == *component);
                }
                return Err(m);
            },
        };
        if activates_on_load(component) {
            if let Err(e) = host.activate(extension_id, component_id.as_str()) {
                host.dispose_all_for_extension(extension_id);
                let m = concat6(
                    "Extension '",
                    extension_id,
                    "' failed to activate component '",
                    component.id.as_str(),
                    "': ",
                    e.as_str(),
                );
                proof {
                    let p = "Extension '"@ + extension_id@ + "' failed to activate component '"@ + component.id@
                        + "': "@;
                    assert(m@.subrange(0, p.len() as int) =~= p);
                    assert(components@[i as int] == *component);
                }
                return Err(m);
            }
        }
    }
    Ok(())
}

// ---------------------------------------------------------------------------
// Declarations the families check before any commit
// ---------------------------------------------------------------------------

/// Every editor language, backend service and component is declared with a
/// non-blank id, and every service and component with a non-blank entry.
pub open spec fn family_declarations_ok(c: ExtensionContributes) -> bool {
    &&& forall|k: int|
        0 <= k < opt_seq(c.editor_languages).len() ==> trim(#[trigger] opt_seq(c.editor_languages)[k].id@).len() > 0
    &&& forall|k: int|
        0 <= k < opt_seq(c.backend_services).len() ==> trim(#[trigger] opt_seq(c.backend_services)[k].id@).len() > 0
            && trim(opt_seq(c.backend_services)[k].entry@).len() > 0
    &&& forall|k: int|
        0 <= k < opt_seq(c.components).len() ==> trim(#[trigger] opt_seq(c.components)[k].id@).len() > 0 && trim(
            opt_seq(c.components)[k].entry@,
        ).len() > 0
}

/// Checks the editor language, backend service and component declarations,
/// in that order, and names the first one declared without an id or entry.
fn check_family_declarations(extension_id: &str, c: &ExtensionContributes) -> (r: Result<(), String>)
    ensures
        r is Ok <==> family_declarations_ok(*c),
{
    if let Some(languages) = &c.editor_languages {
        let n = languages.len();
        for i in 0..n
            invariant
                n == languages@.len(),
                c.editor_languages == Some(*languages),
                forall|k: int| 0 <= k < i ==> trim(#[trigger] languages@[k].id@).len() > 0,
        {
            if is_blank(languages[i].id.as_str()) {
                proof {
                    assert(opt_seq(c.editor_languages)[i as int] == languages@[i as int]);
                }
                return Err(concat3("Extension '", extension_id, "' declares an editor language with an empty id"));
            }
        }
    }
    if let Some(services) = &c.backend_services {
        let n = services.len();
        for i in 0..n
            invariant
                n == services@.len(),
                c.backend_services == Some(*services),
                forall|k: int|
                    0 <= k < i ==> trim(#[trigger] services@[k].id@).len() > 0 && trim(services@[k].entry@).len() > 0,
        {
            let service = &services[i];
            proof {
                assert(opt_seq(c.backend_services)[i as int] == services@[i as int]);
            }
            if is_blank(service.id.as_str()) {
                return Err(concat3("Extension '", extension_id, "' declares a backend service with an empty id"));
            }
            if is_blank(service.entry.as_str()) {
                return Err(
                    concat5(
                        "Extension '",
                        extension_id,
                        "' declares backend service '",
                        service.id.as_str(),
                        "' with an empty entry",
                    ),
                );
            }
        }
    }
    if let Some(components) = &c.components {
        let n = components.len();
        for i in 0..n
            invariant
                n == components@.len(),
                c.components == Some(*components),
                forall|k: int|
                    0 <= k < i ==> trim(#[trigger] components@[k].id@).len() > 0 && trim(components@[k].entry@).len()
                        > 0,
        {
            let component = &components[i];
            proof {
                assert(opt_seq(c.components)[i as int] == components@[i as int]);
            }
            if is_blank(component.id.as_str()) {
                return Err(concat3("Extension '", extension_id, "' declares a component with an empty id"));
            }
            if is_blank(component.entry.as_str()) {
                return Err(
                    concat5(
                        "Extension '",
                        extension_id,
                        "' declares component '",
                        component.id.as_str(),
                        "' with an empty entry",
                    ),
                );
            }
        }
    }
    Ok(())
}

// ---------------------------------------------------------------------------
// The contribution families as one transaction
// ---------------------------------------------------------------------------

/// Undoes the families committed before a failure, last first: backend
/// processes, the UI registration, then the Gateway resources. A Gateway
/// resource its host fails to release stays recorded for the final cleanup.
fn roll_back_families<G: GatewayCapabilityPort + ?Sized, V: ProviderValidationPort + ?Sized, B: BackendServicePort + ?Sized>(
    extension_id: &str,
    registrar: &mut UiContributionRegistrar,
    handle: &mut ExtensionRuntimeHandle,
    gateway_committed: bool,
    backend_committed: bool,
    gateway: Option<&G>,
    provider_validation: Option<&V>,
    backend: Option<&B>,
    log: &mut HostCallLog,
)
    requires
        old(registrar).wf(),
    ensures
        final(registrar).wf(),
        old(handle).ui_contribution_registered ==> final(registrar)@ == registrations_without(
            old(registrar)@,
            extension_id@,
        ),
        !old(handle).ui_contribution_registered ==> final(registrar)@ == old(registrar)@,
        !final(handle).ui_contribution_registered,
        final(handle).tool_server_ids == old(handle).tool_server_ids,
        final(handle).tool_overrides == old(handle).tool_overrides,
        final(handle).mcp_servers == old(handle).mcp_servers,
        final(handle).skills == old(handle).skills,
        final(handle).languages == old(handle).languages,
        handle_register_logged(*old(handle), *final(handle), old(log).calls(), final(log).calls()),
{
    if backend_committed {
        if let Some(b) = backend {
            b.kill_all_for_extension(extension_id);
        }
    }
    let ghost h0 = *handle;
    let ghost l0 = log.calls();
    rollback_ui_contributions(registrar, extension_id, handle);
    let ghost h1 = *handle;
    proof {
        assert forall|k: ResourceKind| #[trigger] handle_subjects(h1, k) == handle_subjects(h0, k) by {}
        lemma_register_same(h0, h1, l0);
    }
    if gateway_committed {
        let mut ignored: Vec<CleanupError> = Vec::new();
        unregister_gateway_resources(extension_id, handle, gateway, provider_validation, &mut ignored, log);
        proof {
            let p = HostsPresent {
                gateway: gateway is Some,
                provider_validation: provider_validation is Some,
                mcp: false,
                skills: false,
                lsp: false,
            };
            assert(handle_release_logged(h1, *handle, p, Seq::empty(), ignored@, l0, log.calls()));
            lemma_register_after_release(h1, *handle, p, Seq::empty(), ignored@, l0, log.calls());
            lemma_register_trans(h0, h1, *handle, l0, l0, log.calls());
        }
    }
}

/// The UI registration the contributions make can be committed: it is
/// empty, or it is valid and the extension has no registration yet.
pub open spec fn ui_can_register(
    registrations: Seq<UiContributionRegistration>,
    extension_id: Seq<char>,
    c: ExtensionContributes,
) -> bool {
    forall|reg: UiContributionRegistration|
        #[trigger] normalizes(reg, extension_id, c) ==> reg.spec_is_empty() || (registration_fault(reg) is None
            && !registration_ids(registrations).contains(extension_id))
}

/// The contributions declare nothing a host must take.
pub open spec fn no_host_needed(c: ExtensionContributes) -> bool {
    &&& count(c.mcp_servers) == 0
    &&& c.mcp_tool_overrides is None
    &&& c.tools is None
    &&& c.skills is None
    &&& c.languages is None
    &&& c.gateway is None
    &&& count(c.editor_languages) == 0
    &&& count(c.backend_services) == 0
    &&& count(c.components) == 0
}

/// The refusal of the first family after the UI whose host is missing,
/// when no family before it in that order is declared.
pub open spec fn missing_family_host_text(
    extension_id: Seq<char>,
    c: ExtensionContributes,
    lsp_present: bool,
    backend_present: bool,
    components_present: bool,
) -> Option<Seq<char>> {
    if count(c.editor_languages) > 0 && !lsp_present {
        Some("Extension '"@ + extension_id + "' declares editor languages but LSP host is not available"@)
    } else if count(c.editor_languages) == 0 && count(c.backend_services) > 0 && !backend_present {
        Some("Extension '"@ + extension_id + "' declares backend services but backend host is not available"@)
    } else if count(c.editor_languages) == 0 && count(c.backend_services) == 0 && count(c.components) > 0
        && !components_present {
        Some("Extension '"@ + extension_id + "' declares components but component host is not available"@)
    } else {
        None
    }
}

/// The refusal of the first declaration registered before the contribution
/// families whose host is missing, when nothing before it in that order is
/// declared: MCP servers, MCP tool overrides, tools, skills, LSP languages.
pub open spec fn missing_direct_host_text(
    extension_id: Seq<char>,
    c: ExtensionContributes,
    mcp_present: bool,
    skills_present: bool,
    lsp_present: bool,
) -> Option<Seq<char>> {
    if count(c.mcp_servers) > 0 && !mcp_present {
        Some("Extension '"@ + extension_id + "' declares MCP server '"@ + opt_seq(c.mcp_servers)[0].name@
            + "' but MCP host is not available"@)
    } else if count(c.mcp_servers) == 0 && c.mcp_tool_overrides is Some && !mcp_present {
        Some("Extension '"@ + extension_id + "' declares MCP tool overrides but MCP host is not available"@)
    } else if count(c.mcp_servers) == 0 && c.mcp_tool_overrides is None && c.tools is Some && !mcp_present {
        Some("Extension '"@ + extension_id + "' declares tools but MCP host is not available"@)
    } else if count(c.mcp_servers) == 0 && c.mcp_tool_overrides is None && c.tools is None && c.skills is Some
        && !skills_present {
        Some("Skills host is not available for extension `"@ + extension_id + "`"@)
    } else if count(c.mcp_servers) == 0 && c.mcp_tool_overrides is None && c.tools is None && c.skills is None
        && c.languages is Some && !lsp_present {
        Some("Extension '"@ + extension_id + "' declares LSP languages but LSP host is not available"@)
    } else {
        None
    }
}

/// Nothing is declared that is registered before the contribution families.
pub open spec fn no_direct_declarations(c: ExtensionContributes) -> bool {
    &&& count(c.mcp_servers) == 0
    &&& c.mcp_tool_overrides is None
    &&& c.tools is None
    &&& c.skills is None
    &&& c.languages is None
}

/// Commits the families after the UI, in order: editor languages, backend
/// services, components. A family that fails cleans up after itself;
/// returns whether backend services were committed, for the caller to roll
/// back when a later family fails.
fn commit_remaining_families<L: LspCapabilityPort + ?Sized, B: BackendServicePort + ?Sized, C: ComponentHostPort + ?Sized>(
    extension_id: &str,
    contributes: &ExtensionContributes,
    handle: &mut ExtensionRuntimeHandle,
    lsp: Option<&L>,
    backend: Option<&B>,
    components: Option<&mut C>,
    log: &mut HostCallLog,
) -> (r: (Result<(), String>, bool))
    ensures
        same_gateway(*final(handle), *old(handle)),
        final(handle).tool_server_ids == old(handle).tool_server_ids,
        final(handle).tool_overrides == old(handle).tool_overrides,
        final(handle).mcp_servers == old(handle).mcp_servers,
        final(handle).skills == old(handle).skills,
        final(handle).ui_contribution_registered == old(handle).ui_contribution_registered,
        final(handle).projection == old(handle).projection,
        old(handle).languages@.len() <= final(handle).languages@.len() <= old(handle).languages@.len() + count(
            contributes.editor_languages,
        ),
        views(final(handle).languages@) == views(old(handle).languages@) + editor_language_ids(
            opt_seq(contributes.editor_languages),
        ).take(final(handle).languages@.len() - old(handle).languages@.len()),
        r.0 is Ok ==> final(handle).languages@.len() == old(handle).languages@.len() + count(
            contributes.editor_languages,
        ),
        count(contributes.editor_languages) > 0 && lsp is None ==> r.0 is Err,
        count(contributes.backend_services) > 0 && backend is None ==> r.0 is Err,
        count(contributes.components) > 0 && components is None ==> r.0 is Err,
        count(contributes.editor_languages) == 0 && count(contributes.backend_services) == 0 && count(
            contributes.components,
        ) == 0 ==> r.0 is Ok,
        missing_family_host_text(extension_id@, *contributes, lsp is Some, backend is Some, components is Some) matches Some(
            t,
        ) ==> (r.0 matches Err(m) && m@ == t),
        handle_register_logged(*old(handle), *final(handle), old(log).calls(), final(log).calls()),
        r.0 is Ok ==> all_accepted(old(log).calls(), final(log).calls()),
{
    proof {
        lemma_register_refl(*handle, log.calls());
        assert(editor_language_ids(opt_seq(contributes.editor_languages)).take(0) =~= Seq::<Seq<char>>::empty());
        assert(views(handle.languages@) =~= views(handle.languages@) + Seq::<Seq<char>>::empty());
    }
    if let Some(languages) = &contributes.editor_languages {
        if languages.len() > 0 {
            match lsp {
                None => {
                    let e = concat3(
                        "Extension '",
                        extension_id,
                        "' declares editor languages but LSP host is not available",
                    );
                    return (Err(e), false);
                },
                Some(l) => {
                    if let Err(e) = register_editor_languages(extension_id, languages, l, handle, log) {
                        return (Err(e), false);
                    }
                },
            }
        }
    }
    let mut backend_committed = false;
    if let Some(services) = &contributes.backend_services {
        if services.len() > 0 {
            match backend {
                None => {
                    let e = concat3(
                        "Extension '",
                        extension_id,
                        "' declares backend services but backend host is not available",
                    );
                    return (Err(e), false);
                },
                Some(b) => {
                    if let Err(e) = commit_backend_services(extension_id, services, b) {
                        return (Err(e), false);
                    }
                    backend_committed = true;
                },
            }
        }
    }
    if let Some(list) = &contributes.components {
        if list.len() > 0 {
            match components {
                None => {
                    let e = concat3(
                        "Extension '",
                        extension_id,
                        "' declares components but component host is not available",
                    );
                    return (Err(e), backend_committed);
                },
                Some(host) => {
                    if let Err(e) = commit_components(extension_id, list, host) {
                        return (Err(e), backend_committed);
                    }
                },
            }
        }
    }
    (Ok(()), backend_committed)
}

/// The Gateway facts `after` adds to `before` are exactly those `plan` registers.
pub open spec fn gateway_recorded(before: ExtensionRuntimeHandle, after: ExtensionRuntimeHandle, plan: GatewayPlan) -> bool {
    &&& protocol_views(after.protocols@) == protocol_views(before.protocols@) + plan_protocols(plan.adapters@)
    &&& views(after.provider_ids@) == views(before.provider_ids@) + plan_provider_ids(plan.providers@)
    &&& views(after.provider_capability_ids@) == views(before.provider_capability_ids@) + plan_provider_ids(
        plan.providers@,
    )
    &&& views(after.provider_validation_ids@) == views(before.provider_validation_ids@) + plan_provider_ids(
        plan.providers@,
    )
}

/// The UI registration the contributions make went to the registrar and the
/// handle when it is not empty; when it is, the registrar and the handle's UI
/// parts and counts are as they were.
pub open spec fn ui_recorded(
    before_registrar: Seq<UiContributionRegistration>,
    after_registrar: Seq<UiContributionRegistration>,
    before: ExtensionRuntimeHandle,
    after: ExtensionRuntimeHandle,
    extension_id: Seq<char>,
    c: ExtensionContributes,
) -> bool {
    exists|reg: UiContributionRegistration|
        #[trigger] normalizes(reg, extension_id, c) && if reg.spec_is_empty() {
            after_registrar == before_registrar && after.ui_contribution_registered
                == before.ui_contribution_registered && after.projection.same_ui_parts(before.projection)
                && after.projection.contribution_counts == (ExtensionContributionCounts {
                providers: after.projection.contribution_counts.providers,
                ..before.projection.contribution_counts
            })
        } else {
            exists|stored: UiContributionRegistration|
                #[trigger] stored.copy_of(&reg) && after_registrar == before_registrar.push(stored)
                    && after.ui_contribution_registered && projects(after.projection, stored)
        }
}

/// Prepares every contribution family the extension declares, then commits
/// them in order (Gateway, UI, editor languages, backend services,
/// components) as one transaction: when a family fails, those committed
/// before it are rolled back, last first. Editor languages are recorded
/// with the extension's languages, for the final cleanup to release.
#[verifier::spinoff_prover]
#[verifier::rlimit(40)]
pub fn commit_contribution_families<
    G: GatewayCapabilityPort + ?Sized,
    V: ProviderValidationPort + ?Sized,
    L: LspCapabilityPort + ?Sized,
    B: BackendServicePort + ?Sized,
    C: ComponentHostPort + ?Sized,
>(
    extension_id: &str,
    contributes: &ExtensionContributes,
    registrar: &mut UiContributionRegistrar,
    handle: &mut ExtensionRuntimeHandle,
    gateway: Option<&G>,
    provider_validation: Option<&V>,
    lsp: Option<&L>,
    backend: Option<&B>,
    components: Option<&mut C>,
    log: &mut HostCallLog,
) -> (r: Result<(), String>)
    requires
        old(registrar).wf(),
        !old(handle).ui_contribution_registered,
        match contributes.gateway {
            Some(g) => old(handle).projection.contribution_counts.providers + g.providers@.len() <= usize::MAX,
            None => true,
        },
    ensures
        final(registrar).wf(),
        final(handle).tool_server_ids == old(handle).tool_server_ids,
        final(handle).tool_overrides == old(handle).tool_overrides,
        final(handle).mcp_servers == old(handle).mcp_servers,
        final(handle).skills == old(handle).skills,
        old(handle).languages@.len() <= final(handle).languages@.len() <= old(handle).languages@.len() + count(
            contributes.editor_languages,
        ),
        views(final(handle).languages@) == views(old(handle).languages@) + editor_language_ids(
            opt_seq(contributes.editor_languages),
        ).take(final(handle).languages@.len() - old(handle).languages@.len()),
        r is Ok ==> {
            &&& final(handle).languages@.len() == old(handle).languages@.len() + count(contributes.editor_languages)
            &&& family_declarations_ok(*contributes)
            &&& match contributes.gateway {
                Some(g) => exists|plan: GatewayPlan|
                    #[trigger] gateway_plan_matches(plan, extension_id@, g) && gateway_recorded(
                        *old(handle),
                        *final(handle),
                        plan,
                    ),
                None => same_gateway(*final(handle), *old(handle)),
            }
            &&& ui_recorded(
                old(registrar)@,
                final(registrar)@,
                *old(handle),
                *final(handle),
                extension_id@,
                *contributes,
            )
        },
        r is Err ==> final(registrar)@ == old(registrar)@ && !final(handle).ui_contribution_registered,
        contributes.gateway is Some && gateway is None ==> r is Err,
        count(contributes.editor_languages) > 0 && lsp is None ==> r is Err,
        count(contributes.backend_services) > 0 && backend is None ==> r is Err,
        count(contributes.components) > 0 && components is None ==> r is Err,
        no_host_needed(*contributes) && ui_can_register(old(registrar)@, extension_id@, *contributes) ==> r is Ok,
        contributes.gateway matches Some(g) && gateway is None && gateway_plan_fault(extension_id@, g) is None ==> (r matches Err(m)
            && m@ == "Extension '"@ + extension_id@
            + "' declares Gateway contributions but Gateway host is not available"@),
        contributes.gateway is None && ui_can_register(old(registrar)@, extension_id@, *contributes)
            && family_declarations_ok(*contributes) ==> (missing_family_host_text(
            extension_id@,
            *contributes,
            lsp is Some,
            backend is Some,
            components is Some,
        ) matches Some(t) ==> (r matches Err(m) && m@ == t)),
        handle_register_logged(*old(handle), *final(handle), old(log).calls(), final(log).calls()),
        r is Ok ==> all_accepted(old(log).calls(), final(log).calls()),
{
    let ghost h0 = *handle;
    let ghost l0 = log.calls();
    let ghost reg0 = registrar@;
    proof {
        lemma_register_refl(h0, l0);
    }
    // Prepare every family before committing any.
    let plan: Option<GatewayPlan> = match &contributes.gateway {
        None => None,
        Some(g) => {
            let plan = match build_gateway_plan(extension_id, g) {
                Ok(p) => p,
                Err(e) => return Err(e.to_string()),
            };
            if gateway.is_none() {
                return Err(
                    concat3(
                        "Extension '",
                        extension_id,
                        "' declares Gateway contributions but Gateway host is not available",
                    ),
                );
            }
            if plan.providers.len() > 0 && provider_validation.is_none() {
                return Err(
                    concat3(
                        "Extension '",
                        extension_id,
                        "' declares Gateway Providers but Provider validation host is not available",
                    ),
                );
            }
            Some(plan)
        },
    };
    let normalized = normalize_registration(extension_id, contributes);
    proof {
        assert(normalizes(normalized, extension_id@, *contributes));
    }
    let ui: Option<UiContributionRegistration> = if normalized.is_empty() {
        None
    } else {
        match prepare_registration(&normalized) {
            Ok(p) => Some(p),
            Err(e) => return Err(e.to_string()),
        }
    };
    if let Err(e) = check_family_declarations(extension_id, contributes) {
        return Err(e);
    }
    // Commit in order, rolling back on failure.
    let mut gateway_committed = false;
    let ghost mut hg = h0;
    let ghost mut lg = l0;
    if let Some(plan) = plan {
        let host = match gateway {
            Some(h) => h,
            None => return Err(
                concat3(
                    "Extension '",
                    extension_id,
                    "' declares Gateway contributions but Gateway host is not available",
                ),
            ),
        };
        let ghost p = plan;
        if let Err(e) = register_gateway_plan(extension_id, plan, host, provider_validation, handle, log) {
            return Err(e);
        }
        proof {
            hg = *handle;
            lg = log.calls();
            assert(plan_provider_ids(p.providers@).take(p.providers@.len() as int) =~= plan_provider_ids(p.providers@));
            assert(p.adapters@.take(p.adapters@.len() as int) =~= p.adapters@);
            assert(gateway_recorded(h0, *handle, p));
        }
        gateway_committed = true;
    }
    proof {
        assert(handle_register_logged(h0, hg, l0, lg) && all_accepted(l0, lg));
        assert(*handle == hg && log.calls() == lg);
    }
    let ghost ui_g = ui;
    if let Some(prepared) = ui {
        let ghost stored = prepared;
        let committed = commit_ui_contributions(registrar, prepared, handle);
        proof {
            assert forall|k: ResourceKind| #[trigger] handle_subjects(*handle, k) == handle_subjects(hg, k) by {}
            lemma_register_same(hg, *handle, lg);
            lemma_register_trans(h0, hg, *handle, l0, lg, lg);
        }
        if let Err(e) = committed {
            let ghost hx = *handle;
            roll_back_families(
                extension_id,
                registrar,
                handle,
                gateway_committed,
                false,
                gateway,
                provider_validation,
                backend,
                log,
            );
            proof {
                lemma_register_trans(h0, hx, *handle, l0, lg, log.calls());
            }
            return Err(e.to_string());
        }
        proof {
            assert(stored.extension_id@ == extension_id@);
            law_commit_then_unregister(reg0, stored);
            lemma_without_absent(reg0, extension_id@);
        }
    }
    let ghost hu = *handle;
    proof {
        assert(handle_register_logged(h0, hu, l0, lg));
    }
    let (rest, backend_committed) = commit_remaining_families(extension_id, contributes, handle, lsp, backend, components, log);
    let ghost hr = *handle;
    let ghost lr = log.calls();
    proof {
        lemma_register_trans(h0, hu, hr, l0, lg, lr);
    }
    if let Err(e) = rest {
        roll_back_families(
            extension_id,
            registrar,
            handle,
            gateway_committed,
            backend_committed,
            gateway,
            provider_validation,
            backend,
            log,
        );
        proof {
            lemma_register_trans(h0, hr, *handle, l0, lr, log.calls());
        }
        return Err(e);
    }
    proof {
        assert(normalizes(normalized, extension_id@, *contributes));
        match ui_g {
            Some(st) => {
                assert(st.copy_of(&normalized));
                assert(registrar@ == reg0.push(st));
            },
            None => {
                assert(registrar@ == reg0);
            },
        }
    }
    Ok(())
}


// ---------------------------------------------------------------------------
// One extension's apply
// ---------------------------------------------------------------------------

/// The tool server an extension's declared tools go under: one, when it
/// declares tools.
pub open spec fn tool_servers_of(extension_id: Seq<char>, c: ExtensionContributes) -> Seq<Seq<char>> {
    if c.tools is Some {
        seq!["extension:"@ + extension_id]
    } else {
        Seq::empty()
    }
}

/// The handle's Gateway facts are exactly those `plan` registers.
pub open spec fn gateway_facts(h: ExtensionRuntimeHandle, plan: GatewayPlan) -> bool {
    &&& protocol_views(h.protocols@) == plan_protocols(plan.adapters@)
    &&& views(h.provider_ids@) == plan_provider_ids(plan.providers@)
    &&& views(h.provider_capability_ids@) == plan_provider_ids(plan.providers@)
    &&& views(h.provider_validation_ids@) == plan_provider_ids(plan.providers@)
}

/// The handle records no Gateway resource.
pub open spec fn no_gateway_facts(h: ExtensionRuntimeHandle) -> bool {
    &&& h.protocols@.len() == 0
    &&& h.provider_ids@.len() == 0
    &&& h.provider_capability_ids@.len() == 0
    &&& h.provider_validation_ids@.len() == 0
}

/// The UI registration the contributions make went to the registrar and the
/// handle when it is not empty; when it is, the registrar is as it was and
/// the handle projects no UI part.
pub open spec fn ui_registered(
    before_registrar: Seq<UiContributionRegistration>,
    after_registrar: Seq<UiContributionRegistration>,
    after: ExtensionRuntimeHandle,
    extension_id: Seq<char>,
    c: ExtensionContributes,
) -> bool {
    exists|reg: UiContributionRegistration|
        #[trigger] normalizes(reg, extension_id, c) && if reg.spec_is_empty() {
            after_registrar == before_registrar && !after.ui_contribution_registered
                && after.projection.no_ui_parts()
        } else {
            exists|stored: UiContributionRegistration|
                #[trigger] stored.copy_of(&reg) && after_registrar == before_registrar.push(stored)
                    && after.ui_contribution_registered && projects(after.projection, stored)
        }
}

/// Registers everything an extension declares with the hosts, starting from
/// an empty handle, in order: MCP servers, MCP tool overrides, tools,
/// skills, LSP languages, then the contribution families as one
/// transaction. A missing host that a declaration needs refuses the apply.
/// Returns the handle, which lists exactly what the hosts accepted (for the
/// cleanup to release when the apply fails), and the outcome.
#[verifier::spinoff_prover]
#[verifier::rlimit(40)]
pub fn apply_extension_fiber<
    G: GatewayCapabilityPort + ?Sized,
    V: ProviderValidationPort + ?Sized,
    M: McpCapabilityPort + ?Sized,
    S: SkillHostPort + ?Sized,
    L: LspCapabilityPort + ?Sized,
    B: BackendServicePort + ?Sized,
    C: ComponentHostPort + ?Sized,
>(
    extension_id: &str,
    contributes: &ExtensionContributes,
    registrar: &mut UiContributionRegistrar,
    gateway: Option<&G>,
    provider_validation: Option<&V>,
    mcp: Option<&M>,
    skills: Option<&S>,
    lsp: Option<&L>,
    backend: Option<&B>,
    components: Option<&mut C>,
    log: &mut HostCallLog,
) -> (r: (ExtensionRuntimeHandle, Result<(), String>))
    requires
        old(registrar).wf(),
    ensures
        final(registrar).wf(),
        views(r.0.mcp_servers@).is_prefix_of(server_ids(extension_id@, opt_seq(contributes.mcp_servers))),
        override_views(r.0.tool_overrides@).is_prefix_of(
            override_targets(extension_id@, opt_seq(contributes.mcp_tool_overrides)),
        ),
        views(r.0.tool_server_ids@).is_prefix_of(tool_servers_of(extension_id@, *contributes)),
        views(r.0.skills@).is_prefix_of(skill_ids(opt_seq(contributes.skills))),
        views(r.0.languages@).is_prefix_of(
            language_ids(opt_seq(contributes.languages)) + editor_language_ids(opt_seq(contributes.editor_languages)),
        ),
        r.1 is Ok ==> {
            &&& views(r.0.mcp_servers@) == server_ids(extension_id@, opt_seq(contributes.mcp_servers))
            &&& override_views(r.0.tool_overrides@) == override_targets(
                extension_id@,
                opt_seq(contributes.mcp_tool_overrides),
            )
            &&& views(r.0.tool_server_ids@) == tool_servers_of(extension_id@, *contributes)
            &&& views(r.0.skills@) == skill_ids(opt_seq(contributes.skills))
            &&& views(r.0.languages@) == language_ids(opt_seq(contributes.languages)) + editor_language_ids(
                opt_seq(contributes.editor_languages),
            )
            &&& family_declarations_ok(*contributes)
            &&& match contributes.gateway {
                Some(g) => exists|plan: GatewayPlan|
                    #[trigger] gateway_plan_matches(plan, extension_id@, g) && gateway_facts(r.0, plan),
                None => no_gateway_facts(r.0),
            }
            &&& ui_registered(old(registrar)@, final(registrar)@, r.0, extension_id@, *contributes)
        },
        r.1 is Err ==> final(registrar)@ == old(registrar)@ && !r.0.ui_contribution_registered,
        count(contributes.mcp_servers) > 0 && mcp is None ==> r.1 is Err,
        contributes.mcp_tool_overrides is Some && mcp is None ==> r.1 is Err,
        contributes.tools is Some && mcp is None ==> r.1 is Err,
        contributes.skills is Some && skills is None ==> r.1 is Err,
        contributes.languages is Some && lsp is None ==> r.1 is Err,
        contributes.gateway is Some && gateway is None ==> r.1 is Err,
        count(contributes.editor_languages) > 0 && lsp is None ==> r.1 is Err,
        count(contributes.backend_services) > 0 && backend is None ==> r.1 is Err,
        count(contributes.components) > 0 && components is None ==> r.1 is Err,
        no_host_needed(*contributes) && ui_can_register(old(registrar)@, extension_id@, *contributes) ==> r.1 is Ok,
        missing_direct_host_text(extension_id@, *contributes, mcp is Some, skills is Some, lsp is Some) matches Some(t)
            ==> (r.1 matches Err(m) && m@ == t),
        no_direct_declarations(*contributes) ==> (contributes.gateway matches Some(g) && gateway is None
            && gateway_plan_fault(extension_id@, g) is None ==> (r.1 matches Err(m) && m@ == "Extension '"@
            + extension_id@ + "' declares Gateway contributions but Gateway host is not available"@)),
        no_direct_declarations(*contributes) && contributes.gateway is None && ui_can_register(
            old(registrar)@,
            extension_id@,
            *contributes,
        ) && family_declarations_ok(*contributes) ==> (missing_family_host_text(
            extension_id@,
            *contributes,
            lsp is Some,
            backend is Some,
            components is Some,
        ) matches Some(t) ==> (r.1 matches Err(m) && m@ == t)),
        old(log).calls().is_prefix_of(final(log).calls()),
        forall|kind: ResourceKind, s: Seq<char>|
            kind != ResourceKind::ToolServer && #[trigger] handle_subjects(r.0, kind).contains(s) ==> registered_in(
                final(log).calls(),
                kind,
                s,
            ),
        r.1 is Ok ==> all_accepted(old(log).calls(), final(log).calls()),
{
    let mut handle = ExtensionRuntimeHandle::default();
    let ghost hd = handle;
    let ghost l0 = log.calls();
    let ghost mut hc = handle;
    let ghost mut lc = log.calls();
    proof {
        lemma_register_refl(hd, l0);
        assert forall|k: ResourceKind| #[trigger] handle_subjects(hd, k).len() == 0 by {}
    }
    proof {
        assert(views(handle.mcp_servers@) =~= Seq::<Seq<char>>::empty());
        assert(override_views(handle.tool_overrides@) =~= Seq::<(Seq<char>, Seq<char>)>::empty());
        assert(views(handle.tool_server_ids@) =~= Seq::<Seq<char>>::empty());
        assert(views(handle.skills@) =~= Seq::<Seq<char>>::empty());
        assert(views(handle.languages@) =~= Seq::<Seq<char>>::empty());
    }
    let ghost servers = server_ids(extension_id@, opt_seq(contributes.mcp_servers));
    let ghost overrides = override_targets(extension_id@, opt_seq(contributes.mcp_tool_overrides));
    let ghost skill_list = skill_ids(opt_seq(contributes.skills));
    let ghost langs = language_ids(opt_seq(contributes.languages));
    let ghost editor = editor_language_ids(opt_seq(contributes.editor_languages));
    // MCP servers
    if let Some(declared) = &contributes.mcp_servers {
        if declared.len() > 0 {
            match mcp {
                None => {
                    let e = concat5(
                        "Extension '",
                        extension_id,
                        "' declares MCP server '",
                        declared[0].name.as_str(),
                        "' but MCP host is not available",
                    );
                    return (handle, Err(e));
                },
                Some(m) => {
                    let done = register_mcp_servers(extension_id, declared, m, &mut handle, log);
                    proof {
                        lemma_register_trans(hd, hc, handle, l0, lc, log.calls());
                        hc = handle;
                        lc = log.calls();
                    }
                    if let Err(e) = done {
                        return (handle, Err(e));
                    }
                },
            }
        }
    }
    proof {
        assert(views(handle.mcp_servers@) == servers);
    }
    // MCP tool overrides
    if let Some(declared) = &contributes.mcp_tool_overrides {
        match mcp {
            None => {
                let e = concat3("Extension '", extension_id, "' declares MCP tool overrides but MCP host is not available");
                return (handle, Err(e));
            },
            Some(m) => {
                let done = apply_mcp_tool_overrides(m, extension_id, declared, &mut handle, log);
                proof {
                    lemma_register_trans(hd, hc, handle, l0, lc, log.calls());
                    hc = handle;
                    lc = log.calls();
                }
                if let Err(e) = done {
                    return (handle, Err(e));
                }
            },
        }
    }
    proof {
        assert(override_views(handle.tool_overrides@) == overrides);
    }
    // Tools
    if let Some(declared) = &contributes.tools {
        match mcp {
            None => {
                let e = concat3("Extension '", extension_id, "' declares tools but MCP host is not available");
                return (handle, Err(e));
            },
            Some(m) => {
                let done = register_tools(extension_id, declared, m, &mut handle, log);
                proof {
                    lemma_register_trans(hd, hc, handle, l0, lc, log.calls());
                    hc = handle;
                    lc = log.calls();
                }
                if let Err(e) = done {
                    return (handle, Err(e));
                }
            },
        }
    }
    proof {
        assert(views(handle.tool_server_ids@) == tool_servers_of(extension_id@, *contributes));
    }
    // Skills
    if let Some(declared) = &contributes.skills {
        match skills {
            None => {
                let e = concat3("Skills host is not available for extension `", extension_id, "`");
                return (handle, Err(e));
            },
            Some(host) => {
                let done = register_skills(extension_id, declared, host, &mut handle, log);
                proof {
                    lemma_register_trans(hd, hc, handle, l0, lc, log.calls());
                    hc = handle;
                    lc = log.calls();
                }
                if let Err(e) = done {
                    return (handle, Err(e));
                }
            },
        }
    }
    proof {
        assert(views(handle.skills@) == skill_list);
    }
    // LSP languages
    if let Some(declared) = &contributes.languages {
        match lsp {
            None => {
                let e = concat3("Extension '", extension_id, "' declares LSP languages but LSP host is not available");
                return (handle, Err(e));
            },
            Some(l) => {
                let done = register_lsp_languages(extension_id, declared, l, &mut handle, log);
                proof {
                    lemma_register_trans(hd, hc, handle, l0, lc, log.calls());
                    hc = handle;
                    lc = log.calls();
                }
                if let Err(e) = done {
                    return (handle, Err(e));
                }
            },
        }
    }
    proof {
        assert(views(handle.languages@) == langs);
    }
    let ghost h5 = handle;
    // The provider count starts from zero, so counting the declared
    // providers cannot overflow.
    if let Some(g) = &contributes.gateway {
        let declared_providers = g.providers.len();
        proof {
            assert(declared_providers == g.providers@.len());
            assert(handle.projection.contribution_counts.providers == 0);
        }
    }
    // The contribution families
    let r = commit_contribution_families(
        extension_id,
        contributes,
        registrar,
        &mut handle,
        gateway,
        provider_validation,
        lsp,
        backend,
        components,
        log,
    );
    proof {
        lemma_register_trans(hd, hc, handle, l0, lc, log.calls());
        assert forall|kind: ResourceKind, x: Seq<char>|
            kind != ResourceKind::ToolServer && #[trigger] handle_subjects(handle, kind).contains(x) implies registered_in(
            log.calls(),
            kind,
            x,
        ) by {
            assert(handle_subjects(hd, kind).len() == 0);
        }
    }
    proof {
        assert(views(handle.languages@) == langs + editor.take(handle.languages@.len() - h5.languages@.len()));
        if r is Ok {
            assert(editor.take(editor.len() as int) =~= editor);
            assert(h5.projection.no_ui_parts());
            if contributes.gateway is Some {
                let g = contributes.gateway->Some_0;
                let plan = choose|plan: GatewayPlan| #[trigger] gateway_plan_matches(plan, extension_id@, g)
                    && gateway_recorded(h5, handle, plan);
                assert(protocol_views(h5.protocols@) =~= Seq::<crate::gateway::ProtocolView>::empty());
                assert(views(h5.provider_ids@) =~= Seq::<Seq<char>>::empty());
                assert(views(h5.provider_capability_ids@) =~= Seq::<Seq<char>>::empty());
                assert(views(h5.provider_validation_ids@) =~= Seq::<Seq<char>>::empty());
                assert(protocol_views(handle.protocols@) =~= plan_protocols(plan.adapters@));
                assert(views(handle.provider_ids@) =~= plan_provider_ids(plan.providers@));
                assert(views(handle.provider_capability_ids@) =~= plan_provider_ids(plan.providers@));
                assert(views(handle.provider_validation_ids@) =~= plan_provider_ids(plan.providers@));
                assert(gateway_facts(handle, plan));
            }
        }
    }
    (handle, r)
}

} // verus!
