//! Tests for text parsing, module registration, the dispatch machine and the
//! roles module.
use glimbot::text::{str_eq, starts_with_str, next_token, trim_start, parse_u64};
use glimbot::modules::{Module, ModuleBuilder, Commander, EventType, EventHandler, accepts};
use glimbot::dispatch::{GlimDispatch, RegistryError, RawCmd, DispatchAction, DispatchEvent,
    parse_command};
use glimbot::roles::{Roles, RolesAction, RolesEffect, RoleQuery, role_hook, roles_module,
    ROLES_HOOK_ID, ROLES_HANDLER_ID};
use glimbot::CommanderError;
use glimbot::codeblock;

#[test]
fn text_equality_and_prefix() {
    assert!(str_eq("abc", "abc"));
    assert!(!str_eq("abc", "abd"));
    assert!(!str_eq("abc", "ab"));
    assert!(starts_with_str("!ping", "!"));
    assert!(!starts_with_str("ping", "!"));
    assert!(starts_with_str("", ""));
    assert!(!starts_with_str("", "!"));
}

#[test]
fn tokens_split_on_spaces() {
    let (t, rest) = next_token("  roles  add-user @X");
    assert_eq!(t, "roles");
    assert_eq!(rest, "  add-user @X");
    let (t2, rest2) = next_token(&rest);
    assert_eq!(t2, "add-user");
    assert_eq!(rest2, " @X");
    let (t3, rest3) = next_token("   ");
    assert_eq!(t3, "");
    assert_eq!(rest3, "");
    assert_eq!(trim_start("  a b "), "a b ");
}

#[test]
fn parse_u64_reads_decimal() {
    assert_eq!(parse_u64("0"), Some(0));
    assert_eq!(parse_u64("123"), Some(123));
    assert_eq!(parse_u64("18446744073709551615"), Some(u64::MAX));
    assert_eq!(parse_u64("18446744073709551616"), None);
    assert_eq!(parse_u64(""), None);
    assert_eq!(parse_u64("12a"), None);
    assert_eq!(parse_u64("-1"), None);
}

#[test]
fn parse_command_splits_name_and_args() {
    let cmd = parse_command("roles add-user @X").unwrap();
    assert_eq!(cmd.command, "roles");
    assert_eq!(cmd.args, "add-user @X");
    let bare = parse_command("ping").unwrap();
    assert_eq!(bare.command, "ping");
    assert_eq!(bare.args, "");
    assert!(matches!(parse_command("   "), Err(CommanderError::ParseError(_))));
    assert!(matches!(parse_command(""), Err(CommanderError::ParseError(_))));
}

#[test]
fn hook_shapes_are_checked_per_event_type() {
    let g = EventHandler::GenericHandler(1);
    let m = EventHandler::MessageHandler(2);
    let c = EventHandler::CommandHandler(3);
    assert!(accepts(EventType::MessageCreate, m));
    assert!(accepts(EventType::MessageCreate, c));
    assert!(!accepts(EventType::MessageCreate, g));
    assert!(accepts(EventType::MessageDelete, m));
    assert!(!accepts(EventType::MessageDelete, c));
    assert!(!accepts(EventType::MessageDeleteBulk, g));
    assert!(accepts(EventType::MessageUpdate, m));
    assert!(accepts(EventType::Ready, g));
    assert!(!accepts(EventType::Ready, m));
    assert!(accepts(EventType::Other, g));
}

fn message_hook_module(name: &str, id: u64) -> Module {
    ModuleBuilder::new(String::from(name))
        .with_hook(EventType::MessageCreate, EventHandler::MessageHandler(id))
        .build()
}

fn ping_module() -> Module {
    Module::with_name(String::from("ping"))
        .with_command(Commander::new(String::from("ping"), 0, 30))
}

#[test]
fn registration_rejects_command_collisions() {
    let d = GlimDispatch::new();
    let m1 = Module::with_name(String::from("a"))
        .with_command(Commander::new(String::from("x"), 0, 1));
    let m2 = Module::with_name(String::from("b"))
        .with_command(Commander::new(String::from("x"), 0, 2));
    let d = d.with_module(m1).unwrap();
    match d.with_module(m2) {
        Err(RegistryError::CommandCollision(name)) => assert_eq!(name, "x"),
        other => panic!("expected a collision, got {:?}", other.map(|_| ())),
    }
}

#[test]
fn registration_rejects_missing_dependencies() {
    let d = GlimDispatch::new();
    let m = Module::with_name(String::from("roles")).with_dependency(String::from("config"));
    match d.with_module(m) {
        Err(RegistryError::MissingDependency(name)) => assert_eq!(name, "config"),
        other => panic!("expected a missing dependency, got {:?}", other.map(|_| ())),
    }
}

#[test]
fn registration_rejects_duplicate_module_names() {
    let d = GlimDispatch::new()
        .with_module(Module::with_name(String::from("a")))
        .unwrap();
    match d.with_module(Module::with_name(String::from("a"))) {
        Err(RegistryError::DuplicateModule(name)) => assert_eq!(name, "a"),
        other => panic!("expected a duplicate, got {:?}", other.map(|_| ())),
    }
}

#[test]
fn resolve_command_finds_registered_names() {
    let d = GlimDispatch::new().with_module(ping_module()).unwrap();
    let c = d.resolve_command("ping").unwrap();
    assert_eq!(*c.name(), "ping");
    assert_eq!(c.handler, 30);
    assert!(d.resolve_command("pong").is_none());
}

#[test]
fn message_hooks_fire_in_registration_order() {
    let mut d = GlimDispatch::new()
        .with_module(message_hook_module("first", 11)).unwrap()
        .with_module(message_hook_module("second", 12)).unwrap();
    let (mut run, a0) = d.begin_message(7, false, String::from("hello"));
    assert_eq!(a0, DispatchAction::RunMessageHook { hook: 11 });
    let a1 = d.step(&mut run, DispatchEvent::HookOutcome { stop: false });
    assert_eq!(a1, DispatchAction::RunMessageHook { hook: 12 });
    let a2 = d.step(&mut run, DispatchEvent::HookOutcome { stop: false });
    assert_eq!(a2, DispatchAction::Finished);
    assert!(run.is_done());
}

#[test]
fn stopping_hook_short_circuits_the_event() {
    let mut d = GlimDispatch::new()
        .with_module(message_hook_module("first", 11)).unwrap()
        .with_module(message_hook_module("second", 12)).unwrap()
        .with_module(ping_module()).unwrap();
    let (mut run, a0) = d.begin_message(7, false, String::from("!ping"));
    assert_eq!(a0, DispatchAction::RunMessageHook { hook: 11 });
    let a1 = d.step(&mut run, DispatchEvent::HookOutcome { stop: true });
    assert_eq!(a1, DispatchAction::Finished);
    assert!(run.is_done());
}

#[test]
fn own_messages_are_ignored() {
    let mut d = GlimDispatch::new().with_module(ping_module()).unwrap();
    let (run, a) = d.begin_message(7, true, String::from("!ping"));
    assert_eq!(a, DispatchAction::Finished);
    assert!(run.is_done());
}

fn command_hook_module(name: &str, id: u64) -> Module {
    Module::with_name(String::from(name)).with_command_hook(id)
}

#[test]
fn command_fold_stops_at_denial() {
    let mut d = GlimDispatch::new()
        .with_module(command_hook_module("h1", 21)).unwrap()
        .with_module(command_hook_module("h2", 22)).unwrap()
        .with_module(ping_module()).unwrap();
    let (mut run, a0) = d.begin_message(7, false, String::from("!ping now"));
    let cmd = match a0 {
        DispatchAction::RunCommandHook { hook, cmd } => {
            assert_eq!(hook, 21);
            assert_eq!(cmd.command, "ping");
            assert_eq!(cmd.args, "now");
            cmd
        },
        other => panic!("expected the first command hook, got {:?}", other),
    };
    let a1 = d.step(
        &mut run,
        DispatchEvent::CommandHookOutcome { result: Ok(cmd) },
    );
    let cmd = match a1 {
        DispatchAction::RunCommandHook { hook, cmd } => {
            assert_eq!(hook, 22);
            cmd
        },
        other => panic!("expected the second command hook, got {:?}", other),
    };
    drop(cmd);
    let a2 = d.step(
        &mut run,
        DispatchEvent::CommandHookOutcome {
            result: Err(CommanderError::PermissionDenied(String::from("x"))),
        },
    );
    // The denial is surfaced and the handler is never invoked.
    assert_eq!(
        a2,
        DispatchAction::Reply { text: String::from("```Permission denied: x```") },
    );
    let a3 = d.step(&mut run, DispatchEvent::Delivered);
    assert_eq!(a3, DispatchAction::Finished);
    assert!(run.is_done());
}

#[test]
fn command_fold_passes_the_original_name_through() {
    let mut d = GlimDispatch::new()
        .with_module(command_hook_module("h1", 21)).unwrap()
        .with_module(command_hook_module("h2", 22)).unwrap()
        .with_module(ping_module()).unwrap();
    let (mut run, a0) = d.begin_message(7, false, String::from("!ping"));
    let cmd = match a0 {
        DispatchAction::RunCommandHook { hook: 21, cmd } => cmd,
        other => panic!("expected the first command hook, got {:?}", other),
    };
    let a1 = d.step(&mut run, DispatchEvent::CommandHookOutcome { result: Ok(cmd) });
    let cmd = match a1 {
        DispatchAction::RunCommandHook { hook: 22, cmd } => cmd,
        other => panic!("expected the second command hook, got {:?}", other),
    };
    let a2 = d.step(&mut run, DispatchEvent::CommandHookOutcome { result: Ok(cmd) });
    match a2 {
        DispatchAction::InvokeHandler { handler, cmd } => {
            assert_eq!(handler, 30);
            assert_eq!(cmd.command, "ping");
        },
        other => panic!("expected the handler, got {:?}", other),
    }
    let a3 = d.step(&mut run, DispatchEvent::HandlerOutcome { result: Ok(()) });
    assert_eq!(a3, DispatchAction::Finished);
}

#[test]
fn unknown_commands_get_the_public_reply() {
    let mut d = GlimDispatch::new().with_module(ping_module()).unwrap();
    let (mut run, a0) = d.begin_message(7, false, String::from("!pong"));
    assert_eq!(a0, DispatchAction::Reply { text: String::from("```No such command.```") });
    let a1 = d.step(&mut run, DispatchEvent::Delivered);
    assert_eq!(a1, DispatchAction::Finished);
}

#[test]
fn empty_command_text_is_a_parse_error() {
    let mut d = GlimDispatch::new().with_module(ping_module()).unwrap();
    let (_run, a0) = d.begin_message(7, false, String::from("!  "));
    assert_eq!(
        a0,
        DispatchAction::Reply { text: String::from("```Parse error: empty command```") },
    );
}

#[test]
fn non_prefixed_messages_are_not_commands() {
    let mut d = GlimDispatch::new().with_module(ping_module()).unwrap();
    let (run, a0) = d.begin_message(7, false, String::from("ping"));
    assert_eq!(a0, DispatchAction::Finished);
    assert!(run.is_done());
}

#[test]
fn handler_outcomes_are_classified() {
    let mut d = GlimDispatch::new().with_module(ping_module()).unwrap();
    // Success: no reply.
    let (mut run, a0) = d.begin_message(7, false, String::from("!ping"));
    assert!(matches!(a0, DispatchAction::InvokeHandler { handler: 30, .. }));
    let a1 = d.step(&mut run, DispatchEvent::HandlerOutcome { result: Ok(()) });
    assert_eq!(a1, DispatchAction::Finished);
    // Silent failure: log only.
    let (mut run, _) = d.begin_message(7, false, String::from("!ping"));
    let a = d.step(&mut run, DispatchEvent::HandlerOutcome { result: Err(CommanderError::Silent) });
    assert_eq!(a, DispatchAction::Finished);
    // Silent failure with detail: log with detail, no reply.
    let (mut run, _) = d.begin_message(7, false, String::from("!ping"));
    let a = d.step(
        &mut run,
        DispatchEvent::HandlerOutcome { result: Err(CommanderError::SilentError(String::from("why"))) },
    );
    assert_eq!(a, DispatchAction::LogDetail { text: String::from("why") });
    // Any other error: the text as a code block.
    let (mut run, _) = d.begin_message(7, false, String::from("!ping"));
    let a = d.step(
        &mut run,
        DispatchEvent::HandlerOutcome {
            result: Err(CommanderError::DatabaseError(String::from("boom"))),
        },
    );
    assert_eq!(a, DispatchAction::Reply { text: String::from("```Database error: boom```") });
}

#[test]
fn ready_bootstraps_guilds_and_records_the_owner() {
    let mut d = GlimDispatch::new();
    d.ready(&vec![1, 2, 3], Some(99));
    assert!(d.is_owner(99));
    assert!(!d.is_owner(98));
    assert_eq!(d.config_store().get_prefix(2), Some(String::from("!")));
    d.ready(&vec![2], Some(99));
    assert!(d.is_owner(99));
}

#[test]
fn shutdown_flag_is_sticky() {
    let mut d = GlimDispatch::new();
    assert!(!d.is_shutdown());
    d.begin_shutdown();
    assert!(d.is_shutdown());
}

#[test]
fn guild_pools_keep_writer_exclusion() {
    let mut d = GlimDispatch::new();
    assert!(d.wr_conn(7));
    assert!(!d.wr_conn(7));
    assert!(d.wr_conn(8));
    d.release_wr(7);
    assert!(d.wr_conn(7));
    assert!(d.rd_conn(7));
    d.release_rd(7);
}

#[test]
fn ensure_module_config_writes_declared_defaults() {
    let m = Module::with_name(String::from("greeter")).with_config_value(
        glimbot::config::Value::new(
            String::from("greeting"),
            String::from("what to say"),
            glimbot::config::Validator::Any,
            Some(String::from("hello")),
        ),
    );
    let mut d = GlimDispatch::new().with_module(m).unwrap();
    assert!(d.ensure_module_config(7, "greeter").is_ok());
    assert_eq!(d.config_store().get(7, "greeting"), Some(String::from("hello")));
    assert!(matches!(
        d.ensure_module_config(7, "nobody"),
        Err(CommanderError::DatabaseError(_))
    ));
}

#[test]
fn set_config_validates_against_the_declared_validator() {
    let mut d = GlimDispatch::new();
    d.encounter_guild(7).unwrap();
    let spec = glimbot::config::Value::new(
        String::from("admin_role"),
        String::from("h"),
        glimbot::config::Validator::UnsignedInt,
        None,
    );
    assert!(matches!(
        d.set_config(7, "roles", &spec, String::from("abc")),
        Err(CommanderError::ValidationError { .. })
    ));
    assert!(d.set_config(7, "roles", &spec, String::from("5")).is_ok());
    assert_eq!(d.config_store().get(7, "admin_role"), Some(String::from("5")));
}

#[test]
fn roles_args_parse_each_subcommand() {
    let q = Roles::parse("123 add-user @X").unwrap();
    assert_eq!(q.role, "123");
    assert_eq!(q.action, RolesAction::AddUser(String::from("@X")));
    let q = Roles::parse("mods rem-user @Y").unwrap();
    assert_eq!(q.action, RolesAction::RemUser(String::from("@Y")));
    let q = Roles::parse("mods set-joinable").unwrap();
    assert_eq!(q.action, RolesAction::SetJoinable(true));
    let q = Roles::parse("mods set-joinable false").unwrap();
    assert_eq!(q.action, RolesAction::SetJoinable(false));
    assert!(matches!(Roles::parse(""), Err(CommanderError::ParseError(_))));
    assert!(matches!(Roles::parse("mods"), Err(CommanderError::ParseError(_))));
    assert!(matches!(Roles::parse("mods frobnicate"), Err(CommanderError::ParseError(_))));
    assert!(matches!(
        Roles::parse("mods set-joinable maybe"),
        Err(CommanderError::ValidationError { .. })
    ));
}

#[test]
fn role_tokens_resolve_by_id_or_name() {
    assert_eq!(Roles::role_query("123"), RoleQuery::ById(123));
    assert_eq!(Roles::role_query("mods"), RoleQuery::ByName(String::from("mods")));
}

#[test]
fn roles_plans_pin_effect_and_reply() {
    let q = Roles::parse("123 add-user @X").unwrap();
    let p = Roles::plan(&q, Some(123), Some(55)).unwrap();
    assert_eq!(p.effect, RolesEffect::AddRole { user: 55, role: 123 });
    assert_eq!(p.reply, "Added role to user.");
    let q = Roles::parse("123 rem-user @X").unwrap();
    let p = Roles::plan(&q, Some(123), Some(55)).unwrap();
    assert_eq!(p.effect, RolesEffect::RemoveRole { user: 55, role: 123 });
    assert_eq!(p.reply, "Removed role from user.");
    let q = Roles::parse("123 set-joinable false").unwrap();
    let p = Roles::plan(&q, Some(123), None).unwrap();
    assert_eq!(p.effect, RolesEffect::SetJoinable { role: 123, joinable: false });
    assert_eq!(p.reply, "Role updated.");
    assert!(matches!(
        Roles::plan(&q, None, None),
        Err(CommanderError::PermissionDenied(m)) if m == "No such role."
    ));
    let q = Roles::parse("123 add-user @X").unwrap();
    assert!(matches!(
        Roles::plan(&q, Some(123), None),
        Err(CommanderError::PermissionDenied(m)) if m == "No such user."
    ));
}

#[test]
fn roles_help_names_the_subcommands() {
    let h = Roles::help();
    assert!(h.contains("add-user"));
    assert!(h.contains("rem-user"));
    assert!(h.contains("set-joinable"));
}

fn cmd(name: &str) -> RawCmd {
    RawCmd { command: String::from(name), args: String::new() }
}

#[test]
fn role_hook_authorizes_the_owner() {
    let r = role_hook(true, None, false, None, false, None, cmd("roles"));
    assert_eq!(r.unwrap().command, "roles");
}

#[test]
fn role_hook_requires_the_admin_role_config() {
    let r = role_hook(false, None, false, Some(true), false, None, cmd("roles"));
    assert!(matches!(r, Err(CommanderError::ConfigMissing(k)) if k == "admin_role"));
}

#[test]
fn role_hook_rejects_a_bad_admin_role_value() {
    let r = role_hook(
        false,
        Some(String::from("not-a-number")),
        false,
        Some(true),
        false,
        None,
        cmd("roles"),
    );
    assert!(matches!(r, Err(CommanderError::DatabaseError(_))));
}

#[test]
fn role_hook_authorizes_admins() {
    let r = role_hook(false, Some(String::from("9")), true, Some(true), true, None, cmd("roles"));
    assert_eq!(r.unwrap().command, "roles");
}

#[test]
fn role_hook_denies_sensitive_commands_with_the_role_name() {
    let r = role_hook(
        false,
        Some(String::from("9")),
        false,
        Some(true),
        false,
        Some(String::from("Moderators")),
        cmd("roles"),
    );
    assert!(matches!(r, Err(CommanderError::NeedRole(n)) if n == "Moderators"));
    let r = role_hook(false, Some(String::from("9")), false, Some(true), false, None, cmd("roles"));
    assert!(matches!(r, Err(CommanderError::PermissionDenied(_))));
}

#[test]
fn role_hook_passes_insensitive_commands() {
    let r = role_hook(false, Some(String::from("9")), false, Some(false), false, None, cmd("ping"));
    assert_eq!(r.unwrap().command, "ping");
    let r = role_hook(false, Some(String::from("9")), false, None, false, None, cmd("gone"));
    assert!(matches!(r, Err(CommanderError::PermissionDenied(m)) if m == "No such command."));
}

#[test]
fn roles_module_declares_its_contract() {
    let m = roles_module();
    assert_eq!(*m.name(), "roles");
    assert!(m.sensitive);
    assert_eq!(m.dependencies, vec![String::from("config")]);
    assert_eq!(m.command_hooks(), &vec![ROLES_HOOK_ID]);
    assert_eq!(*m.commands()[0].name(), "roles");
    assert_eq!(m.commands()[0].handler, ROLES_HANDLER_ID);
    assert_eq!(m.config_values()[0].key, "admin_role");
}

// An unconfigured admin role surfaces as "not configured" in the channel and
// the handler is never invoked; no role mutation occurs.
#[test]
fn unconfigured_admin_role_surfaces_and_blocks_the_handler() {
    let config_mod = Module::with_name(String::from("config"));
    let mut d = GlimDispatch::new()
        .with_module(config_mod).unwrap()
        .with_module(roles_module()).unwrap();
    let guild = 7;
    let user = 1000;  // not the owner; owner set is empty
    let (mut run, a0) = d.begin_message(guild, false, String::from("!roles add-user @X"));
    let hook_cmd = match a0 {
        DispatchAction::RunCommandHook { hook, cmd } => {
            assert_eq!(hook, ROLES_HOOK_ID);
            assert_eq!(cmd.command, "roles");
            assert_eq!(cmd.args, "add-user @X");
            cmd
        },
        other => panic!("expected the permission hook, got {:?}", other),
    };
    // The runtime runs the permission hook: the author is not the owner and
    // admin_role was never configured.
    let admin_cfg = d.config_store().get(guild, "admin_role");
    assert_eq!(admin_cfg, None);
    let outcome = role_hook(d.is_owner(user), admin_cfg, false, Some(true), false, None, hook_cmd);
    let a1 = d.step(&mut run, DispatchEvent::CommandHookOutcome { result: outcome });
    assert_eq!(
        a1,
        DispatchAction::Reply { text: String::from("```Not configured: admin_role```") },
    );
    let a2 = d.step(&mut run, DispatchEvent::Delivered);
    assert_eq!(a2, DispatchAction::Finished);
    assert!(run.is_done());
}

#[test]
fn error_messages_render_verbatim() {
    assert_eq!(
        CommanderError::ParseError(String::from("x")).message(),
        "Parse error: x"
    );
    assert_eq!(
        CommanderError::ValidationError {
            value: String::from("v"),
            constraint: String::from("c"),
        }
        .message(),
        "Invalid value v for c"
    );
    assert_eq!(CommanderError::NeedRole(String::from("r")).message(), "Needs role r");
    assert_eq!(CommanderError::ConfigMissing(String::from("k")).message(), "Not configured: k");
    assert_eq!(CommanderError::PermissionDenied(String::from("d")).message(), "Permission denied: d");
    assert_eq!(CommanderError::DatabaseError(String::from("b")).message(), "Database error: b");
    assert!(CommanderError::Silent.is_silent());
    assert!(CommanderError::PermissionDeniedSilent.is_silent());
    assert!(CommanderError::SilentError(String::from("s")).is_silent());
    assert!(!CommanderError::ParseError(String::from("p")).is_silent());
    assert_eq!(codeblock("hi"), "```hi```");
}

#[test]
fn get_config_reports_missing_keys() {
    let mut d = GlimDispatch::new();
    d.encounter_guild(7).unwrap();
    assert!(matches!(
        d.get_config(7, "admin_role"),
        Err(CommanderError::ConfigMissing(k)) if k == "admin_role"
    ));
    let spec = glimbot::config::Value::new(
        String::from("admin_role"),
        String::from("h"),
        glimbot::config::Validator::UnsignedInt,
        None,
    );
    d.set_config(7, "roles", &spec, String::from("9")).unwrap();
    assert_eq!(d.get_config(7, "admin_role"), Ok(String::from("9")));
}
