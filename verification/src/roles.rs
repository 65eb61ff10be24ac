//! The roles module: manages user roles and keeps non-admins from running
//! restricted commands. Its command hook states the contract every
//! command-hook must satisfy: the guild owner is always authorized; a
//! sensitive or restricted candidate needs the guild's configured admin
//! role; everything else passes through unchanged. The surrounding runtime
//! resolves users and roles against the chat platform and hands the answers
//! in as plain values; every decision is made here.
use vstd::prelude::*;
use vstd::string::*;
use crate::CommanderError;
use crate::config::{Value, Validator};
use crate::dispatch::RawCmd;
use crate::modules::{Module, Commander};
use crate::text::{spec_token, spec_rest, spec_parse_u64, next_token, parse_u64, str_eq};

verus! {

/// The identity the runtime binds the roles command hook to.
pub const ROLES_HOOK_ID: u64 = 1;

/// The identity the runtime binds the roles command handler to.
pub const ROLES_HANDLER_ID: u64 = 2;

/// The config key holding the guild's admin role id.
pub fn admin_key() -> (r: &'static str)
    ensures
        r@ == "admin_role"@,
{
    "admin_role"
}

/// The role-administration command.
pub struct Roles;

/// What the roles command was asked to do, before the platform resolves
/// names to identities.
#[derive(Debug, Clone, PartialEq, Eq)]
pub enum RolesAction {
    /// Add the role to the named user.
    AddUser(String),
    /// Remove the role from the named user.
    RemUser(String),
    /// Mark the role joinable (or not) through the self-service commands.
    SetJoinable(bool),
}

/// A parsed roles command: the role token and the requested action.
#[derive(Debug, Clone, PartialEq, Eq)]
pub struct RolesRequest {
    pub role: String,
    pub action: RolesAction,
}

/// How the runtime should look a role up: a numeric token is a role id,
/// anything else a role name.
#[derive(Debug, Clone, PartialEq, Eq)]
pub enum RoleQuery {
    ById(u64),
    ByName(String),
}

/// The guild-scoped mutation the handler decided on, with the reply to send.
#[derive(Debug, Clone, Copy, PartialEq, Eq, Structural)]
pub enum RolesEffect {
    AddRole { user: u64, role: u64 },
    RemoveRole { user: u64, role: u64 },
    SetJoinable { role: u64, joinable: bool },
}

/// A decided roles command: the effect to perform and the reply text.
#[derive(Debug, Clone, PartialEq, Eq)]
pub struct RolesPlan {
    pub effect: RolesEffect,
    pub reply: String,
}

impl Roles {
    /// Parses the argument text of a roles command: a role token, a
    /// subcommand, and the subcommand's own argument. `set-joinable` takes an
    /// optional boolean defaulting to true; a token that is not a boolean is
    /// a validation error; a missing token or unknown subcommand is a parse
    /// error.
    pub fn parse(args: &str) -> (r: Result<RolesRequest, CommanderError>)
        ensures
            ({
                let t1 = spec_token(args@);
                let r1 = spec_rest(args@);
                let t2 = spec_token(r1);
                let r2 = spec_rest(r1);
                let t3 = spec_token(r2);
                if t1.len() == 0 {
                    r matches Err(CommanderError::ParseError(m)) && m@ == "missing role"@
                } else if t2.len() == 0 {
                    r matches Err(CommanderError::ParseError(m)) && m@ == "missing subcommand"@
                } else if t2 == "add-user"@ {
                    if t3.len() == 0 {
                        r matches Err(CommanderError::ParseError(m)) && m@ == "missing user"@
                    } else {
                        r matches Ok(q) && q.role@ == t1 && (q.action
                            matches RolesAction::AddUser(u) && u@ == t3)
                    }
                } else if t2 == "rem-user"@ {
                    if t3.len() == 0 {
                        r matches Err(CommanderError::ParseError(m)) && m@ == "missing user"@
                    } else {
                        r matches Ok(q) && q.role@ == t1 && (q.action
                            matches RolesAction::RemUser(u) && u@ == t3)
                    }
                } else if t2 == "set-joinable"@ {
                    if t3.len() == 0 || t3 == "true"@ {
                        r matches Ok(q) && q.role@ == t1 && (q.action
                            matches RolesAction::SetJoinable(j) && j == true)
                    } else if t3 == "false"@ {
                        r matches Ok(q) && q.role@ == t1 && (q.action
                            matches RolesAction::SetJoinable(j) && j == false)
                    } else {
                        r matches Err(CommanderError::ValidationError { value, constraint })
                            && value@ == t3 && constraint@ == "joinable"@
                    }
                } else {
                    r matches Err(CommanderError::ParseError(m)) && m@ == "unknown subcommand"@
                }
            }),
    {
        let (role, rest1) = next_token(args);
        if role.as_str().unicode_len() == 0 {
            return Err(CommanderError::ParseError(String::from_str("missing role")));
        }
        let (sub, rest2) = next_token(rest1.as_str());
        if sub.as_str().unicode_len() == 0 {
            return Err(CommanderError::ParseError(String::from_str("missing subcommand")));
        }
        let (arg, _rest3) = next_token(rest2.as_str());
        if str_eq(sub.as_str(), "add-user") {
            if arg.as_str().unicode_len() == 0 {
                return Err(CommanderError::ParseError(String::from_str("missing user")));
            }
            Ok(RolesRequest { role, action: RolesAction::AddUser(arg) })
        } else if str_eq(sub.as_str(), "rem-user") {
            if arg.as_str().unicode_len() == 0 {
                return Err(CommanderError::ParseError(String::from_str("missing user")));
            }
            Ok(RolesRequest { role, action: RolesAction::RemUser(arg) })
        } else if str_eq(sub.as_str(), "set-joinable") {
            if arg.as_str().unicode_len() == 0 || str_eq(arg.as_str(), "true") {
                Ok(RolesRequest { role, action: RolesAction::SetJoinable(true) })
            } else if str_eq(arg.as_str(), "false") {
                Ok(RolesRequest { role, action: RolesAction::SetJoinable(false) })
            } else {
                Err(
                    CommanderError::ValidationError {
                        value: arg,
                        constraint: String::from_str("joinable"),
                    },
                )
            }
        } else {
            Err(CommanderError::ParseError(String::from_str("unknown subcommand")))
        }
    }

    /// How the runtime should resolve the role token: by id when it parses
    /// as one, by name otherwise.
    pub fn role_query(token: &str) -> (r: RoleQuery)
        ensures
            match spec_parse_u64(token@) {
                Some(id) => r == RoleQuery::ById(id),
                None => r matches RoleQuery::ByName(n) && n@ == token@,
            },
    {
        match parse_u64(token) {
            Some(id) => RoleQuery::ById(id),
            None => RoleQuery::ByName(String::from_str(token)),
        }
    }

    /// Decides what a parsed request does, given the platform's answers: an
    /// unresolvable role or user is denied with a reason and nothing is
    /// mutated; otherwise the one guild-scoped effect and its reply are
    /// pinned down.
    pub fn plan(req: &RolesRequest, role: Option<u64>, user: Option<u64>) -> (r: Result<
        RolesPlan,
        CommanderError,
    >)
        ensures
            match role {
                None => r matches Err(CommanderError::PermissionDenied(m)) && m@
                    == "No such role."@,
                Some(rid) => match req.action {
                    RolesAction::AddUser(_) => match user {
                        None => r matches Err(CommanderError::PermissionDenied(m)) && m@
                            == "No such user."@,
                        Some(uid) => r matches Ok(p) && p.effect == (RolesEffect::AddRole {
                            user: uid,
                            role: rid,
                        }) && p.reply@ == "Added role to user."@,
                    },
                    RolesAction::RemUser(_) => match user {
                        None => r matches Err(CommanderError::PermissionDenied(m)) && m@
                            == "No such user."@,
                        Some(uid) => r matches Ok(p) && p.effect == (RolesEffect::RemoveRole {
                            user: uid,
                            role: rid,
                        }) && p.reply@ == "Removed role from user."@,
                    },
                    RolesAction::SetJoinable(j) => r matches Ok(p) && p.effect == (
                    RolesEffect::SetJoinable { role: rid, joinable: j }) && p.reply@
                        == "Role updated."@,
                },
            },
    {
        let rid = match role {
            Some(rid) => rid,
            None => {
                return Err(CommanderError::PermissionDenied(String::from_str("No such role.")));
            },
        };
        match &req.action {
            RolesAction::AddUser(_) => match user {
                Some(uid) => Ok(
                    RolesPlan {
                        effect: RolesEffect::AddRole { user: uid, role: rid },
                        reply: String::from_str("Added role to user."),
                    },
                ),
                None => Err(CommanderError::PermissionDenied(String::from_str("No such user."))),
            },
            RolesAction::RemUser(_) => match user {
                Some(uid) => Ok(
                    RolesPlan {
                        effect: RolesEffect::RemoveRole { user: uid, role: rid },
                        reply: String::from_str("Removed role from user."),
                    },
                ),
                None => Err(CommanderError::PermissionDenied(String::from_str("No such user."))),
            },
            RolesAction::SetJoinable(j) => Ok(
                RolesPlan {
                    effect: RolesEffect::SetJoinable { role: rid, joinable: *j },
                    reply: String::from_str("Role updated."),
                },
            ),
        }
    }

    /// The command's usage text.
    pub fn help() -> (r: String)
        ensures
            r@ == "usage: roles <ROLE> (add-user <USER> | rem-user <USER> | set-joinable [BOOL])"@,
    {
        String::from_str(
            "usage: roles <ROLE> (add-user <USER> | rem-user <USER> | set-joinable [BOOL])",
        )
    }
}

/// The permission command-hook: the contract all command-hooks satisfy.
/// Given the platform's answers about the invoking user — ownership, the
/// guild's admin-role config value, whether the author has that role, the
/// candidate command's sensitivity (absent when no module owns it) and
/// whether the guild restricted it, and the admin role's name — the hook
/// passes the candidate through unchanged or denies with the stated reason.
pub fn role_hook(
    author_is_owner: bool,
    admin_role_config: Option<String>,
    author_has_admin: bool,
    command_sensitive: Option<bool>,
    command_restricted: bool,
    admin_role_name: Option<String>,
    cmd: RawCmd,
) -> (r: Result<RawCmd, CommanderError>)
    ensures
        ({
            if author_is_owner {
                r matches Ok(c) && c@ == cmd@
            } else {
                match admin_role_config {
                    None => r matches Err(CommanderError::ConfigMissing(k)) && k@ == "admin_role"@,
                    Some(raw) => if spec_parse_u64(raw@) is None {
                        r matches Err(CommanderError::DatabaseError(m)) && m@
                            == "invalid admin_role value"@
                    } else if author_has_admin {
                        r matches Ok(c) && c@ == cmd@
                    } else {
                        match command_sensitive {
                            None => r matches Err(CommanderError::PermissionDenied(m)) && m@
                                == "No such command."@,
                            Some(sensitive) => if sensitive || command_restricted {
                                match admin_role_name {
                                    Some(n) => r matches Err(CommanderError::NeedRole(m)) && m@
                                        == n@,
                                    None => r matches Err(CommanderError::PermissionDenied(m))
                                        && m@ == "Not an admin or admin role outdated."@,
                                }
                            } else {
                                r matches Ok(c) && c@ == cmd@
                            },
                        }
                    },
                }
            }
        }),
{
    if author_is_owner {
        return Ok(cmd);
    }
    let raw = match admin_role_config {
        Some(raw) => raw,
        None => {
            return Err(CommanderError::ConfigMissing(String::from_str("admin_role")));
        },
    };
    if parse_u64(raw.as_str()).is_none() {
        return Err(CommanderError::DatabaseError(String::from_str("invalid admin_role value")));
    }
    if author_has_admin {
        return Ok(cmd);
    }
    let sensitive = match command_sensitive {
        Some(s) => s,
        None => {
            return Err(CommanderError::PermissionDenied(String::from_str("No such command.")));
        },
    };
    if sensitive || command_restricted {
        match admin_role_name {
            Some(n) => Err(CommanderError::NeedRole(n)),
            None => Err(
                CommanderError::PermissionDenied(
                    String::from_str("Not an admin or admin role outdated."),
                ),
            ),
        }
    } else {
        Ok(cmd)
    }
}

/// Creates the roles [`Module`]: sensitive, depending on the config module,
/// declaring the admin-role config value (an unsigned integer, no default),
/// carrying the permission command-hook and the roles command.
pub fn roles_module() -> (m: Module)
    ensures
        m@.wf(),
        m@.name == "roles"@,
        m@.sensitive,
        m@.dependencies.len() == 1 && m@.dependencies[0] == "config"@,
        m@.hooks.len() == 0,
        m@.command_hooks.len() == 1 && m@.command_hooks[0] == ROLES_HOOK_ID,
        m@.commands.len() == 1,
        m@.commands[0].name == "roles"@,
        m@.commands[0].handler == ROLES_HANDLER_ID,
        m@.config_values.len() == 1,
        m@.config_values[0].key == "admin_role"@,
        m@.config_values[0].validator == Validator::UnsignedInt,
        m@.config_values[0].default is None,
{
    Module::with_name(String::from_str("roles")).with_sensitivity(true).with_dependency(
        String::from_str("config"),
    ).with_config_value(
        Value::new(
            String::from_str("admin_role"),
            String::from_str("The role which should be allowed to run restricted commands."),
            Validator::UnsignedInt,
            None,
        ),
    ).with_command_hook(ROLES_HOOK_ID).with_command(
        Commander::new(String::from_str("roles"), 0, ROLES_HANDLER_ID),
    )
}

} // verus!
