//! Modules: the immutable, startup-time registration units. A module bundles
//! an optional command handler, ordered command hooks, ordered event hooks
//! keyed by event type, declared config values, a permission bitmask, a
//! sensitivity flag and dependency names. Hooks and handlers live outside
//! this crate (they drive the chat platform), so a module carries each one's
//! identity; the dispatch machine tells its caller which identity to run.
use vstd::prelude::*;
use crate::config::{Value, ValueModel};

verus! {

/// The event families the dispatcher routes.
#[derive(Debug, Clone, Copy, PartialEq, Eq, Structural)]
pub enum EventType {
    MessageCreate,
    MessageUpdate,
    MessageDelete,
    MessageDeleteBulk,
    Ready,
    Other,
}

/// A hook's shape, together with the identity of the outside function that
/// the surrounding runtime binds to it.
#[derive(Debug, Clone, Copy, PartialEq, Eq, Structural)]
pub enum EventHandler {
    /// Runs on non-message events; no stop semantics.
    GenericHandler(u64),
    /// Runs on message events; returns a stop signal that short-circuits the
    /// rest of the chain.
    MessageHandler(u64),
    /// Participates in the command fold; passes, renames or denies a
    /// candidate command.
    CommandHandler(u64),
}

impl EventHandler {
    /// The identity of the outside function bound to this hook.
    pub open spec fn spec_id(self) -> u64 {
        match self {
            EventHandler::GenericHandler(id) => id,
            EventHandler::MessageHandler(id) => id,
            EventHandler::CommandHandler(id) => id,
        }
    }

    /// Executable mirror of [`Self::spec_id`].
    pub fn id(&self) -> (r: u64)
        ensures
            r == self.spec_id(),
    {
        match self {
            EventHandler::GenericHandler(id) => *id,
            EventHandler::MessageHandler(id) => *id,
            EventHandler::CommandHandler(id) => *id,
        }
    }
}

/// Which hook shapes an event type accepts: message-creation takes message
/// hooks and command hooks; update, delete and bulk-delete take only message
/// hooks; every other event takes only generic hooks.
pub open spec fn spec_accepts(t: EventType, h: EventHandler) -> bool {
    match t {
        EventType::MessageCreate => h is MessageHandler || h is CommandHandler,
        EventType::MessageUpdate => h is MessageHandler,
        EventType::MessageDelete => h is MessageHandler,
        EventType::MessageDeleteBulk => h is MessageHandler,
        EventType::Ready => h is GenericHandler,
        EventType::Other => h is GenericHandler,
    }
}

/// Executable mirror of [`spec_accepts`]: the module-build-time shape check.
pub fn accepts(t: EventType, h: EventHandler) -> (r: bool)
    ensures
        r == spec_accepts(t, h),
{
    match t {
        EventType::MessageCreate => match h {
            EventHandler::MessageHandler(_) => true,
            EventHandler::CommandHandler(_) => true,
            _ => false,
        },
        EventType::MessageUpdate | EventType::MessageDelete | EventType::MessageDeleteBulk => match h {
            EventHandler::MessageHandler(_) => true,
            _ => false,
        },
        EventType::Ready | EventType::Other => match h {
            EventHandler::GenericHandler(_) => true,
            _ => false,
        },
    }
}

/// A chat command: a globally unique name, the permissions it needs, and the
/// identity of its handler.
#[derive(Debug, Clone, PartialEq, Eq)]
pub struct Commander {
    pub name: String,
    pub permissions: u64,
    pub handler: u64,
}

/// Mathematical model of a [`Commander`].
#[verifier::ext_equal]
pub ghost struct CommanderModel {
    pub name: Seq<char>,
    pub permissions: u64,
    pub handler: u64,
}

impl View for Commander {
    type V = CommanderModel;

    open spec fn view(&self) -> CommanderModel {
        CommanderModel { name: self.name@, permissions: self.permissions, handler: self.handler }
    }
}

impl Commander {
    /// Builds a command.
    pub fn new(name: String, permissions: u64, handler: u64) -> (c: Commander)
        ensures
            c@ == (CommanderModel { name: name@, permissions, handler }),
    {
        Commander { name, permissions, handler }
    }

    /// The command's name.
    pub fn name(&self) -> (r: &String)
        ensures
            r@ == self@.name,
    {
        &self.name
    }

    /// The permission bitmask the command needs.
    pub fn permissions(&self) -> (r: u64)
        ensures
            r == self@.permissions,
    {
        self.permissions
    }
}

/// An integrated unit of functionality: commands, hooks, config values and
/// the metadata registration checks against. Registered once at process
/// start, immutable thereafter.
#[derive(Debug, Clone, PartialEq, Eq)]
pub struct Module {
    pub name: String,
    pub commands: Vec<Commander>,
    pub hooks: Vec<(EventType, EventHandler)>,
    pub command_hooks: Vec<u64>,
    pub config_values: Vec<Value>,
    pub req_permissions: u64,
    pub sensitive: bool,
    pub dependencies: Vec<String>,
}

/// Mathematical model of a [`Module`].
#[verifier::ext_equal]
pub ghost struct ModuleModel {
    pub name: Seq<char>,
    pub commands: Seq<CommanderModel>,
    pub hooks: Seq<(EventType, EventHandler)>,
    pub command_hooks: Seq<u64>,
    pub config_values: Seq<ValueModel>,
    pub req_permissions: u64,
    pub sensitive: bool,
    pub dependencies: Seq<Seq<char>>,
}

impl View for Module {
    type V = ModuleModel;

    open spec fn view(&self) -> ModuleModel {
        ModuleModel {
            name: self.name@,
            commands: self.commands@.map_values(|c: Commander| c@),
            hooks: self.hooks@,
            command_hooks: self.command_hooks@,
            config_values: self.config_values@.map_values(|v: Value| v@),
            req_permissions: self.req_permissions,
            sensitive: self.sensitive,
            dependencies: self.dependencies@.map_values(|s: String| s@),
        }
    }
}

impl ModuleModel {
    /// Every hook's shape matches its event type: validated when the module
    /// is built, never at dispatch time.
    pub open spec fn wf(self) -> bool {
        forall|i: int|
            0 <= i < self.hooks.len() ==> spec_accepts(
                #[trigger] self.hooks[i].0,
                self.hooks[i].1,
            )
    }
}

impl Module {
    /// Creates a new module with the given name and nothing in it.
    pub fn with_name(name: String) -> (m: Module)
        ensures
            m@ == (ModuleModel {
                name: name@,
                commands: Seq::<CommanderModel>::empty(),
                hooks: Seq::<(EventType, EventHandler)>::empty(),
                command_hooks: Seq::<u64>::empty(),
                config_values: Seq::<ValueModel>::empty(),
                req_permissions: 0u64,
                sensitive: false,
                dependencies: Seq::<Seq<char>>::empty(),
            }),
            m@.wf(),
    {
        let m = Module {
            name,
            commands: Vec::new(),
            hooks: Vec::new(),
            command_hooks: Vec::new(),
            config_values: Vec::new(),
            req_permissions: 0,
            sensitive: false,
            dependencies: Vec::new(),
        };
        proof {
            assert(m@ =~= (ModuleModel {
                name: m.name@,
                commands: Seq::<CommanderModel>::empty(),
                hooks: Seq::<(EventType, EventHandler)>::empty(),
                command_hooks: Seq::<u64>::empty(),
                config_values: Seq::<ValueModel>::empty(),
                req_permissions: 0u64,
                sensitive: false,
                dependencies: Seq::<Seq<char>>::empty(),
            }));
        }
        m
    }

    /// Adds a command hook (by the identity the runtime binds it to) to the
    /// ordered command-hook chain of this module.
    pub fn with_command_hook(self, f: u64) -> (m: Module)
        ensures
            m@ == (ModuleModel { command_hooks: self@.command_hooks.push(f), ..self@ }),
            self@.wf() ==> m@.wf(),
    {
        let mut s = self;
        s.command_hooks.push(f);
        proof {
            assert(s@.command_hooks =~= self@.command_hooks.push(f));
            assert(s@ =~= (ModuleModel { command_hooks: self@.command_hooks.push(f), ..self@ }));
        }
        s
    }

    /// Adds a command, widening the module's required permissions by the
    /// command's bitmask.
    pub fn with_command(self, cmd: Commander) -> (m: Module)
        ensures
            m@ == (ModuleModel {
                commands: self@.commands.push(cmd@),
                req_permissions: self@.req_permissions | cmd@.permissions,
                ..self@
            }),
            self@.wf() ==> m@.wf(),
    {
        let mut s = self;
        s.req_permissions = s.req_permissions | cmd.permissions;
        s.commands.push(cmd);
        proof {
            assert(s@.commands =~= self@.commands.push(cmd@));
            assert(s@ =~= (ModuleModel {
                commands: self@.commands.push(cmd@),
                req_permissions: self@.req_permissions | cmd@.permissions,
                ..self@
            }));
        }
        s
    }

    /// Associates a declared config value with this module.
    pub fn with_config_value(self, v: Value) -> (m: Module)
        ensures
            m@ == (ModuleModel { config_values: self@.config_values.push(v@), ..self@ }),
            self@.wf() ==> m@.wf(),
    {
        let mut s = self;
        s.config_values.push(v);
        proof {
            assert(s@.config_values =~= self@.config_values.push(v@));
            assert(s@ =~= (ModuleModel { config_values: self@.config_values.push(v@), ..self@ }));
        }
        s
    }

    /// Marks the module's commands sensitive: they need the guild's admin
    /// role regardless of per-command restriction settings.
    pub fn with_sensitivity(self, sensitive: bool) -> (m: Module)
        ensures
            m@ == (ModuleModel { sensitive, ..self@ }),
            self@.wf() ==> m@.wf(),
    {
        let mut s = self;
        s.sensitive = sensitive;
        proof {
            assert(s@ =~= (ModuleModel { sensitive, ..self@ }));
        }
        s
    }

    /// Declares that this module needs another module registered first.
    pub fn with_dependency(self, name: String) -> (m: Module)
        ensures
            m@ == (ModuleModel { dependencies: self@.dependencies.push(name@), ..self@ }),
            self@.wf() ==> m@.wf(),
    {
        let mut s = self;
        s.dependencies.push(name);
        proof {
            assert(s@.dependencies =~= self@.dependencies.push(name@));
            assert(s@ =~= (ModuleModel { dependencies: self@.dependencies.push(name@), ..self@ }));
        }
        s
    }

    /// Accessor for the name of the module.
    pub fn name(&self) -> (r: &String)
        ensures
            r@ == self@.name,
    {
        &self.name
    }

    /// Accessor for the module's commands.
    pub fn commands(&self) -> (r: &Vec<Commander>)
        ensures
            r@.map_values(|c: Commander| c@) == self@.commands,
    {
        &self.commands
    }

    /// Accessor for the module's event hooks, in registration order.
    pub fn hooks(&self) -> (r: &Vec<(EventType, EventHandler)>)
        ensures
            r@ == self@.hooks,
    {
        &self.hooks
    }

    /// Accessor for the module's ordered command hooks.
    pub fn command_hooks(&self) -> (r: &Vec<u64>)
        ensures
            r@ == self@.command_hooks,
    {
        &self.command_hooks
    }

    /// Accessor for the command handler, if any: the module's first command.
    pub fn command_handler(&self) -> (r: Option<&Commander>)
        ensures
            match r {
                Some(c) => self@.commands.len() > 0 && c@ == self@.commands[0],
                None => self@.commands.len() == 0,
            },
    {
        self.commands.get(0)
    }

    /// Accessor for the declared config values.
    pub fn config_values(&self) -> (r: &Vec<Value>)
        ensures
            r@.map_values(|v: Value| v@) == self@.config_values,
    {
        &self.config_values
    }

    /// The union of the permission bitmasks of the module's commands.
    pub fn required_perms(&self) -> (r: u64)
        ensures
            r == self@.req_permissions,
    {
        self.req_permissions
    }
}

/// Builds a [`Module`] step by step, validating each event hook's shape
/// against its event type at build time rather than at dispatch time.
#[derive(Debug, Clone, PartialEq, Eq)]
pub struct ModuleBuilder {
    pub module: Module,
}

impl View for ModuleBuilder {
    type V = ModuleModel;

    open spec fn view(&self) -> ModuleModel {
        self.module@
    }
}

impl ModuleBuilder {
    /// Starts a builder for a module with the given name.
    pub fn new(name: String) -> (b: ModuleBuilder)
        ensures
            b@ == (ModuleModel {
                name: name@,
                commands: Seq::<CommanderModel>::empty(),
                hooks: Seq::<(EventType, EventHandler)>::empty(),
                command_hooks: Seq::<u64>::empty(),
                config_values: Seq::<ValueModel>::empty(),
                req_permissions: 0u64,
                sensitive: false,
                dependencies: Seq::<Seq<char>>::empty(),
            }),
            b@.wf(),
    {
        ModuleBuilder { module: Module::with_name(name) }
    }

    /// Adds a command to the module being built.
    pub fn with_command(self, cmd: Commander) -> (b: ModuleBuilder)
        ensures
            b@ == (ModuleModel {
                commands: self@.commands.push(cmd@),
                req_permissions: self@.req_permissions | cmd@.permissions,
                ..self@
            }),
            self@.wf() ==> b@.wf(),
    {
        ModuleBuilder { module: self.module.with_command(cmd) }
    }

    /// Adds an event hook. The hook's shape must match the event type: the
    /// mismatch is rejected here, at module-build time, never at dispatch
    /// time — use [`accepts`] to test a shape first.
    pub fn with_hook(self, typ: EventType, hook: EventHandler) -> (b: ModuleBuilder)
        requires
            spec_accepts(typ, hook),
        ensures
            b@ == (ModuleModel { hooks: self@.hooks.push((typ, hook)), ..self@ }),
            self@.wf() ==> b@.wf(),
    {
        let mut m = self.module;
        m.hooks.push((typ, hook));
        proof {
            assert(m@ =~= (ModuleModel { hooks: self@.hooks.push((typ, hook)), ..self@ }));
        }
        ModuleBuilder { module: m }
    }

    /// Finishes the build.
    pub fn build(self) -> (m: Module)
        ensures
            m@ == self@,
    {
        self.module
    }
}

} // verus!
