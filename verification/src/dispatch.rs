//! The dispatcher: owns the module registry, the per-event-type hook chains,
//! the command index, the guild config store and the per-guild connection
//! pools. Inbound platform events drive guild bootstrap, the ordered,
//! short-circuiting message-hook chain, and the fold-based command pipeline.
//!
//! Hooks and handlers perform outside work (they talk to the chat platform),
//! so a message event is processed as an interactive machine: the dispatcher
//! hands its caller one [`DispatchAction`] at a time — run this hook, run
//! this command hook on this candidate, invoke this handler, send this reply
//! — and the caller feeds the outcome back as a [`DispatchEvent`]. Every
//! decision between two actions is made, and verified, here.
use vstd::prelude::*;
use vstd::string::*;
use crate::CommanderError;
use crate::codeblock;
use crate::spec_codeblock;
use crate::config::Value;
use crate::migrate::DbModel;
use crate::modules::{Module, ModuleModel, Commander, CommanderModel, EventType, EventHandler,
    spec_accepts};
use crate::pool::{ConnectionPool, PoolOp};
use crate::store::{GuildConfigStore, spec_encounter_ok, spec_encounter_inserts,
    spec_encounter_dbs, defaults_contract};
use crate::text::{str_eq, starts_with_str, spec_starts_with, spec_token, spec_rest,
    spec_trim_start, next_token, trim_start};

verus! {

/// The bound of each guild's reader pool.
pub const POOL_READERS: usize = 16;

/// An error surfaced to the event loop by a hook or handler.
#[derive(Debug, Clone, PartialEq, Eq)]
pub enum EventError {
    Other(String),
}

/// An error internal to the dispatcher.
#[derive(Debug, Clone, PartialEq, Eq)]
pub enum InternalError {
    Other(String),
}

/// A registration failure: the registry rejects a module at startup, before
/// the dispatcher begins serving events.
#[derive(Debug, Clone, PartialEq, Eq)]
pub enum RegistryError {
    /// A declared dependency is not registered yet.
    MissingDependency(String),
    /// A module of this name is already registered.
    DuplicateModule(String),
    /// A command of this name is already registered, by this or an earlier
    /// module: the registry rejects the collision rather than overwrite.
    CommandCollision(String),
}

/// A parsed command: the command name and the remaining argument text.
#[derive(Debug, Clone, PartialEq, Eq)]
pub struct RawCmd {
    pub command: String,
    pub args: String,
}

/// Mathematical model of a [`RawCmd`].
#[verifier::ext_equal]
pub ghost struct RawCmdModel {
    pub command: Seq<char>,
    pub args: Seq<char>,
}

impl View for RawCmd {
    type V = RawCmdModel;

    open spec fn view(&self) -> RawCmdModel {
        RawCmdModel { command: self.command@, args: self.args@ }
    }
}

/// What parsing command text yields: the first whitespace-separated token as
/// the command name and the rest, left-trimmed, as the arguments; nothing
/// when there is no token.
pub open spec fn spec_parse(body: Seq<char>) -> Option<RawCmdModel> {
    let t = spec_token(body);
    if t.len() == 0 {
        None
    } else {
        Some(RawCmdModel { command: t, args: spec_trim_start(spec_rest(body)) })
    }
}

/// Parses command text (the message content after the guild's prefix) into
/// (command_name, remaining_args); text with no command name is a
/// user-visible `ParseError`.
pub fn parse_command(body: &str) -> (r: Result<RawCmd, CommanderError>)
    ensures
        match r {
            Ok(cmd) => spec_parse(body@) == Some(cmd@),
            Err(e) => {
                &&& spec_parse(body@) is None
                &&& e matches CommanderError::ParseError(m) && m@ == "empty command"@
            },
        },
{
    let (tok, rest) = next_token(body);
    if tok.as_str().unicode_len() == 0 {
        return Err(CommanderError::ParseError(String::from_str("empty command")));
    }
    let args = trim_start(rest.as_str());
    Ok(RawCmd { command: tok, args })
}

/// The position of the first message hook at or after `i` in a chain.
pub open spec fn next_msg_hook(c: Seq<EventHandler>, i: int) -> Option<int>
    decreases c.len() - i,
{
    if i < 0 || i >= c.len() {
        None
    } else if c[i] is MessageHandler {
        Some(i)
    } else {
        next_msg_hook(c, i + 1)
    }
}

/// The position of the first command hook at or after `i` in a chain.
pub open spec fn next_cmd_hook(c: Seq<EventHandler>, i: int) -> Option<int>
    decreases c.len() - i,
{
    if i < 0 || i >= c.len() {
        None
    } else if c[i] is CommandHandler {
        Some(i)
    } else {
        next_cmd_hook(c, i + 1)
    }
}

/// Finds the first message hook at or after `i`.
fn next_msg_hook_exec(c: &Vec<EventHandler>, i: usize) -> (r: Option<usize>)
    ensures
        match r {
            Some(j) => i <= j < c@.len() && next_msg_hook(c@, i as int) == Some(j as int)
                && c@[j as int] is MessageHandler,
            None => next_msg_hook(c@, i as int) is None,
        },
{
    let mut k: usize = i;
    while k < c.len()
        invariant
            i <= k,
            k <= c@.len() || i > c@.len(),
            next_msg_hook(c@, i as int) == next_msg_hook(c@, k as int),
        decreases c@.len() - k,
    {
        if matches!(c[k], EventHandler::MessageHandler(_)) {
            return Some(k);
        }
        k = k + 1;
    }
    None
}

/// Finds the first command hook at or after `i`.
fn next_cmd_hook_exec(c: &Vec<EventHandler>, i: usize) -> (r: Option<usize>)
    ensures
        match r {
            Some(j) => i <= j < c@.len() && next_cmd_hook(c@, i as int) == Some(j as int)
                && c@[j as int] is CommandHandler,
            None => next_cmd_hook(c@, i as int) is None,
        },
{
    let mut k: usize = i;
    while k < c.len()
        invariant
            i <= k,
            k <= c@.len() || i > c@.len(),
            next_cmd_hook(c@, i as int) == next_cmd_hook(c@, k as int),
        decreases c@.len() - k,
    {
        if matches!(c[k], EventHandler::CommandHandler(_)) {
            return Some(k);
        }
        k = k + 1;
    }
    None
}

/// The hooks of one event type, in registration order.
pub open spec fn hooks_for(hooks: Seq<(EventType, EventHandler)>, t: EventType) -> Seq<
    EventHandler,
>
    decreases hooks.len(),
{
    if hooks.len() == 0 {
        seq![]
    } else if hooks[0].0 == t {
        seq![hooks[0].1] + hooks_for(hooks.skip(1), t)
    } else {
        hooks_for(hooks.skip(1), t)
    }
}

/// Appending one hook extends the filtered chain of its type only.
proof fn lemma_hooks_for_snoc_t(
    hooks: Seq<(EventType, EventHandler)>,
    p: (EventType, EventHandler),
    t: EventType,
)
    ensures
        hooks_for(hooks.push(p), t) == (if p.0 == t {
            hooks_for(hooks, t).push(p.1)
        } else {
            hooks_for(hooks, t)
        }),
    decreases hooks.len(),
{
    if hooks.len() == 0 {
        let e = Seq::<(EventType, EventHandler)>::empty();
        assert(hooks.push(p).len() == 1);
        assert(hooks.push(p)[0] == p);
        assert(hooks.push(p).skip(1) =~= e);
        assert(hooks_for(e, t) == Seq::<EventHandler>::empty());
        if p.0 == t {
            assert(hooks_for(hooks.push(p), t) == seq![p.1] + Seq::<EventHandler>::empty());
            assert(seq![p.1] + Seq::<EventHandler>::empty() =~= Seq::<EventHandler>::empty().push(
                p.1,
            ));
        }
    } else {
        assert(hooks.push(p)[0] == hooks[0]);
        assert(hooks.push(p).skip(1) =~= hooks.skip(1).push(p));
        lemma_hooks_for_snoc_t(hooks.skip(1), p, t);
        if p.0 == t && hooks[0].0 == t {
            assert(seq![hooks[0].1] + hooks_for(hooks.skip(1), t).push(p.1) =~= (seq![hooks[0].1]
                + hooks_for(hooks.skip(1), t)).push(p.1));
        }
    }
}

/// Every hook that [`hooks_for`] keeps for an event type is shape-checked
/// for that type, the module having validated each at build time.
proof fn lemma_hooks_for_accepts(hooks: Seq<(EventType, EventHandler)>, t: EventType)
    requires
        forall|i: int|
            0 <= i < hooks.len() ==> spec_accepts(#[trigger] hooks[i].0, hooks[i].1),
    ensures
        forall|k: int|
            0 <= k < hooks_for(hooks, t).len() ==> spec_accepts(
                t,
                #[trigger] hooks_for(hooks, t)[k],
            ),
    decreases hooks.len(),
{
    if hooks.len() > 0 {
        assert forall|i: int|
            0 <= i < hooks.skip(1).len() implies spec_accepts(
            #[trigger] hooks.skip(1)[i].0,
            hooks.skip(1)[i].1,
        ) by {
            assert(hooks.skip(1)[i] == hooks[i + 1]);
        }
        lemma_hooks_for_accepts(hooks.skip(1), t);
        assert forall|k: int|
            0 <= k < hooks_for(hooks, t).len() implies spec_accepts(
            t,
            #[trigger] hooks_for(hooks, t)[k],
        ) by {
            if hooks[0].0 == t {
                if k == 0 {
                    assert(hooks_for(hooks, t)[0] == hooks[0].1);
                    assert(spec_accepts(hooks[0].0, hooks[0].1));
                } else {
                    assert(hooks_for(hooks, t)[k] == hooks_for(hooks.skip(1), t)[k - 1]);
                }
            } else {
                assert(hooks_for(hooks, t)[k] == hooks_for(hooks.skip(1), t)[k]);
            }
        }
    }
}

/// A name occurs in a name list.
pub open spec fn contains_name(names: Seq<Seq<char>>, n: Seq<char>) -> bool {
    exists|i: int| 0 <= i < names.len() && names[i] == n
}

/// The `k`-th command of a module collides: its name is already in the index,
/// or an earlier command of the same module carries it.
pub open spec fn cmd_collides(
    index: Map<Seq<char>, (Seq<char>, CommanderModel)>,
    cmds: Seq<CommanderModel>,
    k: int,
) -> bool {
    index.contains_key(cmds[k].name) || exists|y: int| 0 <= y < k && cmds[y].name == cmds[k].name
}

/// The top-level orchestrator: registry, hook chains, command index, config
/// store, pools, owner set and shutdown flag. Registration completes once at
/// process start; all later reads are lock-free.
pub struct GlimDispatch {
    modules: Vec<Module>,
    mc_hooks: Vec<EventHandler>,
    mu_hooks: Vec<EventHandler>,
    md_hooks: Vec<EventHandler>,
    mdb_hooks: Vec<EventHandler>,
    ready_hooks: Vec<EventHandler>,
    other_hooks: Vec<EventHandler>,
    command_index: Vec<(String, Commander)>,
    store: GuildConfigStore,
    pools: Vec<(u64, ConnectionPool)>,
    owners: Vec<u64>,
    shutdown: bool,
}

impl GlimDispatch {
    /// The registered modules, in registration order.
    pub closed spec fn spec_modules(self) -> Seq<ModuleModel> {
        self.modules@.map_values(|m: Module| m@)
    }

    /// The registered module names, in registration order.
    pub open spec fn spec_module_names(self) -> Seq<Seq<char>> {
        self.spec_modules().map_values(|m: ModuleModel| m.name)
    }

    /// The hook chain of one event type.
    pub closed spec fn chain(self, t: EventType) -> Seq<EventHandler> {
        match t {
            EventType::MessageCreate => self.mc_hooks@,
            EventType::MessageUpdate => self.mu_hooks@,
            EventType::MessageDelete => self.md_hooks@,
            EventType::MessageDeleteBulk => self.mdb_hooks@,
            EventType::Ready => self.ready_hooks@,
            EventType::Other => self.other_hooks@,
        }
    }

    /// The global command index: command name to (owning module name,
    /// command).
    pub closed spec fn spec_command_map(self) -> Map<Seq<char>, (Seq<char>, CommanderModel)> {
        Map::new(
            |k: Seq<char>|
                exists|i: int|
                    0 <= i < self.command_index@.len() && self.command_index@[i].1@.name == k,
            |k: Seq<char>|
                {
                    let i = choose|i: int|
                        0 <= i < self.command_index@.len() && self.command_index@[i].1@.name == k;
                    (self.command_index@[i].0@, self.command_index@[i].1@)
                },
        )
    }

    /// The guild databases, as the store holds them.
    pub closed spec fn dbs(self) -> Map<u64, DbModel> {
        self.store.dbs()
    }

    /// The per-guild connection pools.
    pub closed spec fn pool_map(self) -> Map<u64, ConnectionPool> {
        Map::new(
            |g: u64| exists|i: int| 0 <= i < self.pools@.len() && self.pools@[i].0 == g,
            |g: u64|
                self.pools@[choose|i: int| 0 <= i < self.pools@.len() && self.pools@[i].0 == g].1,
        )
    }

    /// The synchronized owner set.
    pub closed spec fn spec_owners(self) -> Seq<u64> {
        self.owners@
    }

    /// The shutdown flag.
    pub closed spec fn spec_shutdown(self) -> bool {
        self.shutdown
    }

    /// The dispatcher's invariant: unique module names, a unique command
    /// index, shape-checked chains, a well-formed store, unique pools and
    /// unique owners.
    pub closed spec fn wf(self) -> bool {
        &&& self.store.wf()
        &&& (forall|i: int, j: int|
            0 <= i < j < self.modules@.len() ==> self.modules@[i]@.name != self.modules@[j]@.name)
        &&& (forall|i: int|
            0 <= i < self.modules@.len() ==> (#[trigger] self.modules@[i]@).wf())
        &&& (forall|i: int, j: int|
            0 <= i < j < self.command_index@.len() ==> self.command_index@[i].1@.name
                != self.command_index@[j].1@.name)
        &&& (forall|t: EventType, k: int|
            0 <= k < self.chain(t).len() ==> spec_accepts(t, #[trigger] self.chain(t)[k]))
        &&& (forall|i: int, j: int|
            0 <= i < j < self.pools@.len() ==> self.pools@[i].0 != self.pools@[j].0)
        &&& (forall|i: int, j: int|
            0 <= i < j < self.owners@.len() ==> self.owners@[i] != self.owners@[j])
    }

    /// The registry — modules, chains and command index — of two dispatcher
    /// states is the same.
    pub open spec fn same_registry(self, other: GlimDispatch) -> bool {
        &&& self.spec_modules() == other.spec_modules()
        &&& (forall|t: EventType| self.chain(t) == other.chain(t))
        &&& self.spec_command_map() == other.spec_command_map()
    }

    /// A dispatcher with nothing registered, no guilds and no owners.
    pub fn new() -> (d: GlimDispatch)
        ensures
            d.wf(),
            d.spec_modules() == Seq::<ModuleModel>::empty(),
            forall|t: EventType| d.chain(t) == Seq::<EventHandler>::empty(),
            d.spec_command_map() == Map::<Seq<char>, (Seq<char>, CommanderModel)>::empty(),
            d.dbs() == Map::<u64, DbModel>::empty(),
            d.pool_map() == Map::<u64, ConnectionPool>::empty(),
            d.spec_owners() == Seq::<u64>::empty(),
            !d.spec_shutdown(),
    {
        let d = GlimDispatch {
            modules: Vec::new(),
            mc_hooks: Vec::new(),
            mu_hooks: Vec::new(),
            md_hooks: Vec::new(),
            mdb_hooks: Vec::new(),
            ready_hooks: Vec::new(),
            other_hooks: Vec::new(),
            command_index: Vec::new(),
            store: GuildConfigStore::new(),
            pools: Vec::new(),
            owners: Vec::new(),
            shutdown: false,
        };
        proof {
            assert(d.spec_command_map() =~= Map::<Seq<char>, (Seq<char>, CommanderModel)>::empty());
            assert(d.pool_map() =~= Map::<u64, ConnectionPool>::empty());
            assert forall|t: EventType| d.chain(t) == Seq::<EventHandler>::empty() by {
                assert(d.chain(t) =~= Seq::<EventHandler>::empty());
            }
        }
        d
    }

    /// Is a module of this name registered?
    fn has_module(&self, name: &str) -> (r: bool)
        ensures
            r == contains_name(self.spec_module_names(), name@),
    {
        let mut i: usize = 0;
        while i < self.modules.len()
            invariant
                0 <= i <= self.modules@.len(),
                forall|j: int| 0 <= j < i ==> (#[trigger] self.modules@[j])@.name != name@,
            decreases self.modules@.len() - i,
        {
            if str_eq(self.modules[i].name.as_str(), name) {
                assert(self.spec_module_names()[i as int] == name@);
                return true;
            }
            i = i + 1;
        }
        assert forall|j: int| 0 <= j < self.spec_module_names().len() implies #[trigger]
            self.spec_module_names()[j] != name@ by {
            assert(self.modules@[j]@.name != name@);
        }
        false
    }

    /// Is a command of this name in the index?
    fn has_command(&self, name: &str) -> (r: bool)
        ensures
            r == self.spec_command_map().contains_key(name@),
    {
        let mut i: usize = 0;
        while i < self.command_index.len()
            invariant
                0 <= i <= self.command_index@.len(),
                forall|j: int| 0 <= j < i ==> (#[trigger] self.command_index@[j]).1@.name != name@,
            decreases self.command_index@.len() - i,
        {
            if str_eq(self.command_index[i].1.name.as_str(), name) {
                return true;
            }
            i = i + 1;
        }
        false
    }

    /// Appends one hook to the chain of its event type.
    fn push_chain_hook(&mut self, t: EventType, h: EventHandler)
        ensures
            forall|t2: EventType| #[trigger] final(self).chain(t2) == (if t2 == t {
                old(self).chain(t2).push(h)
            } else {
                old(self).chain(t2)
            }),
            final(self).modules@ == old(self).modules@,
            final(self).command_index@ == old(self).command_index@,
            final(self).store == old(self).store,
            final(self).pools@ == old(self).pools@,
            final(self).owners@ == old(self).owners@,
            final(self).shutdown == old(self).shutdown,
    {
        match t {
            EventType::MessageCreate => self.mc_hooks.push(h),
            EventType::MessageUpdate => self.mu_hooks.push(h),
            EventType::MessageDelete => self.md_hooks.push(h),
            EventType::MessageDeleteBulk => self.mdb_hooks.push(h),
            EventType::Ready => self.ready_hooks.push(h),
            EventType::Other => self.other_hooks.push(h),
        }
    }

    /// Registers a module: verifies that all declared dependencies are
    /// already registered (`MissingDependency` otherwise), that the module
    /// name is new (`DuplicateModule`), and that none of its command names is
    /// taken (`CommandCollision`); each check fails fast on the first
    /// offender, before the dispatcher serves any event. On success the
    /// module's event hooks are appended to the matching per-event-type
    /// chains in registration order, its command hooks join the end of the
    /// message-creation chain, and its commands enter the global index.
    pub fn with_module(self, module: Module) -> (r: Result<GlimDispatch, RegistryError>)
        requires
            self.wf(),
            module@.wf(),
        ensures
            ({
                let names = self.spec_module_names();
                let deps = module@.dependencies;
                let cmds = module@.commands;
                if exists|k: int| 0 <= k < deps.len() && !contains_name(names, #[trigger] deps[k]) {
                    r matches Err(RegistryError::MissingDependency(n)) && exists|k: int|
                        {
                            &&& 0 <= k < deps.len()
                            &&& n@ == deps[k]
                            &&& !contains_name(names, deps[k])
                            &&& forall|x: int| 0 <= x < k ==> contains_name(names, #[trigger] deps[x])
                        }
                } else if contains_name(names, module@.name) {
                    r matches Err(RegistryError::DuplicateModule(n)) && n@ == module@.name
                } else if exists|k: int|
                    0 <= k < cmds.len() && cmd_collides(self.spec_command_map(), cmds, k) {
                    r matches Err(RegistryError::CommandCollision(n)) && exists|k: int|
                        {
                            &&& 0 <= k < cmds.len()
                            &&& n@ == cmds[k].name
                            &&& cmd_collides(self.spec_command_map(), cmds, k)
                            &&& forall|x: int|
                                0 <= x < k ==> !cmd_collides(self.spec_command_map(), cmds, x)
                        }
                } else {
                    r matches Ok(d2) && {
                        &&& d2.wf()
                        &&& d2.spec_modules() == self.spec_modules().push(module@)
                        &&& (forall|t: EventType|
                            t != EventType::MessageCreate ==> #[trigger] d2.chain(t) == self.chain(
                                t,
                            ) + hooks_for(module@.hooks, t))
                        &&& d2.chain(EventType::MessageCreate) == self.chain(
                            EventType::MessageCreate,
                        ) + hooks_for(module@.hooks, EventType::MessageCreate)
                            + module@.command_hooks.map_values(
                            |id: u64| EventHandler::CommandHandler(id),
                        )
                        &&& (forall|k: Seq<char>|
                            self.spec_command_map().contains_key(k)
                                ==> #[trigger] d2.spec_command_map().contains_key(k)
                                && d2.spec_command_map()[k] == self.spec_command_map()[k])
                        &&& (forall|ci: int|
                            0 <= ci < cmds.len() ==> #[trigger] d2.spec_command_map().contains_key(
                                cmds[ci].name,
                            ) && d2.spec_command_map()[cmds[ci].name] == (module@.name, cmds[ci]))
                        &&& (forall|k: Seq<char>|
                            #[trigger] d2.spec_command_map().contains_key(k)
                                ==> self.spec_command_map().contains_key(k) || exists|ci: int|
                                0 <= ci < cmds.len() && cmds[ci].name == k)
                        &&& d2.dbs() == self.dbs()
                        &&& d2.pool_map() == self.pool_map()
                        &&& d2.spec_owners() == self.spec_owners()
                        &&& d2.spec_shutdown() == self.spec_shutdown()
                    }
                }
            }),
    {
        // Dependencies, failing fast on the first missing one.
        let mut di: usize = 0;
        while di < module.dependencies.len()
            invariant
                self.wf(),
                0 <= di <= module@.dependencies.len(),
                module.dependencies@.map_values(|s: String| s@) == module@.dependencies,
                forall|x: int|
                    0 <= x < di ==> contains_name(
                        self.spec_module_names(),
                        #[trigger] module@.dependencies[x],
                    ),
            decreases module@.dependencies.len() - di,
        {
            if !self.has_module(module.dependencies[di].as_str()) {
                proof {
                    assert(module@.dependencies[di as int] == module.dependencies@[di as int]@);
                    assert(exists|k: int|
                        0 <= k < module@.dependencies.len() && !contains_name(
                            self.spec_module_names(),
                            #[trigger] module@.dependencies[k],
                        )) by {
                        assert(!contains_name(
                            self.spec_module_names(),
                            module@.dependencies[di as int],
                        ));
                    }
                }
                return Err(RegistryError::MissingDependency(module.dependencies[di].clone()));
            }
            di = di + 1;
        }
        proof {
            assert(forall|k: int|
                0 <= k < module@.dependencies.len() ==> contains_name(
                    self.spec_module_names(),
                    #[trigger] module@.dependencies[k],
                ));
        }
        if self.has_module(module.name.as_str()) {
            return Err(RegistryError::DuplicateModule(module.name.clone()));
        }
        // Command collisions, failing fast on the first.
        let mut ci: usize = 0;
        while ci < module.commands.len()
            invariant
                self.wf(),
                0 <= ci <= module@.commands.len(),
                module.commands@.map_values(|c: Commander| c@) == module@.commands,
                module.name@ == module@.name,
                forall|k: int|
                    0 <= k < module@.dependencies.len() ==> contains_name(
                        self.spec_module_names(),
                        #[trigger] module@.dependencies[k],
                    ),
                !contains_name(self.spec_module_names(), module@.name),
                forall|x: int|
                    0 <= x < ci ==> !cmd_collides(
                        self.spec_command_map(),
                        module@.commands,
                        x,
                    ),
            decreases module@.commands.len() - ci,
        {
            if self.has_command(module.commands[ci].name.as_str()) {
                proof {
                    assert(module@.commands[ci as int] == module.commands@[ci as int]@);
                    assert(cmd_collides(self.spec_command_map(), module@.commands, ci as int));
                }
                return Err(RegistryError::CommandCollision(module.commands[ci].name.clone()));
            }
            let mut cj: usize = 0;
            while cj < ci
                invariant
                    self.wf(),
                    0 <= cj <= ci < module@.commands.len(),
                    module.commands@.map_values(|c: Commander| c@) == module@.commands,
                    module.name@ == module@.name,
                    forall|k: int|
                        0 <= k < module@.dependencies.len() ==> contains_name(
                            self.spec_module_names(),
                            #[trigger] module@.dependencies[k],
                        ),
                    !contains_name(self.spec_module_names(), module@.name),
                    forall|x: int|
                        0 <= x < ci ==> !cmd_collides(
                            self.spec_command_map(),
                            module@.commands,
                            x,
                        ),
                    forall|y: int|
                        0 <= y < cj ==> module@.commands[y].name != module@.commands[ci as int].name,
                decreases ci - cj,
            {
                if str_eq(
                    module.commands[cj].name.as_str(),
                    module.commands[ci].name.as_str(),
                ) {
                    proof {
                        assert(module@.commands[cj as int].name == module@.commands[ci as int].name);
                        assert(cmd_collides(self.spec_command_map(), module@.commands, ci as int));
                    }
                    return Err(
                        RegistryError::CommandCollision(module.commands[ci].name.clone()),
                    );
                }
                cj = cj + 1;
            }
            ci = ci + 1;
        }
        // Merge: event hooks into their chains, in order.
        let mut d = self;
        let ghost pre = d;
        let mut hi: usize = 0;
        while hi < module.hooks.len()
            invariant
                0 <= hi <= module@.hooks.len(),
                module.hooks@ == module@.hooks,
                module@.wf(),
                pre.wf(),
                forall|t: EventType| #[trigger] d.chain(t) == pre.chain(t) + hooks_for(
                    module@.hooks.take(hi as int),
                    t,
                ),
                d.modules@ == pre.modules@,
                d.command_index@ == pre.command_index@,
                d.store == pre.store,
                d.pools@ == pre.pools@,
                d.owners@ == pre.owners@,
                d.shutdown == pre.shutdown,
            decreases module@.hooks.len() - hi,
        {
            let (t, h) = module.hooks[hi];
            proof {
                assert(module@.hooks[hi as int] == (t, h));
                assert(spec_accepts(t, h));
                assert(module@.hooks.take(hi as int + 1) =~= module@.hooks.take(hi as int).push(
                    (t, h),
                ));
            }
            d.push_chain_hook(t, h);
            proof {
                assert forall|t2: EventType| #[trigger] d.chain(t2) == pre.chain(t2) + hooks_for(
                    module@.hooks.take(hi as int + 1),
                    t2,
                ) by {
                    lemma_hooks_for_snoc_t(module@.hooks.take(hi as int), (t, h), t2);
                    if t2 == t {
                        assert(pre.chain(t2) + hooks_for(module@.hooks.take(hi as int), t2).push(h)
                            =~= (pre.chain(t2) + hooks_for(module@.hooks.take(hi as int), t2)).push(
                            h,
                        ));
                    }
                }
            }
            hi = hi + 1;
        }
        proof {
            assert(module@.hooks.take(module@.hooks.len() as int) =~= module@.hooks);
        }
        // Command hooks join the end of the message-creation chain.
        let ghost mid = d;
        let mut ki: usize = 0;
        while ki < module.command_hooks.len()
            invariant
                0 <= ki <= module@.command_hooks.len(),
                module.command_hooks@ == module@.command_hooks,
                d.mc_hooks@ == mid.mc_hooks@ + module@.command_hooks.take(ki as int).map_values(
                    |id: u64| EventHandler::CommandHandler(id),
                ),
                d.mu_hooks@ == mid.mu_hooks@,
                d.md_hooks@ == mid.md_hooks@,
                d.mdb_hooks@ == mid.mdb_hooks@,
                d.ready_hooks@ == mid.ready_hooks@,
                d.other_hooks@ == mid.other_hooks@,
                d.modules@ == mid.modules@,
                d.command_index@ == mid.command_index@,
                d.store == mid.store,
                d.pools@ == mid.pools@,
                d.owners@ == mid.owners@,
                d.shutdown == mid.shutdown,
            decreases module@.command_hooks.len() - ki,
        {
            let id = module.command_hooks[ki];
            d.mc_hooks.push(EventHandler::CommandHandler(id));
            proof {
                assert(module@.command_hooks.take(ki as int + 1)
                    =~= module@.command_hooks.take(ki as int).push(id));
                assert(module@.command_hooks.take(ki as int + 1).map_values(
                    |id: u64| EventHandler::CommandHandler(id),
                ) =~= module@.command_hooks.take(ki as int).map_values(
                    |id: u64| EventHandler::CommandHandler(id),
                ).push(EventHandler::CommandHandler(id)));
                assert(d.mc_hooks@ =~= mid.mc_hooks@ + module@.command_hooks.take(
                    ki as int + 1,
                ).map_values(|id: u64| EventHandler::CommandHandler(id)));
            }
            ki = ki + 1;
        }
        proof {
            assert(module@.command_hooks.take(module@.command_hooks.len() as int)
                =~= module@.command_hooks);
        }
        // Commands enter the global index.
        let ghost mid2 = d;
        let mut xi: usize = 0;
        while xi < module.commands.len()
            invariant
                0 <= xi <= module@.commands.len(),
                module.commands@.map_values(|c: Commander| c@) == module@.commands,
                module.name@ == module@.name,
                d.command_index@.len() == mid2.command_index@.len() + xi,
                forall|j: int|
                    0 <= j < mid2.command_index@.len() ==> d.command_index@[j]
                        == mid2.command_index@[j],
                forall|x: int|
                    0 <= x < xi ==> d.command_index@[mid2.command_index@.len() + x].1@
                        == module@.commands[x] && d.command_index@[mid2.command_index@.len() + x].0@
                        == module@.name,
                d.mc_hooks@ == mid2.mc_hooks@,
                d.mu_hooks@ == mid2.mu_hooks@,
                d.md_hooks@ == mid2.md_hooks@,
                d.mdb_hooks@ == mid2.mdb_hooks@,
                d.ready_hooks@ == mid2.ready_hooks@,
                d.other_hooks@ == mid2.other_hooks@,
                d.modules@ == mid2.modules@,
                d.store == mid2.store,
                d.pools@ == mid2.pools@,
                d.owners@ == mid2.owners@,
                d.shutdown == mid2.shutdown,
            decreases module@.commands.len() - xi,
        {
            let c = &module.commands[xi];
            let entry = (
                module.name.clone(),
                Commander { name: c.name.clone(), permissions: c.permissions, handler: c.handler },
            );
            proof {
                assert(module@.commands[xi as int] == module.commands@[xi as int]@);
                assert(entry.1@ == module@.commands[xi as int]);
            }
            d.command_index.push(entry);
            xi = xi + 1;
        }
        d.modules.push(module);
        proof {
            lemma_command_map_extend(mid2, d, pre, module@);
            assert(d.spec_modules() =~= pre.spec_modules().push(module@));
            // Chains: the event hooks of each type, then (for message
            // creation) the command hooks.
            assert forall|t: EventType|
                t != EventType::MessageCreate implies #[trigger] d.chain(t) == pre.chain(t)
                + hooks_for(module@.hooks, t) by {
                assert(mid.chain(t) == pre.chain(t) + hooks_for(
                    module@.hooks.take(module@.hooks.len() as int),
                    t,
                ));
                assert(module@.hooks.take(module@.hooks.len() as int) =~= module@.hooks);
            }
            assert(mid.chain(EventType::MessageCreate) == pre.chain(EventType::MessageCreate)
                + hooks_for(
                module@.hooks.take(module@.hooks.len() as int),
                EventType::MessageCreate,
            ));
            assert(module@.hooks.take(module@.hooks.len() as int) =~= module@.hooks);
            assert(d.chain(EventType::MessageCreate) == pre.chain(EventType::MessageCreate)
                + hooks_for(module@.hooks, EventType::MessageCreate) + module@.command_hooks.map_values(
                |id: u64| EventHandler::CommandHandler(id),
            ));
            // Module names stay unique: the new module's name was checked
            // against every registered one.
            assert forall|i: int, j: int|
                0 <= i < j < d.modules@.len() implies d.modules@[i]@.name
                != d.modules@[j]@.name by {
                if j == d.modules@.len() - 1 {
                    assert(pre.spec_module_names()[i] == pre.modules@[i]@.name);
                }
            }
            // Every chain stays shape-checked.
            assert forall|t: EventType, k: int|
                0 <= k < d.chain(t).len() implies spec_accepts(t, #[trigger] d.chain(t)[k]) by {
                lemma_hooks_for_accepts(module@.hooks, t);
                let base = pre.chain(t).len() as int;
                let mid_len = base + hooks_for(module@.hooks, t).len() as int;
                if k < base {
                    assert(spec_accepts(t, pre.chain(t)[k]));
                } else if k < mid_len {
                    assert(d.chain(t)[k] == hooks_for(module@.hooks, t)[k - base]);
                } else {
                    assert(t == EventType::MessageCreate);
                    assert(d.chain(t)[k] == module@.command_hooks.map_values(
                        |id: u64| EventHandler::CommandHandler(id),
                    )[k - mid_len]);
                }
            }
            assert(d.wf());
        }
        Ok(d)
    }

    /// Resolves a command name against the global index.
    pub fn resolve_command(&self, s: &str) -> (r: Option<&Commander>)
        requires
            self.wf(),
        ensures
            match r {
                Some(c) => {
                    &&& self.spec_command_map().contains_key(s@)
                    &&& c@ == self.spec_command_map()[s@].1
                    &&& c@.name == s@
                },
                None => !self.spec_command_map().contains_key(s@),
            },
    {
        let mut i: usize = 0;
        while i < self.command_index.len()
            invariant
                self.wf(),
                0 <= i <= self.command_index@.len(),
                forall|j: int| 0 <= j < i ==> (#[trigger] self.command_index@[j]).1@.name != s@,
            decreases self.command_index@.len() - i,
        {
            if str_eq(self.command_index[i].1.name.as_str(), s) {
                proof {
                    let k = s@;
                    let j = choose|j: int|
                        0 <= j < self.command_index@.len() && self.command_index@[j].1@.name == k;
                    if j < i as int {
                        assert(self.command_index@[j].1@.name != self.command_index@[i as int].1@.name);
                    } else if j > i as int {
                        assert(self.command_index@[i as int].1@.name != self.command_index@[j].1@.name);
                    }
                }
                return Some(&self.command_index[i].1);
            }
            i = i + 1;
        }
        None
    }

    /// Guild bootstrap through the store: idempotent, reporting whether the
    /// guild row was newly created.
    pub fn encounter_guild(&mut self, g: u64) -> (r: Result<bool, CommanderError>)
        requires
            old(self).wf(),
        ensures
            final(self).wf(),
            final(self).same_registry(*old(self)),
            final(self).pool_map() == old(self).pool_map(),
            final(self).spec_owners() == old(self).spec_owners(),
            final(self).spec_shutdown() == old(self).spec_shutdown(),
            final(self).dbs() == spec_encounter_dbs(old(self).dbs(), g),
            ({
                let pre = old(self).dbs();
                if spec_encounter_ok(pre, g) {
                    r == Ok::<bool, CommanderError>(spec_encounter_inserts(pre, g))
                } else {
                    r matches Err(CommanderError::DatabaseError(_))
                }
            }),
    {
        let r = self.store.encounter(g);
        proof {
            assert forall|t: EventType| #[trigger] self.chain(t) == old(self).chain(t) by {}
            assert(self.wf());
        }
        r
    }

    /// Read access to the store, for pure config reads.
    pub fn config_store(&self) -> (r: &GuildConfigStore)
        ensures
            r.dbs() == self.dbs(),
            self.wf() ==> r.wf(),
    {
        &self.store
    }

    /// Reads one config value: absence is `ConfigMissing`, never a silent
    /// default.
    pub fn get_config(&self, g: u64, key: &str) -> (r: Result<String, CommanderError>)
        requires
            self.wf(),
        ensures
            ({
                let dbs = self.dbs();
                match r {
                    Ok(v) => {
                        &&& dbs.contains_key(g)
                        &&& crate::store::config_map(dbs[g].config).contains_key(key@)
                        &&& v@ == crate::store::config_map(dbs[g].config)[key@].value
                    },
                    Err(e) => {
                        &&& (e matches CommanderError::ConfigMissing(k) && k@ == key@)
                        &&& (!dbs.contains_key(g) || !crate::store::config_map(
                            dbs[g].config,
                        ).contains_key(key@))
                    },
                }
            }),
    {
        match self.store.get(g, key) {
            Some(v) => Ok(v),
            None => Err(CommanderError::ConfigMissing(String::from_str(key))),
        }
    }

    /// Writes one config value through the store.
    pub fn set_config(&mut self, g: u64, module_name: &str, value_spec: &Value, value: String)
        -> (r: Result<(), CommanderError>)
        requires
            old(self).wf(),
        ensures
            final(self).wf(),
            final(self).same_registry(*old(self)),
            final(self).pool_map() == old(self).pool_map(),
            final(self).spec_owners() == old(self).spec_owners(),
            ({
                let pre = old(self).dbs();
                let post = final(self).dbs();
                if !crate::config::spec_validates(value_spec@.validator, value@) {
                    &&& (r matches Err(CommanderError::ValidationError { value: v, constraint: c })
                        && v@ == value@ && c@ == value_spec@.key)
                    &&& post == pre
                } else if !pre.contains_key(g) || pre[g].revision() < 2 {
                    &&& r matches Err(CommanderError::DatabaseError(_))
                    &&& post == pre
                } else {
                    &&& r is Ok
                    &&& post.dom() == pre.dom()
                    &&& (forall|g2: u64| pre.dom().contains(g2) && g2 != g ==> post[g2] == pre[g2])
                    &&& crate::store::config_map(post[g].config) == crate::store::config_map(
                        pre[g].config,
                    ).insert(
                        value_spec@.key,
                        crate::migrate::RowModel {
                            module: module_name@,
                            key: value_spec@.key,
                            value: value@,
                        },
                    )
                }
            }),
    {
        let r = self.store.set(g, module_name, value_spec, value);
        proof {
            assert forall|t: EventType| #[trigger] self.chain(t) == old(self).chain(t) by {}
            assert(self.wf());
        }
        r
    }

    /// Bootstraps the guild, then writes the named module's declared config
    /// defaults. An unknown module name is a `DatabaseError`.
    pub fn ensure_module_config(&mut self, g: u64, module_name: &str) -> (r: Result<
        (),
        CommanderError,
    >)
        requires
            old(self).wf(),
        ensures
            final(self).wf(),
            final(self).same_registry(*old(self)),
            final(self).pool_map() == old(self).pool_map(),
            final(self).spec_owners() == old(self).spec_owners(),
            ({
                let pre = old(self).dbs();
                if !contains_name(old(self).spec_module_names(), module_name@) {
                    &&& r matches Err(CommanderError::DatabaseError(_))
                    &&& final(self).dbs() == pre
                } else if !spec_encounter_ok(pre, g) {
                    &&& r matches Err(CommanderError::DatabaseError(_))
                    &&& final(self).dbs() == spec_encounter_dbs(pre, g)
                } else {
                    exists|mi: int|
                        {
                            &&& 0 <= mi < old(self).spec_modules().len()
                            &&& old(self).spec_modules()[mi].name == module_name@
                            &&& defaults_contract(
                                spec_encounter_dbs(pre, g),
                                final(self).dbs(),
                                r,
                                g,
                                old(self).spec_modules()[mi],
                            )
                        }
                }
            }),
    {
        let mut mi: usize = 0;
        let n = self.modules.len();
        let mut found: Option<usize> = None;
        while mi < n && found.is_none()
            invariant
                n == self.modules@.len(),
                0 <= mi <= n,
                match found {
                    Some(k) => k < n && self.modules@[k as int]@.name == module_name@,
                    None => forall|j: int|
                        0 <= j < mi ==> (#[trigger] self.modules@[j])@.name != module_name@,
                },
            decreases n - mi + (if found is Some {
                0int
            } else {
                1int
            }),
        {
            if str_eq(self.modules[mi].name.as_str(), module_name) {
                found = Some(mi);
            } else {
                mi = mi + 1;
            }
        }
        let idx = match found {
            Some(k) => k,
            None => {
                proof {
                    assert forall|j: int| 0 <= j < old(self).spec_module_names().len()
                        implies #[trigger] old(self).spec_module_names()[j] != module_name@ by {
                        assert(self.modules@[j]@.name != module_name@);
                    }
                }
                return Err(CommanderError::DatabaseError(String::from_str("no such module")));
            },
        };
        proof {
            assert(old(self).spec_modules()[idx as int] == old(self).modules@[idx as int]@);
            assert(old(self).spec_module_names()[idx as int] == old(self).spec_modules()[
                idx as int
            ].name);
            assert(contains_name(old(self).spec_module_names(), module_name@)) by {
                assert(old(self).spec_module_names()[idx as int] == module_name@);
            }
        }
        match self.store.encounter(g) {
            Ok(_) => {},
            Err(e) => {
                proof {
                    assert forall|t: EventType| #[trigger] self.chain(t) == old(self).chain(t) by {}
                    assert(self.wf());
                }
                return Err(e);
            },
        }
        let m = &self.modules[idx];
        let r = self.store.ensure_module_defaults(g, m);
        proof {
            assert forall|t: EventType| #[trigger] self.chain(t) == old(self).chain(t) by {}
            assert(self.wf());
            assert(old(self).spec_modules()[idx as int].name == module_name@);
        }
        r
    }

    /// Acquires a pooled read handle on the guild's pool, creating the pool
    /// at first use. Returns whether a handle was free; on exhaustion the
    /// caller blocks briefly and retries.
    pub fn rd_conn(&mut self, g: u64) -> (r: bool)
        requires
            old(self).wf(),
        ensures
            final(self).wf(),
            final(self).same_registry(*old(self)),
            final(self).dbs() == old(self).dbs(),
            final(self).spec_owners() == old(self).spec_owners(),
            ({
                let p0 = if old(self).pool_map().contains_key(g) {
                    old(self).pool_map()[g]
                } else {
                    ConnectionPool { max_readers: POOL_READERS, readers_live: 0, writers_live: 0 }
                };
                &&& r == (p0.readers_live < p0.max_readers)
                &&& final(self).pool_map() == old(self).pool_map().insert(
                    g,
                    p0.spec_step(PoolOp::AcquireReader),
                )
            }),
    {
        let i = self.pool_index(g);
        let r = self.pools[i].1.get_reader();
        proof {
            assert forall|t: EventType| #[trigger] self.chain(t) == old(self).chain(t) by {}
            assert forall|a: int, b: int|
                0 <= a < b < self.pools@.len() implies self.pools@[a].0 != self.pools@[b].0 by {}
            assert(self.wf());
            self.lemma_pool_update(*old(self), i as int, g);
        }
        r
    }

    /// Acquires the guild's exclusive writer handle, creating the pool at
    /// first use. Returns whether it was free; while a writer is in flight
    /// the caller blocks until it finishes, and the handle is released when
    /// its scope ends.
    pub fn wr_conn(&mut self, g: u64) -> (r: bool)
        requires
            old(self).wf(),
        ensures
            final(self).wf(),
            final(self).same_registry(*old(self)),
            final(self).dbs() == old(self).dbs(),
            final(self).spec_owners() == old(self).spec_owners(),
            ({
                let p0 = if old(self).pool_map().contains_key(g) {
                    old(self).pool_map()[g]
                } else {
                    ConnectionPool { max_readers: POOL_READERS, readers_live: 0, writers_live: 0 }
                };
                &&& r == (p0.writers_live == 0)
                &&& final(self).pool_map() == old(self).pool_map().insert(
                    g,
                    p0.spec_step(PoolOp::AcquireWriter),
                )
            }),
    {
        let i = self.pool_index(g);
        let r = self.pools[i].1.get_writer();
        proof {
            assert forall|t: EventType| #[trigger] self.chain(t) == old(self).chain(t) by {}
            assert forall|a: int, b: int|
                0 <= a < b < self.pools@.len() implies self.pools@[a].0 != self.pools@[b].0 by {}
            assert(self.wf());
            self.lemma_pool_update(*old(self), i as int, g);
        }
        r
    }

    /// Releases a pooled read handle of the guild.
    pub fn release_rd(&mut self, g: u64)
        requires
            old(self).wf(),
            old(self).pool_map().contains_key(g),
            old(self).pool_map()[g].readers_live > 0,
        ensures
            final(self).wf(),
            final(self).same_registry(*old(self)),
            final(self).dbs() == old(self).dbs(),
            final(self).spec_owners() == old(self).spec_owners(),
            final(self).pool_map() == old(self).pool_map().insert(
                g,
                old(self).pool_map()[g].spec_step(PoolOp::ReleaseReader),
            ),
    {
        let i = self.pool_index(g);
        self.pools[i].1.release_reader();
        proof {
            assert forall|t: EventType| #[trigger] self.chain(t) == old(self).chain(t) by {}
            assert forall|a: int, b: int|
                0 <= a < b < self.pools@.len() implies self.pools@[a].0 != self.pools@[b].0 by {}
            assert(self.wf());
            self.lemma_pool_update(*old(self), i as int, g);
        }
    }

    /// Releases the guild's writer handle, as the handle's scope ends on
    /// every exit path.
    pub fn release_wr(&mut self, g: u64)
        requires
            old(self).wf(),
            old(self).pool_map().contains_key(g),
            old(self).pool_map()[g].writers_live > 0,
        ensures
            final(self).wf(),
            final(self).same_registry(*old(self)),
            final(self).dbs() == old(self).dbs(),
            final(self).spec_owners() == old(self).spec_owners(),
            final(self).pool_map() == old(self).pool_map().insert(
                g,
                old(self).pool_map()[g].spec_step(PoolOp::ReleaseWriter),
            ),
    {
        let i = self.pool_index(g);
        self.pools[i].1.release_writer();
        proof {
            assert forall|t: EventType| #[trigger] self.chain(t) == old(self).chain(t) by {}
            assert forall|a: int, b: int|
                0 <= a < b < self.pools@.len() implies self.pools@[a].0 != self.pools@[b].0 by {}
            assert(self.wf());
            self.lemma_pool_update(*old(self), i as int, g);
        }
    }

    /// Finds the guild's pool, creating it at first use.
    fn pool_index(&mut self, g: u64) -> (i: usize)
        requires
            old(self).wf(),
        ensures
            final(self).wf(),
            i < final(self).pools@.len(),
            final(self).pools@[i as int].0 == g,
            final(self).modules@ == old(self).modules@,
            final(self).mc_hooks@ == old(self).mc_hooks@,
            final(self).mu_hooks@ == old(self).mu_hooks@,
            final(self).md_hooks@ == old(self).md_hooks@,
            final(self).mdb_hooks@ == old(self).mdb_hooks@,
            final(self).ready_hooks@ == old(self).ready_hooks@,
            final(self).other_hooks@ == old(self).other_hooks@,
            final(self).command_index@ == old(self).command_index@,
            final(self).store == old(self).store,
            final(self).owners@ == old(self).owners@,
            final(self).shutdown == old(self).shutdown,
            old(self).pool_map().contains_key(g) ==> final(self).pools@ == old(self).pools@
                && final(self).pools@[i as int].1 == old(self).pool_map()[g],
            !old(self).pool_map().contains_key(g) ==> final(self).pools@ == old(self).pools@.push(
                (g, ConnectionPool { max_readers: POOL_READERS, readers_live: 0, writers_live: 0 }),
            ),
    {
        let mut i: usize = 0;
        while i < self.pools.len()
            invariant
                *self == *old(self),
                self.wf(),
                0 <= i <= self.pools@.len(),
                forall|j: int| 0 <= j < i ==> (#[trigger] self.pools@[j]).0 != g,
            decreases self.pools@.len() - i,
        {
            if self.pools[i].0 == g {
                proof {
                    let j = choose|j: int|
                        0 <= j < self.pools@.len() && self.pools@[j].0 == g;
                    if j < i as int {
                        assert(self.pools@[j].0 != self.pools@[i as int].0);
                    } else if j > i as int {
                        assert(self.pools@[i as int].0 != self.pools@[j].0);
                    }
                }
                return i;
            }
            i = i + 1;
        }
        let n = self.pools.len();
        self.pools.push(
            (g, ConnectionPool { max_readers: POOL_READERS, readers_live: 0, writers_live: 0 }),
        );
        proof {
            assert forall|a: int, b: int|
                0 <= a < b < self.pools@.len() implies self.pools@[a].0 != self.pools@[b].0 by {
                if b == self.pools@.len() - 1 {
                    assert(old(self).pools@[a].0 != g);
                }
            }
            assert forall|t: EventType| #[trigger] self.chain(t) == old(self).chain(t) by {}
            assert(self.wf());
        }
        n
    }

    /// Replacing one pool in place updates the pool map at its guild alone.
    proof fn lemma_pool_update(self, pre: GlimDispatch, i: int, g: u64)
        requires
            forall|a: int, b: int|
                0 <= a < b < self.pools@.len() ==> self.pools@[a].0 != self.pools@[b].0,
            0 <= i < self.pools@.len(),
            self.pools@[i].0 == g,
            pre.pools@.len() == self.pools@.len() || pre.pools@.len() + 1 == self.pools@.len(),
            forall|j: int|
                0 <= j < self.pools@.len() && j != i ==> 0 <= j < pre.pools@.len()
                    && self.pools@[j] == pre.pools@[j],
            pre.pools@.len() == self.pools@.len() ==> pre.pools@[i].0 == g,
            pre.pools@.len() + 1 == self.pools@.len() ==> i == pre.pools@.len()
                && !pre.pool_map().contains_key(g),
        ensures
            self.pool_map() == pre.pool_map().insert(g, self.pools@[i].1),
    {
        assert forall|k: u64| #[trigger]
            self.pool_map().contains_key(k) == pre.pool_map().insert(
                g,
                self.pools@[i].1,
            ).contains_key(k) by {
            if k == g {
                assert(self.pools@[i].0 == g);
            } else {
                if self.pool_map().contains_key(k) {
                    let j = choose|j: int| 0 <= j < self.pools@.len() && self.pools@[j].0 == k;
                    assert(j != i);
                    assert(pre.pools@[j].0 == k);
                }
                if pre.pool_map().contains_key(k) {
                    let j = choose|j: int| 0 <= j < pre.pools@.len() && pre.pools@[j].0 == k;
                    if pre.pools@.len() == self.pools@.len() {
                        if j != i {
                            assert(self.pools@[j].0 == k);
                        } else {
                            assert(pre.pools@[i].0 == g);
                        }
                    } else {
                        assert(j != i);
                        assert(self.pools@[j].0 == k);
                    }
                }
            }
        }
        assert forall|k: u64| self.pool_map().contains_key(k) implies #[trigger] self.pool_map()[k]
            == pre.pool_map().insert(g, self.pools@[i].1)[k] by {
            let j = choose|j: int| 0 <= j < self.pools@.len() && self.pools@[j].0 == k;
            if k == g {
                if j != i {
                    assert(self.pools@[j].0 != self.pools@[i].0 || j == i);
                }
            } else {
                assert(j != i);
                assert(pre.pools@[j].0 == k);
                let j2 = choose|j2: int| 0 <= j2 < pre.pools@.len() && pre.pools@[j2].0 == k;
                if j2 != j {
                    if pre.pools@.len() == self.pools@.len() {
                        if j2 != i {
                            assert(self.pools@[j2].0 == k);
                            assert(self.pools@[j2].0 != self.pools@[j].0 || j2 == j);
                        } else {
                            assert(pre.pools@[i].0 == g);
                        }
                    } else {
                        assert(self.pools@[j2].0 == k);
                        assert(self.pools@[j2].0 != self.pools@[j].0 || j2 == j);
                    }
                }
            }
        }
        assert(self.pool_map() =~= pre.pool_map().insert(g, self.pools@[i].1));
    }

    /// Adds a user to the synchronized owner set.
    pub fn add_owner(&mut self, u: u64)
        requires
            old(self).wf(),
        ensures
            final(self).wf(),
            final(self).same_registry(*old(self)),
            final(self).dbs() == old(self).dbs(),
            final(self).pool_map() == old(self).pool_map(),
            final(self).spec_owners() == (if old(self).spec_owners().contains(u) {
                old(self).spec_owners()
            } else {
                old(self).spec_owners().push(u)
            }),
    {
        let mut i: usize = 0;
        while i < self.owners.len()
            invariant
                *self == *old(self),
                old(self).wf(),
                0 <= i <= self.owners@.len(),
                forall|j: int| 0 <= j < i ==> self.owners@[j] != u,
            decreases self.owners@.len() - i,
        {
            if self.owners[i] == u {
                return;
            }
            i = i + 1;
        }
        self.owners.push(u);
        proof {
            assert forall|t: EventType| #[trigger] self.chain(t) == old(self).chain(t) by {}
            assert forall|a: int, b: int|
                0 <= a < b < self.owners@.len() implies self.owners@[a] != self.owners@[b] by {
                if b == self.owners@.len() - 1 {
                    assert(old(self).owners@[a] != u);
                }
            }
            assert(self.wf());
            assert(!old(self).spec_owners().contains(u));
        }
    }

    /// Is the user in the owner set? The guild owner and the process owners
    /// are always authorized.
    pub fn is_owner(&self, u: u64) -> (r: bool)
        ensures
            r == self.spec_owners().contains(u),
    {
        let mut i: usize = 0;
        while i < self.owners.len()
            invariant
                0 <= i <= self.owners@.len(),
                forall|j: int| 0 <= j < i ==> self.owners@[j] != u,
            decreases self.owners@.len() - i,
        {
            if self.owners[i] == u {
                return true;
            }
            i = i + 1;
        }
        false
    }

    /// The connected-and-ready transition: bootstraps every guild the
    /// platform announced and records the application owner. Per-guild
    /// bootstrap failures are isolated; every announced guild has a database
    /// entry afterwards.
    pub fn ready(&mut self, guild_ids: &Vec<u64>, owner: Option<u64>)
        requires
            old(self).wf(),
        ensures
            final(self).wf(),
            final(self).same_registry(*old(self)),
            final(self).pool_map() == old(self).pool_map(),
            forall|i: int|
                0 <= i < guild_ids@.len() ==> final(self).dbs().contains_key(
                    #[trigger] guild_ids@[i],
                ),
            final(self).spec_owners() == (match owner {
                Some(o) => if old(self).spec_owners().contains(o) {
                    old(self).spec_owners()
                } else {
                    old(self).spec_owners().push(o)
                },
                None => old(self).spec_owners(),
            }),
    {
        let mut i: usize = 0;
        while i < guild_ids.len()
            invariant
                old(self).wf(),
                self.store.wf(),
                self.modules@ == old(self).modules@,
                self.mc_hooks@ == old(self).mc_hooks@,
                self.mu_hooks@ == old(self).mu_hooks@,
                self.md_hooks@ == old(self).md_hooks@,
                self.mdb_hooks@ == old(self).mdb_hooks@,
                self.ready_hooks@ == old(self).ready_hooks@,
                self.other_hooks@ == old(self).other_hooks@,
                self.command_index@ == old(self).command_index@,
                self.pools@ == old(self).pools@,
                self.owners@ == old(self).owners@,
                self.shutdown == old(self).shutdown,
                0 <= i <= guild_ids@.len(),
                forall|j: int|
                    0 <= j < i ==> self.dbs().contains_key(#[trigger] guild_ids@[j]),
            decreases guild_ids@.len() - i,
        {
            let g = guild_ids[i];
            let ghost before = self.dbs();
            let _ = self.store.encounter(g);
            proof {
                assert(self.dbs() == spec_encounter_dbs(before, g));
                assert(self.dbs().contains_key(g));
                assert forall|j: int| 0 <= j < i implies self.dbs().contains_key(
                    #[trigger] guild_ids@[j],
                ) by {
                    assert(before.contains_key(guild_ids@[j]));
                }
            }
            i = i + 1;
        }
        proof {
            assert forall|t: EventType| #[trigger] self.chain(t) == old(self).chain(t) by {}
            assert(self.wf());
            assert(self.spec_command_map() =~= old(self).spec_command_map());
            assert(self.pool_map() =~= old(self).pool_map());
        }
        match owner {
            Some(o) => self.add_owner(o),
            None => {},
        }
    }

    /// Raises the shutdown flag.
    pub fn begin_shutdown(&mut self)
        ensures
            final(self).spec_shutdown(),
            final(self).same_registry(*old(self)),
            final(self).dbs() == old(self).dbs(),
            final(self).pool_map() == old(self).pool_map(),
            final(self).spec_owners() == old(self).spec_owners(),
            old(self).wf() ==> final(self).wf(),
    {
        self.shutdown = true;
    }

    /// Reads the shutdown flag.
    pub fn is_shutdown(&self) -> (r: bool)
        ensures
            r == self.spec_shutdown(),
    {
        self.shutdown
    }
}

/// Relates the command index after a registration to the one before.
proof fn lemma_command_map_extend(
    mid: GlimDispatch,
    post: GlimDispatch,
    pre: GlimDispatch,
    m: ModuleModel,
)
    requires
        pre.wf(),
        mid.command_index@ == pre.command_index@,
        post.command_index@.len() == mid.command_index@.len() + m.commands.len(),
        forall|j: int|
            0 <= j < mid.command_index@.len() ==> post.command_index@[j] == mid.command_index@[j],
        forall|x: int|
            0 <= x < m.commands.len() ==> post.command_index@[mid.command_index@.len() + x].1@
                == m.commands[x] && post.command_index@[mid.command_index@.len() + x].0@ == m.name,
        forall|k: int|
            0 <= k < m.commands.len() ==> !cmd_collides(pre.spec_command_map(), m.commands, k),
    ensures
        forall|i: int, j: int|
            0 <= i < j < post.command_index@.len() ==> post.command_index@[i].1@.name
                != post.command_index@[j].1@.name,
        forall|k: Seq<char>|
            pre.spec_command_map().contains_key(k) ==> #[trigger] post.spec_command_map(
            ).contains_key(k) && post.spec_command_map()[k] == pre.spec_command_map()[k],
        forall|ci: int|
            0 <= ci < m.commands.len() ==> #[trigger] post.spec_command_map().contains_key(
                m.commands[ci].name,
            ) && post.spec_command_map()[m.commands[ci].name] == (m.name, m.commands[ci]),
        forall|k: Seq<char>|
            #[trigger] post.spec_command_map().contains_key(k) ==> pre.spec_command_map(
            ).contains_key(k) || exists|ci: int| 0 <= ci < m.commands.len() && m.commands[ci].name
                == k,
{
    let n = mid.command_index@.len() as int;
    // Old entries witness membership of old keys in the old map.
    assert forall|i: int, j: int|
        0 <= i < j < post.command_index@.len() implies post.command_index@[i].1@.name
        != post.command_index@[j].1@.name by {
        if j < n {
        } else if i < n {
            let x = j - n;
            assert(!cmd_collides(pre.spec_command_map(), m.commands, x));
            assert(pre.command_index@[i].1@.name == post.command_index@[i].1@.name);
            if post.command_index@[i].1@.name == m.commands[x].name {
                assert(pre.spec_command_map().contains_key(m.commands[x].name));
            }
        } else {
            let x = i - n;
            let y = j - n;
            assert(!cmd_collides(pre.spec_command_map(), m.commands, y));
            if m.commands[x].name == m.commands[y].name {
            }
        }
    }
    assert forall|k: Seq<char>|
        pre.spec_command_map().contains_key(k) implies #[trigger] post.spec_command_map(
    ).contains_key(k) && post.spec_command_map()[k] == pre.spec_command_map()[k] by {
        let j = choose|j: int|
            0 <= j < pre.command_index@.len() && pre.command_index@[j].1@.name == k;
        assert(post.command_index@[j].1@.name == k);
        let j2 = choose|j2: int|
            0 <= j2 < post.command_index@.len() && post.command_index@[j2].1@.name == k;
        if j2 != j {
            assert(post.command_index@[j].1@.name == post.command_index@[j2].1@.name);
        }
    }
    assert forall|ci: int|
        0 <= ci < m.commands.len() implies #[trigger] post.spec_command_map().contains_key(
        m.commands[ci].name,
    ) && post.spec_command_map()[m.commands[ci].name] == (m.name, m.commands[ci]) by {
        assert(post.command_index@[n + ci].1@.name == m.commands[ci].name);
        let j2 = choose|j2: int|
            0 <= j2 < post.command_index@.len() && post.command_index@[j2].1@.name
                == m.commands[ci].name;
        if j2 != n + ci {
            assert(post.command_index@[j2].1@.name == post.command_index@[n + ci].1@.name);
        }
    }
    assert forall|k: Seq<char>|
        #[trigger] post.spec_command_map().contains_key(k) implies pre.spec_command_map(
    ).contains_key(k) || exists|ci: int| 0 <= ci < m.commands.len() && m.commands[ci].name == k by {
        let j = choose|j: int|
            0 <= j < post.command_index@.len() && post.command_index@[j].1@.name == k;
        if j < n {
            assert(pre.command_index@[j].1@.name == k);
        } else {
            assert(m.commands[j - n].name == k);
        }
    }
}

/// What the dispatcher asks its caller to do next while processing one
/// message event. The caller performs the outside work and feeds the outcome
/// back through [`GlimDispatch::step`].
#[derive(Debug, Clone, PartialEq, Eq)]
pub enum DispatchAction {
    /// Run the message hook bound to this identity; answer with `HookOutcome`.
    RunMessageHook { hook: u64 },
    /// Run the command hook bound to this identity on the candidate; answer
    /// with `CommandHookOutcome`.
    RunCommandHook { hook: u64, cmd: RawCmd },
    /// Invoke the handler bound to this identity; answer with
    /// `HandlerOutcome`.
    InvokeHandler { handler: u64, cmd: RawCmd },
    /// Send this text to the originating channel; answer with `Delivered`.
    Reply { text: String },
    /// Log this detail, nothing more; answer with `Delivered`.
    LogDetail { text: String },
    /// The event is fully processed.
    Finished,
}

/// What the caller reports back after performing a [`DispatchAction`].
#[derive(Debug, PartialEq, Eq)]
pub enum DispatchEvent {
    /// A message hook ran; `stop` short-circuits the rest of the chain.
    HookOutcome { stop: bool },
    /// A command hook ran: it passed (possibly renaming) or denied.
    CommandHookOutcome { result: Result<RawCmd, CommanderError> },
    /// The handler ran.
    HandlerOutcome { result: Result<(), CommanderError> },
    /// The reply was sent (or the log line written).
    Delivered,
}

/// Where one message event's processing stands.
#[derive(Debug, Clone, Copy, PartialEq, Eq, Structural)]
pub enum RunState {
    /// Awaiting the outcome of the message hook at this chain position.
    MsgHooks { idx: usize },
    /// Awaiting the outcome of the command hook at this chain position.
    CmdFold { idx: usize },
    /// Awaiting the handler's outcome.
    AwaitHandler,
    /// Awaiting delivery of a reply or log line.
    AwaitReply,
    /// Fully processed.
    Done,
}

/// One message event in flight.
#[derive(Debug, Clone, PartialEq, Eq)]
pub struct MessageRun {
    guild: u64,
    content: String,
    state: RunState,
}

impl MessageRun {
    /// The guild the message arrived in.
    pub closed spec fn guild(self) -> u64 {
        self.guild
    }

    /// The message's full text.
    pub closed spec fn content(self) -> Seq<char> {
        self.content@
    }

    /// The current state.
    pub closed spec fn st(self) -> RunState {
        self.state
    }

    /// Whether the event is fully processed.
    pub fn is_done(&self) -> (r: bool)
        ensures
            r == (self.st() is Done),
    {
        matches!(self.state, RunState::Done)
    }
}

/// The event a state of the machine expects; `Done` expects nothing.
pub open spec fn expects(st: RunState, ev: DispatchEvent) -> bool {
    match st {
        RunState::MsgHooks { .. } => ev is HookOutcome,
        RunState::CmdFold { .. } => ev is CommandHookOutcome,
        RunState::AwaitHandler => ev is HandlerOutcome,
        RunState::AwaitReply => ev is Delivered,
        RunState::Done => false,
    }
}

/// A run is consistent with the dispatcher it was started on: any awaited
/// chain position indexes a hook of the right shape.
pub open spec fn run_wf(run: MessageRun, d: GlimDispatch) -> bool {
    let c = d.chain(EventType::MessageCreate);
    match run.st() {
        RunState::MsgHooks { idx } => idx < c.len() && c[idx as int] is MessageHandler,
        RunState::CmdFold { idx } => idx < c.len() && c[idx as int] is CommandHandler,
        _ => true,
    }
}

/// How the dispatcher classifies a failing outcome: silent failures produce
/// no action beyond a log entry, a silent failure with detail logs the
/// detail, and every other error is echoed verbatim as a code block to the
/// originating channel.
pub open spec fn err_post(e: CommanderError, action: DispatchAction, st: RunState) -> bool {
    match e {
        CommanderError::Silent => action is Finished && st is Done,
        CommanderError::PermissionDeniedSilent => action is Finished && st is Done,
        CommanderError::SilentError(d) => (action matches DispatchAction::LogDetail { text }
            && text@ == d@) && st is AwaitReply,
        _ => (action matches DispatchAction::Reply { text } && text@ == spec_codeblock(
            e.spec_message(),
        )) && st is AwaitReply,
    }
}

/// How a folded command resolves: a name in the global index invokes its
/// handler with the folded candidate; an unmatched name yields the public
/// "no such command" reply and the handler is not invoked.
pub open spec fn resolve_post(
    d: GlimDispatch,
    cmd: RawCmdModel,
    action: DispatchAction,
    st: RunState,
) -> bool {
    if d.spec_command_map().contains_key(cmd.command) {
        (action matches DispatchAction::InvokeHandler { handler, cmd: c2 } && handler
            == d.spec_command_map()[cmd.command].1.handler && c2@ == cmd) && st is AwaitHandler
    } else {
        (action matches DispatchAction::Reply { text } && text@ == "```No such command.```"@)
            && st is AwaitReply
    }
}

/// What happens when the message-hook phase is over: if the guild's prefix is
/// unknown or the text does not start with it, the event is done; malformed
/// command text is a user-visible parse error; otherwise the parsed command
/// enters the fold at the first command hook, or resolves directly when no
/// command hook is registered.
pub open spec fn cmd_entry_post(
    d: GlimDispatch,
    g: u64,
    content: Seq<char>,
    action: DispatchAction,
    st: RunState,
) -> bool {
    let c = d.chain(EventType::MessageCreate);
    if !d.dbs().contains_key(g) || !(d.dbs()[g].prefix is Some) {
        action is Finished && st is Done
    } else {
        let pfx = d.dbs()[g].prefix->0;
        if !spec_starts_with(content, pfx) {
            action is Finished && st is Done
        } else {
            match spec_parse(content.skip(pfx.len() as int)) {
                None => (action matches DispatchAction::Reply { text } && text@ == spec_codeblock(
                    "Parse error: "@ + "empty command"@,
                )) && st is AwaitReply,
                Some(cmd0) => match next_cmd_hook(c, 0) {
                    Some(j) => (action matches DispatchAction::RunCommandHook { hook, cmd }
                        && hook == c[j].spec_id() && cmd@ == cmd0) && (st matches RunState::CmdFold {
                        idx,
                    } && idx as int == j),
                    None => resolve_post(d, cmd0, action, st),
                },
            }
        }
    }
}

impl GlimDispatch {
    /// Classifies a hook or handler error into the action it produces.
    fn error_phase(run: &mut MessageRun, e: CommanderError) -> (action: DispatchAction)
        ensures
            err_post(e, action, final(run).st()),
            final(run).guild() == old(run).guild(),
            final(run).content() == old(run).content(),
            final(run).st() is Done || final(run).st() is AwaitReply,
    {
        match e {
            CommanderError::Silent => {
                run.state = RunState::Done;
                DispatchAction::Finished
            },
            CommanderError::PermissionDeniedSilent => {
                run.state = RunState::Done;
                DispatchAction::Finished
            },
            CommanderError::SilentError(d) => {
                run.state = RunState::AwaitReply;
                DispatchAction::LogDetail { text: d }
            },
            other => {
                run.state = RunState::AwaitReply;
                DispatchAction::Reply { text: codeblock(other.message().as_str()) }
            },
        }
    }

    /// Resolves the folded command against the global index.
    fn resolve_phase(&self, run: &mut MessageRun, cmd: RawCmd) -> (action: DispatchAction)
        requires
            self.wf(),
        ensures
            resolve_post(*self, cmd@, action, final(run).st()),
            final(run).guild() == old(run).guild(),
            final(run).content() == old(run).content(),
            run_wf(*final(run), *self),
    {
        match self.resolve_command(cmd.command.as_str()) {
            Some(c) => {
                let handler = c.handler;
                run.state = RunState::AwaitHandler;
                DispatchAction::InvokeHandler { handler, cmd }
            },
            None => {
                run.state = RunState::AwaitReply;
                DispatchAction::Reply { text: String::from_str("```No such command.```") }
            },
        }
    }

    /// The transition from the message-hook phase into the command pipeline:
    /// prefix check, parse, and entry into the fold.
    fn enter_command_phase(&self, run: &mut MessageRun) -> (action: DispatchAction)
        requires
            self.wf(),
        ensures
            cmd_entry_post(*self, old(run).guild(), old(run).content(), action, final(run).st()),
            final(run).guild() == old(run).guild(),
            final(run).content() == old(run).content(),
            run_wf(*final(run), *self),
    {
        let pfx = match self.store.get_prefix(run.guild) {
            Some(p) => p,
            None => {
                run.state = RunState::Done;
                return DispatchAction::Finished;
            },
        };
        if !starts_with_str(run.content.as_str(), pfx.as_str()) {
            run.state = RunState::Done;
            return DispatchAction::Finished;
        }
        let cl = run.content.as_str().unicode_len();
        let pl = pfx.as_str().unicode_len();
        let body = run.content.as_str().substring_char(pl, cl);
        match parse_command(body) {
            Err(e) => {
                let text = codeblock(e.message().as_str());
                run.state = RunState::AwaitReply;
                DispatchAction::Reply { text }
            },
            Ok(cmd0) => match next_cmd_hook_exec(&self.mc_hooks, 0) {
                Some(j) => {
                    let hook = self.mc_hooks[j].id();
                    run.state = RunState::CmdFold { idx: j };
                    DispatchAction::RunCommandHook { hook, cmd: cmd0 }
                },
                None => self.resolve_phase(run, cmd0),
            },
        }
    }

    /// Starts processing one inbound message: the dispatcher's own messages
    /// are ignored, the guild is bootstrapped, and the first registered
    /// message hook (if any) is handed to the caller; with none registered
    /// the command pipeline begins at once.
    pub fn begin_message(&mut self, g: u64, author_is_self: bool, content: String) -> (r: (
        MessageRun,
        DispatchAction,
    ))
        requires
            old(self).wf(),
        ensures
            final(self).wf(),
            final(self).same_registry(*old(self)),
            final(self).pool_map() == old(self).pool_map(),
            final(self).spec_owners() == old(self).spec_owners(),
            run_wf(r.0, *final(self)),
            r.0.guild() == g,
            r.0.content() == content@,
            ({
                let c = final(self).chain(EventType::MessageCreate);
                if author_is_self {
                    r.1 is Finished && r.0.st() is Done && final(self).dbs() == old(self).dbs()
                } else {
                    final(self).dbs() == spec_encounter_dbs(old(self).dbs(), g) && (if !spec_encounter_ok(
                        old(self).dbs(),
                        g,
                    ) {
                        (r.1 matches DispatchAction::Reply { text } && text@ == spec_codeblock(
                            "Database error: "@ + "guild database not initialized"@,
                        )) && r.0.st() is AwaitReply
                    } else {
                        match next_msg_hook(c, 0) {
                            Some(j) => (r.1 matches DispatchAction::RunMessageHook { hook } && hook
                                == c[j].spec_id()) && (r.0.st() matches RunState::MsgHooks { idx }
                                && idx as int == j),
                            None => cmd_entry_post(*final(self), g, content@, r.1, r.0.st()),
                        }
                    })
                }
            }),
    {
        if author_is_self {
            return (
                MessageRun { guild: g, content, state: RunState::Done },
                DispatchAction::Finished,
            );
        }
        let enc = self.store.encounter(g);
        proof {
            assert forall|t: EventType| #[trigger] self.chain(t) == old(self).chain(t) by {}
            assert(self.wf());
        }
        let mut run = MessageRun { guild: g, content, state: RunState::Done };
        match enc {
            Err(e) => {
                let text = codeblock(e.message().as_str());
                run.state = RunState::AwaitReply;
                (run, DispatchAction::Reply { text })
            },
            Ok(_) => match next_msg_hook_exec(&self.mc_hooks, 0) {
                Some(j) => {
                    let hook = self.mc_hooks[j].id();
                    run.state = RunState::MsgHooks { idx: j };
                    (run, DispatchAction::RunMessageHook { hook })
                },
                None => {
                    let a = self.enter_command_phase(&mut run);
                    (run, a)
                },
            },
        }
    }

    /// Feeds one outcome back and takes the next step. Hooks for one event
    /// run in strict registration order; a message hook answering `stop`
    /// short-circuits everything after it, command hooks and handler
    /// included; the command fold stops at the first denial; the dispatcher
    /// alone converts an outcome into a reply or a log line.
    pub fn step(&self, run: &mut MessageRun, ev: DispatchEvent) -> (action: DispatchAction)
        requires
            self.wf(),
            run_wf(*old(run), *self),
            expects(old(run).st(), ev),
        ensures
            run_wf(*final(run), *self),
            final(run).guild() == old(run).guild(),
            final(run).content() == old(run).content(),
            ({
                let c = self.chain(EventType::MessageCreate);
                match old(run).st() {
                    RunState::MsgHooks { idx } => (ev matches DispatchEvent::HookOutcome { stop }
                        && (if stop {
                        action is Finished && final(run).st() is Done
                    } else {
                        match next_msg_hook(c, idx + 1) {
                            Some(j) => (action matches DispatchAction::RunMessageHook { hook }
                                && hook == c[j].spec_id()) && (final(run).st()
                                matches RunState::MsgHooks { idx: i2 } && i2 as int == j),
                            None => cmd_entry_post(
                                *self,
                                old(run).guild(),
                                old(run).content(),
                                action,
                                final(run).st(),
                            ),
                        }
                    })),
                    RunState::CmdFold { idx } => (ev matches DispatchEvent::CommandHookOutcome {
                        result,
                    } && (match result {
                        Ok(c2) => match next_cmd_hook(c, idx + 1) {
                            Some(j) => (action matches DispatchAction::RunCommandHook {
                                hook,
                                cmd,
                            } && hook == c[j].spec_id() && cmd@ == c2@) && (final(run).st()
                                matches RunState::CmdFold { idx: i2 } && i2 as int == j),
                            None => resolve_post(*self, c2@, action, final(run).st()),
                        },
                        Err(e) => err_post(e, action, final(run).st()),
                    })),
                    RunState::AwaitHandler => (ev matches DispatchEvent::HandlerOutcome { result }
                        && (match result {
                        Ok(_) => action is Finished && final(run).st() is Done,
                        Err(e) => err_post(e, action, final(run).st()),
                    })),
                    RunState::AwaitReply => action is Finished && final(run).st() is Done,
                    RunState::Done => false,
                }
            }),
    {
        match ev {
            DispatchEvent::HookOutcome { stop } => {
                let idx = match run.state {
                    RunState::MsgHooks { idx } => idx,
                    // `expects` ties a hook outcome to the hook-phase state.
                    _ => {
                        proof {
                            assert(false);
                        }
                        0
                    },
                };
                if stop {
                    run.state = RunState::Done;
                    return DispatchAction::Finished;
                }
                let n = self.mc_hooks.len();
                proof {
                    assert(idx < n);
                }
                match next_msg_hook_exec(&self.mc_hooks, idx + 1) {
                    Some(j) => {
                        let hook = self.mc_hooks[j].id();
                        run.state = RunState::MsgHooks { idx: j };
                        DispatchAction::RunMessageHook { hook }
                    },
                    None => self.enter_command_phase(run),
                }
            },
            DispatchEvent::CommandHookOutcome { result } => {
                let idx = match run.state {
                    RunState::CmdFold { idx } => idx,
                    // `expects` ties a fold outcome to the fold-phase state.
                    _ => {
                        proof {
                            assert(false);
                        }
                        0
                    },
                };
                let n = self.mc_hooks.len();
                proof {
                    assert(idx < n);
                }
                match result {
                    Ok(c2) => match next_cmd_hook_exec(&self.mc_hooks, idx + 1) {
                        Some(j) => {
                            let hook = self.mc_hooks[j].id();
                            run.state = RunState::CmdFold { idx: j };
                            DispatchAction::RunCommandHook { hook, cmd: c2 }
                        },
                        None => self.resolve_phase(run, c2),
                    },
                    Err(e) => Self::error_phase(run, e),
                }
            },
            DispatchEvent::HandlerOutcome { result } => match result {
                Ok(_) => {
                    run.state = RunState::Done;
                    DispatchAction::Finished
                },
                Err(e) => Self::error_phase(run, e),
            },
            DispatchEvent::Delivered => {
                run.state = RunState::Done;
                DispatchAction::Finished
            },
        }
    }
}

/// The identities of the message hooks of a chain from position `i` on, in
/// registration order.
pub open spec fn msg_hook_ids(c: Seq<EventHandler>, i: int) -> Seq<u64>
    decreases c.len() - i,
{
    if i < 0 || i >= c.len() {
        seq![]
    } else if c[i] is MessageHandler {
        seq![c[i].spec_id()] + msg_hook_ids(c, i + 1)
    } else {
        msg_hook_ids(c, i + 1)
    }
}

/// The message hooks the dispatch machine runs from position `i`, given the
/// stop signal each run hook answers: exactly what the `MsgHooks` steps of
/// [`GlimDispatch::step`] emit, by their `next_msg_hook` contract.
pub open spec fn spec_msg_trace(c: Seq<EventHandler>, i: int, stops: Seq<bool>) -> Seq<u64>
    decreases stops.len(),
{
    if stops.len() == 0 {
        seq![]
    } else {
        match next_msg_hook(c, i) {
            None => seq![],
            Some(j) => if stops[0] {
                seq![c[j].spec_id()]
            } else {
                seq![c[j].spec_id()] + spec_msg_trace(c, j + 1, stops.skip(1))
            },
        }
    }
}

/// The first message hook at or after `i` heads the id list from `i`.
proof fn lemma_next_msg_decomp(c: Seq<EventHandler>, i: int)
    requires
        0 <= i,
    ensures
        match next_msg_hook(c, i) {
            Some(j) => {
                &&& i <= j < c.len()
                &&& c[j] is MessageHandler
                &&& msg_hook_ids(c, i) == seq![c[j].spec_id()] + msg_hook_ids(c, j + 1)
            },
            None => msg_hook_ids(c, i) == Seq::<u64>::empty(),
        },
    decreases c.len() - i,
{
    if i < c.len() && !(c[i] is MessageHandler) {
        lemma_next_msg_decomp(c, i + 1);
    }
}

/// Hooks fire in registration order: whatever the hooks answer, the machine
/// runs a prefix of the registered message hooks, in order — registering
/// hook A before hook B always makes A's effect precede B's.
pub proof fn lemma_hooks_fire_in_order(c: Seq<EventHandler>, i: int, stops: Seq<bool>)
    requires
        0 <= i,
    ensures
        spec_msg_trace(c, i, stops).is_prefix_of(msg_hook_ids(c, i)),
    decreases stops.len(),
{
    let t = spec_msg_trace(c, i, stops);
    let ids = msg_hook_ids(c, i);
    if stops.len() == 0 {
        assert(t =~= ids.subrange(0, 0));
    } else {
        lemma_next_msg_decomp(c, i);
        match next_msg_hook(c, i) {
            None => {
                assert(t =~= ids.subrange(0, 0));
            },
            Some(j) => {
                let rest = msg_hook_ids(c, j + 1);
                if stops[0] {
                    assert(t =~= ids.subrange(0, 1));
                } else {
                    lemma_hooks_fire_in_order(c, j + 1, stops.skip(1));
                    let t2 = spec_msg_trace(c, j + 1, stops.skip(1));
                    assert(t2 =~= rest.subrange(0, t2.len() as int));
                    assert(t =~= ids.subrange(0, t.len() as int));
                }
            },
        }
    }
}

/// A message hook answering stop short-circuits the chain: when the `k`-th
/// run hook is the first to answer stop, exactly the first `k + 1` message
/// hooks run and nothing after them does — the machine's step on that answer
/// moves straight to `Done`, so neither later message hooks nor command
/// hooks nor the handler run for that event.
pub proof fn lemma_stop_short_circuits(c: Seq<EventHandler>, i: int, stops: Seq<bool>, k: int)
    requires
        0 <= i,
        0 <= k < stops.len(),
        stops[k],
        forall|x: int| 0 <= x < k ==> !stops[x],
    ensures
        ({
            let t = spec_msg_trace(c, i, stops);
            let ids = msg_hook_ids(c, i);
            if ids.len() >= k + 1 {
                t == ids.take(k + 1)
            } else {
                t == ids
            }
        }),
    decreases k,
{
    let t = spec_msg_trace(c, i, stops);
    let ids = msg_hook_ids(c, i);
    lemma_next_msg_decomp(c, i);
    match next_msg_hook(c, i) {
        None => {
            assert(t =~= ids);
        },
        Some(j) => {
            let rest = msg_hook_ids(c, j + 1);
            if k == 0 {
                assert(t =~= ids.take(1));
            } else {
                assert(!stops[0]);
                let skipped = stops.skip(1);
                assert(skipped[k - 1]);
                assert forall|x: int| 0 <= x < k - 1 implies !skipped[x] by {
                    assert(skipped[x] == stops[x + 1]);
                }
                lemma_stop_short_circuits(c, j + 1, skipped, k - 1);
                let t2 = spec_msg_trace(c, j + 1, skipped);
                if rest.len() >= k {
                    assert(t2 == rest.take(k));
                    assert(t =~= ids.take(k + 1));
                } else {
                    assert(t2 == rest);
                    assert(t =~= ids);
                }
            }
        },
    }
}

/// The command fold from position `i`: each run command hook receives the
/// evolving candidate and passes (possibly renaming) or denies; the fold
/// stops at the first denial. Returns the final outcome and the identities
/// of the hooks that ran — exactly what the `CmdFold` steps of
/// [`GlimDispatch::step`] emit, by their `next_cmd_hook` contract.
pub open spec fn spec_cmd_fold(
    c: Seq<EventHandler>,
    i: int,
    cmd: RawCmdModel,
    outcomes: Seq<Result<RawCmdModel, CommanderError>>,
) -> (Result<RawCmdModel, CommanderError>, Seq<u64>)
    decreases outcomes.len(),
{
    if outcomes.len() == 0 {
        (Ok(cmd), seq![])
    } else {
        match next_cmd_hook(c, i) {
            None => (Ok(cmd), seq![]),
            Some(j) => match outcomes[0] {
                Ok(c2) => {
                    let rest = spec_cmd_fold(c, j + 1, c2, outcomes.skip(1));
                    (rest.0, seq![c[j].spec_id()] + rest.1)
                },
                Err(e) => (Err(e), seq![c[j].spec_id()]),
            },
        }
    }
}

/// The fold stops at the first denial: when the `k`-th run hook is the first
/// to deny, at most `k + 1` hooks run, and if the denying hook was reached
/// its denial is the fold's outcome — on a denial the machine classifies the
/// error and never emits `InvokeHandler`, so the handler is not invoked.
pub proof fn lemma_fold_stops_at_denial(
    c: Seq<EventHandler>,
    i: int,
    cmd: RawCmdModel,
    outcomes: Seq<Result<RawCmdModel, CommanderError>>,
    k: int,
)
    requires
        0 <= k < outcomes.len(),
        outcomes[k] is Err,
        forall|x: int| 0 <= x < k ==> outcomes[x] is Ok,
    ensures
        ({
            let f = spec_cmd_fold(c, i, cmd, outcomes);
            &&& f.1.len() <= k + 1
            &&& (f.1.len() == k + 1 ==> f.0 == outcomes[k])
            &&& (f.1.len() <= k ==> f.0 is Ok)
        }),
    decreases k,
{
    let f = spec_cmd_fold(c, i, cmd, outcomes);
    match next_cmd_hook(c, i) {
        None => {},
        Some(j) => {
            if k == 0 {
            } else {
                let c2 = outcomes[0]->Ok_0;
                let skipped = outcomes.skip(1);
                assert(skipped[k - 1] == outcomes[k]);
                assert forall|x: int| 0 <= x < k - 1 implies skipped[x] is Ok by {
                    assert(skipped[x] == outcomes[x + 1]);
                }
                lemma_fold_stops_at_denial(c, j + 1, c2, skipped, k - 1);
            }
        },
    }
}

/// A fold in which every hook passes the candidate through unchanged hands
/// the handler the original command.
pub proof fn lemma_fold_all_pass(
    c: Seq<EventHandler>,
    i: int,
    cmd: RawCmdModel,
    outcomes: Seq<Result<RawCmdModel, CommanderError>>,
)
    requires
        forall|x: int|
            0 <= x < outcomes.len() ==> outcomes[x] == Ok::<RawCmdModel, CommanderError>(cmd),
    ensures
        spec_cmd_fold(c, i, cmd, outcomes).0 == Ok::<RawCmdModel, CommanderError>(cmd),
    decreases outcomes.len(),
{
    if outcomes.len() > 0 {
        match next_cmd_hook(c, i) {
            None => {},
            Some(j) => {
                assert(outcomes[0] == Ok::<RawCmdModel, CommanderError>(cmd));
                let skipped = outcomes.skip(1);
                assert forall|x: int|
                    0 <= x < skipped.len() implies skipped[x] == Ok::<
                    RawCmdModel,
                    CommanderError,
                >(cmd) by {
                    assert(skipped[x] == outcomes[x + 1]);
                }
                lemma_fold_all_pass(c, j + 1, cmd, skipped);
            },
        }
    }
}

} // verus!
