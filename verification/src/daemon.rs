//! The daemon's decisions. The daemon is a state machine: the program
//! around the library tells it what happened, carries out the actions it
//! answers with, in their order, and tells it what happened next. One event
//! is handled to its end before the next is taken, so the supervised
//! processes are never touched by two events at once.

use vstd::prelude::*;
use vstd::string::*;
use crate::command::Commands;
use crate::config::{ConfigView, DotLocalConfig};
use crate::error::{DotLocalError, ErrorView};
use crate::helpers::{
    caddyfile,
    get_ip,
    helper_commands,
    helper_views,
    helpers_for,
    lemma_helpers_for,
    loopback,
    render_caddyfile,
    HelperCommand,
    HelperView,
};

verus! {

/// Where the daemon stands.
#[derive(Debug, Clone, Copy, PartialEq, Eq, Structural)]
pub enum DaemonState {
    /// Not running.
    Stopped,
    /// Launched, and waiting for the configuration.
    Starting,
    /// Serving: waiting for the next control request.
    Running,
    /// Asked to restart, and waiting for the configuration.
    Restarting,
    /// Shutting down.
    Stopping,
}

/// A verb of the proxy binary.
#[derive(Debug, Clone, Copy, PartialEq, Eq, Structural)]
pub enum ProxyVerb {
    /// Start the proxy in the background. That it cannot be run is fatal.
    Start,
    /// Stop the proxy, and wait until it has. That it cannot be run is fatal.
    Stop,
    /// Have the proxy read its configuration file again, without waiting.
    /// That it cannot be run is fatal.
    Reload,
}

impl ProxyVerb {
    /// The argument that tells the proxy binary what to do.
    pub open spec fn text(self) -> Seq<char> {
        match self {
            ProxyVerb::Start => "start"@,
            ProxyVerb::Stop => "stop"@,
            ProxyVerb::Reload => "reload"@,
        }
    }

    /// The argument that tells the proxy binary what to do.
    pub fn argument(&self) -> (text: String)
        ensures
            text@ == self.text(),
    {
        match self {
            ProxyVerb::Start => String::from_str("start"),
            ProxyVerb::Stop => String::from_str("stop"),
            ProxyVerb::Reload => String::from_str("reload"),
        }
    }
}

/// A helper process that runs: the domain it advertises, and the handle by
/// which the program around the library knows the process.
#[derive(Debug, Clone, PartialEq, Eq)]
pub struct Helper {
    pub domain: String,
    pub handle: u32,
}

/// A running helper as a mathematical value.
pub struct ProcessView {
    pub domain: Seq<char>,
    pub handle: int,
}

impl View for Helper {
    type V = ProcessView;

    open spec fn view(&self) -> ProcessView {
        ProcessView { domain: self.domain@, handle: self.handle as int }
    }
}

/// The running helpers of a list as mathematical values.
pub open spec fn process_views(helpers: Seq<Helper>) -> Seq<ProcessView> {
    Seq::new(helpers.len(), |i: int| helpers[i]@)
}

/// What happened.
#[derive(Debug, Clone)]
pub enum Event {
    /// The daemon was told to run.
    Launch,
    /// The configuration was read from disk, as `LoadConfig` asked.
    Loaded { config: DotLocalConfig },
    /// A helper for `domain` was spawned, as `Spawn` asked, and runs under
    /// `handle`.
    Spawned { domain: String, handle: u32 },
    /// No helper for `domain` could be spawned.
    SpawnFailed { domain: String },
    /// A control request was accepted at `time`.
    Request { time: String, method: String, url: String },
    /// The process was interrupted.
    Interrupt,
    /// The actions of shutting down were carried out.
    Done,
}

/// An event as a mathematical value.
pub enum EventView {
    Launch,
    Loaded { config: ConfigView },
    Spawned { domain: Seq<char>, handle: int },
    SpawnFailed { domain: Seq<char> },
    Request { time: Seq<char>, method: Seq<char>, url: Seq<char> },
    Interrupt,
    Done,
}

impl View for Event {
    type V = EventView;

    open spec fn view(&self) -> EventView {
        match self {
            Event::Launch => EventView::Launch,
            Event::Loaded { config } => EventView::Loaded { config: config@ },
            Event::Spawned { domain, handle } => EventView::Spawned {
                domain: domain@,
                handle: *handle as int,
            },
            Event::SpawnFailed { domain } => EventView::SpawnFailed { domain: domain@ },
            Event::Request { time, method, url } => EventView::Request {
                time: time@,
                method: method@,
                url: url@,
            },
            Event::Interrupt => EventView::Interrupt,
            Event::Done => EventView::Done,
        }
    }
}

/// What the program around the library is to do.
#[derive(Debug, Clone, PartialEq, Eq)]
pub enum Action {
    /// Print `line`.
    Log { line: String },
    /// Read the configuration from disk and report it as `Loaded`. That it
    /// cannot be read is fatal.
    LoadConfig,
    /// Replace the content of the proxy's configuration file by `content`.
    WriteCaddyfile { content: String },
    /// Run the proxy binary with `verb`.
    Proxy { verb: ProxyVerb },
    /// Kill the helper process of `handle`, whether or not the kill
    /// succeeds, and forget it.
    Kill { handle: u32 },
    /// Spawn the helper of `command`, and report it as `Spawned`, or as
    /// `SpawnFailed` where it does not start.
    Spawn { command: HelperCommand },
    /// Answer the request with `status` and `body`.
    Respond { status: u16, body: String },
}

/// An action as a mathematical value.
pub enum ActionView {
    Log { line: Seq<char> },
    LoadConfig,
    WriteCaddyfile { content: Seq<char> },
    Proxy { verb: ProxyVerb },
    Kill { handle: int },
    Spawn { helper: HelperView },
    Respond { status: int, body: Seq<char> },
}

impl View for Action {
    type V = ActionView;

    open spec fn view(&self) -> ActionView {
        match self {
            Action::Log { line } => ActionView::Log { line: line@ },
            Action::LoadConfig => ActionView::LoadConfig,
            Action::WriteCaddyfile { content } => ActionView::WriteCaddyfile { content: content@ },
            Action::Proxy { verb } => ActionView::Proxy { verb: *verb },
            Action::Kill { handle } => ActionView::Kill { handle: *handle as int },
            Action::Spawn { command } => ActionView::Spawn { helper: command@ },
            Action::Respond { status, body } => ActionView::Respond {
                status: *status as int,
                body: body@,
            },
        }
    }
}

impl ActionView {
    /// Whether the action touches the proxy, its configuration file or a
    /// helper process.
    pub open spec fn touches_processes(self) -> bool {
        self is WriteCaddyfile || self is Proxy || self is Kill || self is Spawn
    }
}

/// The actions of a list as mathematical values.
pub open spec fn action_views(actions: Seq<Action>) -> Seq<ActionView> {
    Seq::new(actions.len(), |i: int| actions[i]@)
}

/// The daemon: its state, and the helper processes that it supervises.
#[derive(Debug, Clone, PartialEq, Eq)]
pub struct Daemon {
    pub state: DaemonState,
    pub helpers: Vec<Helper>,
}

/// The daemon as a mathematical value.
pub struct DaemonView {
    pub state: DaemonState,
    pub helpers: Seq<ProcessView>,
}

impl View for Daemon {
    type V = DaemonView;

    open spec fn view(&self) -> DaemonView {
        DaemonView { state: self.state, helpers: process_views(self.helpers@) }
    }
}

/// Whether one of `helpers` advertises `domain`.
pub open spec fn supervises(helpers: Seq<ProcessView>, domain: Seq<char>) -> bool {
    exists|i: int| 0 <= i < helpers.len() && (#[trigger] helpers[i]).domain == domain
}

impl DaemonView {
    /// No two supervised helpers advertise the same domain, and a daemon
    /// that does not run, or is about to, supervises none.
    pub open spec fn wf(self) -> bool {
        &&& forall|i: int, j: int|
            0 <= i < j < self.helpers.len() ==> (#[trigger] self.helpers[i]).domain != (
            #[trigger] self.helpers[j]).domain
        &&& (self.state == DaemonState::Stopped || self.state == DaemonState::Starting
            || self.state == DaemonState::Stopping) ==> self.helpers.len() == 0
    }
}

/// The line that reports a request.
pub open spec fn log_line(time: Seq<char>, method: Seq<char>, url: Seq<char>) -> Seq<char> {
    "[DotLocal] "@ + time + " "@ + method + " "@ + url
}

/// The line that reports a helper that did not start.
pub open spec fn spawn_failure_line(domain: Seq<char>) -> Seq<char> {
    "error spawning dns responder for "@ + domain
}

/// The answer to a request that was served.
pub open spec fn ok_response() -> ActionView {
    ActionView::Respond { status: 200, body: "ok"@ }
}

/// The answer to a request whose method is not GET.
pub open spec fn rejection() -> ActionView {
    ActionView::Respond { status: 405, body: Seq::empty() }
}

/// One kill for each of `helpers`, in their order.
pub open spec fn kills(helpers: Seq<ProcessView>) -> Seq<ActionView> {
    Seq::new(helpers.len(), |i: int| ActionView::Kill { handle: helpers[i].handle })
}

/// One spawn for each domain of `records`, in the order in which the
/// domains first occur, of the helper that advertises it at `ip`.
pub open spec fn spawns(records: Seq<crate::record::RecordView>, ip: Seq<char>) -> Seq<ActionView> {
    Seq::new(
        helpers_for(records, ip).len(),
        |i: int| ActionView::Spawn { helper: helpers_for(records, ip)[i] },
    )
}

/// Starting up: write the proxy's configuration file, start the proxy, spawn
/// the helpers.
pub open spec fn start_actions(config: ConfigView, ip: Seq<char>) -> Seq<ActionView> {
    seq![
        ActionView::WriteCaddyfile { content: caddyfile(config, ip) },
        ActionView::Proxy { verb: ProxyVerb::Start },
    ] + spawns(config.records, ip)
}

/// Restarting: write the proxy's configuration file, have the proxy read
/// it, kill the helpers there are, spawn the helpers anew.
pub open spec fn restart_actions(
    helpers: Seq<ProcessView>,
    config: ConfigView,
    ip: Seq<char>,
) -> Seq<ActionView> {
    seq![
        ActionView::WriteCaddyfile { content: caddyfile(config, ip) },
        ActionView::Proxy { verb: ProxyVerb::Reload },
    ] + kills(helpers) + spawns(config.records, ip)
}

/// Shutting down: kill the helpers there are, then stop the proxy.
pub open spec fn quit_actions(helpers: Seq<ProcessView>) -> Seq<ActionView> {
    kills(helpers).push(ActionView::Proxy { verb: ProxyVerb::Stop })
}

/// What a request does to the running daemon. Every request is logged
/// first. One whose method is not GET is rejected. `/restart` has the
/// configuration read anew, `/quit` shuts down, and every other URL is
/// answered and changes nothing.
pub open spec fn serve(daemon: DaemonView, time: Seq<char>, method: Seq<char>, url: Seq<char>) -> (
    DaemonView,
    Seq<ActionView>,
) {
    let log = ActionView::Log { line: log_line(time, method, url) };
    if method != "GET"@ {
        (daemon, seq![log, rejection()])
    } else if url == "/restart"@ {
        (DaemonView { state: DaemonState::Restarting, ..daemon }, seq![log, ActionView::LoadConfig])
    } else if url == "/quit"@ {
        (
            DaemonView { state: DaemonState::Stopping, helpers: Seq::empty() },
            seq![log] + quit_actions(daemon.helpers).push(ok_response()),
        )
    } else {
        (daemon, seq![log, ok_response()])
    }
}

/// What the report of a spawned helper does: the running daemon takes the
/// helper under its supervision, unless it has one for the domain already;
/// a helper that is not taken is killed.
pub open spec fn adopt(daemon: DaemonView, domain: Seq<char>, handle: int) -> (
    DaemonView,
    Seq<ActionView>,
) {
    if daemon.state == DaemonState::Running && !supervises(daemon.helpers, domain) {
        (
            DaemonView { helpers: daemon.helpers.push(ProcessView { domain, handle }), ..daemon },
            Seq::empty(),
        )
    } else {
        (daemon, seq![ActionView::Kill { handle }])
    }
}

/// The daemon's transitions: the daemon after `event` and the actions to
/// carry out, with routes bound to `ip`. An event that the state does not
/// wait for changes nothing and asks for nothing.
pub open spec fn next(daemon: DaemonView, event: EventView, ip: Seq<char>) -> (
    DaemonView,
    Seq<ActionView>,
) {
    match (daemon.state, event) {
        (DaemonState::Stopped, EventView::Launch) => (
            DaemonView { state: DaemonState::Starting, ..daemon },
            seq![ActionView::LoadConfig],
        ),
        (DaemonState::Starting, EventView::Loaded { config }) => (
            DaemonView { state: DaemonState::Running, ..daemon },
            start_actions(config, ip),
        ),
        (DaemonState::Restarting, EventView::Loaded { config }) => (
            DaemonView { state: DaemonState::Running, helpers: Seq::empty() },
            restart_actions(daemon.helpers, config, ip).push(ok_response()),
        ),
        (_, EventView::Spawned { domain, handle }) => adopt(daemon, domain, handle),
        (_, EventView::SpawnFailed { domain }) => (
            daemon,
            seq![ActionView::Log { line: spawn_failure_line(domain) }],
        ),
        (DaemonState::Running, EventView::Request { time, method, url }) => serve(
            daemon,
            time,
            method,
            url,
        ),
        (DaemonState::Running, EventView::Interrupt) => (
            DaemonView { state: DaemonState::Stopping, helpers: Seq::empty() },
            quit_actions(daemon.helpers),
        ),
        (DaemonState::Stopping, EventView::Done) => (
            DaemonView { state: DaemonState::Stopped, ..daemon },
            Seq::empty(),
        ),
        _ => (daemon, Seq::empty()),
    }
}

/// Whether the transition binds routes, and so needs the address.
pub open spec fn binds_routes(state: DaemonState, event: EventView) -> bool {
    (state == DaemonState::Starting || state == DaemonState::Restarting) && event is Loaded
}

/// The actions that stop every helper: one kill for each of `processes`,
/// in their order. The processes are forgotten.
pub fn stop_all_dns_proxies(processes: &mut Vec<Helper>) -> (actions: Vec<Action>)
    ensures
        final(processes)@.len() == 0,
        action_views(actions@) == kills(process_views(old(processes)@)),
{
    let ghost helpers = process_views(processes@);
    let mut actions: Vec<Action> = Vec::new();
    let mut i: usize = 0;
    while i < processes.len()
        invariant
            0 <= i <= processes.len(),
            helpers == process_views(processes@),
            action_views(actions@) == kills(helpers.take(i as int)),
        decreases processes.len() - i,
    {
        let ghost so_far = action_views(actions@);
        actions.push(Action::Kill { handle: processes[i].handle });
        assert(action_views(actions@) =~= so_far.push(
            ActionView::Kill { handle: helpers[i as int].handle },
        ));
        assert(action_views(actions@) =~= kills(helpers.take(i + 1)));
        i += 1;
    }
    assert(helpers.take(processes.len() as int) =~= helpers);
    processes.clear();
    actions
}

/// Appends one spawn for each domain of the configuration to `actions`.
fn push_spawns(actions: &mut Vec<Action>, config: &DotLocalConfig, ip: &str)
    ensures
        action_views(final(actions)@) == action_views(old(actions)@) + spawns(
            config@.records,
            ip@,
        ),
{
    let ghost before = action_views(actions@);
    let commands = helper_commands(config, ip);
    let ghost helpers = helpers_for(config@.records, ip@);
    let mut i: usize = 0;
    while i < commands.len()
        invariant
            0 <= i <= commands.len(),
            helpers == helper_views(commands@),
            helpers == helpers_for(config@.records, ip@),
            action_views(actions@).len() == before.len() + i,
            forall|j: int| 0 <= j < before.len() ==> action_views(actions@)[j] == before[j],
            forall|j: int|
                0 <= j < i ==> action_views(actions@)[before.len() + j] == (ActionView::Spawn {
                    helper: helpers[j],
                }),
        decreases commands.len() - i,
    {
        let ghost so_far = action_views(actions@);
        actions.push(Action::Spawn { command: commands[i].clone() });
        assert(action_views(actions@) =~= so_far.push(ActionView::Spawn { helper: helpers[i as int] }));
        i += 1;
    }
    assert(action_views(actions@) =~= before + spawns(config@.records, ip@));
}

impl Commands {
    /// The actions of starting up with `config`, for routes bound to `ip`.
    pub fn start_proxy(&self, config: &DotLocalConfig, ip: &str) -> (actions: Vec<Action>)
        ensures
            action_views(actions@) == start_actions(config@, ip@),
    {
        let mut actions: Vec<Action> = Vec::new();
        actions.push(Action::WriteCaddyfile { content: render_caddyfile(config, ip) });
        actions.push(Action::Proxy { verb: ProxyVerb::Start });
        assert(action_views(actions@) =~= seq![
            ActionView::WriteCaddyfile { content: caddyfile(config@, ip@) },
            ActionView::Proxy { verb: ProxyVerb::Start },
        ]);
        push_spawns(&mut actions, config, ip);
        actions
    }

    /// The actions of restarting with `config`, for routes bound to `ip`.
    /// The helpers that run are killed and forgotten.
    pub fn restart_proxy(
        &self,
        processes: &mut Vec<Helper>,
        config: &DotLocalConfig,
        ip: &str,
    ) -> (actions: Vec<Action>)
        ensures
            final(processes)@.len() == 0,
            action_views(actions@) == restart_actions(
                process_views(old(processes)@),
                config@,
                ip@,
            ),
    {
        let mut actions: Vec<Action> = Vec::new();
        actions.push(Action::WriteCaddyfile { content: render_caddyfile(config, ip) });
        actions.push(Action::Proxy { verb: ProxyVerb::Reload });
        assert(action_views(actions@) =~= seq![
            ActionView::WriteCaddyfile { content: caddyfile(config@, ip@) },
            ActionView::Proxy { verb: ProxyVerb::Reload },
        ]);
        let ghost head = action_views(actions@);
        let mut kills = stop_all_dns_proxies(processes);
        let ghost killed = action_views(kills@);
        actions.append(&mut kills);
        assert(action_views(actions@) =~= head + killed);
        push_spawns(&mut actions, config, ip);
        actions
    }

    /// The actions of shutting down. The helpers that run are killed and
    /// forgotten.
    pub fn quit(&self, processes: &mut Vec<Helper>) -> (actions: Vec<Action>)
        ensures
            final(processes)@.len() == 0,
            action_views(actions@) == quit_actions(process_views(old(processes)@)),
    {
        let mut actions = stop_all_dns_proxies(processes);
        let ghost killed = action_views(actions@);
        actions.push(Action::Proxy { verb: ProxyVerb::Stop });
        assert(action_views(actions@) =~= killed.push(ActionView::Proxy { verb: ProxyVerb::Stop }));
        actions
    }

    /// Serves one request that the running daemon accepted at `time`.
    pub fn start_server(&self, daemon: &mut Daemon, time: &str, method: &str, url: &str) -> (actions:
        Vec<Action>)
        ensures
            (final(daemon)@, action_views(actions@)) == serve(old(daemon)@, time@, method@, url@),
    {
        let mut line = String::from_str("[DotLocal] ");
        line.append(time);
        line.append(" ");
        line.append(method);
        line.append(" ");
        line.append(url);
        let mut actions: Vec<Action> = Vec::new();
        actions.push(Action::Log { line });
        let ghost log = ActionView::Log { line: log_line(time@, method@, url@) };
        assert(action_views(actions@) =~= seq![log]);
        if String::from_str(method) != String::from_str("GET") {
            actions.push(Action::Respond { status: 405, body: String::new() });
            assert(action_views(actions@) =~= seq![log, rejection()]);
        } else if String::from_str(url) == String::from_str("/restart") {
            actions.push(Action::LoadConfig);
            assert(action_views(actions@) =~= seq![log, ActionView::LoadConfig]);
            daemon.state = DaemonState::Restarting;
        } else if String::from_str(url) == String::from_str("/quit") {
            let ghost helpers = daemon@.helpers;
            let mut quit = self.quit(&mut daemon.helpers);
            let ghost stopped = action_views(quit@);
            actions.append(&mut quit);
            assert(action_views(actions@) =~= seq![log] + stopped);
            actions.push(Action::Respond { status: 200, body: String::from_str("ok") });
            assert(action_views(actions@) =~= seq![log] + quit_actions(helpers).push(ok_response()));
            daemon.state = DaemonState::Stopping;
            assert(daemon@.helpers =~= Seq::<ProcessView>::empty());
        } else {
            actions.push(Action::Respond { status: 200, body: String::from_str("ok") });
            assert(action_views(actions@) =~= seq![log, ok_response()]);
        }
        actions
    }
}

impl Daemon {
    /// Whether no two supervised helpers advertise the same domain, and
    /// none is supervised while the daemon does not run. Every step keeps
    /// it, and none needs it.
    pub open spec fn wf(&self) -> bool {
        self@.wf()
    }

    /// A daemon that does not run.
    pub fn new() -> (daemon: Daemon)
        ensures
            daemon@ == (DaemonView { state: DaemonState::Stopped, helpers: Seq::empty() }),
            daemon.wf(),
    {
        let daemon = Daemon { state: DaemonState::Stopped, helpers: Vec::new() };
        assert(daemon@.helpers =~= Seq::<ProcessView>::empty());
        daemon
    }

    /// Whether a helper for `domain` is supervised.
    pub fn supervises(&self, domain: &String) -> (found: bool)
        ensures
            found == supervises(self@.helpers, domain@),
    {
        let mut i: usize = 0;
        while i < self.helpers.len()
            invariant
                0 <= i <= self.helpers.len(),
                forall|j: int| 0 <= j < i ==> (#[trigger] self@.helpers[j]).domain != domain@,
            decreases self.helpers.len() - i,
        {
            if self.helpers[i].domain == *domain {
                assert(self@.helpers[i as int].domain == domain@);
                return true;
            }
            i += 1;
        }
        false
    }

    /// Takes `event`: moves the daemon on, and returns the actions to carry
    /// out, with routes bound to `ip`.
    pub fn step(&mut self, event: &Event, ip: &str) -> (actions: Vec<Action>)
        ensures
            (final(self)@, action_views(actions@)) == next(old(self)@, event@, ip@),
            old(self).wf() ==> final(self).wf(),
    {
        proof {
            if self.wf() {
                lemma_next_wf(self@, event@, ip@);
            }
        }
        let run = Commands::Run;
        let mut actions: Vec<Action> = Vec::new();
        assert(action_views(actions@) =~= Seq::<ActionView>::empty());
        match event {
            Event::Launch => {
                if self.state == DaemonState::Stopped {
                    actions.push(Action::LoadConfig);
                    assert(action_views(actions@) =~= seq![ActionView::LoadConfig]);
                    self.state = DaemonState::Starting;
                }
            },
            Event::Loaded { config } => {
                if self.state == DaemonState::Starting {
                    actions = run.start_proxy(config, ip);
                    self.state = DaemonState::Running;
                } else if self.state == DaemonState::Restarting {
                    actions = run.restart_proxy(&mut self.helpers, config, ip);
                    let ghost before = action_views(actions@);
                    actions.push(Action::Respond { status: 200, body: String::from_str("ok") });
                    assert(action_views(actions@) =~= before.push(ok_response()));
                    self.state = DaemonState::Running;
                    assert(self@.helpers =~= Seq::<ProcessView>::empty());
                }
            },
            Event::Spawned { domain, handle } => {
                if self.state == DaemonState::Running && !self.supervises(domain) {
                    let ghost before = self@.helpers;
                    self.helpers.push(Helper { domain: domain.clone(), handle: *handle });
                    assert(self@.helpers =~= before.push(
                        ProcessView { domain: domain@, handle: *handle as int },
                    ));
                } else {
                    actions.push(Action::Kill { handle: *handle });
                    assert(action_views(actions@) =~= seq![
                        ActionView::Kill { handle: *handle as int },
                    ]);
                }
            },
            Event::SpawnFailed { domain } => {
                let mut line = String::from_str("error spawning dns responder for ");
                line.append(domain.as_str());
                actions.push(Action::Log { line });
                assert(action_views(actions@) =~= seq![
                    ActionView::Log { line: spawn_failure_line(domain@) },
                ]);
            },
            Event::Request { time, method, url } => {
                if self.state == DaemonState::Running {
                    actions = run.start_server(self, time.as_str(), method.as_str(), url.as_str());
                }
            },
            Event::Interrupt => {
                if self.state == DaemonState::Running {
                    actions = run.quit(&mut self.helpers);
                    self.state = DaemonState::Stopping;
                    assert(self@.helpers =~= Seq::<ProcessView>::empty());
                }
            },
            Event::Done => {
                if self.state == DaemonState::Stopping {
                    self.state = DaemonState::Stopped;
                }
            },
        }
        actions
    }

    /// Takes `event`: moves the daemon on, and returns the actions to carry
    /// out. Where the transition binds routes, they are bound to the
    /// address that the loaded configuration selects: the loopback address
    /// where access from the local network is off, else whatever address
    /// this host has there, looked up once. Only that lookup can fail; the
    /// failure is fatal and leaves the daemon as it was.
    pub fn handle(&mut self, event: &Event) -> (r: Result<Vec<Action>, DotLocalError>)
        ensures
            !binds_routes(old(self).state, event@) ==> (r matches Ok(actions) && (
                final(self)@,
                action_views(actions@),
            ) == next(old(self)@, event@, Seq::empty())),
            event matches Event::Loaded { config } && !config.lan_enabled ==> (r matches Ok(actions)
                && (final(self)@, action_views(actions@)) == next(old(self)@, event@, loopback())),
            r matches Ok(actions) ==> exists|ip: Seq<char>|
                (final(self)@, action_views(actions@)) == next(old(self)@, event@, ip),
            r matches Err(e) ==> binds_routes(old(self).state, event@) && e@
                == ErrorView::NoLanAddress && *final(self) == *old(self) && (
            event matches Event::Loaded { config } && config.lan_enabled),
            old(self).wf() ==> final(self).wf(),
    {
        match event {
            Event::Loaded { config } => {
                if self.state == DaemonState::Starting || self.state == DaemonState::Restarting {
                    match get_ip(config.lan_enabled) {
                        Ok(ip) => {
                            let actions = self.step(event, ip.as_str());
                            Ok(actions)
                        },
                        Err(e) => Err(e),
                    }
                } else {
                    let actions = self.step(event, "");
                    proof {
                        reveal_strlit("");
                        assert(""@ =~= Seq::<char>::empty());
                        assert(next(old(self)@, event@, ""@) == next(old(self)@, event@, loopback()));
                    }
                    Ok(actions)
                }
            },
            _ => {
                let actions = self.step(event, "");
                proof {
                    reveal_strlit("");
                    assert(""@ =~= Seq::<char>::empty());
                }
                Ok(actions)
            },
        }
    }
}

/// Every step keeps the daemon well formed: no two supervised helpers
/// advertise the same domain, and a daemon that does not run supervises
/// none.
pub proof fn lemma_next_wf(daemon: DaemonView, event: EventView, ip: Seq<char>)
    requires
        daemon.wf(),
    ensures
        next(daemon, event, ip).0.wf(),
{
    let after = next(daemon, event, ip).0;
    match event {
        EventView::Spawned { domain, handle } => {
            if daemon.state == DaemonState::Running && !supervises(daemon.helpers, domain) {
                assert forall|i: int, j: int| 0 <= i < j < after.helpers.len() implies (
                #[trigger] after.helpers[i]).domain != (#[trigger] after.helpers[j]).domain by {
                    assert(after.helpers[i] == daemon.helpers[i]);
                    if j < daemon.helpers.len() {
                        assert(after.helpers[j] == daemon.helpers[j]);
                    }
                }
            }
        },
        _ => {},
    }
}

/// A request whose method is not GET is rejected with status 405 by the
/// running daemon and ignored by any other: the daemon stays as it is,
/// state and helpers, and no action touches the proxy, its configuration
/// file or a helper.
pub proof fn lemma_method_guard(
    daemon: DaemonView,
    time: Seq<char>,
    method: Seq<char>,
    url: Seq<char>,
    ip: Seq<char>,
)
    requires
        method != "GET"@,
    ensures
        next(daemon, EventView::Request { time, method, url }, ip).0 == daemon,
        forall|i: int|
            0 <= i < next(daemon, EventView::Request { time, method, url }, ip).1.len()
                ==> !(#[trigger] next(
                daemon,
                EventView::Request { time, method, url },
                ip,
            ).1[i]).touches_processes(),
        daemon.state == DaemonState::Running ==> next(
            daemon,
            EventView::Request { time, method, url },
            ip,
        ).1 == seq![ActionView::Log { line: log_line(time, method, url) }, rejection()],
{
}

/// The daemon moves along the edges of its state graph only: from stopped
/// to starting, from starting to running, from running to restarting and
/// back, from running to stopping, and from stopping to stopped.
pub proof fn lemma_state_graph(daemon: DaemonView, event: EventView, ip: Seq<char>)
    ensures
        ({
            let from = daemon.state;
            let to = next(daemon, event, ip).0.state;
            ||| to == from
            ||| from == DaemonState::Stopped && to == DaemonState::Starting
            ||| from == DaemonState::Starting && to == DaemonState::Running
            ||| from == DaemonState::Running && to == DaemonState::Restarting
            ||| from == DaemonState::Restarting && to == DaemonState::Running
            ||| from == DaemonState::Running && to == DaemonState::Stopping
            ||| from == DaemonState::Stopping && to == DaemonState::Stopped
        }),
{
}

/// No helper is orphaned: a helper that was supervised before a step is
/// supervised after it or killed by it, and so is a helper that the event
/// reports as spawned.
pub proof fn lemma_no_orphans(daemon: DaemonView, event: EventView, ip: Seq<char>)
    ensures
        forall|i: int|
            0 <= i < daemon.helpers.len() ==> next(daemon, event, ip).0.helpers.contains(
                #[trigger] daemon.helpers[i],
            ) || next(daemon, event, ip).1.contains(
                ActionView::Kill { handle: daemon.helpers[i].handle },
            ),
        event matches EventView::Spawned { domain, handle } ==> next(
            daemon,
            event,
            ip,
        ).0.helpers.contains(ProcessView { domain, handle }) || next(daemon, event, ip).1.contains(
            ActionView::Kill { handle },
        ),
{
    let after = next(daemon, event, ip).0;
    let actions = next(daemon, event, ip).1;
    assert forall|i: int| 0 <= i < daemon.helpers.len() implies after.helpers.contains(
        #[trigger] daemon.helpers[i],
    ) || actions.contains(ActionView::Kill { handle: daemon.helpers[i].handle }) by {
        let kill = ActionView::Kill { handle: daemon.helpers[i].handle };
        let killed = kills(daemon.helpers);
        assert(killed[i] == kill);
        if after.helpers.len() >= daemon.helpers.len() {
            assert(after.helpers[i] == daemon.helpers[i]);
        } else {
            match (daemon.state, event) {
                (DaemonState::Restarting, EventView::Loaded { config }) => {
                    assert(actions[2 + i] == kill);
                },
                (DaemonState::Running, EventView::Request { time, method, url }) => {
                    assert(actions[1 + i] == kill);
                },
                (DaemonState::Running, EventView::Interrupt) => {
                    assert(actions[i] == kill);
                },
                _ => {},
            }
        }
    }
    match event {
        EventView::Spawned { domain, handle } => {
            if daemon.state == DaemonState::Running && !supervises(daemon.helpers, domain) {
                assert(after.helpers[daemon.helpers.len() as int] == ProcessView { domain, handle });
            } else {
                assert(actions[0] == ActionView::Kill { handle });
            }
        },
        _ => {},
    }
}

/// The proxy, its configuration file and the helpers are touched only
/// while the daemon starts, restarts or shuts down, or to kill a helper
/// that was reported and is not taken.
pub proof fn lemma_processes_touched(daemon: DaemonView, event: EventView, ip: Seq<char>, i: int)
    requires
        0 <= i < next(daemon, event, ip).1.len(),
        next(daemon, event, ip).1[i].touches_processes(),
    ensures
        daemon.state == DaemonState::Starting || daemon.state == DaemonState::Restarting || next(
            daemon,
            event,
            ip,
        ).0.state == DaemonState::Stopping || event is Spawned,
{
}

/// Every start and restart asks for exactly one helper for each domain of
/// the configuration it was given.
pub proof fn lemma_one_spawn_per_domain(
    records: Seq<crate::record::RecordView>,
    ip: Seq<char>,
)
    ensures
        forall|k: int|
            0 <= k < records.len() ==> exists|i: int|
                0 <= i < spawns(records, ip).len() && (#[trigger] spawns(records, ip)[i])
                    == (ActionView::Spawn {
                    helper: crate::helpers::helper_for((#[trigger] records[k]).domain, ip),
                }),
        forall|i: int, j: int|
            0 <= i < j < spawns(records, ip).len() ==> (#[trigger] spawns(records, ip)[i])
                != (#[trigger] spawns(records, ip)[j]),
{
    lemma_helpers_for(records, ip);
    let helpers = helpers_for(records, ip);
    assert forall|k: int| 0 <= k < records.len() implies exists|i: int|
        0 <= i < spawns(records, ip).len() && (#[trigger] spawns(records, ip)[i])
            == (ActionView::Spawn {
            helper: crate::helpers::helper_for((#[trigger] records[k]).domain, ip),
        }) by {
        assert(crate::helpers::advertises(helpers, records[k].domain));
        let i = choose|i: int|
            0 <= i < helpers.len() && (#[trigger] helpers[i]).domain == records[k].domain;
        assert(spawns(records, ip)[i] == ActionView::Spawn { helper: helpers[i] });
    }
    assert forall|i: int, j: int| 0 <= i < j < spawns(records, ip).len() implies (
    #[trigger] spawns(records, ip)[i]) != (#[trigger] spawns(records, ip)[j]) by {
        assert(helpers[i].domain != helpers[j].domain);
    }
}

} // verus!
