//! The commands of the command line, and what each asks for.

use vstd::prelude::*;
use vstd::string::*;
use crate::config::{ConfigView, DotLocalConfig};
use crate::entry::{parse_entries, texts};
use crate::error::{DotLocalError, ErrorView};
use crate::registry::{add_entries, remove_entries};

verus! {

/// A command of the command line.
#[derive(Debug, Clone)]
#[allow(inconsistent_fields)]
pub enum Commands {
    /// Set the proxy up, once, so that it can serve requests.
    Configure,
    /// Run the daemon in the foreground.
    Run,
    /// Start the daemon in the background.
    Start,
    /// Have the running daemon take up the configuration anew.
    Restart,
    /// Have the running daemon stop.
    Stop,
    /// Add entries of the form `domain[/path]:port`.
    Add { proxies: Vec<String> },
    /// Remove entries of the form `domain[/path]:port`.
    Remove { proxies: Vec<String> },
    /// Remove every record.
    RemoveAll,
    /// Bind the routes to the local network or to this machine only.
    Access { option: Access },
    /// Switch the redirect from plain HTTP to HTTPS on or off.
    Https { option: Https },
}

/// Where the routes can be reached from.
#[derive(Debug, Clone, Copy, PartialEq, Eq, Structural)]
pub enum Access {
    /// From this machine only.
    Local,
    /// From the local network.
    Lan,
}

/// Whether plain HTTP is redirected to HTTPS.
#[derive(Debug, Clone, Copy, PartialEq, Eq, Structural)]
pub enum Https {
    Auto,
    Off,
}

/// What a command asks of the program around the library.
#[derive(Debug, Clone, PartialEq, Eq)]
pub enum Effect {
    /// Run the one-time setup of the proxy.
    Configure,
    /// Run the daemon in the foreground.
    Run,
    /// Start `program` with `args`, and do not wait for it.
    Spawn { program: String, args: Vec<String> },
    /// Send a GET request to `url`. That it cannot be delivered is fatal.
    Request { url: String },
    /// Load the configuration, `apply` the command to it, and save it.
    Update,
}

/// An effect as a mathematical value.
pub enum EffectView {
    Configure,
    Run,
    Spawn { program: Seq<char>, args: Seq<Seq<char>> },
    Request { url: Seq<char> },
    Update,
}

impl View for Effect {
    type V = EffectView;

    open spec fn view(&self) -> EffectView {
        match self {
            Effect::Configure => EffectView::Configure,
            Effect::Run => EffectView::Run,
            Effect::Spawn { program, args } => EffectView::Spawn {
                program: program@,
                args: texts(args@),
            },
            Effect::Request { url } => EffectView::Request { url: url@ },
            Effect::Update => EffectView::Update,
        }
    }
}

/// The address that the daemon's control plane listens on.
pub const ADDR: &'static str = "127.0.0.1:2023";

/// The URL of a route of the control plane.
pub open spec fn control_url(route: Seq<char>) -> Seq<char> {
    "http://"@ + ADDR@ + route
}

/// What `command` asks for.
pub open spec fn effect_of(command: Commands) -> EffectView {
    match command {
        Commands::Configure => EffectView::Configure,
        Commands::Run => EffectView::Run,
        Commands::Start => EffectView::Spawn { program: "./dotlocalctl"@, args: seq!["run"@] },
        Commands::Restart => EffectView::Request { url: control_url("/restart"@) },
        Commands::Stop => EffectView::Request { url: control_url("/quit"@) },
        _ => EffectView::Update,
    }
}

/// What `command` makes of `config`: the changed configuration, or the
/// error of the first malformed entry. A command that is no update leaves
/// the configuration as it is.
pub open spec fn applied(command: Commands, config: ConfigView) -> Result<ConfigView, ErrorView> {
    match command {
        Commands::Add { proxies } => match parse_entries(texts(proxies@)) {
            Ok(entries) => Ok(
                ConfigView { records: add_entries(config.records, entries), ..config },
            ),
            Err(error) => Err(error),
        },
        Commands::Remove { proxies } => match parse_entries(texts(proxies@)) {
            Ok(entries) => Ok(
                ConfigView { records: remove_entries(config.records, entries), ..config },
            ),
            Err(error) => Err(error),
        },
        Commands::RemoveAll => Ok(ConfigView { records: Seq::empty(), ..config }),
        Commands::Access { option } => Ok(ConfigView { lan_enabled: option is Lan, ..config }),
        Commands::Https { option } => Ok(
            ConfigView { automatic_https_redirect: option is Auto, ..config },
        ),
        _ => Ok(config),
    }
}

impl Commands {
    /// What this command asks of the program around the library.
    pub fn exec(&self) -> (effect: Effect)
        ensures
            effect@ == effect_of(*self),
    {
        match self {
            Commands::Configure => Effect::Configure,
            Commands::Run => Effect::Run,
            Commands::Start => {
                let args = self.start();
                Effect::Spawn { program: String::from_str("./dotlocalctl"), args }
            },
            Commands::Restart => Effect::Request { url: self.restart() },
            Commands::Stop => Effect::Request { url: Commands::stop() },
            _ => Effect::Update,
        }
    }

    /// Applies this command to the configuration. A malformed entry fails
    /// the command and leaves the configuration as it was.
    pub fn apply(&self, config: &mut DotLocalConfig) -> (r: Result<(), DotLocalError>)
        ensures
            match applied(*self, old(config)@) {
                Ok(changed) => r is Ok && final(config)@ == changed,
                Err(error) => (r matches Err(e) && e@ == error) && *final(config) == *old(config),
            },
            old(config).wf() ==> final(config).wf(),
    {
        match self {
            Commands::Add { proxies } => config.add_proxies(proxies),
            Commands::Remove { proxies } => config.remove_proxies(proxies),
            Commands::RemoveAll => {
                config.remove_all_proxies();
                Ok(())
            },
            Commands::Access { option } => {
                self.change_access(config, option);
                Ok(())
            },
            Commands::Https { option } => {
                self.change_https(config, option);
                Ok(())
            },
            _ => Ok(()),
        }
    }

    /// Binds the routes to the local network (`Lan`) or to this machine
    /// only (`Local`).
    pub fn change_access(&self, config: &mut DotLocalConfig, access: &Access)
        ensures
            final(config)@ == (ConfigView { lan_enabled: access is Lan, ..old(config)@ }),
            final(config).records == old(config).records,
    {
        config.lan_enabled = match access {
            Access::Local => false,
            Access::Lan => true,
        };
    }

    /// Switches the redirect from plain HTTP to HTTPS on (`Auto`) or off.
    pub fn change_https(&self, config: &mut DotLocalConfig, https: &Https)
        ensures
            final(config)@ == (ConfigView {
                automatic_https_redirect: https is Auto,
                ..old(config)@
            }),
            final(config).records == old(config).records,
    {
        config.automatic_https_redirect = match https {
            Https::Auto => true,
            Https::Off => false,
        };
    }

    /// The arguments with which the program starts itself as the daemon.
    pub fn start(&self) -> (args: Vec<String>)
        ensures
            texts(args@) == seq!["run"@],
    {
        let mut args: Vec<String> = Vec::new();
        args.push(String::from_str("run"));
        assert(texts(args@) =~= seq!["run"@]);
        args
    }

    /// The URL that has the running daemon take up the configuration anew.
    pub fn restart(&self) -> (url: String)
        ensures
            url@ == control_url("/restart"@),
    {
        let mut url = String::from_str("http://");
        url.append(ADDR);
        url.append("/restart");
        url
    }

    /// The URL that has the running daemon stop.
    pub fn stop() -> (url: String)
        ensures
            url@ == control_url("/quit"@),
    {
        let mut url = String::from_str("http://");
        url.append(ADDR);
        url.append("/quit");
        url
    }
}

} // verus!
