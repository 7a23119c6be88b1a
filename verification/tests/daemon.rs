use dotlocal::command::{Access, Commands, Effect, Https, ADDR};
use dotlocal::config::DotLocalConfig;
use dotlocal::daemon::{stop_all_dns_proxies, Action, Daemon, DaemonState, Event, Helper, ProxyVerb};
use dotlocal::error::DotLocalError;
use dotlocal::helpers::{helper_commands, render_caddyfile};

fn request(method: &str, url: &str) -> Event {
    Event::Request { time: "now".to_string(), method: method.to_string(), url: url.to_string() }
}

fn log(method: &str, url: &str) -> Action {
    Action::Log { line: format!("[DotLocal] now {} {}", method, url) }
}

fn ok() -> Action {
    Action::Respond { status: 200, body: "ok".to_string() }
}

fn sample() -> DotLocalConfig {
    let mut config = DotLocalConfig::new();
    config.lan_enabled = false;
    assert_eq!(
        config.add_proxies(&vec!["a.local:3000".to_string(), "b.local/x:1".to_string()]),
        Ok(())
    );
    config
}

fn helper(domain: &str, handle: u32) -> Helper {
    Helper { domain: domain.to_string(), handle }
}

fn running() -> Daemon {
    Daemon {
        state: DaemonState::Running,
        helpers: vec![helper("a.local", 11), helper("b.local", 12)],
    }
}

fn spawns(config: &DotLocalConfig, ip: &str) -> Vec<Action> {
    helper_commands(config, ip).into_iter().map(|command| Action::Spawn { command }).collect()
}

fn touches_processes(action: &Action) -> bool {
    matches!(
        action,
        Action::WriteCaddyfile { .. } | Action::Proxy { .. } | Action::Kill { .. } | Action::Spawn { .. }
    )
}

#[test]
fn post_to_restart_is_rejected_and_touches_nothing() {
    let mut daemon = running();
    let actions = daemon.step(&request("POST", "/restart"), "127.0.0.1");
    assert_eq!(daemon, running());
    assert_eq!(
        actions,
        vec![log("POST", "/restart"), Action::Respond { status: 405, body: String::new() }]
    );
    assert!(!actions.iter().any(touches_processes));
}

#[test]
fn every_other_method_is_rejected_too() {
    for method in ["HEAD", "PUT", "DELETE", "get", "GETS", ""] {
        for url in ["/restart", "/quit", "/", "/x"] {
            let mut daemon = running();
            let actions = daemon.handle(&request(method, url)).unwrap();
            assert_eq!(daemon, running());
            assert_eq!(
                actions,
                vec![log(method, url), Action::Respond { status: 405, body: String::new() }]
            );
        }
    }
}

#[test]
fn get_restart_has_the_configuration_loaded() {
    let mut daemon = running();
    let actions = daemon.handle(&request("GET", "/restart")).unwrap();
    assert_eq!(daemon.state, DaemonState::Restarting);
    assert_eq!(daemon.helpers, running().helpers);
    assert_eq!(actions, vec![log("GET", "/restart"), Action::LoadConfig]);
}

#[test]
fn restart_rewrites_reloads_kills_and_spawns() {
    let config = sample();
    let mut daemon = running();
    daemon.state = DaemonState::Restarting;
    let actions = daemon.handle(&Event::Loaded { config: config.clone() }).unwrap();
    assert_eq!(daemon, Daemon { state: DaemonState::Running, helpers: vec![] });
    let mut expected = vec![
        Action::WriteCaddyfile { content: render_caddyfile(&config, "127.0.0.1") },
        Action::Proxy { verb: ProxyVerb::Reload },
        Action::Kill { handle: 11 },
        Action::Kill { handle: 12 },
    ];
    expected.extend(spawns(&config, "127.0.0.1"));
    expected.push(ok());
    assert_eq!(actions, expected);
    assert_eq!(actions.len(), 7usize);
}

#[test]
fn get_quit_kills_the_helpers_then_stops_the_proxy() {
    let mut daemon = running();
    let actions = daemon.handle(&request("GET", "/quit")).unwrap();
    assert_eq!(daemon, Daemon { state: DaemonState::Stopping, helpers: vec![] });
    assert_eq!(
        actions,
        vec![
            log("GET", "/quit"),
            Action::Kill { handle: 11 },
            Action::Kill { handle: 12 },
            Action::Proxy { verb: ProxyVerb::Stop },
            ok(),
        ]
    );
    let actions = daemon.handle(&Event::Done).unwrap();
    assert_eq!(daemon, Daemon::new());
    assert_eq!(actions, vec![]);
}

#[test]
fn get_of_any_other_url_is_answered_and_changes_nothing() {
    for url in ["/", "/status", "/restart/", "/quit?now", "/RESTART", ""] {
        let mut daemon = running();
        let actions = daemon.handle(&request("GET", url)).unwrap();
        assert_eq!(daemon, running());
        assert_eq!(actions, vec![log("GET", url), ok()]);
    }
}

#[test]
fn launch_loads_then_writes_starts_and_spawns() {
    let mut daemon = Daemon::new();
    assert_eq!(daemon.state, DaemonState::Stopped);
    let actions = daemon.handle(&Event::Launch).unwrap();
    assert_eq!(daemon.state, DaemonState::Starting);
    assert_eq!(actions, vec![Action::LoadConfig]);
    let config = sample();
    let actions = daemon.handle(&Event::Loaded { config: config.clone() }).unwrap();
    assert_eq!(daemon, Daemon { state: DaemonState::Running, helpers: vec![] });
    let mut expected = vec![
        Action::WriteCaddyfile { content: render_caddyfile(&config, "127.0.0.1") },
        Action::Proxy { verb: ProxyVerb::Start },
    ];
    expected.extend(spawns(&config, "127.0.0.1"));
    assert_eq!(actions, expected);
    assert_eq!(actions.len(), 4usize);
}

#[test]
fn spawned_helpers_are_taken_under_supervision() {
    let mut daemon = Daemon { state: DaemonState::Running, helpers: vec![] };
    let spawned = Event::Spawned { domain: "a.local".to_string(), handle: 7 };
    assert_eq!(daemon.handle(&spawned), Ok(vec![]));
    assert_eq!(daemon.helpers, vec![helper("a.local", 7)]);
    assert!(daemon.supervises(&"a.local".to_string()));
    assert!(!daemon.supervises(&"b.local".to_string()));
    let other = Event::Spawned { domain: "b.local".to_string(), handle: 8 };
    assert_eq!(daemon.handle(&other), Ok(vec![]));
    assert_eq!(daemon.helpers, vec![helper("a.local", 7), helper("b.local", 8)]);
}

#[test]
fn second_helper_for_a_domain_is_killed() {
    let mut daemon = running();
    let again = Event::Spawned { domain: "a.local".to_string(), handle: 99 };
    assert_eq!(daemon.handle(&again), Ok(vec![Action::Kill { handle: 99 }]));
    assert_eq!(daemon, running());
}

#[test]
fn helper_reported_to_a_daemon_that_does_not_run_is_killed() {
    for state in [
        DaemonState::Stopped,
        DaemonState::Starting,
        DaemonState::Restarting,
        DaemonState::Stopping,
    ] {
        let mut daemon = Daemon { state, helpers: vec![] };
        let spawned = Event::Spawned { domain: "a.local".to_string(), handle: 5 };
        assert_eq!(daemon.handle(&spawned), Ok(vec![Action::Kill { handle: 5 }]));
        assert_eq!(daemon, Daemon { state, helpers: vec![] });
    }
}

#[test]
fn failed_spawn_is_reported_and_skipped() {
    let mut daemon = running();
    let failed = Event::SpawnFailed { domain: "c.local".to_string() };
    assert_eq!(
        daemon.handle(&failed),
        Ok(vec![Action::Log { line: "error spawning dns responder for c.local".to_string() }])
    );
    assert_eq!(daemon, running());
}

#[test]
fn routes_are_bound_to_the_given_address() {
    let config = sample();
    let mut daemon = Daemon { state: DaemonState::Starting, helpers: vec![] };
    let actions = daemon.step(&Event::Loaded { config: config.clone() }, "10.0.0.9");
    let mut expected = vec![
        Action::WriteCaddyfile { content: render_caddyfile(&config, "10.0.0.9") },
        Action::Proxy { verb: ProxyVerb::Start },
    ];
    expected.extend(spawns(&config, "10.0.0.9"));
    assert_eq!(actions, expected);
}

#[test]
fn lan_lookup_failure_is_the_only_failure() {
    let mut config = sample();
    config.lan_enabled = true;
    let mut daemon = Daemon { state: DaemonState::Starting, helpers: vec![] };
    match daemon.handle(&Event::Loaded { config }) {
        Ok(actions) => {
            assert_eq!(daemon.state, DaemonState::Running);
            assert_eq!(actions.len(), 4usize);
        },
        Err(e) => {
            assert_eq!(e, DotLocalError::NoLanAddress);
            assert_eq!(daemon, Daemon { state: DaemonState::Starting, helpers: vec![] });
        },
    }
}

#[test]
fn interrupt_shuts_down_as_quit_does() {
    let mut daemon = running();
    let actions = daemon.handle(&Event::Interrupt).unwrap();
    assert_eq!(daemon, Daemon { state: DaemonState::Stopping, helpers: vec![] });
    assert_eq!(
        actions,
        vec![
            Action::Kill { handle: 11 },
            Action::Kill { handle: 12 },
            Action::Proxy { verb: ProxyVerb::Stop },
        ]
    );
    let mut helpers = running().helpers;
    assert_eq!(actions, Commands::Run.quit(&mut helpers));
    assert!(helpers.is_empty());
}

#[test]
fn stopping_every_helper_kills_each_once_and_forgets_them() {
    let mut helpers = vec![helper("a.local", 3), helper("b.local", 1), helper("c.local", 2)];
    assert_eq!(
        stop_all_dns_proxies(&mut helpers),
        vec![Action::Kill { handle: 3 }, Action::Kill { handle: 1 }, Action::Kill { handle: 2 }]
    );
    assert!(helpers.is_empty());
    assert_eq!(stop_all_dns_proxies(&mut helpers), vec![]);
}

#[test]
fn events_that_a_state_does_not_wait_for_change_nothing() {
    let config = sample();
    let events = vec![
        Event::Launch,
        Event::Loaded { config },
        request("GET", "/quit"),
        Event::Interrupt,
        Event::Done,
    ];
    let waits_for = |state: DaemonState, event: &Event| match (state, event) {
        (DaemonState::Stopped, Event::Launch) => true,
        (DaemonState::Starting, Event::Loaded { .. }) => true,
        (DaemonState::Restarting, Event::Loaded { .. }) => true,
        (DaemonState::Running, Event::Request { .. }) => true,
        (DaemonState::Running, Event::Interrupt) => true,
        (DaemonState::Stopping, Event::Done) => true,
        _ => false,
    };
    for state in [
        DaemonState::Stopped,
        DaemonState::Starting,
        DaemonState::Running,
        DaemonState::Restarting,
        DaemonState::Stopping,
    ] {
        for event in events.iter() {
            if !waits_for(state, event) {
                let mut daemon = Daemon { state, helpers: vec![helper("a.local", 1)] };
                assert_eq!(daemon.handle(event), Ok(vec![]));
                assert_eq!(daemon, Daemon { state, helpers: vec![helper("a.local", 1)] });
            }
        }
    }
}

#[test]
fn proxy_verbs() {
    assert_eq!(ProxyVerb::Start.argument(), "start");
    assert_eq!(ProxyVerb::Stop.argument(), "stop");
    assert_eq!(ProxyVerb::Reload.argument(), "reload");
}

#[test]
fn plans_of_the_run_command() {
    let config = sample();
    let run = Commands::Run;
    let mut start = vec![
        Action::WriteCaddyfile { content: render_caddyfile(&config, "h") },
        Action::Proxy { verb: ProxyVerb::Start },
    ];
    start.extend(spawns(&config, "h"));
    assert_eq!(run.start_proxy(&config, "h"), start);

    let mut helpers = vec![helper("old.local", 4)];
    let mut restart = vec![
        Action::WriteCaddyfile { content: render_caddyfile(&config, "h") },
        Action::Proxy { verb: ProxyVerb::Reload },
        Action::Kill { handle: 4 },
    ];
    restart.extend(spawns(&config, "h"));
    assert_eq!(run.restart_proxy(&mut helpers, &config, "h"), restart);
    assert!(helpers.is_empty());

    let mut daemon = running();
    assert_eq!(
        run.start_server(&mut daemon, "t", "GET", "/x"),
        vec![Action::Log { line: "[DotLocal] t GET /x".to_string() }, ok()]
    );
    assert_eq!(daemon, running());
}

#[test]
fn effects_of_the_commands() {
    assert_eq!(ADDR, "127.0.0.1:2023");
    assert_eq!(Commands::Configure.exec(), Effect::Configure);
    assert_eq!(Commands::Run.exec(), Effect::Run);
    assert_eq!(
        Commands::Start.exec(),
        Effect::Spawn { program: "./dotlocalctl".to_string(), args: vec!["run".to_string()] }
    );
    assert_eq!(
        Commands::Restart.exec(),
        Effect::Request { url: "http://127.0.0.1:2023/restart".to_string() }
    );
    assert_eq!(
        Commands::Stop.exec(),
        Effect::Request { url: "http://127.0.0.1:2023/quit".to_string() }
    );
    assert_eq!(Commands::Add { proxies: vec![] }.exec(), Effect::Update);
    assert_eq!(Commands::Remove { proxies: vec![] }.exec(), Effect::Update);
    assert_eq!(Commands::RemoveAll.exec(), Effect::Update);
    assert_eq!(Commands::Access { option: Access::Lan }.exec(), Effect::Update);
    assert_eq!(Commands::Https { option: Https::Off }.exec(), Effect::Update);
    assert_eq!(Commands::Restart.restart(), "http://127.0.0.1:2023/restart");
    assert_eq!(Commands::stop(), "http://127.0.0.1:2023/quit");
    assert_eq!(Commands::Start.start(), vec!["run"]);
}

#[test]
fn commands_applied_to_a_configuration() {
    let mut config = DotLocalConfig::new();
    let add = Commands::Add { proxies: vec!["a.local:3000".to_string(), "a.local/x:1".to_string()] };
    assert_eq!(add.apply(&mut config), Ok(()));
    assert_eq!(config.records.len(), 1usize);
    assert_eq!(config.records[0].port, 3000);
    assert_eq!(config.records[0].paths, vec![("/x".to_string(), 1)]);

    let remove = Commands::Remove { proxies: vec!["a.local:3000".to_string()] };
    assert_eq!(remove.apply(&mut config), Ok(()));
    assert_eq!(config.records[0].port, -1);

    let before = config.clone();
    let bad = Commands::Add { proxies: vec!["b.local:1".to_string(), "oops".to_string()] };
    assert_eq!(bad.apply(&mut config), Err(DotLocalError::MissingPort { entry: "oops".to_string() }));
    assert_eq!(config, before);

    for command in [Commands::Configure, Commands::Run, Commands::Start, Commands::Restart, Commands::Stop] {
        assert_eq!(command.apply(&mut config), Ok(()));
        assert_eq!(config, before);
    }

    assert_eq!(Commands::Access { option: Access::Local }.apply(&mut config), Ok(()));
    assert!(!config.lan_enabled);
    assert_eq!(Commands::Access { option: Access::Lan }.apply(&mut config), Ok(()));
    assert!(config.lan_enabled);
    assert_eq!(Commands::Https { option: Https::Off }.apply(&mut config), Ok(()));
    assert!(!config.automatic_https_redirect);
    assert_eq!(Commands::Https { option: Https::Auto }.apply(&mut config), Ok(()));
    assert!(config.automatic_https_redirect);
    assert_eq!(config.records, before.records);

    assert_eq!(Commands::RemoveAll.apply(&mut config), Ok(()));
    assert!(config.records.is_empty());
}

#[test]
fn access_and_https_set_their_flag_only() {
    let mut config = sample();
    let records = config.records_list();
    let any = Commands::RemoveAll;
    any.change_access(&mut config, &Access::Lan);
    assert!(config.lan_enabled && config.automatic_https_redirect);
    any.change_access(&mut config, &Access::Local);
    assert!(!config.lan_enabled && config.automatic_https_redirect);
    any.change_https(&mut config, &Https::Off);
    assert!(!config.lan_enabled && !config.automatic_https_redirect);
    any.change_https(&mut config, &Https::Auto);
    assert!(!config.lan_enabled && config.automatic_https_redirect);
    assert_eq!(config.records, records);
}
