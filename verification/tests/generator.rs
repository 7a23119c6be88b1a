use dotlocal::config::DotLocalConfig;
use dotlocal::error::DotLocalError;
use dotlocal::helpers::{get_ip, helper_commands, lan_ip, render_caddyfile, spawn_dns_proxies, update_caddyfile, HelperCommand};
use dotlocal::record::Record;

fn record(domain: &str, paths: &[(&str, i32)], port: i32) -> Record {
    Record {
        domain: domain.to_string(),
        paths: paths.iter().map(|(p, n)| (p.to_string(), *n)).collect(),
        port,
    }
}

fn config(records: Vec<Record>, redirect: bool, lan: bool) -> DotLocalConfig {
    DotLocalConfig { records, automatic_https_redirect: redirect, lan_enabled: lan }
}

#[test]
fn stanza_with_redirect() {
    let r = record("a.local", &[("/x", 1), ("/y", 2)], 3000);
    assert_eq!(
        r.stanza(true, "127.0.0.1"),
        "a.local {\n\treverse_proxy 127.0.0.1:3000\n\treverse_proxy /x 127.0.0.1:1\n\treverse_proxy /y 127.0.0.1:2\n}"
    );
}

#[test]
fn stanza_without_redirect() {
    let r = record("a.local", &[], 3000);
    assert_eq!(
        r.stanza(false, "10.0.0.7"),
        "http://a.local https://a.local {\n\treverse_proxy 10.0.0.7:3000\n}"
    );
}

#[test]
fn stanza_without_default_route() {
    let r = record("a.local", &[("/x", 1)], -1);
    assert_eq!(r.stanza(true, "127.0.0.1"), "a.local {\n\treverse_proxy /x 127.0.0.1:1\n}");
}

#[test]
fn stanza_of_an_empty_record() {
    let r = record("a.local", &[], -1);
    assert_eq!(r.stanza(true, "127.0.0.1"), "a.local {\n}");
}

#[test]
fn stanza_keeps_the_stored_order_of_paths() {
    let r = record("a.local", &[("/z", 3), ("/a", 1)], -1);
    assert_eq!(
        r.stanza(true, "h"),
        "a.local {\n\treverse_proxy /z h:3\n\treverse_proxy /a h:1\n}"
    );
}

#[test]
fn entry_binds_to_loopback_where_lan_is_off() {
    let r = record("a.local", &[("/x", 1)], 3000);
    assert_eq!(r.entry(true, false), Ok(r.stanza(true, "127.0.0.1")));
    assert_eq!(r.entry(false, false), Ok(r.stanza(false, "127.0.0.1")));
}

#[test]
fn entry_binds_to_the_lan_address_where_lan_is_on() {
    let r = record("a.local", &[("/x", 1)], 3000);
    match (r.entry(true, true), get_ip(true)) {
        (Ok(text), Ok(ip)) => assert_eq!(text, r.stanza(true, &ip)),
        (Err(e), Err(_)) => assert_eq!(e, DotLocalError::NoLanAddress),
        (text, ip) => panic!("{:?} {:?}", text, ip),
    }
}

#[test]
fn zero_records_give_one_blank_line() {
    let c = config(vec![], true, false);
    assert_eq!(render_caddyfile(&c, "127.0.0.1"), "\n");
    assert_eq!(update_caddyfile(&c), Ok("\n".to_string()));
}

#[test]
fn stanzas_are_separated_by_line_feeds() {
    let c = config(vec![record("a.local", &[], 1), record("b.local", &[("/x", 2)], -1)], true, false);
    assert_eq!(
        render_caddyfile(&c, "127.0.0.1"),
        "a.local {\n\treverse_proxy 127.0.0.1:1\n}\nb.local {\n\treverse_proxy /x 127.0.0.1:2\n}"
    );
    let one = config(vec![record("a.local", &[], 1)], false, false);
    assert_eq!(
        render_caddyfile(&one, "127.0.0.1"),
        "http://a.local https://a.local {\n\treverse_proxy 127.0.0.1:1\n}"
    );
}

#[test]
fn generation_is_deterministic() {
    let c = config(
        vec![record("b.local", &[("/x", 2)], 9), record("a.local", &[], 1), record("c.local", &[("/y", 3)], -1)],
        false,
        false,
    );
    let first = render_caddyfile(&c, "192.168.1.5");
    for _ in 0..5 {
        assert_eq!(render_caddyfile(&c, "192.168.1.5"), first);
    }
    assert!(!first.is_empty());
    let mut other = c.clone();
    other.lan_enabled = true;
    assert_eq!(render_caddyfile(&other, "192.168.1.5"), first);
    assert_eq!(update_caddyfile(&c), Ok(render_caddyfile(&c, "127.0.0.1")));
}

#[test]
fn loopback_where_lan_is_off() {
    assert_eq!(get_ip(false), Ok("127.0.0.1".to_string()));
}

#[test]
fn lan_lookup_gives_an_address_or_fails_with_no_lan_address() {
    match get_ip(true) {
        Ok(ip) => assert!(!ip.is_empty()),
        Err(e) => assert_eq!(e, DotLocalError::NoLanAddress),
    }
}

#[test]
fn lan_address_from_what_the_lookup_returned() {
    assert_eq!(lan_ip(Ok("10.1.2.3".to_string())), Ok("10.1.2.3".to_string()));
    assert_eq!(
        lan_ip(Err(local_ip_address::Error::LocalIpAddressNotFound)),
        Err(DotLocalError::NoLanAddress)
    );
    assert_eq!(
        lan_ip(Err(local_ip_address::Error::StrategyError("x".to_string()))),
        Err(DotLocalError::NoLanAddress)
    );
}

#[test]
fn host_label_loses_every_local_ending() {
    assert_eq!(record("app.local", &[], 1).host_label(), "app");
    assert_eq!(record("app.local.local", &[], 1).host_label(), "app");
    assert_eq!(record("app.localx", &[], 1).host_label(), "app.localx");
    assert_eq!(record("app", &[], 1).host_label(), "app");
    assert_eq!(record(".local", &[], 1).host_label(), "");
    assert_eq!(record("local", &[], 1).host_label(), "local");
    assert_eq!(record("caf\u{e9}.local", &[], 1).host_label(), "caf\u{e9}");
    for domain in ["a.local", "x.local.local.local", "a.loca", "", "a.Local"] {
        assert_eq!(record(domain, &[], 1).host_label(), domain.trim_end_matches(".local"));
    }
}

#[test]
fn helper_arguments() {
    assert_eq!(
        record("app.local", &[], 1).dns_proxy_args("192.168.1.5"),
        vec!["-P", "app", "_http._tcp", "", "80", "app.local", "192.168.1.5"]
    );
}

#[test]
fn one_helper_for_each_domain() {
    let c = config(
        vec![record("a.local", &[], 1), record("b.local", &[], 2), record("a.local", &[("/x", 3)], -1)],
        true,
        false,
    );
    let commands = helper_commands(&c, "127.0.0.1");
    assert_eq!(
        commands,
        vec![
            HelperCommand {
                domain: "a.local".to_string(),
                program: "dns-sd".to_string(),
                args: record("a.local", &[], 1).dns_proxy_args("127.0.0.1"),
            },
            HelperCommand {
                domain: "b.local".to_string(),
                program: "dns-sd".to_string(),
                args: record("b.local", &[], 2).dns_proxy_args("127.0.0.1"),
            },
        ]
    );
    assert_eq!(spawn_dns_proxies(&c), Ok(commands));
    assert_eq!(helper_commands(&config(vec![], true, false), "127.0.0.1"), vec![]);
}
