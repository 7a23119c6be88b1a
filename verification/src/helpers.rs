//! The address that routes are bound to, the proxy's configuration text and
//! the helper processes that advertise the domains.

use vstd::prelude::*;
use vstd::string::*;
use crate::config::{ConfigView, DotLocalConfig};
use crate::entry::texts;
use crate::error::{DotLocalError, ErrorView};
use crate::record::{helper_args, stanza, RecordView};
use crate::registry::distinct_domains;

verus! {

/// The error of `local_ip_address::local_ip`, an opaque value: the library
/// looks at nothing inside it.
#[verifier::external_type_specification]
#[verifier::external_body]
pub struct ExLocalIpError(local_ip_address::Error);

/// The loopback address, which routes are bound to where access from the
/// local network is off.
pub open spec fn loopback() -> Seq<char> {
    "127.0.0.1"@
}

/// Calls `local_ip_address::local_ip` and writes the address it found as
/// text. The result depends on the network interfaces of the machine, so
/// nothing is claimed of it.
#[verifier::external_body]
fn local_ip_text() -> (found: Result<String, local_ip_address::Error>) {
    match local_ip_address::local_ip() {
        Ok(ip) => Ok(ip.to_string()),
        Err(e) => Err(e),
    }
}

/// The address on the local network, from what the lookup returned: the
/// address it found, or `NoLanAddress` where it failed.
pub fn lan_ip(found: Result<String, local_ip_address::Error>) -> (r: Result<String, DotLocalError>)
    ensures
        match found {
            Ok(ip) => r == Ok::<String, DotLocalError>(ip),
            Err(_) => r matches Err(e) && e@ == ErrorView::NoLanAddress,
        },
{
    match found {
        Ok(ip) => Ok(ip),
        Err(_) => Err(DotLocalError::NoLanAddress),
    }
}

/// The address that routes are bound to: this host's address on the local
/// network where `lan_enabled`, the loopback address where not. The lookup
/// is made only where `lan_enabled`, and only it can fail.
pub fn get_ip(lan_enabled: bool) -> (r: Result<String, DotLocalError>)
    ensures
        !lan_enabled ==> (r matches Ok(ip) && ip@ == loopback()),
        r matches Err(e) ==> lan_enabled && e@ == ErrorView::NoLanAddress,
{
    if lan_enabled {
        lan_ip(local_ip_text())
    } else {
        Ok(String::from_str("127.0.0.1"))
    }
}

/// The stanzas of the records in the registry's order, with one line feed
/// between two stanzas.
pub open spec fn stanzas(records: Seq<RecordView>, redirect: bool, ip: Seq<char>) -> Seq<char>
    decreases records.len(),
{
    if records.len() == 0 {
        Seq::empty()
    } else if records.len() == 1 {
        stanza(records[0], redirect, ip)
    } else {
        stanzas(records.drop_last(), redirect, ip) + "\n"@ + stanza(records.last(), redirect, ip)
    }
}

/// The text of the proxy's configuration file for routes bound to `ip`: the
/// stanzas of the records, or one blank line where there is no record, as
/// the proxy takes an empty file for an error.
pub open spec fn caddyfile(config: ConfigView, ip: Seq<char>) -> Seq<char> {
    if config.records.len() == 0 {
        "\n"@
    } else {
        stanzas(config.records, config.automatic_https_redirect, ip)
    }
}

/// The text of the proxy's configuration file is never empty.
pub proof fn lemma_caddyfile_not_empty(config: ConfigView, ip: Seq<char>)
    ensures
        caddyfile(config, ip).len() > 0,
{
    reveal_strlit("\n");
    reveal_strlit("\n}");
    if config.records.len() > 0 {
        let records = config.records;
        let closing = stanza(records.last(), config.automatic_https_redirect, ip);
        assert(closing.len() >= 2);
    }
}

/// The text of the proxy's configuration file is a function of the records,
/// the redirect flag and the address: two configurations that agree on
/// records and redirect flag give the same text for the same address.
pub proof fn lemma_caddyfile_determined(first: ConfigView, second: ConfigView, ip: Seq<char>)
    requires
        first.records == second.records,
        first.automatic_https_redirect == second.automatic_https_redirect,
    ensures
        caddyfile(first, ip) == caddyfile(second, ip),
{
}

/// The text of the proxy's configuration file for routes bound to `ip`.
pub fn render_caddyfile(config: &DotLocalConfig, ip: &str) -> (text: String)
    ensures
        text@ == caddyfile(config@, ip@),
        text@.len() > 0,
{
    proof {
        lemma_caddyfile_not_empty(config@, ip@);
    }
    if config.records.len() == 0 {
        return String::from_str("\n");
    }
    let ghost records = config@.records;
    let redirect = config.automatic_https_redirect;
    let mut text = config.records[0].stanza(redirect, ip);
    let mut i: usize = 1;
    proof {
        assert(records.take(1).len() == 1);
        assert(records.take(1)[0] == records[0]);
    }
    while i < config.records.len()
        invariant
            1 <= i <= config.records.len(),
            records == config@.records,
            redirect == config.automatic_https_redirect,
            text@ == stanzas(records.take(i as int), redirect, ip@),
        decreases config.records.len() - i,
    {
        proof {
            assert(records.take(i + 1).drop_last() =~= records.take(i as int));
            assert(records.take(i + 1).last() == records[i as int]);
        }
        let next = config.records[i].stanza(redirect, ip);
        text.append("\n");
        text.append(next.as_str());
        i += 1;
    }
    proof {
        assert(records.take(config.records.len() as int) =~= records);
    }
    text
}

/// The new text of the proxy's configuration file, for routes bound to the
/// address that the configuration selects: the loopback address where
/// access from the local network is off, else whatever address this host
/// has there. The address is looked up once. Fails only where that address
/// cannot be found.
pub fn update_caddyfile(config: &DotLocalConfig) -> (r: Result<String, DotLocalError>)
    ensures
        !config.lan_enabled ==> (r matches Ok(text) && text@ == caddyfile(config@, loopback())),
        r matches Ok(text) ==> text@.len() > 0 && exists|ip: Seq<char>|
            text@ == caddyfile(config@, ip),
        r matches Err(e) ==> config.lan_enabled && e@ == ErrorView::NoLanAddress,
{
    match get_ip(config.lan_enabled) {
        Ok(ip) => {
            let text = render_caddyfile(config, ip.as_str());
            Ok(text)
        },
        Err(e) => Err(e),
    }
}

/// The helper process that advertises one domain.
#[derive(Debug, PartialEq, Eq)]
pub struct HelperCommand {
    /// The domain that the helper advertises.
    pub domain: String,
    /// The program that is the helper.
    pub program: String,
    /// The arguments that the helper is started with.
    pub args: Vec<String>,
}

/// A helper command as a mathematical value.
pub struct HelperView {
    pub domain: Seq<char>,
    pub program: Seq<char>,
    pub args: Seq<Seq<char>>,
}

impl View for HelperCommand {
    type V = HelperView;

    open spec fn view(&self) -> HelperView {
        HelperView { domain: self.domain@, program: self.program@, args: texts(self.args@) }
    }
}

impl Clone for HelperCommand {
    fn clone(&self) -> (r: HelperCommand)
        ensures
            r@ == self@,
    {
        let mut args: Vec<String> = Vec::new();
        let mut i: usize = 0;
        while i < self.args.len()
            invariant
                0 <= i <= self.args.len(),
                args@.len() == i,
                forall|j: int| 0 <= j < i ==> args@[j]@ == self.args@[j]@,
            decreases self.args.len() - i,
        {
            args.push(self.args[i].clone());
            i += 1;
        }
        assert(texts(args@) =~= texts(self.args@));
        HelperCommand { domain: self.domain.clone(), program: self.program.clone(), args }
    }
}

/// The helper commands of a list as mathematical values.
pub open spec fn helper_views(commands: Seq<HelperCommand>) -> Seq<HelperView> {
    Seq::new(commands.len(), |i: int| commands[i]@)
}

/// The helper that advertises `domain` at `ip`: the program `dns-sd`, which
/// keeps the advertisement up until it is killed.
pub open spec fn helper_for(domain: Seq<char>, ip: Seq<char>) -> HelperView {
    HelperView { domain, program: "dns-sd"@, args: helper_args(domain, ip) }
}

/// Whether one of `helpers` advertises `domain`.
pub open spec fn advertises(helpers: Seq<HelperView>, domain: Seq<char>) -> bool {
    exists|i: int| 0 <= i < helpers.len() && (#[trigger] helpers[i]).domain == domain
}

/// The helpers that advertise the domains of `records` at `ip`: one for
/// each domain, in the order in which the domains first occur.
pub open spec fn helpers_for(records: Seq<RecordView>, ip: Seq<char>) -> Seq<HelperView>
    decreases records.len(),
{
    if records.len() == 0 {
        Seq::empty()
    } else {
        let before = helpers_for(records.drop_last(), ip);
        let domain = records.last().domain;
        if advertises(before, domain) {
            before
        } else {
            before.push(helper_for(domain, ip))
        }
    }
}

/// Every domain of the registry has exactly one helper, and every helper
/// advertises a domain of the registry at `ip`.
pub proof fn lemma_helpers_for(records: Seq<RecordView>, ip: Seq<char>)
    ensures
        forall|i: int|
            0 <= i < records.len() ==> advertises(
                helpers_for(records, ip),
                (#[trigger] records[i]).domain,
            ),
        forall|i: int, j: int|
            0 <= i < j < helpers_for(records, ip).len() ==> (#[trigger] helpers_for(
                records,
                ip,
            )[i]).domain != (#[trigger] helpers_for(records, ip)[j]).domain,
        forall|i: int|
            0 <= i < helpers_for(records, ip).len() ==> (#[trigger] helpers_for(records, ip)[i])
                == helper_for(helpers_for(records, ip)[i].domain, ip) && exists|k: int|
                0 <= k < records.len() && (#[trigger] records[k]).domain == helpers_for(
                    records,
                    ip,
                )[i].domain,
        helpers_for(records, ip).len() <= records.len(),
        distinct_domains(records) ==> helpers_for(records, ip).len() == records.len(),
    decreases records.len(),
{
    let helpers = helpers_for(records, ip);
    if records.len() > 0 {
        let front = records.drop_last();
        let before = helpers_for(front, ip);
        let domain = records.last().domain;
        lemma_helpers_for(front, ip);
        assert forall|i: int| 0 <= i < records.len() implies advertises(
            helpers,
            (#[trigger] records[i]).domain,
        ) by {
            if i < front.len() {
                assert(front[i] == records[i]);
                assert(advertises(before, front[i].domain));
                let k = choose|k: int|
                    0 <= k < before.len() && (#[trigger] before[k]).domain == front[i].domain;
                assert(helpers[k] == before[k]);
            } else if advertises(before, domain) {
            } else {
                assert(helpers[helpers.len() - 1].domain == domain);
            }
        }
        assert forall|i: int| 0 <= i < helpers.len() implies (#[trigger] helpers[i]) == helper_for(
            helpers[i].domain,
            ip,
        ) && exists|k: int|
            0 <= k < records.len() && (#[trigger] records[k]).domain == helpers[i].domain by {
            if i < before.len() {
                assert(helpers[i] == before[i]);
                let k = choose|k: int|
                    0 <= k < front.len() && (#[trigger] front[k]).domain == before[i].domain;
                assert(records[k] == front[k]);
            } else {
                assert(records[records.len() - 1].domain == helpers[i].domain);
            }
        }
        if distinct_domains(records) {
            assert forall|i: int, j: int| 0 <= i < j < front.len() implies (
            #[trigger] front[i]).domain != (#[trigger] front[j]).domain by {
                assert(front[i] == records[i]);
                assert(front[j] == records[j]);
            }
            if advertises(before, domain) {
                let i = choose|i: int| 0 <= i < before.len() && (#[trigger] before[i]).domain == domain;
                let k = choose|k: int|
                    0 <= k < front.len() && (#[trigger] front[k]).domain == before[i].domain;
                assert(records[k] == front[k]);
                assert(records[records.len() - 1].domain == domain);
            }
        }
    }
}

/// The commands of the helpers that advertise the domains of the
/// configuration at `ip`: one helper for each domain, in the registry's
/// order.
pub fn helper_commands(config: &DotLocalConfig, ip: &str) -> (commands: Vec<HelperCommand>)
    ensures
        helper_views(commands@) == helpers_for(config@.records, ip@),
{
    let ghost records = config@.records;
    let mut commands: Vec<HelperCommand> = Vec::new();
    let mut i: usize = 0;
    proof {
        assert(records.take(0) =~= Seq::<RecordView>::empty());
        assert(helper_views(commands@) =~= Seq::<HelperView>::empty());
    }
    while i < config.records.len()
        invariant
            0 <= i <= config.records.len(),
            records == config@.records,
            helper_views(commands@) == helpers_for(records.take(i as int), ip@),
        decreases config.records.len() - i,
    {
        proof {
            assert(records.take(i + 1).drop_last() =~= records.take(i as int));
            assert(records.take(i + 1).last() == records[i as int]);
        }
        let record = &config.records[i];
        let ghost before = helper_views(commands@);
        let mut known = false;
        let mut k: usize = 0;
        while k < commands.len() && !known
            invariant
                0 <= k <= commands.len(),
                before == helper_views(commands@),
                known ==> advertises(before, record.domain@),
                !known ==> forall|j: int| 0 <= j < k ==> (#[trigger] before[j]).domain != record.domain@,
            decreases commands.len() - k + (if known { 0int } else { 1int }),
        {
            if commands[k].domain == record.domain {
                assert(before[k as int].domain == record.domain@);
                known = true;
            } else {
                k += 1;
            }
        }
        if !known {
            commands.push(
                HelperCommand {
                    domain: record.domain.clone(),
                    program: String::from_str("dns-sd"),
                    args: record.dns_proxy_args(ip),
                },
            );
            assert(helper_views(commands@) =~= before.push(helper_for(record.domain@, ip@)));
        }
        i += 1;
    }
    proof {
        assert(records.take(config.records.len() as int) =~= records);
    }
    commands
}

/// The commands of the helpers to spawn for the configuration, bound to
/// the address that the configuration selects, which is looked up once.
/// Fails only where that address cannot be found.
pub fn spawn_dns_proxies(config: &DotLocalConfig) -> (r: Result<Vec<HelperCommand>, DotLocalError>)
    ensures
        !config.lan_enabled ==> (r matches Ok(commands) && helper_views(commands@) == helpers_for(
            config@.records,
            loopback(),
        )),
        r matches Ok(commands) ==> exists|ip: Seq<char>|
            helper_views(commands@) == helpers_for(config@.records, ip),
        r matches Err(e) ==> config.lan_enabled && e@ == ErrorView::NoLanAddress,
{
    match get_ip(config.lan_enabled) {
        Ok(ip) => {
            let commands = helper_commands(config, ip.as_str());
            Ok(commands)
        },
        Err(e) => Err(e),
    }
}

} // verus!
