//! One domain's routing rules, and the text generated from them.

use vstd::prelude::*;
use vstd::string::*;
use crate::entry::texts;
use crate::error::{DotLocalError, ErrorView};
use crate::helpers::{get_ip, loopback};
use crate::text::{decimal, push_decimal};

verus! {

/// The port that stands for "no default route".
pub const NO_PORT: i32 = -1;

/// The routing rules of one domain.
#[derive(Debug, PartialEq, Eq)]
pub struct Record {
    /// The fully-qualified local domain.
    pub domain: String,
    /// The path-specific routes, in the order in which they were added.
    pub paths: Vec<(String, i32)>,
    /// The port behind the domain's root, or `NO_PORT`.
    pub port: i32,
}

/// A record as a mathematical value.
pub struct RecordView {
    pub domain: Seq<char>,
    pub paths: Seq<(Seq<char>, int)>,
    pub port: int,
}

/// The path routes of a record as a sequence of prefixes and ports.
pub open spec fn paths_view(paths: Seq<(String, i32)>) -> Seq<(Seq<char>, int)> {
    Seq::new(paths.len(), |i: int| (paths[i].0@, paths[i].1 as int))
}

impl View for Record {
    type V = RecordView;

    open spec fn view(&self) -> RecordView {
        RecordView { domain: self.domain@, paths: paths_view(self.paths@), port: self.port as int }
    }
}

impl RecordView {
    /// A record that routes nothing: no default route and no path route.
    pub open spec fn is_empty(self) -> bool {
        self.port == NO_PORT && self.paths.len() == 0
    }
}

/// The first line of a stanza: the bare domain where plain HTTP is redirected
/// to HTTPS, both schemes spelled out where it is not.
pub open spec fn header(domain: Seq<char>, redirect: bool) -> Seq<char> {
    if redirect {
        domain + " {"@
    } else {
        "http://"@ + domain + " https://"@ + domain + " {"@
    }
}

/// The line that routes the domain's root to `port` at `ip`.
pub open spec fn default_line(ip: Seq<char>, port: int) -> Seq<char> {
    "\n\treverse_proxy "@ + ip + ":"@ + decimal(port)
}

/// The line that routes the requests under `prefix` to `port` at `ip`.
pub open spec fn path_line(prefix: Seq<char>, ip: Seq<char>, port: int) -> Seq<char> {
    "\n\treverse_proxy "@ + prefix + " "@ + ip + ":"@ + decimal(port)
}

/// The lines of the path routes, in their stored order.
pub open spec fn path_lines(paths: Seq<(Seq<char>, int)>, ip: Seq<char>) -> Seq<char>
    decreases paths.len(),
{
    if paths.len() == 0 {
        Seq::empty()
    } else {
        path_lines(paths.drop_last(), ip) + path_line(paths.last().0, ip, paths.last().1)
    }
}

/// The stanza of one record: header, the default route if there is one, the
/// path routes in their stored order, and the closing brace.
pub open spec fn stanza(record: RecordView, redirect: bool, ip: Seq<char>) -> Seq<char> {
    header(record.domain, redirect) + (if record.port != NO_PORT {
        default_line(ip, record.port)
    } else {
        Seq::empty()
    }) + path_lines(record.paths, ip) + "\n}"@
}

/// The ending that a domain loses, as often as it has it, to give the name
/// under which its helper registers it.
pub open spec fn local_suffix() -> Seq<char> {
    seq!['.', 'l', 'o', 'c', 'a', 'l']
}

/// Whether `domain` ends in `.local`.
pub open spec fn ends_in_local(domain: Seq<char>) -> bool {
    domain.len() >= 6 && domain.subrange(domain.len() - 6, domain.len() as int) == local_suffix()
}

/// The domain without every `.local` at its end.
pub open spec fn host_label(domain: Seq<char>) -> Seq<char>
    decreases domain.len(),
{
    if ends_in_local(domain) {
        host_label(domain.subrange(0, domain.len() - 6))
    } else {
        domain
    }
}

/// The arguments of the helper that advertises `domain` at `ip`: the
/// domain's label as the name of an HTTP service on port 80 of the host
/// `domain`, whose address is `ip`.
pub open spec fn helper_args(domain: Seq<char>, ip: Seq<char>) -> Seq<Seq<char>> {
    seq!["-P"@, host_label(domain), "_http._tcp"@, ""@, "80"@, domain, ip]
}

impl Clone for Record {
    fn clone(&self) -> (r: Record)
        ensures
            r@ == self@,
    {
        let mut paths: Vec<(String, i32)> = Vec::new();
        let mut i: usize = 0;
        while i < self.paths.len()
            invariant
                0 <= i <= self.paths.len(),
                paths@.len() == i,
                forall|j: int| 0 <= j < i ==> paths@[j].0@ == self.paths@[j].0@ && paths@[j].1 == self.paths@[j].1,
            decreases self.paths.len() - i,
        {
            paths.push((self.paths[i].0.clone(), self.paths[i].1));
            i += 1;
        }
        assert(paths_view(paths@) =~= paths_view(self.paths@));
        Record { domain: self.domain.clone(), paths, port: self.port }
    }
}

impl Record {
    /// The stanza of this record, bound to the address that `lan_enabled`
    /// selects: the loopback address where it is off, else whatever address
    /// this host has on the local network. Fails only where that address
    /// cannot be found.
    pub fn entry(&self, automatic_https_redirect: bool, lan_enabled: bool) -> (r: Result<
        String,
        DotLocalError,
    >)
        ensures
            !lan_enabled ==> (r matches Ok(text) && text@ == stanza(
                self@,
                automatic_https_redirect,
                loopback(),
            )),
            r matches Ok(text) ==> exists|ip: Seq<char>|
                text@ == stanza(self@, automatic_https_redirect, ip),
            r matches Err(e) ==> lan_enabled && e@ == ErrorView::NoLanAddress,
    {
        match get_ip(lan_enabled) {
            Ok(ip) => {
                let text = self.stanza(automatic_https_redirect, ip.as_str());
                Ok(text)
            },
            Err(e) => Err(e),
        }
    }

    /// The domain without every `.local` at its end.
    pub fn host_label(&self) -> (label: String)
        ensures
            label@ == host_label(self.domain@),
    {
        let text = self.domain.as_str();
        let mut end: usize = text.unicode_len();
        assert(text@.subrange(0, end as int) =~= text@);
        loop
            invariant
                end <= text@.len(),
                text@ == self.domain@,
                host_label(text@) == host_label(text@.subrange(0, end as int)),
            ensures
                end <= text@.len(),
                host_label(text@) == text@.subrange(0, end as int),
            decreases end,
        {
            let ghost front = text@.subrange(0, end as int);
            if end < 6 {
                break ;
            }
            let ends = text.get_char(end - 6) == '.' && text.get_char(end - 5) == 'l'
                && text.get_char(end - 4) == 'o' && text.get_char(end - 3) == 'c' && text.get_char(
                end - 2,
            ) == 'a' && text.get_char(end - 1) == 'l';
            proof {
                let tail = front.subrange(front.len() - 6, front.len() as int);
                assert(tail[0] == text@[end - 6]);
                assert(tail[1] == text@[end - 5]);
                assert(tail[2] == text@[end - 4]);
                assert(tail[3] == text@[end - 3]);
                assert(tail[4] == text@[end - 2]);
                assert(tail[5] == text@[end - 1]);
                if ends {
                    assert(tail =~= local_suffix());
                    assert(front.subrange(0, front.len() - 6) =~= text@.subrange(0, end - 6));
                } else {
                    assert(tail != local_suffix()) by {
                        if tail == local_suffix() {
                            assert(local_suffix()[0] == '.');
                            assert(local_suffix()[1] == 'l');
                            assert(local_suffix()[2] == 'o');
                            assert(local_suffix()[3] == 'c');
                            assert(local_suffix()[4] == 'a');
                            assert(local_suffix()[5] == 'l');
                        }
                    }
                }
            }
            if !ends {
                break ;
            }
            end -= 6;
        }
        String::from_str(text.substring_char(0, end))
    }

    /// The arguments with which the helper that advertises this record's
    /// domain at `ip` is started.
    pub fn dns_proxy_args(&self, ip: &str) -> (args: Vec<String>)
        ensures
            texts(args@) == helper_args(self.domain@, ip@),
    {
        let mut args: Vec<String> = Vec::new();
        args.push(String::from_str("-P"));
        args.push(self.host_label());
        args.push(String::from_str("_http._tcp"));
        args.push(String::from_str(""));
        args.push(String::from_str("80"));
        args.push(self.domain.clone());
        args.push(String::from_str(ip));
        assert(texts(args@) =~= helper_args(self.domain@, ip@));
        args
    }

    /// The stanza of this record for the proxy at `ip`.
    pub fn stanza(&self, automatic_https_redirect: bool, ip: &str) -> (text: String)
        ensures
            text@ == stanza(self@, automatic_https_redirect, ip@),
    {
        let mut text = String::new();
        if automatic_https_redirect {
            text.append(self.domain.as_str());
            text.append(" {");
            assert(text@ =~= header(self@.domain, true));
        } else {
            text.append("http://");
            text.append(self.domain.as_str());
            text.append(" https://");
            text.append(self.domain.as_str());
            text.append(" {");
            assert(text@ =~= header(self@.domain, false));
        }
        if self.port != NO_PORT {
            let mut line = String::new();
            line.append("\n\treverse_proxy ");
            line.append(ip);
            line.append(":");
            push_decimal(&mut line, self.port);
            assert(line@ =~= default_line(ip@, self.port as int));
            text.append(line.as_str());
        }
        let ghost head = text@;
        let ghost paths = self@.paths;
        let mut i: usize = 0;
        while i < self.paths.len()
            invariant
                0 <= i <= self.paths.len(),
                paths == paths_view(self.paths@),
                text@ == head + path_lines(paths.take(i as int), ip@),
            decreases self.paths.len() - i,
        {
            let mut line = String::new();
            line.append("\n\treverse_proxy ");
            line.append(self.paths[i].0.as_str());
            line.append(" ");
            line.append(ip);
            line.append(":");
            push_decimal(&mut line, self.paths[i].1);
            proof {
                let next = paths.take(i + 1);
                assert(next.drop_last() =~= paths.take(i as int));
                assert(next.last() == paths[i as int]);
                assert(line@ =~= path_line(paths[i as int].0, ip@, paths[i as int].1));
                assert(head + path_lines(paths.take(i as int), ip@) + line@ =~= head + path_lines(
                    next,
                    ip@,
                ));
            }
            text.append(line.as_str());
            i += 1;
        }
        proof {
            assert(paths.take(self.paths.len() as int) =~= paths);
            assert(head + path_lines(paths, ip@) + "\n}"@ =~= stanza(
                self@,
                automatic_https_redirect,
                ip@,
            ));
        }
        text.append("\n}");
        text
    }
}

} // verus!
