//! The configuration: the registry of records and the two global flags.

use vstd::prelude::*;
use vstd::string::*;
use crate::entry::{entry_views, lemma_parse_entries_fails, parse_entries, parse_entry, texts, EntryView, ProxyEntry};
use crate::error::{DotLocalError, ErrorView};
use crate::record::{paths_view, Record, RecordView, NO_PORT};
use crate::registry::{
    add_entries,
    add_entry,
    distinct_domains,
    keyed,
    lemma_add_entries_distinct,
    lemma_add_entry_distinct,
    lemma_keyed,
    lemma_position,
    lemma_remove_entries_keeps,
    lemma_remove_entry_distinct,
    lemma_remove_entry_none_empty,
    none_empty,
    put_record,
    lemma_without_prefix_last,
    lemma_without_route_last,
    position,
    remove_entries,
    remove_entry,
    without_prefix,
    without_route,
};
use crate::text::{find_char, read_i32, trimmed};

verus! {

/// The state that is kept between runs.
#[derive(Debug, Clone, PartialEq, Eq)]
pub struct DotLocalConfig {
    /// The records, in the order in which their domains were first added.
    pub records: Vec<Record>,
    /// Whether the proxy redirects plain HTTP to HTTPS.
    pub automatic_https_redirect: bool,
    /// Whether routes are bound to the address on the local network rather
    /// than to the loopback address.
    pub lan_enabled: bool,
}

/// A configuration as a mathematical value.
pub struct ConfigView {
    pub records: Seq<RecordView>,
    pub automatic_https_redirect: bool,
    pub lan_enabled: bool,
}

/// The records of a list as mathematical values.
pub open spec fn record_views(records: Seq<Record>) -> Seq<RecordView> {
    Seq::new(records.len(), |i: int| records[i]@)
}

impl View for DotLocalConfig {
    type V = ConfigView;

    open spec fn view(&self) -> ConfigView {
        ConfigView {
            records: record_views(self.records@),
            automatic_https_redirect: self.automatic_https_redirect,
            lan_enabled: self.lan_enabled,
        }
    }
}

fn routes_but_prefix(paths: &Vec<(String, i32)>, prefix: &String) -> (kept: Vec<(String, i32)>)
    ensures
        paths_view(kept@) == without_prefix(paths_view(paths@), prefix@),
{
    let ghost all = paths_view(paths@);
    let mut kept: Vec<(String, i32)> = Vec::new();
    let mut i: usize = 0;
    proof {
        assert(all.take(0) =~= Seq::<(Seq<char>, int)>::empty());
        assert(paths_view(kept@) =~= without_prefix(all.take(0), prefix@));
    }
    while i < paths.len()
        invariant
            0 <= i <= paths.len(),
            all == paths_view(paths@),
            paths_view(kept@) == without_prefix(all.take(i as int), prefix@),
        decreases paths.len() - i,
    {
        proof {
            assert(all.take(i + 1).drop_last() =~= all.take(i as int));
            assert(all.take(i + 1).last() == all[i as int]);
            lemma_without_prefix_last(all.take(i + 1), prefix@);
        }
        if paths[i].0 != *prefix {
            let ghost before = paths_view(kept@);
            kept.push((paths[i].0.clone(), paths[i].1));
            assert(paths_view(kept@) =~= before.push(all[i as int]));
        }
        i += 1;
    }
    proof {
        assert(all.take(paths.len() as int) =~= all);
    }
    kept
}

fn routes_but(paths: &Vec<(String, i32)>, prefix: &String, port: i32) -> (kept: Vec<(String, i32)>)
    ensures
        paths_view(kept@) == without_route(paths_view(paths@), prefix@, port as int),
{
    let ghost all = paths_view(paths@);
    let mut kept: Vec<(String, i32)> = Vec::new();
    let mut i: usize = 0;
    proof {
        assert(all.take(0) =~= Seq::<(Seq<char>, int)>::empty());
        assert(paths_view(kept@) =~= without_route(all.take(0), prefix@, port as int));
    }
    while i < paths.len()
        invariant
            0 <= i <= paths.len(),
            all == paths_view(paths@),
            paths_view(kept@) == without_route(all.take(i as int), prefix@, port as int),
        decreases paths.len() - i,
    {
        proof {
            assert(all.take(i + 1).drop_last() =~= all.take(i as int));
            assert(all.take(i + 1).last() == all[i as int]);
            lemma_without_route_last(all.take(i + 1), prefix@, port as int);
        }
        if paths[i].0 != *prefix || paths[i].1 != port {
            let ghost before = paths_view(kept@);
            kept.push((paths[i].0.clone(), paths[i].1));
            assert(paths_view(kept@) =~= before.push(all[i as int]));
        }
        i += 1;
    }
    proof {
        assert(all.take(paths.len() as int) =~= all);
    }
    kept
}

impl DotLocalConfig {
    /// Whether no two records are of the same domain. Every function of the
    /// configuration keeps it, and none needs it.
    pub open spec fn wf(&self) -> bool {
        distinct_domains(self@.records)
    }

    /// The configuration of a first run: no records, HTTPS redirect on,
    /// access from the local network on.
    pub fn new() -> (config: DotLocalConfig)
        ensures
            config@ == (ConfigView {
                records: Seq::empty(),
                automatic_https_redirect: true,
                lan_enabled: true,
            }),
            config.wf(),
    {
        let config = DotLocalConfig {
            records: Vec::new(),
            automatic_https_redirect: true,
            lan_enabled: true,
        };
        assert(config@.records =~= Seq::<RecordView>::empty());
        config
    }

    /// A copy of every record, in the registry's order.
    pub fn records_list(&self) -> (list: Vec<Record>)
        ensures
            record_views(list@) == self@.records,
    {
        let mut list: Vec<Record> = Vec::new();
        let mut i: usize = 0;
        while i < self.records.len()
            invariant
                0 <= i <= self.records.len(),
                list@.len() == i,
                forall|j: int| 0 <= j < i ==> list@[j]@ == self.records@[j]@,
            decreases self.records.len() - i,
        {
            list.push(self.records[i].clone());
            i += 1;
        }
        assert(record_views(list@) =~= self@.records);
        list
    }

    /// The configuration that stored records and flags stand for. The
    /// records are keyed by their domains: a domain that occurs again takes
    /// the later record's content and keeps the earlier one's place.
    pub fn from_records(
        records: &Vec<Record>,
        automatic_https_redirect: bool,
        lan_enabled: bool,
    ) -> (config: DotLocalConfig)
        ensures
            config@ == (ConfigView {
                records: keyed(record_views(records@)),
                automatic_https_redirect,
                lan_enabled,
            }),
            config.wf(),
    {
        let ghost all = record_views(records@);
        let mut config = DotLocalConfig { records: Vec::new(), automatic_https_redirect, lan_enabled };
        let mut i: usize = 0;
        proof {
            assert(all.take(0) =~= Seq::<RecordView>::empty());
            assert(config@.records =~= Seq::<RecordView>::empty());
        }
        while i < records.len()
            invariant
                0 <= i <= records.len(),
                all == record_views(records@),
                config@ == (ConfigView {
                    records: keyed(all.take(i as int)),
                    automatic_https_redirect,
                    lan_enabled,
                }),
            decreases records.len() - i,
        {
            proof {
                assert(all.take(i + 1).drop_last() =~= all.take(i as int));
                assert(all.take(i + 1).last() == records@[i as int]@);
            }
            let record = records[i].clone();
            let at = config.position(&record.domain);
            let ghost before = config@.records;
            if at < config.records.len() {
                config.records.remove(at);
                config.records.insert(at, record);
            } else {
                config.records.push(record);
            }
            assert(config@.records =~= put_record(before, record@));
            i += 1;
        }
        proof {
            assert(all.take(records.len() as int) =~= all);
            lemma_keyed(all);
        }
        config
    }

    /// Reads one entry of the form `domain[/path]:port`.
    pub fn parse_proxy_entry(entry: &String) -> (r: Result<ProxyEntry, DotLocalError>)
        ensures
            match parse_entry(entry@) {
                Ok(meaning) => r matches Ok(parsed) && parsed@ == meaning,
                Err(error) => r matches Err(e) && e@ == error,
            },
    {
        let text = entry.as_str();
        let n = text.unicode_len();
        let colon = find_char(text, ':');
        if colon == n {
            return Err(DotLocalError::MissingPort { entry: entry.clone() });
        }
        let target = text.substring_char(0, colon);
        let port = match read_i32(trimmed(text.substring_char(colon + 1, n))) {
            Some(port) => port,
            None => {
                return Err(DotLocalError::InvalidPort { entry: entry.clone() });
            },
        };
        let slash = find_char(target, '/');
        if slash == colon {
            Ok(ProxyEntry { domain: String::from_str(target), port, path: None })
        } else {
            let mut prefix = String::from_str("/");
            prefix.append(target.substring_char(slash + 1, colon));
            Ok(
                ProxyEntry {
                    domain: String::from_str(target.substring_char(0, slash)),
                    port,
                    path: Some(prefix),
                },
            )
        }
    }

    /// Reads a batch of entries: all of them, or the error of the first that
    /// is malformed.
    pub fn parse_proxy_entries(entries: &Vec<String>) -> (r: Result<Vec<ProxyEntry>, DotLocalError>)
        ensures
            match parse_entries(texts(entries@)) {
                Ok(meanings) => r matches Ok(parsed) && entry_views(parsed@) == meanings,
                Err(error) => r matches Err(e) && e@ == error,
            },
    {
        let ghost all = texts(entries@);
        let mut parsed: Vec<ProxyEntry> = Vec::new();
        let mut i: usize = 0;
        proof {
            assert(all.take(0) =~= Seq::<Seq<char>>::empty());
            assert(entry_views(parsed@) =~= Seq::<EntryView>::empty());
        }
        while i < entries.len()
            invariant
                0 <= i <= entries.len(),
                all == texts(entries@),
                parse_entries(all.take(i as int)) == Ok::<Seq<EntryView>, ErrorView>(
                    entry_views(parsed@),
                ),
            decreases entries.len() - i,
        {
            proof {
                assert(all.take(i + 1).drop_last() =~= all.take(i as int));
                assert(all.take(i + 1).last() == entries@[i as int]@);
            }
            match DotLocalConfig::parse_proxy_entry(&entries[i]) {
                Ok(entry) => {
                    let ghost before = entry_views(parsed@);
                    parsed.push(entry);
                    assert(entry_views(parsed@) =~= before.push(entry@));
                },
                Err(e) => {
                    proof {
                        lemma_parse_entries_fails(all, i + 1);
                    }
                    return Err(e);
                },
            }
            i += 1;
        }
        proof {
            assert(all.take(entries.len() as int) =~= all);
        }
        Ok(parsed)
    }

    /// The position of the record of `domain`, or the number of records
    /// where there is none.
    pub fn position(&self, domain: &String) -> (at: usize)
        ensures
            at as int == position(self@.records, domain@),
            at <= self.records.len(),
    {
        let mut at: usize = 0;
        while at < self.records.len()
            invariant
                0 <= at <= self.records.len(),
                forall|j: int| 0 <= j < at ==> self@.records[j].domain != domain@,
            decreases self.records.len() - at,
        {
            if self.records[at].domain == *domain {
                proof {
                    lemma_position(self@.records, domain@, at as int);
                }
                return at;
            }
            at += 1;
        }
        proof {
            lemma_position(self@.records, domain@, at as int);
        }
        at
    }

    /// Adds one entry: merges it into the record of its domain, or appends
    /// a record for a domain that has none.
    pub fn add_proxy(&mut self, entry: &ProxyEntry)
        ensures
            final(self)@ == (ConfigView {
                records: add_entry(old(self)@.records, entry@),
                ..old(self)@
            }),
            old(self).wf() ==> final(self).wf(),
    {
        let at = self.position(&entry.domain);
        let ghost before = self@.records;
        proof {
            if self.wf() {
                lemma_add_entry_distinct(before, entry@);
            }
        }
        if at < self.records.len() {
            let mut record = self.records.remove(at);
            match &entry.path {
                Some(prefix) => {
                    let mut paths = routes_but_prefix(&record.paths, prefix);
                    let ghost kept = paths_view(paths@);
                    paths.push((prefix.clone(), entry.port));
                    assert(paths_view(paths@) =~= kept.push((prefix@, entry.port as int)));
                    record.paths = paths;
                },
                None => {
                    record.port = entry.port;
                },
            }
            self.records.insert(at, record);
            assert(self@.records =~= add_entry(before, entry@));
        } else {
            let mut paths: Vec<(String, i32)> = Vec::new();
            let record = match &entry.path {
                Some(prefix) => {
                    paths.push((prefix.clone(), entry.port));
                    assert(paths_view(paths@) =~= seq![(prefix@, entry.port as int)]);
                    Record { domain: entry.domain.clone(), paths, port: NO_PORT }
                },
                None => {
                    assert(paths_view(paths@) =~= Seq::<(Seq<char>, int)>::empty());
                    Record { domain: entry.domain.clone(), paths, port: entry.port }
                },
            };
            self.records.push(record);
            assert(self@.records =~= add_entry(before, entry@));
        }
    }

    /// Removes one entry from the record of its domain, and the record with
    /// it where nothing is left of it. A domain without a record changes
    /// nothing.
    pub fn remove_proxy(&mut self, entry: &ProxyEntry)
        ensures
            final(self)@ == (ConfigView {
                records: remove_entry(old(self)@.records, entry@),
                ..old(self)@
            }),
            old(self).wf() ==> final(self).wf(),
            none_empty(old(self)@.records) ==> none_empty(final(self)@.records),
    {
        let at = self.position(&entry.domain);
        let ghost before = self@.records;
        proof {
            if self.wf() {
                lemma_remove_entry_distinct(before, entry@);
            }
            if none_empty(before) {
                lemma_remove_entry_none_empty(before, entry@);
            }
        }
        if at < self.records.len() {
            let mut record = self.records.remove(at);
            match &entry.path {
                Some(prefix) => {
                    let kept = routes_but(&record.paths, prefix, entry.port);
                    if !(kept.len() == 0 && record.port == NO_PORT) {
                        record.paths = kept;
                        self.records.insert(at, record);
                    }
                },
                None => {
                    if entry.port != record.port {
                        self.records.insert(at, record);
                    } else if record.paths.len() != 0 {
                        record.port = NO_PORT;
                        self.records.insert(at, record);
                    }
                },
            }
            assert(self@.records =~= remove_entry(before, entry@));
        } else {
            assert(self@.records =~= remove_entry(before, entry@));
        }
    }

    /// Adds a batch of entries, one after the other. A malformed entry fails
    /// the batch and leaves the configuration as it was.
    pub fn add_proxies(&mut self, entries: &Vec<String>) -> (r: Result<(), DotLocalError>)
        ensures
            match parse_entries(texts(entries@)) {
                Ok(parsed) => r is Ok && final(self)@ == (ConfigView {
                    records: add_entries(old(self)@.records, parsed),
                    ..old(self)@
                }),
                Err(error) => (r matches Err(e) && e@ == error) && *final(self) == *old(self),
            },
            old(self).wf() ==> final(self).wf(),
    {
        let parsed = match DotLocalConfig::parse_proxy_entries(entries) {
            Ok(parsed) => parsed,
            Err(e) => {
                return Err(e);
            },
        };
        let ghost all = entry_views(parsed@);
        let mut i: usize = 0;
        proof {
            assert(all.take(0) =~= Seq::<EntryView>::empty());
            if self.wf() {
                lemma_add_entries_distinct(self@.records, all);
            }
        }
        while i < parsed.len()
            invariant
                0 <= i <= parsed.len(),
                all == entry_views(parsed@),
                self@ == (ConfigView {
                    records: add_entries(old(self)@.records, all.take(i as int)),
                    ..old(self)@
                }),
            decreases parsed.len() - i,
        {
            proof {
                assert(all.take(i + 1).drop_last() =~= all.take(i as int));
                assert(all.take(i + 1).last() == parsed@[i as int]@);
            }
            self.add_proxy(&parsed[i]);
            i += 1;
        }
        proof {
            assert(all.take(parsed.len() as int) =~= all);
        }
        Ok(())
    }

    /// Removes a batch of entries, one after the other. A malformed entry
    /// fails the batch and leaves the configuration as it was.
    pub fn remove_proxies(&mut self, entries: &Vec<String>) -> (r: Result<(), DotLocalError>)
        ensures
            match parse_entries(texts(entries@)) {
                Ok(parsed) => r is Ok && final(self)@ == (ConfigView {
                    records: remove_entries(old(self)@.records, parsed),
                    ..old(self)@
                }),
                Err(error) => (r matches Err(e) && e@ == error) && *final(self) == *old(self),
            },
            old(self).wf() ==> final(self).wf(),
            none_empty(old(self)@.records) ==> none_empty(final(self)@.records),
    {
        let parsed = match DotLocalConfig::parse_proxy_entries(entries) {
            Ok(parsed) => parsed,
            Err(e) => {
                return Err(e);
            },
        };
        let ghost all = entry_views(parsed@);
        let mut i: usize = 0;
        proof {
            assert(all.take(0) =~= Seq::<EntryView>::empty());
            lemma_remove_entries_keeps(self@.records, all);
        }
        while i < parsed.len()
            invariant
                0 <= i <= parsed.len(),
                all == entry_views(parsed@),
                self@ == (ConfigView {
                    records: remove_entries(old(self)@.records, all.take(i as int)),
                    ..old(self)@
                }),
            decreases parsed.len() - i,
        {
            proof {
                assert(all.take(i + 1).drop_last() =~= all.take(i as int));
                assert(all.take(i + 1).last() == parsed@[i as int]@);
            }
            self.remove_proxy(&parsed[i]);
            i += 1;
        }
        proof {
            assert(all.take(parsed.len() as int) =~= all);
        }
        Ok(())
    }

    /// Removes every record. The flags stay.
    pub fn remove_all_proxies(&mut self)
        ensures
            final(self)@ == (ConfigView { records: Seq::empty(), ..old(self)@ }),
            final(self).wf(),
    {
        self.records = Vec::new();
        assert(self@.records =~= Seq::<RecordView>::empty());
    }
}

} // verus!
