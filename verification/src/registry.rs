//! The registry as a mathematical value: records in the order in which their
//! domains were first added, with the rules for adding and removing entries.

use vstd::prelude::*;
use crate::entry::EntryView;
use crate::record::{RecordView, NO_PORT};

verus! {

/// The position of the first record of `domain`, or the number of records
/// where there is none.
pub open spec fn position(records: Seq<RecordView>, domain: Seq<char>) -> int
    decreases records.len(),
{
    if records.len() == 0 || records[0].domain == domain {
        0
    } else {
        1 + position(records.skip(1), domain)
    }
}

/// Whether the registry holds a record of `domain`.
pub open spec fn has_domain(records: Seq<RecordView>, domain: Seq<char>) -> bool {
    position(records, domain) < records.len()
}

/// The record of `domain`.
pub open spec fn record_of(records: Seq<RecordView>, domain: Seq<char>) -> RecordView
    recommends
        has_domain(records, domain),
{
    records[position(records, domain)]
}

/// No two records are of the same domain: the registry is a mapping from
/// domains to records.
pub open spec fn distinct_domains(records: Seq<RecordView>) -> bool {
    forall|i: int, j: int|
        0 <= i < j < records.len() ==> (#[trigger] records[i]).domain != (
        #[trigger] records[j]).domain
}

/// No record routes nothing.
pub open spec fn none_empty(records: Seq<RecordView>) -> bool {
    forall|i: int| 0 <= i < records.len() ==> !(#[trigger] records[i]).is_empty()
}

/// The path routes but those of the prefix `prefix`, in their order.
pub open spec fn without_prefix(paths: Seq<(Seq<char>, int)>, prefix: Seq<char>) -> Seq<
    (Seq<char>, int),
> {
    paths.filter(|route: (Seq<char>, int)| route.0 != prefix)
}

/// The path routes but those that send `prefix` to `port`, in their order.
pub open spec fn without_route(paths: Seq<(Seq<char>, int)>, prefix: Seq<char>, port: int) -> Seq<
    (Seq<char>, int),
> {
    paths.filter(|route: (Seq<char>, int)| route.0 != prefix || route.1 != port)
}

/// The record that an entry makes of a domain that has none yet.
pub open spec fn fresh_record(entry: EntryView) -> RecordView {
    match entry.path {
        Some(prefix) => RecordView {
            domain: entry.domain,
            paths: seq![(prefix, entry.port)],
            port: NO_PORT as int,
        },
        None => RecordView { domain: entry.domain, paths: Seq::empty(), port: entry.port },
    }
}

/// What an entry makes of the record that its domain already has. An entry
/// with a path replaces the routes of its prefix by one new route at the
/// end and leaves the default port alone; an entry without one sets the
/// default port and leaves the paths alone.
pub open spec fn merged_record(record: RecordView, entry: EntryView) -> RecordView {
    match entry.path {
        Some(prefix) => RecordView {
            paths: without_prefix(record.paths, prefix).push((prefix, entry.port)),
            ..record
        },
        None => RecordView { port: entry.port, ..record },
    }
}

/// The registry after one entry is added: the record of its domain is
/// merged in place, or a fresh record is appended.
pub open spec fn add_entry(records: Seq<RecordView>, entry: EntryView) -> Seq<RecordView> {
    let at = position(records, entry.domain);
    if at < records.len() {
        records.update(at, merged_record(records[at], entry))
    } else {
        records.push(fresh_record(entry))
    }
}

/// What is left of a record once an entry is removed from it; `None` where
/// nothing is left. An entry with a path takes away the routes of exactly
/// its prefix and port. An entry without one acts only where its port is
/// the record's default port, and takes that away. A record left with
/// neither default port nor paths goes.
pub open spec fn reduced_record(record: RecordView, entry: EntryView) -> Option<RecordView> {
    match entry.path {
        Some(prefix) => {
            let kept = without_route(record.paths, prefix, entry.port);
            if kept.len() == 0 && record.port == NO_PORT {
                None
            } else {
                Some(RecordView { paths: kept, ..record })
            }
        },
        None => if entry.port != record.port {
            Some(record)
        } else if record.paths.len() == 0 {
            None
        } else {
            Some(RecordView { port: NO_PORT as int, ..record })
        },
    }
}

/// The registry after one entry is removed. A domain without a record
/// leaves the registry as it is.
pub open spec fn remove_entry(records: Seq<RecordView>, entry: EntryView) -> Seq<RecordView> {
    let at = position(records, entry.domain);
    if at < records.len() {
        match reduced_record(records[at], entry) {
            Some(record) => records.update(at, record),
            None => records.remove(at),
        }
    } else {
        records
    }
}

/// The registry after `record` is put into it: in the place of the record
/// of its domain, or at the end where the domain has none.
pub open spec fn put_record(records: Seq<RecordView>, record: RecordView) -> Seq<RecordView> {
    let at = position(records, record.domain);
    if at < records.len() {
        records.update(at, record)
    } else {
        records.push(record)
    }
}

/// The registry that a list of records stands for: each domain once, at the
/// place of its first record and with the content of its last.
pub open spec fn keyed(records: Seq<RecordView>) -> Seq<RecordView>
    decreases records.len(),
{
    if records.len() == 0 {
        records
    } else {
        put_record(keyed(records.drop_last()), records.last())
    }
}

/// The registry after a batch of entries is added, one after the other.
pub open spec fn add_entries(records: Seq<RecordView>, entries: Seq<EntryView>) -> Seq<RecordView>
    decreases entries.len(),
{
    if entries.len() == 0 {
        records
    } else {
        add_entry(add_entries(records, entries.drop_last()), entries.last())
    }
}

/// The registry after a batch of entries is removed, one after the other.
pub open spec fn remove_entries(records: Seq<RecordView>, entries: Seq<EntryView>) -> Seq<
    RecordView,
>
    decreases entries.len(),
{
    if entries.len() == 0 {
        records
    } else {
        remove_entry(remove_entries(records, entries.drop_last()), entries.last())
    }
}

/// How `without_prefix` treats the last route.
pub proof fn lemma_without_prefix_last(paths: Seq<(Seq<char>, int)>, prefix: Seq<char>)
    requires
        paths.len() > 0,
    ensures
        without_prefix(paths, prefix) == if paths.last().0 != prefix {
            without_prefix(paths.drop_last(), prefix).push(paths.last())
        } else {
            without_prefix(paths.drop_last(), prefix)
        },
{
    reveal(Seq::filter);
}

/// How `without_route` treats the last route.
pub proof fn lemma_without_route_last(paths: Seq<(Seq<char>, int)>, prefix: Seq<char>, port: int)
    requires
        paths.len() > 0,
    ensures
        without_route(paths, prefix, port) == if paths.last().0 != prefix || paths.last().1
            != port {
            without_route(paths.drop_last(), prefix, port).push(paths.last())
        } else {
            without_route(paths.drop_last(), prefix, port)
        },
{
    reveal(Seq::filter);
}

/// `position` is the one place before which no record is of `domain` and at
/// which one is, or the end.
pub proof fn lemma_position(records: Seq<RecordView>, domain: Seq<char>, at: int)
    requires
        0 <= at <= records.len(),
        forall|j: int| 0 <= j < at ==> records[j].domain != domain,
        at < records.len() ==> records[at].domain == domain,
    ensures
        position(records, domain) == at,
    decreases records.len(),
{
    if records.len() == 0 || records[0].domain == domain {
    } else {
        let rest = records.skip(1);
        assert forall|j: int| 0 <= j < at - 1 implies rest[j].domain != domain by {
            assert(rest[j] == records[j + 1]);
        }
        lemma_position(rest, domain, at - 1);
    }
}

/// What `position` returns lies within the registry, no record before it is
/// of `domain`, and the record at it is.
pub proof fn lemma_position_bounds(records: Seq<RecordView>, domain: Seq<char>)
    ensures
        0 <= position(records, domain) <= records.len(),
        forall|j: int| 0 <= j < position(records, domain) ==> records[j].domain != domain,
        has_domain(records, domain) ==> record_of(records, domain).domain == domain,
    decreases records.len(),
{
    if records.len() == 0 || records[0].domain == domain {
    } else {
        let rest = records.skip(1);
        lemma_position_bounds(rest, domain);
        assert forall|j: int| 0 <= j < position(records, domain) implies records[j].domain
            != domain by {
            if j > 0 {
                assert(rest[j - 1] == records[j]);
            }
        }
    }
}

/// No route of the prefix is left in `without_prefix`, and a second pass
/// removes nothing more.
pub proof fn lemma_without_prefix_settled(paths: Seq<(Seq<char>, int)>, prefix: Seq<char>)
    ensures
        forall|i: int|
            0 <= i < without_prefix(paths, prefix).len() ==> (#[trigger] without_prefix(
                paths,
                prefix,
            )[i]).0 != prefix,
        without_prefix(without_prefix(paths, prefix), prefix) == without_prefix(paths, prefix),
    decreases paths.len(),
{
    let kept = without_prefix(paths, prefix);
    if paths.len() == 0 {
        reveal(Seq::filter);
        assert(kept =~= paths);
    } else {
        lemma_without_prefix_last(paths, prefix);
        lemma_without_prefix_settled(paths.drop_last(), prefix);
        if paths.last().0 != prefix {
            lemma_without_prefix_last(kept, prefix);
            assert(kept.drop_last() =~= without_prefix(paths.drop_last(), prefix));
        }
    }
}

/// Where every route sends `prefix` to `port`, `without_route` keeps none.
pub proof fn lemma_without_route_all(paths: Seq<(Seq<char>, int)>, prefix: Seq<char>, port: int)
    requires
        forall|i: int| 0 <= i < paths.len() ==> paths[i] == (prefix, port),
    ensures
        without_route(paths, prefix, port).len() == 0,
    decreases paths.len(),
{
    if paths.len() == 0 {
        reveal(Seq::filter);
    } else {
        lemma_without_route_last(paths, prefix, port);
        lemma_without_route_all(paths.drop_last(), prefix, port);
    }
}

/// Adding an entry a second time changes nothing: the registry after two
/// additions of one entry is the registry after one.
pub proof fn lemma_add_entry_twice(records: Seq<RecordView>, entry: EntryView)
    ensures
        add_entry(add_entry(records, entry), entry) == add_entry(records, entry),
{
    let at = position(records, entry.domain);
    let once = add_entry(records, entry);
    lemma_position_bounds(records, entry.domain);
    assert forall|j: int| 0 <= j < at implies once[j].domain != entry.domain by {
        assert(once[j] == records[j]);
    }
    lemma_position(once, entry.domain, at);
    match entry.path {
        Some(prefix) => {
            if at < records.len() {
                let kept = without_prefix(records[at].paths, prefix);
                lemma_without_prefix_settled(records[at].paths, prefix);
                lemma_without_prefix_last(kept.push((prefix, entry.port)), prefix);
                assert(kept.push((prefix, entry.port)).drop_last() =~= kept);
            } else {
                let single = seq![(prefix, entry.port)];
                lemma_without_prefix_last(single, prefix);
                reveal(Seq::filter);
                assert(single.drop_last() =~= Seq::<(Seq<char>, int)>::empty());
                assert(without_prefix(single, prefix).push((prefix, entry.port)) =~= single);
            }
        },
        None => {},
    }
    assert(add_entry(once, entry) =~= once);
}

/// A batch of one entry adds or removes what the entry does.
pub proof fn lemma_batch_of_one(records: Seq<RecordView>, entry: EntryView)
    ensures
        add_entries(records, seq![entry]) == add_entry(records, entry),
        remove_entries(records, seq![entry]) == remove_entry(records, entry),
{
    let batch = seq![entry];
    assert(batch.drop_last() =~= Seq::<EntryView>::empty());
    assert(batch.last() == entry);
    assert(add_entries(records, batch.drop_last()) == records);
    assert(remove_entries(records, batch.drop_last()) == records);
}

/// A batch that names an entry twice adds what the entry adds, and so does
/// the entry's batch given a second time.
pub proof fn lemma_add_entries_twice(records: Seq<RecordView>, entry: EntryView)
    ensures
        add_entries(records, seq![entry, entry]) == add_entry(records, entry),
        add_entries(add_entries(records, seq![entry]), seq![entry]) == add_entry(records, entry),
{
    let batch = seq![entry, entry];
    assert(batch.drop_last() =~= seq![entry]);
    assert(batch.last() == entry);
    lemma_batch_of_one(records, entry);
    lemma_batch_of_one(add_entry(records, entry), entry);
    lemma_add_entry_twice(records, entry);
}

/// An entry with a path, added to a domain that has a record, touches that
/// record's paths only: the routes of other prefixes stay in their order,
/// the routes of the entry's prefix go, and the entry's route comes last.
/// The default port, the other records and their order stay.
pub proof fn lemma_add_path_overwrites(
    records: Seq<RecordView>,
    entry: EntryView,
    prefix: Seq<char>,
)
    requires
        has_domain(records, entry.domain),
        entry.path == Some(prefix),
    ensures
        add_entry(records, entry).len() == records.len(),
        forall|i: int|
            0 <= i < records.len() && i != position(records, entry.domain) ==> add_entry(
                records,
                entry,
            )[i] == records[i],
        has_domain(add_entry(records, entry), entry.domain),
        record_of(add_entry(records, entry), entry.domain).port == record_of(
            records,
            entry.domain,
        ).port,
        record_of(add_entry(records, entry), entry.domain).paths.last() == (prefix, entry.port),
        record_of(add_entry(records, entry), entry.domain).paths.drop_last() == without_prefix(
            record_of(records, entry.domain).paths,
            prefix,
        ),
        forall|i: int|
            0 <= i < without_prefix(record_of(records, entry.domain).paths, prefix).len() ==> (
            #[trigger] without_prefix(record_of(records, entry.domain).paths, prefix)[i]).0
                != prefix,
{
    let at = position(records, entry.domain);
    let once = add_entry(records, entry);
    lemma_position_bounds(records, entry.domain);
    assert forall|j: int| 0 <= j < at implies once[j].domain != entry.domain by {
        assert(once[j] == records[j]);
    }
    lemma_position(once, entry.domain, at);
    let kept = without_prefix(records[at].paths, prefix);
    lemma_without_prefix_settled(records[at].paths, prefix);
    assert(kept.push((prefix, entry.port)).drop_last() =~= kept);
}

/// Removing the default port of a record that has paths demotes the record:
/// it stays where it is, with its paths and without a default port.
pub proof fn lemma_remove_default_demotes(records: Seq<RecordView>, entry: EntryView)
    requires
        has_domain(records, entry.domain),
        entry.path is None,
        entry.port == record_of(records, entry.domain).port,
        record_of(records, entry.domain).paths.len() > 0,
    ensures
        remove_entry(records, entry) == records.update(
            position(records, entry.domain),
            RecordView { port: NO_PORT as int, ..record_of(records, entry.domain) },
        ),
        has_domain(remove_entry(records, entry), entry.domain),
        record_of(remove_entry(records, entry), entry.domain).paths == record_of(
            records,
            entry.domain,
        ).paths,
        record_of(remove_entry(records, entry), entry.domain).port == NO_PORT,
{
    let at = position(records, entry.domain);
    let after = remove_entry(records, entry);
    lemma_position_bounds(records, entry.domain);
    assert forall|j: int| 0 <= j < at implies after[j].domain != entry.domain by {
        assert(after[j] == records[j]);
    }
    lemma_position(after, entry.domain, at);
}

/// Removing the only route of a record without a default port removes the
/// record: the domain is gone from the registry, and the other records stay
/// in their order.
pub proof fn lemma_remove_last_route_deletes(
    records: Seq<RecordView>,
    entry: EntryView,
    prefix: Seq<char>,
)
    requires
        distinct_domains(records),
        has_domain(records, entry.domain),
        entry.path == Some(prefix),
        record_of(records, entry.domain).port == NO_PORT,
        forall|i: int|
            0 <= i < record_of(records, entry.domain).paths.len() ==> record_of(
                records,
                entry.domain,
            ).paths[i] == (prefix, entry.port),
    ensures
        remove_entry(records, entry) == records.remove(position(records, entry.domain)),
        !has_domain(remove_entry(records, entry), entry.domain),
{
    let at = position(records, entry.domain);
    let after = remove_entry(records, entry);
    lemma_position_bounds(records, entry.domain);
    lemma_without_route_all(records[at].paths, prefix, entry.port);
    assert(after == records.remove(at));
    assert forall|j: int| 0 <= j < after.len() implies after[j].domain != entry.domain by {
        if j < at {
            assert(after[j] == records[j]);
        } else {
            assert(after[j] == records[j + 1]);
        }
    }
    lemma_position(after, entry.domain, after.len() as int);
}

/// Adding an entry keeps the domains distinct.
pub proof fn lemma_add_entry_distinct(records: Seq<RecordView>, entry: EntryView)
    requires
        distinct_domains(records),
    ensures
        distinct_domains(add_entry(records, entry)),
{
    let at = position(records, entry.domain);
    let after = add_entry(records, entry);
    lemma_position_bounds(records, entry.domain);
    assert forall|i: int, j: int| 0 <= i < j < after.len() implies (#[trigger] after[i]).domain != (
    #[trigger] after[j]).domain by {
        if at < records.len() {
            assert(after[i].domain == records[i].domain);
            assert(after[j].domain == records[j].domain);
        } else if j < records.len() {
            assert(after[i] == records[i]);
            assert(after[j] == records[j]);
        } else {
            assert(after[i] == records[i]);
        }
    }
}

/// Removing an entry keeps the domains distinct.
pub proof fn lemma_remove_entry_distinct(records: Seq<RecordView>, entry: EntryView)
    requires
        distinct_domains(records),
    ensures
        distinct_domains(remove_entry(records, entry)),
{
    let at = position(records, entry.domain);
    let after = remove_entry(records, entry);
    lemma_position_bounds(records, entry.domain);
    if at < records.len() {
        match reduced_record(records[at], entry) {
            Some(record) => {
                assert forall|i: int, j: int| 0 <= i < j < after.len() implies (
                #[trigger] after[i]).domain != (#[trigger] after[j]).domain by {
                    assert(after[i].domain == records[i].domain);
                    assert(after[j].domain == records[j].domain);
                }
            },
            None => {
                assert forall|i: int, j: int| 0 <= i < j < after.len() implies (
                #[trigger] after[i]).domain != (#[trigger] after[j]).domain by {
                    let a = if i < at {
                        i
                    } else {
                        i + 1
                    };
                    let b = if j < at {
                        j
                    } else {
                        j + 1
                    };
                    assert(after[i] == records[a]);
                    assert(after[j] == records[b]);
                }
            },
        }
    }
}

/// Removing an entry never leaves a record that routes nothing: such a
/// record goes from the registry.
pub proof fn lemma_remove_entry_none_empty(records: Seq<RecordView>, entry: EntryView)
    requires
        none_empty(records),
    ensures
        none_empty(remove_entry(records, entry)),
{
    let at = position(records, entry.domain);
    let after = remove_entry(records, entry);
    lemma_position_bounds(records, entry.domain);
    if at < records.len() {
        assert(!records[at].is_empty());
        match reduced_record(records[at], entry) {
            Some(record) => {
                assert forall|i: int| 0 <= i < after.len() implies !(
                #[trigger] after[i]).is_empty() by {
                    if i != at {
                        assert(after[i] == records[i]);
                    }
                }
            },
            None => {
                assert forall|i: int| 0 <= i < after.len() implies !(
                #[trigger] after[i]).is_empty() by {
                    if i < at {
                        assert(after[i] == records[i]);
                    } else {
                        assert(after[i] == records[i + 1]);
                    }
                }
            },
        }
    }
}

/// Adding an entry leaves no record that routes nothing, unless the entry
/// itself sets the default port to `NO_PORT`.
pub proof fn lemma_add_entry_none_empty(records: Seq<RecordView>, entry: EntryView)
    requires
        none_empty(records),
        entry.path is Some || entry.port != NO_PORT,
    ensures
        none_empty(add_entry(records, entry)),
{
    let at = position(records, entry.domain);
    let after = add_entry(records, entry);
    lemma_position_bounds(records, entry.domain);
    assert forall|i: int| 0 <= i < after.len() implies !(#[trigger] after[i]).is_empty() by {
        if i != at {
            assert(after[i] == records[i]);
        }
    }
}

/// A batch of additions keeps the domains distinct.
pub proof fn lemma_add_entries_distinct(records: Seq<RecordView>, entries: Seq<EntryView>)
    requires
        distinct_domains(records),
    ensures
        distinct_domains(add_entries(records, entries)),
    decreases entries.len(),
{
    if entries.len() > 0 {
        lemma_add_entries_distinct(records, entries.drop_last());
        lemma_add_entry_distinct(add_entries(records, entries.drop_last()), entries.last());
    }
}

/// A batch of removals keeps the domains distinct and leaves no record that
/// routes nothing.
pub proof fn lemma_remove_entries_keeps(records: Seq<RecordView>, entries: Seq<EntryView>)
    ensures
        distinct_domains(records) ==> distinct_domains(remove_entries(records, entries)),
        none_empty(records) ==> none_empty(remove_entries(records, entries)),
    decreases entries.len(),
{
    if entries.len() > 0 {
        lemma_remove_entries_keeps(records, entries.drop_last());
        let before = remove_entries(records, entries.drop_last());
        if distinct_domains(records) {
            lemma_remove_entry_distinct(before, entries.last());
        }
        if none_empty(records) {
            lemma_remove_entry_none_empty(before, entries.last());
        }
    }
}

/// Putting a record keeps the domains distinct.
pub proof fn lemma_put_record_distinct(records: Seq<RecordView>, record: RecordView)
    requires
        distinct_domains(records),
    ensures
        distinct_domains(put_record(records, record)),
{
    let at = position(records, record.domain);
    let after = put_record(records, record);
    lemma_position_bounds(records, record.domain);
    assert forall|i: int, j: int| 0 <= i < j < after.len() implies (#[trigger] after[i]).domain != (
    #[trigger] after[j]).domain by {
        if at < records.len() {
            assert(after[i].domain == records[i].domain);
            assert(after[j].domain == records[j].domain);
        } else if j < records.len() {
            assert(after[i] == records[i]);
            assert(after[j] == records[j]);
        } else {
            assert(after[i] == records[i]);
        }
    }
}

/// The registry of any list of records has distinct domains, and a list
/// whose domains are distinct is its own registry: handing the records of
/// a registry out and building a registry from them gives the same registry.
pub proof fn lemma_keyed(records: Seq<RecordView>)
    ensures
        distinct_domains(keyed(records)),
        distinct_domains(records) ==> keyed(records) == records,
    decreases records.len(),
{
    if records.len() > 0 {
        let front = records.drop_last();
        lemma_keyed(front);
        lemma_put_record_distinct(keyed(front), records.last());
        if distinct_domains(records) {
            assert forall|i: int, j: int| 0 <= i < j < front.len() implies (
            #[trigger] front[i]).domain != (#[trigger] front[j]).domain by {
                assert(front[i] == records[i]);
                assert(front[j] == records[j]);
            }
            assert forall|j: int| 0 <= j < front.len() implies front[j].domain
                != records.last().domain by {
                assert(front[j] == records[j]);
                assert(records.last() == records[records.len() - 1]);
            }
            lemma_position(front, records.last().domain, front.len() as int);
            assert(front.push(records.last()) =~= records);
        }
    }
}

} // verus!
