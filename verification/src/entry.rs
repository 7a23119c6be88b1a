//! Entries of the form `domain[/path]:port`, as given on the command line.

use vstd::prelude::*;
use vstd::string::*;
use crate::error::ErrorView;
use crate::text::{find, parse_i32, trim};

verus! {

/// What one entry asks for: a domain, a port and, where the entry names a
/// path, the path prefix that the port serves.
#[derive(Debug, Clone, PartialEq, Eq)]
pub struct ProxyEntry {
    pub domain: String,
    pub port: i32,
    /// The path prefix, with its leading `/`.
    pub path: Option<String>,
}

/// An entry as a mathematical value.
pub struct EntryView {
    pub domain: Seq<char>,
    pub port: int,
    pub path: Option<Seq<char>>,
}

impl View for ProxyEntry {
    type V = EntryView;

    open spec fn view(&self) -> EntryView {
        EntryView {
            domain: self.domain@,
            port: self.port as int,
            path: match self.path {
                Some(prefix) => Some(prefix@),
                None => None,
            },
        }
    }
}

/// What the text of an entry means. The text is split once at its first `:`;
/// what follows, trimmed, is the port and must write a 32-bit integer. What
/// precedes is split once at its first `/`: the domain and, where there is a
/// `/`, the rest of the path, which gets its `/` back to form the prefix.
pub open spec fn parse_entry(entry: Seq<char>) -> Result<EntryView, ErrorView> {
    let colon = find(entry, ':');
    if colon == entry.len() {
        Err(ErrorView::MissingPort { entry })
    } else {
        let target = entry.subrange(0, colon);
        match parse_i32(trim(entry.subrange(colon + 1, entry.len() as int))) {
            None => Err(ErrorView::InvalidPort { entry }),
            Some(port) => {
                let slash = find(target, '/');
                if slash == target.len() {
                    Ok(EntryView { domain: target, port, path: None })
                } else {
                    Ok(
                        EntryView {
                            domain: target.subrange(0, slash),
                            port,
                            path: Some("/"@ + target.subrange(slash + 1, target.len() as int)),
                        },
                    )
                }
            },
        }
    }
}

/// What a batch of entries means: every entry's meaning in order, or the
/// error of the first entry that has none.
pub open spec fn parse_entries(entries: Seq<Seq<char>>) -> Result<Seq<EntryView>, ErrorView>
    decreases entries.len(),
{
    if entries.len() == 0 {
        Ok(Seq::empty())
    } else {
        match parse_entries(entries.drop_last()) {
            Err(e) => Err(e),
            Ok(parsed) => match parse_entry(entries.last()) {
                Err(e) => Err(e),
                Ok(entry) => Ok(parsed.push(entry)),
            },
        }
    }
}

/// The texts of a list of strings.
pub open spec fn texts(strings: Seq<String>) -> Seq<Seq<char>> {
    Seq::new(strings.len(), |i: int| strings[i]@)
}

/// The meanings of a list of entries.
pub open spec fn entry_views(entries: Seq<ProxyEntry>) -> Seq<EntryView> {
    Seq::new(entries.len(), |i: int| entries[i]@)
}

/// Once a batch has failed, every longer batch fails with the same error.
pub proof fn lemma_parse_entries_fails(entries: Seq<Seq<char>>, k: int)
    requires
        0 <= k <= entries.len(),
        parse_entries(entries.take(k)) is Err,
    ensures
        parse_entries(entries) == parse_entries(entries.take(k)),
    decreases entries.len(),
{
    if k == entries.len() {
        assert(entries.take(k) =~= entries);
    } else {
        assert(entries.drop_last().take(k) =~= entries.take(k));
        lemma_parse_entries_fails(entries.drop_last(), k);
    }
}

} // verus!
