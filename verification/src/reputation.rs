//! Updates of public reputation and routing inputs: which lists are fetched, and what is recorded
//! of them. Only public lists are read; nothing of the logs is handed out.

use crate::digest::{digest, digest_text};
use vstd::prelude::*;
use vstd::string::*;

verus! {

broadcast use vstd::string::group_string_axioms;

pub const UPDATE_REPORT_KIND: &'static str = "PUBLIC_REPUTATION_UPDATE";

pub const UPDATE_SAFETY_NOTE: &'static str =
    "Public threat-intelligence downloads only. No customer logs, findings, observed IP addresses, request values, or other customer data were transmitted.";

/// A public list.
#[derive(Clone, Copy, Debug, PartialEq, Eq, Structural)]
pub enum PublicList {
    SpamhausDrop,
    FireholLevel1,
    CinsArmy,
    BlocklistDe,
    IpToAsn,
}

impl PublicList {
    pub open spec fn name_of(self) -> Seq<char> {
        match self {
            PublicList::SpamhausDrop => "spamhaus-drop"@,
            PublicList::FireholLevel1 => "firehol-level1"@,
            PublicList::CinsArmy => "cins-army"@,
            PublicList::BlocklistDe => "blocklist.de"@,
            PublicList::IpToAsn => "iptoasn-v4"@,
        }
    }

    pub fn name(self) -> (r: &'static str)
        ensures
            r@ == self.name_of(),
    {
        match self {
            PublicList::SpamhausDrop => "spamhaus-drop",
            PublicList::FireholLevel1 => "firehol-level1",
            PublicList::CinsArmy => "cins-army",
            PublicList::BlocklistDe => "blocklist.de",
            PublicList::IpToAsn => "iptoasn-v4",
        }
    }

    /// The name under which a download is kept until it is read.
    pub fn download_name(self) -> (r: &'static str)
        ensures
            r@ == match self {
                PublicList::SpamhausDrop => "spamhaus-drop.txt"@,
                PublicList::FireholLevel1 => "firehol-level1.netset"@,
                PublicList::CinsArmy => "cins.txt"@,
                PublicList::BlocklistDe => "blocklist-de.txt"@,
                PublicList::IpToAsn => "ip2asn-v4.tsv.gz"@,
            },
    {
        match self {
            PublicList::SpamhausDrop => "spamhaus-drop.txt",
            PublicList::FireholLevel1 => "firehol-level1.netset",
            PublicList::CinsArmy => "cins.txt",
            PublicList::BlocklistDe => "blocklist-de.txt",
            PublicList::IpToAsn => "ip2asn-v4.tsv.gz",
        }
    }
}

/// Nothing to update was selected.
#[derive(Clone, Copy, Debug, PartialEq, Eq, Structural)]
pub struct NothingSelected;

impl NothingSelected {
    pub fn message(&self) -> (r: &'static str)
        ensures
            r@ == "at least one of --reputation or --asn must be true"@,
    {
        "at least one of --reputation or --asn must be true"
    }
}

/// The lists that an update fetches, in their order.
pub open spec fn selected_lists(reputation: bool, asn: bool) -> Seq<PublicList> {
    (if reputation {
        seq![
            PublicList::SpamhausDrop,
            PublicList::FireholLevel1,
            PublicList::CinsArmy,
            PublicList::BlocklistDe,
        ]
    } else {
        seq![]
    }) + (if asn {
        seq![PublicList::IpToAsn]
    } else {
        seq![]
    })
}

pub fn lists_to_update(reputation: bool, asn: bool) -> (r: Result<Vec<PublicList>, NothingSelected>)
    ensures
        match r {
            Ok(lists) => (reputation || asn) && lists@ == selected_lists(reputation, asn),
            Err(_) => !reputation && !asn,
        },
{
    if !reputation && !asn {
        return Err(NothingSelected);
    }
    let mut lists: Vec<PublicList> = Vec::new();
    if reputation {
        lists.push(PublicList::SpamhausDrop);
        lists.push(PublicList::FireholLevel1);
        lists.push(PublicList::CinsArmy);
        lists.push(PublicList::BlocklistDe);
    }
    if asn {
        lists.push(PublicList::IpToAsn);
    }
    assert(lists@ =~= selected_lists(reputation, asn));
    Ok(lists)
}

/// A list that was fetched, and how many records it holds.
#[derive(Clone, Debug)]
pub struct FetchedList {
    pub list: PublicList,
    pub url: String,
    pub records: usize,
}

#[derive(Clone, Debug)]
pub struct SourceEntry {
    pub name: String,
    pub url: String,
    pub records: usize,
}

#[derive(Clone, Debug)]
pub struct OutputEntry {
    pub path: String,
    pub sha256: String,
    pub records: usize,
}

/// What is recorded of an update.
#[derive(Clone, Debug)]
pub struct UpdateRecord {
    pub report_kind: String,
    pub generated_at: String,
    pub safety_note: String,
    pub sources: Vec<SourceEntry>,
    pub outputs: Vec<OutputEntry>,
}

/// The records of the lists of one kind.
pub open spec fn records_in(lists: Seq<FetchedList>, asn: bool) -> nat
    decreases lists.len(),
{
    if lists.len() == 0 {
        0
    } else {
        records_in(lists.drop_last(), asn) + if (lists.last().list is IpToAsn) == asn {
            lists.last().records as nat
        } else {
            0
        }
    }
}

/// Whether an entry says of a list what was fetched.
pub open spec fn is_source_entry(entry: SourceEntry, list: FetchedList) -> bool {
    entry.name@ == list.list.name_of() && entry.url@ == list.url@ && entry.records == list.records
}

/// Whether an entry says of an output what was written.
pub open spec fn is_output_entry(
    entry: OutputEntry,
    path: Seq<char>,
    contents: Seq<u8>,
    records: nat,
) -> bool {
    entry.path@ == path && entry.sha256@ == digest_text(contents) && entry.records == records
}

/// The files that an update writes, in their order, with the kind of list that each holds.
pub open spec fn written<'a>(
    reputation: Option<(&'a str, &'a [u8])>,
    asn: Option<(&'a str, &'a [u8])>,
) -> Seq<(Seq<char>, Seq<u8>, bool)> {
    (match reputation {
        Some(file) => seq![(file.0@, file.1@, false)],
        None => seq![],
    }) + (match asn {
        Some(file) => seq![(file.0@, file.1@, true)],
        None => seq![],
    })
}

fn count_records(lists: &Vec<FetchedList>, asn: bool) -> (r: Option<usize>)
    ensures
        match r {
            Some(n) => n == records_in(lists@, asn),
            None => records_in(lists@, asn) > usize::MAX,
        },
{
    let mut total: usize = 0;
    let mut i: usize = 0;
    while i < lists.len()
        invariant
            i <= lists@.len(),
            total == records_in(lists@.take(i as int), asn),
        decreases lists.len() - i,
    {
        proof {
            assert(lists@.take(i + 1).drop_last() =~= lists@.take(i as int));
            lemma_records_grow(lists@, asn, i + 1);
        }
        let holds_routes = match lists[i].list {
            PublicList::IpToAsn => true,
            _ => false,
        };
        if holds_routes == asn {
            match total.checked_add(lists[i].records) {
                Some(n) => {
                    total = n;
                },
                None => {
                    return None;
                },
            }
        }
        i = i + 1;
    }
    assert(lists@.take(i as int) =~= lists@);
    Some(total)
}

proof fn lemma_records_grow(lists: Seq<FetchedList>, asn: bool, n: int)
    requires
        0 <= n <= lists.len(),
    ensures
        records_in(lists.take(n), asn) <= records_in(lists, asn),
    decreases lists.len() - n,
{
    if n == lists.len() {
        assert(lists.take(n) =~= lists);
    } else {
        lemma_records_grow(lists, asn, n + 1);
        assert(lists.take(n + 1).drop_last() =~= lists.take(n));
    }
}

fn output_entry(file: (&str, &[u8]), records: usize) -> (r: OutputEntry)
    ensures
        is_output_entry(r, file.0@, file.1@, records as nat),
{
    OutputEntry { path: file.0.to_owned(), sha256: digest(file.1), records }
}

/// Records an update: the lists that were fetched, and the files that were written of them. The
/// reputation lists go to one file, the routes to the other. None where the records are more than
/// can be counted.
pub fn record_update(
    lists: &Vec<FetchedList>,
    reputation: Option<(&str, &[u8])>,
    asn: Option<(&str, &[u8])>,
    generated_at: String,
) -> (r: Option<UpdateRecord>)
    ensures
        match r {
            Some(update) => {
                &&& update.report_kind@ == UPDATE_REPORT_KIND@
                &&& update.safety_note@ == UPDATE_SAFETY_NOTE@
                &&& update.generated_at == generated_at
                &&& update.sources@.len() == lists@.len()
                &&& forall|i: int|
                    0 <= i < lists@.len() ==> is_source_entry(
                        #[trigger] update.sources@[i],
                        lists@[i],
                    )
                &&& update.outputs@.len() == written(reputation, asn).len()
                &&& forall|i: int|
                    0 <= i < update.outputs@.len() ==> is_output_entry(
                        #[trigger] update.outputs@[i],
                        written(reputation, asn)[i].0,
                        written(reputation, asn)[i].1,
                        records_in(lists@, written(reputation, asn)[i].2),
                    )
            },
            None => records_in(lists@, false) > usize::MAX || records_in(lists@, true)
                > usize::MAX,
        },
{
    let (addresses, routes) = match (count_records(lists, false), count_records(lists, true)) {
        (Some(a), Some(b)) => (a, b),
        _ => {
            return None;
        },
    };
    let mut sources: Vec<SourceEntry> = Vec::new();
    let mut i: usize = 0;
    while i < lists.len()
        invariant
            i <= lists@.len(),
            sources@.len() == i,
            forall|k: int| 0 <= k < i ==> is_source_entry(#[trigger] sources@[k], lists@[k]),
        decreases lists.len() - i,
    {
        sources.push(
            SourceEntry {
                name: lists[i].list.name().to_owned(),
                url: lists[i].url.clone(),
                records: lists[i].records,
            },
        );
        i = i + 1;
    }
    let mut outputs: Vec<OutputEntry> = Vec::new();
    if let Some(file) = reputation {
        outputs.push(output_entry(file, addresses));
    }
    if let Some(file) = asn {
        outputs.push(output_entry(file, routes));
    }
    Some(
        UpdateRecord {
            report_kind: UPDATE_REPORT_KIND.to_owned(),
            generated_at,
            safety_note: UPDATE_SAFETY_NOTE.to_owned(),
            sources,
            outputs,
        },
    )
}

/// The two files together hold every record that was fetched.
pub proof fn every_fetched_record_is_written(lists: Seq<FetchedList>)
    ensures
        records_in(lists, false) + records_in(lists, true) == all_records(lists),
    decreases lists.len(),
{
    if lists.len() > 0 {
        every_fetched_record_is_written(lists.drop_last());
    }
}

/// The records of all lists.
pub open spec fn all_records(lists: Seq<FetchedList>) -> nat
    decreases lists.len(),
{
    if lists.len() == 0 {
        0
    } else {
        all_records(lists.drop_last()) + lists.last().records as nat
    }
}

} // verus!
