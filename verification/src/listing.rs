//! Listings: what a folder of the bucket holds, under the names to show.
//!
//! The store lists a prefix page by page, with `/` as delimiter: objects
//! with their keys, and common prefixes, the virtual folders. Every object
//! and every folder becomes one entry. The raw name of an entry is the last
//! segment of its key; where the metadata index knows the raw name as an
//! identifier, the entry is encrypted and shown under the file's own name.
//! The entries of all pages are sorted by their shown names without regard
//! to case.

use vstd::prelude::*;
use vstd::seq_lib::to_multiset_insert;
use vstd::string::StringExecFns;
use crate::metadata::MetadataIndex;
use crate::text::bytes_before_or_equal;
use crate::text::bytes_le;
use crate::text::last_segment;
use crate::text::last_segment_of;
use crate::text::lemma_bytes_le_total;
use crate::text::lemma_bytes_le_trans;
use crate::text::lowercase_bytes;
use crate::text::lowercase_utf8;
use crate::text::trim_trailing_slashes;
use crate::text::without_trailing_slashes;
use crate::types::File;

verus! {

/// An object as the store lists it.
#[derive(Debug)]
pub struct RemoteObject {
    /// The key of the object.
    pub key: String,
    /// Size in bytes, where the store tells.
    pub size: Option<i64>,
    /// Time of the last change in seconds since the epoch, where the store
    /// tells.
    pub last_modified: Option<i64>,
}

/// One page of a listing.
#[derive(Debug)]
pub struct ListingPage {
    /// The objects of the page.
    pub objects: Vec<RemoteObject>,
    /// The common prefixes of the page.
    pub common_prefixes: Vec<String>,
    /// Whether the store has more pages, where it tells.
    pub is_truncated: Option<bool>,
    /// The token to ask for the next page with, where the store gave one.
    pub next_token: Option<String>,
}

/// What to do after a page.
#[derive(Debug)]
pub enum PageStep {
    /// Ask for the next page, with this token if there is one.
    Next(Option<String>),
    /// The listing is complete.
    Done,
}

/// Decides whether a listing goes on after a page: it does exactly where
/// the store says that the page was truncated, and then with the token the
/// store gave.
pub fn next_page(is_truncated: Option<bool>, next_token: Option<String>) -> (step: PageStep)
    ensures
        match step {
            PageStep::Next(token) => is_truncated == Some(true) && token == next_token,
            PageStep::Done => is_truncated != Some(true),
        },
{
    match is_truncated {
        Some(true) => PageStep::Next(next_token),
        _ => PageStep::Done,
    }
}

/// The raw name of an object: the last segment of its key.
pub open spec fn raw_object_name(key: Seq<char>) -> Seq<char> {
    last_segment(key)
}

/// The raw name of a folder: the last segment of its prefix without the `/`
/// characters that end it.
pub open spec fn raw_prefix_name(prefix: Seq<char>) -> Seq<char> {
    last_segment(without_trailing_slashes(prefix))
}

/// The name to show for a raw name: the file's own name where the index
/// knows the raw name as an identifier, the raw name otherwise.
pub open spec fn shown_name(pairs: Map<Seq<char>, Seq<char>>, raw: Seq<char>) -> Seq<char> {
    if pairs.dom().contains(raw) {
        pairs[raw]
    } else {
        raw
    }
}

/// Whether `entry` is the entry of an object.
pub open spec fn is_object_entry(
    entry: File,
    pairs: Map<Seq<char>, Seq<char>>,
    object: RemoteObject,
) -> bool {
    &&& entry.key@ == object.key@
    &&& entry.name@ == shown_name(pairs, raw_object_name(object.key@))
    &&& entry.encrypted == pairs.dom().contains(raw_object_name(object.key@))
    &&& entry.size == object.size
    &&& entry.last_modified == object.last_modified
    &&& !entry.is_folder
}

/// Whether `entry` is the entry of a folder.
pub open spec fn is_prefix_entry(
    entry: File,
    pairs: Map<Seq<char>, Seq<char>>,
    prefix: Seq<char>,
) -> bool {
    &&& entry.key@ == prefix
    &&& entry.name@ == shown_name(pairs, raw_prefix_name(prefix))
    &&& entry.encrypted == pairs.dom().contains(raw_prefix_name(prefix))
    &&& entry.size is None
    &&& entry.last_modified is None
    &&& entry.is_folder
}

/// Looks a raw name up in the index: the name to show, and whether the
/// index knows the raw name.
fn resolve_name(index: &MetadataIndex, raw: String) -> (r: (String, bool))
    ensures
        r.0@ == shown_name(index.pairs(), raw@),
        r.1 == index.pairs().dom().contains(raw@),
{
    match index.filename(raw.as_str()) {
        Ok(name) => (name, true),
        Err(_) => (raw, false),
    }
}

/// The entry of an object.
pub fn object_entry(index: &MetadataIndex, object: &RemoteObject) -> (entry: File)
    ensures
        is_object_entry(entry, index.pairs(), *object),
{
    let raw = last_segment_of(object.key.as_str());
    let (name, encrypted) = resolve_name(index, raw);
    File {
        name,
        key: object.key.clone(),
        size: object.size,
        is_folder: false,
        last_modified: object.last_modified,
        encrypted,
    }
}

/// The entry of a folder.
pub fn prefix_entry(index: &MetadataIndex, prefix: &str) -> (entry: File)
    ensures
        is_prefix_entry(entry, index.pairs(), prefix@),
{
    let trimmed = trim_trailing_slashes(prefix);
    let raw = last_segment_of(trimmed.as_str());
    let (name, encrypted) = resolve_name(index, raw);
    File {
        name,
        key: String::from_str(prefix),
        size: None,
        is_folder: true,
        last_modified: None,
        encrypted,
    }
}

/// Whether `entries` are the entries of a page: one for every object in the
/// order of the page, then one for every common prefix.
pub open spec fn are_page_entries(
    entries: Seq<File>,
    pairs: Map<Seq<char>, Seq<char>>,
    page: ListingPage,
) -> bool {
    &&& entries.len() == page.objects@.len() + page.common_prefixes@.len()
    &&& forall|i: int|
        0 <= i < page.objects@.len() ==> is_object_entry(
            #[trigger] entries[i],
            pairs,
            page.objects@[i],
        )
    &&& forall|j: int|
        0 <= j < page.common_prefixes@.len() ==> is_prefix_entry(
            #[trigger] entries[page.objects@.len() + j],
            pairs,
            page.common_prefixes@[j]@,
        )
}

/// Adds the entries of a page to those gathered so far.
pub fn add_page(entries: &mut Vec<File>, index: &MetadataIndex, page: &ListingPage)
    ensures
        final(entries)@.len() == old(entries)@.len() + page.objects@.len()
            + page.common_prefixes@.len(),
        final(entries)@.take(old(entries)@.len() as int) == old(entries)@,
        are_page_entries(final(entries)@.skip(old(entries)@.len() as int), index.pairs(), *page),
{
    let ghost before = entries@;
    let ghost start = entries@.len() as int;
    let mut i: usize = 0;
    while i < page.objects.len()
        invariant
            i <= page.objects@.len(),
            start == before.len(),
            entries@.len() == start + i,
            entries@.take(start) == before,
            forall|k: int|
                0 <= k < i ==> is_object_entry(
                    #[trigger] entries@[start + k],
                    index.pairs(),
                    page.objects@[k],
                ),
        decreases page.objects@.len() - i,
    {
        let entry = object_entry(index, &page.objects[i]);
        let ghost prior = entries@;
        entries.push(entry);
        proof {
            assert(entries@.take(start) =~= prior.take(start));
            assert forall|k: int| 0 <= k < i + 1 implies is_object_entry(
                #[trigger] entries@[start + k],
                index.pairs(),
                page.objects@[k],
            ) by {
                if k < i {
                    assert(entries@[start + k] == prior[start + k]);
                }
            }
        }
        i += 1;
    }
    let ghost objects = page.objects@.len() as int;
    let mut j: usize = 0;
    while j < page.common_prefixes.len()
        invariant
            j <= page.common_prefixes@.len(),
            start == before.len(),
            objects == page.objects@.len(),
            entries@.len() == start + objects + j,
            entries@.take(start) == before,
            forall|k: int|
                0 <= k < objects ==> is_object_entry(
                    #[trigger] entries@[start + k],
                    index.pairs(),
                    page.objects@[k],
                ),
            forall|k: int|
                0 <= k < j ==> is_prefix_entry(
                    #[trigger] entries@[start + objects + k],
                    index.pairs(),
                    page.common_prefixes@[k]@,
                ),
        decreases page.common_prefixes@.len() - j,
    {
        let entry = prefix_entry(index, page.common_prefixes[j].as_str());
        let ghost prior = entries@;
        entries.push(entry);
        proof {
            assert(entries@.take(start) =~= prior.take(start));
            assert forall|k: int| 0 <= k < objects implies is_object_entry(
                #[trigger] entries@[start + k],
                index.pairs(),
                page.objects@[k],
            ) by {
                assert(entries@[start + k] == prior[start + k]);
            }
            assert forall|k: int| 0 <= k < j + 1 implies is_prefix_entry(
                #[trigger] entries@[start + objects + k],
                index.pairs(),
                page.common_prefixes@[k]@,
            ) by {
                if k < j {
                    assert(entries@[start + objects + k] == prior[start + objects + k]);
                }
            }
        }
        j += 1;
    }
    proof {
        let added = entries@.skip(start);
        assert forall|k: int| 0 <= k < objects implies is_object_entry(
            #[trigger] added[k],
            index.pairs(),
            page.objects@[k],
        ) by {
            assert(added[k] == entries@[start + k]);
        }
        assert forall|k: int| 0 <= k < page.common_prefixes@.len() implies is_prefix_entry(
            #[trigger] added[objects + k],
            index.pairs(),
            page.common_prefixes@[k]@,
        ) by {
            assert(added[objects + k] == entries@[start + objects + k]);
        }
    }
}

/// The key that an entry is sorted by: the bytes of its shown name in lower
/// case.
pub open spec fn sort_key(entry: File) -> Seq<u8> {
    lowercase_utf8(entry.name@)
}

/// Where an entry goes into a sorted listing: before the first entry that
/// it comes before or equals, or at the end.
pub open spec fn insert_position(sorted: Seq<File>, entry: File) -> nat
    decreases sorted.len(),
{
    if sorted.len() == 0 || bytes_le(sort_key(entry), sort_key(sorted[0])) {
        0
    } else {
        1 + insert_position(sorted.skip(1), entry)
    }
}

/// A listing sorted by shown name without regard to case; entries with the
/// same key keep the order they came in.
pub open spec fn sorted_by_name(entries: Seq<File>) -> Seq<File>
    decreases entries.len(),
{
    if entries.len() == 0 {
        Seq::empty()
    } else {
        let rest = sorted_by_name(entries.skip(1));
        rest.insert(insert_position(rest, entries[0]) as int, entries[0])
    }
}

/// Whether every entry comes before or equals every later one.
pub open spec fn is_sorted_by_name(entries: Seq<File>) -> bool {
    forall|i: int, j: int|
        0 <= i < j < entries.len() ==> bytes_le(
            sort_key(#[trigger] entries[i]),
            sort_key(#[trigger] entries[j]),
        )
}

/// The insert position lies after every entry that comes strictly before
/// the new one, and before an entry that the new one comes before or
/// equals.
pub proof fn lemma_insert_position(sorted: Seq<File>, entry: File)
    ensures
        insert_position(sorted, entry) <= sorted.len(),
        forall|i: int|
            0 <= i < insert_position(sorted, entry) ==> !bytes_le(
                sort_key(entry),
                sort_key(#[trigger] sorted[i]),
            ),
        insert_position(sorted, entry) < sorted.len() ==> bytes_le(
            sort_key(entry),
            sort_key(sorted[insert_position(sorted, entry) as int]),
        ),
    decreases sorted.len(),
{
    if sorted.len() > 0 && !bytes_le(sort_key(entry), sort_key(sorted[0])) {
        let rest = sorted.skip(1);
        lemma_insert_position(rest, entry);
        let p = insert_position(sorted, entry);
        assert forall|i: int| 0 <= i < p implies !bytes_le(
            sort_key(entry),
            sort_key(#[trigger] sorted[i]),
        ) by {
            if i > 0 {
                assert(sorted[i] == rest[i - 1]);
            }
        }
        if p < sorted.len() {
            assert(sorted[p as int] == rest[p - 1]);
        }
    }
}

/// Sorting keeps every entry, each as often as it came, and puts them in
/// order.
pub proof fn lemma_sorted_by_name(entries: Seq<File>)
    ensures
        sorted_by_name(entries).len() == entries.len(),
        sorted_by_name(entries).to_multiset() == entries.to_multiset(),
        is_sorted_by_name(sorted_by_name(entries)),
    decreases entries.len(),
{
    if entries.len() == 0 {
        assert(sorted_by_name(entries) =~= entries);
    } else {
        let first = entries[0];
        let tail = entries.skip(1);
        let rest = sorted_by_name(tail);
        lemma_sorted_by_name(tail);
        lemma_insert_position(rest, first);
        let p = insert_position(rest, first) as int;
        let out = rest.insert(p, first);
        to_multiset_insert(rest, p, first);
        assert(out.to_multiset() == rest.to_multiset().insert(first));
        assert(entries =~= seq![first] + tail);
        assert(entries.to_multiset() =~= tail.to_multiset().insert(first)) by {
            to_multiset_insert(tail, 0, first);
            assert(tail.insert(0, first) =~= entries);
        }
        assert forall|i: int, j: int| 0 <= i < j < out.len() implies bytes_le(
            sort_key(#[trigger] out[i]),
            sort_key(#[trigger] out[j]),
        ) by {
            if j < p {
                assert(out[i] == rest[i] && out[j] == rest[j]);
            } else if j == p {
                assert(out[i] == rest[i]);
                lemma_bytes_le_total(sort_key(first), sort_key(rest[i]));
            } else if i < p {
                assert(out[i] == rest[i] && out[j] == rest[j - 1]);
            } else if i == p {
                assert(out[j] == rest[j - 1]);
                if j - 1 > p {
                    lemma_bytes_le_trans(sort_key(first), sort_key(rest[p]), sort_key(rest[j - 1]));
                }
            } else {
                assert(out[i] == rest[i - 1] && out[j] == rest[j - 1]);
            }
        }
    }
}

/// Sorts a listing by shown name without regard to case. Entries with the
/// same key keep their order.
pub fn sort_listing(entries: Vec<File>) -> (out: Vec<File>)
    ensures
        out@ == sorted_by_name(entries@),
{
    let ghost all = entries@;
    let mut entries = entries;
    let mut out: Vec<File> = Vec::new();
    let mut keys: Vec<Vec<u8>> = Vec::new();
    proof {
        assert(all.skip(all.len() as int) =~= Seq::<File>::empty());
    }
    while entries.len() > 0
        invariant
            entries@ == all.take(entries@.len() as int),
            entries@.len() <= all.len(),
            out@ == sorted_by_name(all.skip(entries@.len() as int)),
            keys@.len() == out@.len(),
            forall|i: int| 0 <= i < out@.len() ==> (#[trigger] keys@[i])@ == sort_key(out@[i]),
        decreases entries@.len(),
    {
        let ghost remaining = entries@.len() as int;
        let entry = entries.pop().unwrap();
        let key = lowercase_bytes(entry.name.as_str());
        let mut p: usize = 0;
        proof {
            assert(out@.skip(0) =~= out@);
        }
        while p < out.len() && !bytes_before_or_equal(key.as_slice(), keys[p].as_slice())
            invariant
                p <= out@.len(),
                keys@.len() == out@.len(),
                key@ == sort_key(entry),
                forall|i: int| 0 <= i < out@.len() ==> (#[trigger] keys@[i])@ == sort_key(out@[i]),
                insert_position(out@, entry) == p + insert_position(out@.skip(p as int), entry),
            decreases out@.len() - p,
        {
            proof {
                assert(out@.skip(p as int)[0] == out@[p as int]);
                assert(out@.skip(p as int).skip(1) =~= out@.skip(p + 1));
            }
            p += 1;
        }
        proof {
            if p < out@.len() {
                assert(out@.skip(p as int)[0] == out@[p as int]);
            }
            assert(insert_position(out@, entry) == p);
            assert(entry == all[remaining - 1]);
            assert(all.skip(remaining - 1)[0] == entry);
            assert(all.skip(remaining - 1).skip(1) =~= all.skip(remaining));
            assert(entries@ =~= all.take(remaining - 1));
        }
        let ghost prior_keys = keys@;
        let ghost prior_out = out@;
        out.insert(p, entry);
        keys.insert(p, key);
        proof {
            assert forall|i: int| 0 <= i < out@.len() implies (#[trigger] keys@[i])@ == sort_key(
                out@[i],
            ) by {
                if i < p {
                    assert(keys@[i] == prior_keys[i] && out@[i] == prior_out[i]);
                } else if i > p {
                    assert(keys@[i] == prior_keys[i - 1] && out@[i] == prior_out[i - 1]);
                }
            }
        }
    }
    proof {
        assert(all.skip(0) =~= all);
    }
    out
}

/// Number of entries that a page gives.
pub open spec fn page_len(page: ListingPage) -> nat {
    page.objects@.len() + page.common_prefixes@.len()
}

/// Whether `entries` are the entries of `pages`, page after page.
pub open spec fn are_merged_entries(
    entries: Seq<File>,
    pairs: Map<Seq<char>, Seq<char>>,
    pages: Seq<ListingPage>,
) -> bool
    decreases pages.len(),
{
    if pages.len() == 0 {
        entries.len() == 0
    } else {
        let cut = entries.len() - page_len(pages.last());
        &&& cut >= 0
        &&& are_merged_entries(entries.take(cut), pairs, pages.drop_last())
        &&& are_page_entries(entries.skip(cut), pairs, pages.last())
    }
}

/// Number of entries that a sequence of pages gives.
pub open spec fn entry_count(pages: Seq<ListingPage>) -> nat
    decreases pages.len(),
{
    if pages.len() == 0 {
        0
    } else {
        entry_count(pages.drop_last()) + page_len(pages.last())
    }
}

/// Merged entries are one for every object and every common prefix of every
/// page.
pub proof fn lemma_merged_entries_len(
    entries: Seq<File>,
    pairs: Map<Seq<char>, Seq<char>>,
    pages: Seq<ListingPage>,
)
    requires
        are_merged_entries(entries, pairs, pages),
    ensures
        entries.len() == entry_count(pages),
    decreases pages.len(),
{
    if pages.len() > 0 {
        let cut = entries.len() - page_len(pages.last());
        lemma_merged_entries_len(entries.take(cut), pairs, pages.drop_last());
    }
}

/// The listing of a prefix from its pages: the entries of every page, all
/// pages merged, sorted by shown name without regard to case.
pub fn list_dir(index: &MetadataIndex, pages: &Vec<ListingPage>) -> (out: Vec<File>)
    ensures
        exists|merged: Seq<File>| #[trigger]
            are_merged_entries(merged, index.pairs(), pages@) && out@ == sorted_by_name(merged),
        is_sorted_by_name(out@),
        out@.len() == entry_count(pages@),
{
    let mut entries: Vec<File> = Vec::new();
    let mut i: usize = 0;
    while i < pages.len()
        invariant
            i <= pages@.len(),
            are_merged_entries(entries@, index.pairs(), pages@.take(i as int)),
        decreases pages@.len() - i,
    {
        let ghost before = entries@;
        add_page(&mut entries, index, &pages[i]);
        proof {
            let done = pages@.take(i + 1);
            assert(done.drop_last() =~= pages@.take(i as int));
            assert(done.last() == pages@[i as int]);
            assert(entries@.len() - page_len(done.last()) == before.len());
        }
        i += 1;
    }
    proof {
        assert(pages@.take(pages@.len() as int) =~= pages@);
        lemma_sorted_by_name(entries@);
        lemma_merged_entries_len(entries@, index.pairs(), pages@);
    }
    sort_listing(entries)
}

} // verus!
