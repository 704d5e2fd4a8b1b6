//! The metadata index: which stored identifier holds which file.
//!
//! Encrypted objects are stored under random identifiers. The index binds
//! every identifier to the file's own name. Two files of one name are two
//! identifiers with the same name; a pair, once recorded, stays. The index
//! is kept as a JSON object of strings, sealed like any other object, under
//! a fixed key at the root of the bucket.

use vstd::prelude::*;
use std::collections::BTreeMap;
use vstd::slice::slice_to_vec;
use vstd::string::StringExecFns;
use vstd::string::StringSliceAdditionalSpecFns;
use vstd::string::is_ascii;
use vstd::string::is_ascii_spec_bytes;
use crate::crypto::CryptoError;
use crate::crypto::argon2id_key;
use crate::crypto::decrypt;
use crate::crypto::encrypt;
use crate::crypto::lemma_opened_object_has_valid_len;
use crate::crypto::open_object;
use crate::crypto::sealed_len;
use crate::crypto::valid_object_len;
use crate::text::bytes_before_or_equal;
use crate::text::bytes_le;
use crate::text::lemma_bytes_le_refl;
use crate::text::lemma_bytes_le_total;
use crate::text::lemma_bytes_le_trans;

verus! {

/// `serde_json::Error`: why JSON text was not read or written. It is
/// carried through and never looked into.
#[verifier::external_type_specification]
#[verifier::external_body]
pub struct ExJsonError(serde_json::Error);

/// The pairs that JSON text is read as: the members of its one object, name
/// to value, a later member replacing an earlier one of the same name.
/// `None` where the text is not a JSON object of strings.
pub uninterp spec fn parsed_index(data: Seq<u8>) -> Option<Map<Seq<char>, Seq<char>>>;

/// Whether no identifier stands twice in a list of pairs.
pub open spec fn distinct_ids(entries: Seq<(String, String)>) -> bool {
    forall|i: int, j: int|
        0 <= i < j < entries.len() ==> (#[trigger] entries[i]).0@ != (#[trigger] entries[j]).0@
}

/// The map that a list of pairs stands for: identifier to file name.
pub open spec fn pairs_of(entries: Seq<(String, String)>) -> Map<Seq<char>, Seq<char>>
    decreases entries.len(),
{
    if entries.len() == 0 {
        Map::empty()
    } else {
        pairs_of(entries.drop_last()).insert(entries.last().0@, entries.last().1@)
    }
}

/// Whether some identifier holds `name`.
pub open spec fn has_name(pairs: Map<Seq<char>, Seq<char>>, name: Seq<char>) -> bool {
    exists|id: Seq<char>| pairs.dom().contains(id) && #[trigger] pairs[id] == name
}

/// Whether `id` holds `name` and comes first in byte order among the
/// identifiers that do.
pub open spec fn is_first_id_of(
    pairs: Map<Seq<char>, Seq<char>>,
    name: Seq<char>,
    id: Seq<char>,
) -> bool {
    &&& pairs.dom().contains(id)
    &&& pairs[id] == name
    &&& forall|other: Seq<char>|
        pairs.dom().contains(other) && #[trigger] pairs[other] == name ==> bytes_le(
            id_bytes(id),
            id_bytes(other),
        )
}

/// The pairs after a file is recorded: an identifier that is already bound
/// keeps its name, a new one is bound to `name`. Every other pair stays as
/// it is, whatever its name.
pub open spec fn recorded(
    pairs: Map<Seq<char>, Seq<char>>,
    id: Seq<char>,
    name: Seq<char>,
) -> Map<Seq<char>, Seq<char>> {
    if pairs.dom().contains(id) {
        pairs
    } else {
        pairs.insert(id, name)
    }
}

/// The pairs after several files are recorded, one after the other.
pub open spec fn recorded_all(
    pairs: Map<Seq<char>, Seq<char>>,
    later: Seq<(Seq<char>, Seq<char>)>,
) -> Map<Seq<char>, Seq<char>>
    decreases later.len(),
{
    if later.len() == 0 {
        pairs
    } else {
        recorded(recorded_all(pairs, later.drop_last()), later.last().0, later.last().1)
    }
}

/// After a file is recorded under a new identifier, the index binds that
/// identifier to the file's name and holds every earlier pair as before,
/// also those with the same name; nothing else is added.
pub proof fn lemma_recorded_new_id(pairs: Map<Seq<char>, Seq<char>>, id: Seq<char>, name: Seq<char>)
    requires
        !pairs.dom().contains(id),
    ensures
        recorded(pairs, id, name).dom().contains(id),
        recorded(pairs, id, name)[id] == name,
        recorded(pairs, id, name).dom() == pairs.dom().insert(id),
        forall|other: Seq<char>|
            pairs.dom().contains(other) ==> #[trigger] recorded(pairs, id, name)[other]
                == pairs[other],
{
}

/// Recording never takes a pair away or changes it: whatever is recorded
/// later, an identifier of the index keeps its name.
pub proof fn lemma_recorded_all_keeps(
    pairs: Map<Seq<char>, Seq<char>>,
    later: Seq<(Seq<char>, Seq<char>)>,
    id: Seq<char>,
)
    requires
        pairs.dom().contains(id),
    ensures
        recorded_all(pairs, later).dom().contains(id),
        recorded_all(pairs, later)[id] == pairs[id],
    decreases later.len(),
{
    if later.len() > 0 {
        lemma_recorded_all_keeps(pairs, later.drop_last(), id);
    }
}

/// In a list without a repeated identifier, the map binds exactly the
/// identifiers of the list, each to the name beside it.
pub proof fn lemma_pairs_of(entries: Seq<(String, String)>)
    requires
        distinct_ids(entries),
    ensures
        forall|i: int|
            0 <= i < entries.len() ==> pairs_of(entries).dom().contains(
                (#[trigger] entries[i]).0@,
            ) && pairs_of(entries)[entries[i].0@] == entries[i].1@,
        forall|id: Seq<char>|
            pairs_of(entries).dom().contains(id) ==> exists|i: int|
                0 <= i < entries.len() && (#[trigger] entries[i]).0@ == id,
    decreases entries.len(),
{
    if entries.len() > 0 {
        let rest = entries.drop_last();
        assert(distinct_ids(rest)) by {
            assert forall|i: int, j: int| 0 <= i < j < rest.len() implies (#[trigger] rest[i]).0@
                != (#[trigger] rest[j]).0@ by {
                assert(rest[i] == entries[i] && rest[j] == entries[j]);
            }
        }
        lemma_pairs_of(rest);
        let last = entries.last();
        assert forall|i: int| 0 <= i < entries.len() implies pairs_of(entries).dom().contains(
            (#[trigger] entries[i]).0@,
        ) && pairs_of(entries)[entries[i].0@] == entries[i].1@ by {
            if i < entries.len() - 1 {
                assert(rest[i] == entries[i]);
                assert(entries[i].0@ != entries[entries.len() - 1].0@);
            }
        }
        assert forall|id: Seq<char>| pairs_of(entries).dom().contains(id) implies exists|i: int|
            0 <= i < entries.len() && (#[trigger] entries[i]).0@ == id by {
            if id == last.0@ {
                assert(entries[entries.len() - 1].0@ == id);
            } else {
                assert(pairs_of(rest).dom().contains(id));
                let i = choose|i: int| 0 <= i < rest.len() && (#[trigger] rest[i]).0@ == id;
                assert(entries[i] == rest[i]);
            }
        }
    }
}

/// `serde_json::from_slice` into a `BTreeMap` of strings, handed out as a
/// list of its pairs.
///
/// Trusted: whether the text is accepted and which pairs it gives is a
/// function of the text; a map holds no name twice.
#[verifier::external_body]
fn json_to_pairs(data: &[u8]) -> (r: Result<Vec<(String, String)>, serde_json::Error>)
    ensures
        r is Ok <==> parsed_index(data@) is Some,
        r matches Ok(entries) ==> distinct_ids(entries@) && parsed_index(data@) == Some(
            pairs_of(entries@),
        ),
{
    match serde_json::from_slice::<BTreeMap<String, String>>(data) {
        Ok(map) => Ok(map.into_iter().collect()),
        Err(e) => Err(e),
    }
}

/// `serde_json::to_string` of a `BTreeMap` of strings, gathered from a list
/// of pairs, as bytes.
///
/// Trusted: writing strings into memory does not fail, and the text that is
/// written is read back as the same pairs.
#[verifier::external_body]
fn pairs_to_json(entries: &Vec<(String, String)>) -> (r: Result<Vec<u8>, serde_json::Error>)
    requires
        distinct_ids(entries@),
    ensures
        r is Ok,
        r matches Ok(text) ==> parsed_index(text@) == Some(pairs_of(entries@)),
{
    let map: BTreeMap<&str, &str> =
        entries.iter().map(|pair| (pair.0.as_str(), pair.1.as_str())).collect();
    match serde_json::to_string(&map) {
        Ok(text) => Ok(text.into_bytes()),
        Err(e) => Err(e),
    }
}

/// Key of the object that holds the sealed index, at the root of the bucket.
pub const METADATA_KEY: &'static str = "CRABDROP_METADATA_DO_NOT_DELETE";

/// Salt under which the index is sealed: the bytes of [`METADATA_KEY`].
pub open spec fn metadata_salt() -> Seq<u8> {
    METADATA_KEY.spec_bytes()
}

/// The index salt is 31 bytes long, so the key derivation accepts it.
pub proof fn lemma_metadata_salt_len()
    ensures
        metadata_salt().len() == 31,
{
    reveal_strlit("CRABDROP_METADATA_DO_NOT_DELETE");
    assert(METADATA_KEY@.len() == 31);
    assert(is_ascii(METADATA_KEY));
    is_ascii_spec_bytes(METADATA_KEY);
}

/// Why the index could not be read or written.
#[derive(Clone, Copy, Debug, PartialEq, Eq, Structural)]
pub enum MetadataError {
    /// The text is not a JSON object of strings.
    Parse,
    /// The identifier is not in the index.
    Missing,
    /// The index could not be written as JSON.
    Serialize,
    /// The store could not tell whether the index object exists.
    Unavailable,
    /// The sealed index could not be opened, or the index could not be
    /// sealed.
    Crypto(CryptoError),
}

impl MetadataError {
    /// A short description for display.
    pub fn message(&self) -> (text: &'static str)
        ensures
            text@.len() > 0,
    {
        match self {
            MetadataError::Parse => {
                proof {
                    reveal_strlit("invalid metadata");
                }
                "invalid metadata"
            },
            MetadataError::Missing => {
                proof {
                    reveal_strlit("Missing in metadata");
                }
                "Missing in metadata"
            },
            MetadataError::Serialize => {
                proof {
                    reveal_strlit("metadata could not be written");
                }
                "metadata could not be written"
            },
            MetadataError::Unavailable => {
                proof {
                    reveal_strlit("metadata could not be fetched");
                }
                "metadata could not be fetched"
            },
            MetadataError::Crypto(e) => e.message(),
        }
    }
}

/// Position of the pair with identifier `id`, if there is one.
fn find_id(entries: &Vec<(String, String)>, id: &str) -> (r: Option<usize>)
    ensures
        match r {
            Some(i) => i < entries@.len() && entries@[i as int].0@ == id@,
            None => forall|j: int| 0 <= j < entries@.len() ==> (#[trigger] entries@[j]).0@ != id@,
        },
{
    let wanted = String::from_str(id);
    let mut i: usize = 0;
    while i < entries.len()
        invariant
            i <= entries@.len(),
            wanted@ == id@,
            forall|j: int| 0 <= j < i ==> (#[trigger] entries@[j]).0@ != id@,
        decreases entries@.len() - i,
    {
        if entries[i].0 == wanted {
            return Some(i);
        }
        i += 1;
    }
    None
}

/// The bytes that identifiers are ordered by: their UTF-8 encoding.
pub open spec fn id_bytes(id: Seq<char>) -> Seq<u8> {
    vstd::utf8::encode_utf8(id)
}

/// Position of the pair with file name `name` whose identifier comes first
/// in byte order, if a pair has that name.
fn find_name(entries: &Vec<(String, String)>, name: &str) -> (r: Option<usize>)
    ensures
        match r {
            Some(i) => {
                &&& i < entries@.len()
                &&& entries@[i as int].1@ == name@
                &&& forall|j: int|
                    0 <= j < entries@.len() && (#[trigger] entries@[j]).1@ == name@ ==> bytes_le(
                        id_bytes(entries@[i as int].0@),
                        id_bytes(entries@[j].0@),
                    )
            },
            None => forall|j: int| 0 <= j < entries@.len() ==> (#[trigger] entries@[j]).1@ != name@,
        },
{
    let wanted = String::from_str(name);
    let mut best: Option<usize> = None;
    let mut i: usize = 0;
    while i < entries.len()
        invariant
            i <= entries@.len(),
            wanted@ == name@,
            match best {
                Some(b) => {
                    &&& b < i
                    &&& entries@[b as int].1@ == name@
                    &&& forall|j: int|
                        0 <= j < i && (#[trigger] entries@[j]).1@ == name@ ==> bytes_le(
                            id_bytes(entries@[b as int].0@),
                            id_bytes(entries@[j].0@),
                        )
                },
                None => forall|j: int| 0 <= j < i ==> (#[trigger] entries@[j]).1@ != name@,
            },
        decreases entries@.len() - i,
    {
        if entries[i].1 == wanted {
            let ghost here = id_bytes(entries@[i as int].0@);
            match best {
                Some(b) => {
                    let ghost old_best = id_bytes(entries@[b as int].0@);
                    if bytes_before_or_equal(
                        entries[b].0.as_str().as_bytes(),
                        entries[i].0.as_str().as_bytes(),
                    ) {
                    } else {
                        proof {
                            lemma_bytes_le_total(old_best, here);
                            lemma_bytes_le_refl(here);
                            assert forall|j: int|
                                0 <= j < i + 1 && (#[trigger] entries@[j]).1@ == name@ implies bytes_le(
                                here,
                                id_bytes(entries@[j].0@),
                            ) by {
                                if j < i {
                                    lemma_bytes_le_trans(here, old_best, id_bytes(entries@[j].0@));
                                }
                            }
                        }
                        best = Some(i);
                    }
                },
                None => {
                    proof {
                        lemma_bytes_le_refl(here);
                    }
                    best = Some(i);
                },
            }
        }
        i += 1;
    }
    best
}

/// An index in memory.
pub struct MetadataIndex {
    entries: Vec<(String, String)>,
}

impl MetadataIndex {
    /// The pairs of the index: identifier to file name.
    pub closed spec fn pairs(&self) -> Map<Seq<char>, Seq<char>> {
        pairs_of(self.entries@)
    }

    #[verifier::type_invariant]
    spec fn inv(&self) -> bool {
        distinct_ids(self.entries@)
    }

    /// Reads an index from its JSON text.
    pub fn parse(data: &[u8]) -> (r: Result<MetadataIndex, MetadataError>)
        ensures
            r is Ok <==> parsed_index(data@) is Some,
            r matches Ok(index) ==> parsed_index(data@) == Some(index.pairs()),
            r matches Err(e) ==> e == MetadataError::Parse,
    {
        match json_to_pairs(data) {
            Ok(entries) => Ok(MetadataIndex { entries }),
            Err(_) => Err(MetadataError::Parse),
        }
    }

    /// The index without pairs.
    pub fn new() -> (index: MetadataIndex)
        ensures
            index.pairs() == Map::<Seq<char>, Seq<char>>::empty(),
    {
        MetadataIndex { entries: Vec::new() }
    }

    /// Whether `id` is an identifier of the index.
    pub fn contains(&self, id: &str) -> (b: bool)
        ensures
            b == self.pairs().dom().contains(id@),
    {
        proof {
            use_type_invariant(self);
            lemma_pairs_of(self.entries@);
        }
        find_id(&self.entries, id).is_some()
    }

    /// The file name that `id` holds.
    pub fn filename(&self, id: &str) -> (r: Result<String, MetadataError>)
        ensures
            r is Ok <==> self.pairs().dom().contains(id@),
            r matches Ok(name) ==> name@ == self.pairs()[id@],
            r matches Err(e) ==> e == MetadataError::Missing,
    {
        proof {
            use_type_invariant(self);
            lemma_pairs_of(self.entries@);
        }
        match find_id(&self.entries, id) {
            Some(i) => Ok(self.entries[i].1.clone()),
            None => Err(MetadataError::Missing),
        }
    }

    /// The identifier that holds `name`, if any does: where several hold
    /// it, the one that comes first in byte order.
    pub fn id_of(&self, name: &str) -> (r: Option<String>)
        ensures
            r is Some <==> has_name(self.pairs(), name@),
            r matches Some(id) ==> is_first_id_of(self.pairs(), name@, id@),
    {
        proof {
            use_type_invariant(self);
            lemma_pairs_of(self.entries@);
        }
        match find_name(&self.entries, name) {
            Some(i) => {
                proof {
                    let id = self.entries@[i as int].0@;
                    assert forall|other: Seq<char>|
                        self.pairs().dom().contains(other) && #[trigger] self.pairs()[other]
                            == name@ implies bytes_le(id_bytes(id), id_bytes(other)) by {
                        let j = choose|j: int|
                            0 <= j < self.entries@.len() && (#[trigger] self.entries@[j]).0@
                                == other;
                        assert(self.entries@[j].1@ == name@);
                    }
                }
                Some(self.entries[i].0.clone())
            },
            None => {
                proof {
                    if has_name(self.pairs(), name@) {
                        let id = choose|id: Seq<char>|
                            self.pairs().dom().contains(id) && #[trigger] self.pairs()[id]
                                == name@;
                        let j = choose|j: int|
                            0 <= j < self.entries@.len() && (#[trigger] self.entries@[j]).0@ == id;
                        assert(self.entries@[j].1@ == name@);
                    }
                }
                None
            },
        }
    }

    /// Records a file: binds `id` to `name` unless `id` is bound already.
    /// Every other pair stays as it is.
    pub fn record(self, id: &str, name: &str) -> (out: MetadataIndex)
        ensures
            out.pairs() == recorded(self.pairs(), id@, name@),
    {
        proof {
            use_type_invariant(&self);
            lemma_pairs_of(self.entries@);
        }
        match find_id(&self.entries, id) {
            Some(_) => self,
            None => {
                let ghost before = self.entries@;
                let mut entries = self.entries;
                entries.push((String::from_str(id), String::from_str(name)));
                proof {
                    assert(entries@.drop_last() =~= before);
                    assert forall|i: int, j: int| 0 <= i < j < entries@.len() implies (
                    #[trigger] entries@[i]).0@ != (#[trigger] entries@[j]).0@ by {
                        if j < before.len() {
                            assert(entries@[i] == before[i] && entries@[j] == before[j]);
                        } else {
                            assert(entries@[i] == before[i]);
                        }
                    }
                }
                MetadataIndex { entries }
            },
        }
    }

    /// Writes the index as JSON text, which reads back as the same pairs.
    pub fn to_json(&self) -> (r: Result<Vec<u8>, MetadataError>)
        ensures
            r is Ok,
            r matches Ok(text) ==> parsed_index(text@) == Some(self.pairs()),
    {
        proof {
            use_type_invariant(self);
        }
        match pairs_to_json(&self.entries) {
            Ok(text) => Ok(text),
            Err(_) => Err(MetadataError::Serialize),
        }
    }
}

/// The file name that `file_uuid` holds in the index with JSON text `data`.
pub fn get_filename(data: &[u8], file_uuid: &str) -> (r: Result<String, MetadataError>)
    ensures
        match parsed_index(data@) {
            None => r == Err::<String, MetadataError>(MetadataError::Parse),
            Some(pairs) => if pairs.dom().contains(file_uuid@) {
                r matches Ok(name) && name@ == pairs[file_uuid@]
            } else {
                r == Err::<String, MetadataError>(MetadataError::Missing)
            },
        },
{
    match MetadataIndex::parse(data) {
        Ok(index) => index.filename(file_uuid),
        Err(e) => Err(e),
    }
}

/// The identifier that holds `file_name` in the index with JSON text `data`,
/// if any: where several hold it, the one that comes first in byte order.
pub fn get_uuid(data: &[u8], file_name: &str) -> (r: Result<Option<String>, MetadataError>)
    ensures
        match parsed_index(data@) {
            None => r == Err::<Option<String>, MetadataError>(MetadataError::Parse),
            Some(pairs) => match r {
                Ok(Some(id)) => is_first_id_of(pairs, file_name@, id@),
                Ok(None) => !has_name(pairs, file_name@),
                Err(_) => false,
            },
        },
{
    match MetadataIndex::parse(data) {
        Ok(index) => Ok(index.id_of(file_name)),
        Err(e) => Err(e),
    }
}

/// Records a file in the index with JSON text `data` and returns the new
/// text: `uuid` is bound to `filename` unless it is bound already, and every
/// other pair stays as it is.
///
/// The call succeeds exactly on text that parses. The new text reads back
/// as the recorded index.
pub fn put_filename(data: &[u8], uuid: &str, filename: &str) -> (r: Result<Vec<u8>, MetadataError>)
    ensures
        match parsed_index(data@) {
            None => r == Err::<Vec<u8>, MetadataError>(MetadataError::Parse),
            Some(pairs) => r matches Ok(text) && parsed_index(text@) == Some(
                recorded(pairs, uuid@, filename@),
            ),
        },
{
    match MetadataIndex::parse(data) {
        Ok(index) => {
            let index = index.record(uuid, filename);
            index.to_json()
        },
        Err(e) => Err(e),
    }
}

/// Whether `uuid` is an identifier of the index with JSON text `data`.
pub fn is_in_meta(data: &[u8], uuid: &str) -> (r: Result<bool, MetadataError>)
    ensures
        r == match parsed_index(data@) {
            None => Err::<bool, MetadataError>(MetadataError::Parse),
            Some(pairs) => Ok::<bool, MetadataError>(pairs.dom().contains(uuid@)),
        },
{
    match MetadataIndex::parse(data) {
        Ok(index) => Ok(index.contains(uuid)),
        Err(e) => Err(e),
    }
}

/// The key that the index is sealed under for a passphrase.
pub open spec fn metadata_key_of(password: Seq<u8>) -> Seq<u8> {
    argon2id_key(password, metadata_salt())
}

/// An index ready to be stored: its JSON text and the sealed object to put
/// under [`METADATA_KEY`].
pub struct SealedIndex {
    /// The JSON text of the index.
    pub plaintext: Vec<u8>,
    /// The object to store.
    pub body: Vec<u8>,
}

/// Seals JSON text of an index under the passphrase.
fn seal_index(password: &[u8], plaintext: Vec<u8>) -> (r: Result<SealedIndex, MetadataError>)
    ensures
        r is Ok <==> password@.len() <= 0xFFFF_FFFF,
        r matches Ok(sealed) ==> {
            &&& sealed.plaintext@ == plaintext@
            &&& sealed.body@.len() == sealed_len(plaintext@.len())
            &&& open_object(metadata_key_of(password@), sealed.body@) == Some(plaintext@)
        },
        r matches Err(e) ==> e == MetadataError::Crypto(CryptoError::KeyDerivation),
{
    proof {
        lemma_metadata_salt_len();
    }
    let mut body = slice_to_vec(plaintext.as_slice());
    match encrypt(&mut body, password, METADATA_KEY.as_bytes()) {
        Ok(_) => Ok(SealedIndex { plaintext, body }),
        Err(e) => Err(MetadataError::Crypto(e)),
    }
}

/// Prepares the index object: seals `data`, or the empty index where there
/// is none.
///
/// The sealed object opens to the text under the passphrase's index key.
/// The call fails only where the passphrase is too long for the key
/// derivation.
pub fn create_metadata(password: &[u8], data: Option<&[u8]>) -> (r: Result<
    SealedIndex,
    MetadataError,
>)
    ensures
        r is Ok <==> password@.len() <= 0xFFFF_FFFF,
        r matches Ok(sealed) ==> {
            &&& match data {
                Some(text) => sealed.plaintext@ == text@,
                None => parsed_index(sealed.plaintext@) == Some(
                    Map::<Seq<char>, Seq<char>>::empty(),
                ),
            }
            &&& sealed.body@.len() == sealed_len(sealed.plaintext@.len())
            &&& open_object(metadata_key_of(password@), sealed.body@) == Some(sealed.plaintext@)
        },
        r matches Err(e) ==> e == MetadataError::Crypto(CryptoError::KeyDerivation),
{
    let plaintext = match data {
        Some(text) => slice_to_vec(text),
        None => match MetadataIndex::new().to_json() {
            Ok(text) => text,
            Err(e) => {
                return Err(e);
            },
        },
    };
    seal_index(password, plaintext)
}

/// What the store answered when it was asked for the index object.
pub enum FetchedIndex {
    /// The object is there: its bytes.
    Found(Vec<u8>),
    /// The store says that there is no such object.
    Missing,
    /// The store could not be asked, or did not say either.
    Unavailable,
}

/// What reading the index object led to.
pub enum LoadedIndex {
    /// The object was there: its JSON text.
    Existing(Vec<u8>),
    /// The object was missing: the empty index, to be stored.
    Created(SealedIndex),
}

impl LoadedIndex {
    /// The JSON text of the index.
    pub open spec fn plaintext(&self) -> Seq<u8> {
        match self {
            LoadedIndex::Existing(text) => text@,
            LoadedIndex::Created(sealed) => sealed.plaintext@,
        }
    }

    /// The JSON text of the index.
    pub fn into_plaintext(self) -> (text: Vec<u8>)
        ensures
            text@ == self.plaintext(),
    {
        match self {
            LoadedIndex::Existing(text) => text,
            LoadedIndex::Created(sealed) => sealed.plaintext,
        }
    }
}

/// Which error, if any, reading the index object ends in.
pub open spec fn load_refusal(password: Seq<u8>, fetched: FetchedIndex) -> Option<MetadataError> {
    match fetched {
        FetchedIndex::Unavailable => Some(MetadataError::Unavailable),
        FetchedIndex::Missing => if password.len() > 0xFFFF_FFFF {
            Some(MetadataError::Crypto(CryptoError::KeyDerivation))
        } else {
            None
        },
        FetchedIndex::Found(body) => if password.len() > 0xFFFF_FFFF {
            Some(MetadataError::Crypto(CryptoError::KeyDerivation))
        } else if !valid_object_len(body@.len()) {
            Some(MetadataError::Crypto(CryptoError::MalformedLength))
        } else if open_object(metadata_key_of(password), body@) is None {
            Some(MetadataError::Crypto(CryptoError::Authentication))
        } else {
            None
        },
    }
}

/// Reads the index from what the store answered for [`METADATA_KEY`]. An
/// object that is there is opened under the passphrase's index key. Only
/// where the store says that there is none, the empty index is prepared to
/// be stored; an answer that tells neither is an error, and nothing is
/// overwritten.
pub fn get_metadata(password: &[u8], fetched: FetchedIndex) -> (r: Result<
    LoadedIndex,
    MetadataError,
>)
    ensures
        match load_refusal(password@, fetched) {
            Some(e) => r == Err::<LoadedIndex, MetadataError>(e),
            None => match fetched {
                FetchedIndex::Found(body) => {
                    &&& r matches Ok(LoadedIndex::Existing(text))
                    &&& open_object(metadata_key_of(password@), body@) == Some(text@)
                },
                _ => {
                    &&& r matches Ok(LoadedIndex::Created(sealed))
                    &&& parsed_index(sealed.plaintext@) == Some(
                        Map::<Seq<char>, Seq<char>>::empty(),
                    )
                    &&& sealed.body@.len() == sealed_len(sealed.plaintext@.len())
                    &&& open_object(metadata_key_of(password@), sealed.body@) == Some(
                        sealed.plaintext@,
                    )
                },
            },
        },
{
    proof {
        lemma_metadata_salt_len();
    }
    match fetched {
        FetchedIndex::Found(body) => {
            proof {
                if open_object(metadata_key_of(password@), body@) is Some {
                    lemma_opened_object_has_valid_len(metadata_key_of(password@), body@);
                }
            }
            let mut text = body;
            match decrypt(&mut text, password, METADATA_KEY.as_bytes()) {
                Ok(()) => Ok(LoadedIndex::Existing(text)),
                Err(e) => Err(MetadataError::Crypto(e)),
            }
        },
        FetchedIndex::Missing => match create_metadata(password, None) {
            Ok(sealed) => Ok(LoadedIndex::Created(sealed)),
            Err(e) => Err(e),
        },
        FetchedIndex::Unavailable => Err(MetadataError::Unavailable),
    }
}

/// Records a file in the index with JSON text `current` and prepares the new
/// index object.
///
/// Text that does not parse is refused, then a passphrase too long for the
/// key derivation; every other call succeeds. The new text reads as the
/// recorded index, which holds every earlier pair, and the sealed object
/// opens to it under the passphrase's index key.
pub fn insert_meta(password: &[u8], current: &[u8], uuid: &str, filename: &str) -> (r: Result<
    SealedIndex,
    MetadataError,
>)
    ensures
        match parsed_index(current@) {
            None => r matches Err(e) && e == MetadataError::Parse,
            Some(pairs) => if password@.len() > 0xFFFF_FFFF {
                r matches Err(e) && e == MetadataError::Crypto(CryptoError::KeyDerivation)
            } else {
                &&& r matches Ok(sealed)
                &&& parsed_index(sealed.plaintext@) == Some(recorded(pairs, uuid@, filename@))
                &&& sealed.body@.len() == sealed_len(sealed.plaintext@.len())
                &&& open_object(metadata_key_of(password@), sealed.body@) == Some(
                    sealed.plaintext@,
                )
            },
        },
{
    match put_filename(current, uuid, filename) {
        Ok(text) => seal_index(password, text),
        Err(e) => Err(e),
    }
}

} // verus!
