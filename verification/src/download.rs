//! Downloads: where a file lands, and how its bytes are turned back into
//! the file.
//!
//! A download lands in the download directory under the name it is shown
//! with. Where that name is taken, a number in parentheses is put before
//! the extension, the smallest that gives a free name. The bytes are first
//! written to a temporary file beside the destination, which takes the
//! destination's place once the download is complete.

use vstd::prelude::*;
use vstd::string::StrSliceExecFns;
use vstd::string::StringExecFns;
use vstd::string::StringSliceAdditionalSpecFns;
use crate::crypto::CryptoError;
use crate::crypto::argon2id_key;
use crate::crypto::derive_key;
use crate::crypto::kdf_accepts;
use crate::events::EventView;
use crate::events::ProgressEvent;
use crate::metadata::MetadataError;
use crate::metadata::get_filename;
use crate::metadata::parsed_index;
use crate::stream::DecryptStream;
use crate::text::chars_of;
use crate::text::find_last;
use crate::text::last_index_of;
use crate::text::last_segment;
use crate::text::last_segment_of;
use crate::ident::is_uuid_text;
use crate::ident::lemma_uuid_text_has_no_slash;
use crate::crypto::open_object;
use crate::metadata::lemma_recorded_all_keeps;
use crate::metadata::recorded;
use crate::metadata::recorded_all;
use crate::text::lemma_last_index_of;
use crate::text::lemma_last_segment_of_join;
use crate::upload::name_salt;
use crate::upload::remote_key;
use crate::upload::upload_refusal;

verus! {

/// The character of a decimal digit.
pub open spec fn digit_char(d: nat) -> char {
    if d == 0 {
        '0'
    } else if d == 1 {
        '1'
    } else if d == 2 {
        '2'
    } else if d == 3 {
        '3'
    } else if d == 4 {
        '4'
    } else if d == 5 {
        '5'
    } else if d == 6 {
        '6'
    } else if d == 7 {
        '7'
    } else if d == 8 {
        '8'
    } else {
        '9'
    }
}

/// A number in decimal digits, without leading zeros.
pub open spec fn decimal(n: nat) -> Seq<char>
    decreases n,
{
    if n < 10 {
        seq![digit_char(n)]
    } else {
        decimal(n / 10).push(digit_char(n % 10))
    }
}

/// Different numbers have different digits.
pub proof fn lemma_decimal_injective(a: nat, b: nat)
    requires
        decimal(a) == decimal(b),
    ensures
        a == b,
    decreases a,
{
    if a < 10 && b < 10 {
        assert(decimal(a)[0] == digit_char(a));
        assert(decimal(b)[0] == digit_char(b));
    } else if a >= 10 && b >= 10 {
        let da = decimal(a / 10);
        let db = decimal(b / 10);
        assert(decimal(a).drop_last() =~= da);
        assert(decimal(b).drop_last() =~= db);
        assert(decimal(a).last() == digit_char(a % 10));
        assert(decimal(b).last() == digit_char(b % 10));
        lemma_decimal_injective(a / 10, b / 10);
    } else {
        if a >= 10 {
            assert(decimal(a / 10).len() >= 1) by {
                lemma_decimal_len(a / 10);
            }
        } else {
            assert(decimal(b / 10).len() >= 1) by {
                lemma_decimal_len(b / 10);
            }
        }
    }
}

/// A number has at least one digit.
pub proof fn lemma_decimal_len(n: nat)
    ensures
        decimal(n).len() >= 1,
    decreases n,
{
    if n >= 10 {
        lemma_decimal_len(n / 10);
    }
}

/// The text of one decimal digit.
fn digit_text(d: u64) -> (text: &'static str)
    requires
        d < 10,
    ensures
        text@ == seq![digit_char(d as nat)],
{
    proof {
        reveal_strlit("0");
        reveal_strlit("1");
        reveal_strlit("2");
        reveal_strlit("3");
        reveal_strlit("4");
        reveal_strlit("5");
        reveal_strlit("6");
        reveal_strlit("7");
        reveal_strlit("8");
        reveal_strlit("9");
    }
    let text = if d == 0 {
        "0"
    } else if d == 1 {
        "1"
    } else if d == 2 {
        "2"
    } else if d == 3 {
        "3"
    } else if d == 4 {
        "4"
    } else if d == 5 {
        "5"
    } else if d == 6 {
        "6"
    } else if d == 7 {
        "7"
    } else if d == 8 {
        "8"
    } else {
        "9"
    };
    assert(text@ =~= seq![digit_char(d as nat)]);
    text
}

/// A number in decimal digits.
pub fn decimal_text(n: u64) -> (text: String)
    ensures
        text@ == decimal(n as nat),
    decreases n,
{
    if n < 10 {
        String::from_str(digit_text(n))
    } else {
        let mut text = decimal_text(n / 10);
        text.append(digit_text(n % 10));
        proof {
            assert(text@ =~= decimal((n / 10) as nat).push(digit_char((n % 10) as nat)));
        }
        text
    }
}

/// Where the extension of a file name begins: at its last `.`, unless that
/// is the first character or the name is `..`; at the end of the name where
/// it has no extension.
pub open spec fn extension_start(name: Seq<char>) -> int {
    if last_index_of(name, '.') > 0 && name != seq!['.', '.'] {
        last_index_of(name, '.')
    } else {
        name.len() as int
    }
}

/// The name tried in round `k` of the search for a free name: the name
/// itself in round 0, after that the name with ` (k)` put before its
/// extension.
pub open spec fn numbered_name(name: Seq<char>, k: nat) -> Seq<char> {
    if k == 0 {
        name
    } else {
        name.take(extension_start(name)) + seq![' ', '('] + decimal(k) + seq![')'] + name.skip(
            extension_start(name),
        )
    }
}

/// The extension start lies within the name.
pub proof fn lemma_extension_start(name: Seq<char>)
    ensures
        0 <= extension_start(name) <= name.len(),
{
    lemma_last_index_of(name, '.');
}

/// Different rounds try different names.
pub proof fn lemma_numbered_name_injective(name: Seq<char>, a: nat, b: nat)
    requires
        numbered_name(name, a) == numbered_name(name, b),
    ensures
        a == b,
{
    lemma_extension_start(name);
    lemma_decimal_len(a);
    lemma_decimal_len(b);
    let cut = extension_start(name);
    if a != 0 && b != 0 {
        let na = numbered_name(name, a);
        let nb = numbered_name(name, b);
        assert(na.len() == name.len() + 3 + decimal(a).len());
        assert(nb.len() == name.len() + 3 + decimal(b).len());
        let len = decimal(a).len() as int;
        assert(na.subrange(cut + 2, cut + 2 + len) =~= decimal(a));
        assert(nb.subrange(cut + 2, cut + 2 + len) =~= decimal(b));
        lemma_decimal_injective(a, b);
    } else if a != 0 {
        assert(numbered_name(name, a).len() == name.len() + 3 + decimal(a).len());
    } else if b != 0 {
        assert(numbered_name(name, b).len() == name.len() + 3 + decimal(b).len());
    }
}

/// The name tried in round `k`.
pub fn numbered_name_of(filename: &str, k: u64) -> (out: String)
    ensures
        out@ == numbered_name(filename@, k as nat),
{
    if k == 0 {
        return String::from_str(filename);
    }
    let chars = chars_of(filename);
    let n = chars.len();
    let is_dots = n == 2 && chars[0] == '.' && chars[1] == '.';
    proof {
        if is_dots {
            assert(filename@ =~= seq!['.', '.']);
        }
        if filename@ == seq!['.', '.'] {
            assert(filename@[0] == '.' && filename@[1] == '.');
        }
        lemma_last_index_of(filename@, '.');
    }
    let cut = match find_last(&chars, '.') {
        Some(dot) => if dot > 0 && !is_dots {
            dot
        } else {
            n
        },
        None => n,
    };
    let mut out = String::from_str(filename.substring_char(0, cut));
    proof {
        reveal_strlit(" (");
        reveal_strlit(")");
        assert(" ("@ =~= seq![' ', '(']);
        assert(")"@ =~= seq![')']);
        assert(filename@.subrange(0, cut as int) =~= filename@.take(cut as int));
        assert(filename@.subrange(cut as int, n as int) =~= filename@.skip(cut as int));
    }
    out.append(" (");
    let digits = decimal_text(k);
    out.append(digits.as_str());
    out.append(")");
    out.append(filename.substring_char(cut, n));
    out
}

/// The texts of a list of names.
pub open spec fn name_views(names: Seq<String>) -> Seq<Seq<char>> {
    Seq::new(names.len(), |i: int| names[i]@)
}

/// Whether `name` is among the names taken.
pub open spec fn is_taken(taken: Seq<String>, name: Seq<char>) -> bool {
    name_views(taken).contains(name)
}

/// Whether `name` is among the names taken.
fn name_is_taken(taken: &Vec<String>, name: &String) -> (b: bool)
    ensures
        b == is_taken(taken@, name@),
{
    let mut i: usize = 0;
    while i < taken.len()
        invariant
            i <= taken@.len(),
            forall|j: int| 0 <= j < i ==> taken@[j]@ != name@,
        decreases taken@.len() - i,
    {
        if taken[i] == *name {
            proof {
                assert(name_views(taken@)[i as int] == name@);
            }
            return true;
        }
        i += 1;
    }
    proof {
        if is_taken(taken@, name@) {
            let j = choose|j: int|
                0 <= j < name_views(taken@).len() && name_views(taken@)[j] == name@;
            assert(taken@[j]@ == name@);
        }
    }
    false
}

/// The first `k` names of the search, which are all different, cannot all
/// be taken by fewer than `k` names.
proof fn lemma_rounds_fit(taken: Seq<String>, name: Seq<char>, k: nat)
    requires
        forall|j: nat| j < k ==> is_taken(taken, #[trigger] numbered_name(name, j)),
    ensures
        k <= taken.len(),
{
    let tried = Seq::new(k, |j: int| numbered_name(name, j as nat));
    assert forall|i: int, j: int| 0 <= i < tried.len() && 0 <= j < tried.len() && i != j implies tried[i]
        != tried[j] by {
        if tried[i] == tried[j] {
            lemma_numbered_name_injective(name, i as nat, j as nat);
        }
    }
    assert(tried.no_duplicates());
    tried.unique_seq_to_set();
    let views = name_views(taken);
    vstd::seq_lib::seq_to_set_is_finite(views);
    assert forall|x: Seq<char>| tried.to_set().contains(x) implies views.to_set().contains(x) by {
        let j = choose|j: int| 0 <= j < tried.len() && tried[j] == x;
        assert(is_taken(taken, numbered_name(name, j as nat)));
    }
    vstd::set_lib::lemma_len_subset(tried.to_set(), views.to_set());
    views.lemma_cardinality_of_set();
}

/// The name under which a download lands where `taken` are the names in the
/// download directory: the first of the names `filename`, `stem (1).ext`,
/// `stem (2).ext`, ... that is not taken.
pub fn get_unique_path(taken: &Vec<String>, filename: &str) -> (out: String)
    ensures
        !is_taken(taken@, out@),
        exists|k: nat|
            {
                &&& out@ == #[trigger] numbered_name(filename@, k)
                &&& forall|j: nat| j < k ==> is_taken(taken@, #[trigger] numbered_name(filename@, j))
            },
{
    let count = taken.len();
    let mut k: u64 = 0;
    loop
        invariant
            forall|j: nat| j < k ==> is_taken(taken@, #[trigger] numbered_name(filename@, j)),
            k <= taken@.len(),
            count == taken@.len(),
        decreases taken@.len() - k,
    {
        let candidate = numbered_name_of(filename, k);
        if !name_is_taken(taken, &candidate) {
            return candidate;
        }
        proof {
            lemma_rounds_fit(taken@, filename@, (k + 1) as nat);
        }
        k += 1;
    }
}

/// Size of the buffer that a download is read with: 1 MiB.
pub const READ_BUFFER_SIZE: usize = 1048576;

/// The suffix of the temporary file of a download.
pub const TEMP_SUFFIX: &'static str = ".crabdroptemp";

/// The name of the temporary file of a download: the destination's name
/// with `.crabdroptemp` after it, whether or not it has an extension.
pub fn temp_name(destination: &str) -> (out: String)
    ensures
        out@ == destination@ + TEMP_SUFFIX@,
{
    let mut out = String::from_str(destination);
    out.append(TEMP_SUFFIX);
    out
}

/// Why a download could not be set up.
#[derive(Clone, Copy, Debug, PartialEq, Eq, Structural)]
pub enum DownloadError {
    /// The metadata index could not be read, or does not know the object.
    Metadata(MetadataError),
    /// The key of the file could not be derived.
    Crypto(CryptoError),
}

impl DownloadError {
    /// A short description for display.
    pub fn message(&self) -> (text: &'static str)
        ensures
            text@.len() > 0,
    {
        match self {
            DownloadError::Metadata(e) => e.message(),
            DownloadError::Crypto(e) => e.message(),
        }
    }
}

/// The identifier under which an object is stored: the last segment of its
/// key.
pub open spec fn stored_id(key: Seq<char>) -> Seq<char> {
    last_segment(key)
}

/// Which error, if any, keeps the download of an encrypted object from
/// being set up.
pub open spec fn download_refusal(
    metadata: Seq<u8>,
    key: Seq<char>,
    passphrase: Seq<u8>,
) -> Option<DownloadError> {
    match parsed_index(metadata) {
        None => Some(DownloadError::Metadata(MetadataError::Parse)),
        Some(pairs) => if !pairs.dom().contains(stored_id(key)) {
            Some(DownloadError::Metadata(MetadataError::Missing))
        } else if !kdf_accepts(passphrase, vstd::utf8::encode_utf8(pairs[stored_id(key)])) {
            Some(DownloadError::Crypto(CryptoError::KeyDerivation))
        } else {
            None
        },
    }
}

/// Sets up the decryption of a download.
///
/// An unencrypted object needs none. For an encrypted one the metadata
/// index, given as its JSON text, tells the file's own name by the object's
/// stored identifier, the last segment of its key; the stream opens records
/// under the key of the passphrase and that name. The name the object is
/// shown with plays no part.
pub fn download_file(metadata: &[u8], key: &str, encrypted: bool, passphrase: &[u8]) -> (r: Result<
    Option<DecryptStream>,
    DownloadError,
>)
    ensures
        !encrypted ==> r matches Ok(None),
        encrypted ==> match download_refusal(metadata@, key@, passphrase@) {
            Some(e) => r matches Err(err) && err == e,
            None => {
                &&& r matches Ok(Some(stream))
                &&& stream.key() == download_key(metadata@, key@, passphrase@)
                &&& stream.fed() == Seq::<u8>::empty()
                &&& stream.released() == Seq::<u8>::empty()
                &&& stream.pending() == Seq::<u8>::empty()
            },
        },
{
    if !encrypted {
        return Ok(None);
    }
    let id = last_segment_of(key);
    let name = match get_filename(metadata, id.as_str()) {
        Ok(name) => name,
        Err(e) => {
            return Err(DownloadError::Metadata(e));
        },
    };
    match derive_key(passphrase, name.as_str().as_bytes()) {
        Ok(file_key) => Ok(Some(DecryptStream::new(file_key))),
        Err(e) => Err(DownloadError::Crypto(e)),
    }
}

/// The number of bytes to expect of a download: the upper bound that the
/// store gives, or the lower bound where it gives no upper.
pub fn expected_bytes(lower: u64, upper: Option<u64>) -> (total: u64)
    ensures
        total == match upper {
            Some(n) => n,
            None => lower,
        },
{
    match upper {
        Some(n) => n,
        None => lower,
    }
}

/// The count of a download's bytes, and the events that tell of it.
pub struct DownloadProgress {
    filename: String,
    total_bytes: u64,
    downloaded: u64,
}

impl DownloadProgress {
    /// The name of the file in the events.
    pub closed spec fn filename(&self) -> Seq<char> {
        self.filename@
    }

    /// The number of bytes expected.
    pub closed spec fn total_bytes(&self) -> u64 {
        self.total_bytes
    }

    /// The number of bytes received so far.
    pub closed spec fn downloaded(&self) -> u64 {
        self.downloaded
    }

    /// The count of a download that has received nothing yet.
    pub fn new(filename: &str, total_bytes: u64) -> (progress: DownloadProgress)
        ensures
            progress.filename() == filename@,
            progress.total_bytes() == total_bytes,
            progress.downloaded() == 0,
    {
        DownloadProgress { filename: String::from_str(filename), total_bytes, downloaded: 0 }
    }

    /// The event that starts the download.
    pub fn start(&self) -> (event: ProgressEvent)
        ensures
            event@ == (EventView::DownloadStart {
                filename: self.filename(),
                total_bytes: self.total_bytes(),
            }),
    {
        ProgressEvent::DownloadStart {
            filename: self.filename.clone(),
            total_bytes: self.total_bytes,
        }
    }

    /// Counts `n` bytes that have arrived and tells of the new count. The
    /// count stops at the largest number it can hold.
    pub fn received(&mut self, n: usize) -> (event: ProgressEvent)
        ensures
            final(self).filename() == old(self).filename(),
            final(self).total_bytes() == old(self).total_bytes(),
            final(self).downloaded() == (if old(self).downloaded() + n > u64::MAX {
                u64::MAX
            } else {
                (old(self).downloaded() + n) as u64
            }),
            event@ == (EventView::DownloadProgress {
                filename: final(self).filename(),
                downloaded_bytes: final(self).downloaded(),
                total_bytes: final(self).total_bytes(),
            }),
    {
        self.downloaded = self.downloaded.saturating_add(n as u64);
        ProgressEvent::DownloadProgress {
            filename: self.filename.clone(),
            downloaded_bytes: self.downloaded,
            total_bytes: self.total_bytes,
        }
    }

    /// The event that ends the download: it tells the number of bytes
    /// received.
    pub fn complete(&self) -> (event: ProgressEvent)
        ensures
            event@ == (EventView::DownloadComplete {
                filename: self.filename(),
                total_bytes: self.downloaded(),
            }),
    {
        ProgressEvent::DownloadComplete {
            filename: self.filename.clone(),
            total_bytes: self.downloaded,
        }
    }
}

/// The key that a download opens records under: the key of the passphrase
/// and the name that the index holds for the object's stored identifier.
pub open spec fn download_key(index: Seq<u8>, key: Seq<char>, password: Seq<u8>) -> Seq<u8> {
    argon2id_key(password, vstd::utf8::encode_utf8(parsed_index(index)->0[stored_id(key)]))
}

/// A download finds the key that the upload used, whatever was uploaded in
/// between. Where a file was stored encrypted under an identifier new to
/// the index and the pair was recorded, then, after any further files were
/// recorded: the stored identifier of the object is that identifier, the
/// index still gives the file's own name for it, the download is set up,
/// and what the sealed body opened to under the upload's key it opens to
/// under the download's key.
pub proof fn lemma_download_finds_upload_key(
    index_later: Seq<u8>,
    pairs: Map<Seq<char>, Seq<char>>,
    later: Seq<(Seq<char>, Seq<char>)>,
    target: Seq<char>,
    id: Seq<char>,
    password: Seq<u8>,
    body: Seq<u8>,
)
    requires
        is_uuid_text(id),
        !pairs.dom().contains(id),
        upload_refusal(target, true, Some(password)) is None,
        parsed_index(index_later) == Some(
            recorded_all(recorded(pairs, id, last_segment(target)), later),
        ),
    ensures
        stored_id(remote_key(target, id, true)) == id,
        parsed_index(index_later)->0.dom().contains(id),
        parsed_index(index_later)->0[id] == last_segment(target),
        download_refusal(index_later, remote_key(target, id, true), password) is None,
        download_key(index_later, remote_key(target, id, true), password) == argon2id_key(
            password,
            name_salt(target),
        ),
        open_object(download_key(index_later, remote_key(target, id, true), password), body)
            == open_object(argon2id_key(password, name_salt(target)), body),
{
    lemma_uuid_text_has_no_slash(id);
    lemma_last_segment_of_join(crate::text::parent(target), id);
    lemma_recorded_all_keeps(recorded(pairs, id, last_segment(target)), later, id);
}

} // verus!
