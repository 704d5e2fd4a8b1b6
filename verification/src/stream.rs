//! Decryption of an encrypted object as it arrives.
//!
//! A download hands over the object's bytes in pieces of any size. The
//! stream keeps what has not yet filled a record, opens every record as soon
//! as it is complete, and opens what is left at the end as the final, shorter
//! record. What it releases, piece by piece, is what the whole object opens
//! to.

use vstd::prelude::*;
use vstd::slice::slice_subrange;
use vstd::slice::slice_to_vec;
use crate::crypto::CryptoError;
use crate::crypto::RECORD_OVERHEAD;
use crate::crypto::RECORD_SIZE;
use crate::crypto::full_records_len;
use crate::crypto::join_opened;
use crate::crypto::lemma_open_object_by_full_records;
use crate::crypto::lemma_open_object_concat;
use crate::crypto::open_chunk;
use crate::crypto::open_full_records;
use crate::crypto::open_object;

verus! {

/// A run of full records opens the same way as a stream and as an object.
proof fn lemma_full_records_are_an_object(key: Seq<u8>, bytes: Seq<u8>)
    requires
        bytes.len() % (RECORD_SIZE as nat) == 0,
    ensures
        open_full_records(key, bytes) == open_object(key, bytes),
{
    lemma_open_object_by_full_records(key, bytes);
    let cut = full_records_len(bytes.len());
    assert(cut == bytes.len());
    assert(bytes.skip(cut as int).len() == 0);
    match open_full_records(key, bytes) {
        Some(p) => {
            assert(p + Seq::<u8>::empty() =~= p);
        },
        None => {},
    }
}

/// Opens the leading full records of `bytes`; returns their plaintext and the
/// number of bytes they took.
fn open_leading(bytes: &[u8], key: &[u8; 32]) -> (r: Option<(Vec<u8>, usize)>)
    ensures
        r is Some <==> open_full_records(key@, bytes@) is Some,
        r matches Some((plaintext, cut)) ==> {
            &&& open_full_records(key@, bytes@) == Some(plaintext@)
            &&& cut == full_records_len(bytes@.len())
            &&& cut <= bytes@.len()
            &&& bytes@.len() - cut < RECORD_SIZE
        },
{
    let len = bytes.len();
    let mut out: Vec<u8> = Vec::new();
    let mut offset: usize = 0;
    proof {
        assert(bytes@.skip(0) =~= bytes@);
        match open_full_records(key@, bytes@) {
            Some(t) => {
                assert(out@ + t =~= t);
            },
            None => {},
        }
    }
    while len - offset >= RECORD_SIZE
        invariant
            len == bytes@.len(),
            offset <= len,
            offset % RECORD_SIZE == 0,
            full_records_len(len as nat) == offset + full_records_len((len - offset) as nat),
            open_full_records(key@, bytes@) == join_opened(
                Some(out@),
                open_full_records(key@, bytes@.skip(offset as int)),
            ),
        decreases len - offset,
    {
        let ghost rest = bytes@.skip(offset as int);
        let record = slice_subrange(bytes, offset, offset + RECORD_SIZE);
        proof {
            assert(record@ =~= rest.take(RECORD_SIZE as int));
            assert(bytes@.skip((offset + RECORD_SIZE) as int) =~= rest.skip(RECORD_SIZE as int));
        }
        match open_chunk(record, key) {
            Some(mut plaintext) => {
                proof {
                    match open_full_records(key@, rest.skip(RECORD_SIZE as int)) {
                        Some(t) => {
                            assert(out@ + (plaintext@ + t) =~= (out@ + plaintext@) + t);
                        },
                        None => {},
                    }
                }
                out.append(&mut plaintext);
                offset = offset + RECORD_SIZE;
            },
            None => {
                return None;
            },
        }
    }
    proof {
        assert(out@ + Seq::<u8>::empty() =~= out@);
    }
    Some((out, offset))
}

/// The state of one streamed decryption.
pub struct DecryptStream {
    key: [u8; 32],
    staging: Vec<u8>,
    fed: Ghost<Seq<u8>>,
    released: Ghost<Seq<u8>>,
}

impl DecryptStream {
    /// The key that records are opened under.
    pub closed spec fn key(&self) -> Seq<u8> {
        self.key@
    }

    /// The bytes taken in that have not yet filled a record.
    pub closed spec fn pending(&self) -> Seq<u8> {
        self.staging@
    }

    /// All bytes taken in so far, in order.
    pub closed spec fn fed(&self) -> Seq<u8> {
        self.fed@
    }

    /// All plaintext released so far, in order.
    pub closed spec fn released(&self) -> Seq<u8> {
        self.released@
    }

    #[verifier::type_invariant]
    spec fn inv(&self) -> bool {
        let done = self.fed@.len() - self.staging@.len();
        &&& self.staging@.len() < RECORD_SIZE
        &&& done >= 0
        &&& done % (RECORD_SIZE as int) == 0
        &&& self.fed@.skip(done) == self.staging@
        &&& open_full_records(self.key@, self.fed@.take(done)) == Some(self.released@)
    }

    /// A stream under `key` that has taken in nothing.
    pub fn new(key: [u8; 32]) -> (stream: DecryptStream)
        ensures
            stream.key() == key@,
            stream.pending() == Seq::<u8>::empty(),
            stream.fed() == Seq::<u8>::empty(),
            stream.released() == Seq::<u8>::empty(),
    {
        let staging: Vec<u8> = Vec::new();
        proof {
            assert(Seq::<u8>::empty().skip(0) =~= staging@);
            assert(Seq::<u8>::empty().take(0) =~= Seq::<u8>::empty());
        }
        DecryptStream {
            key,
            staging,
            fed: Ghost(Seq::empty()),
            released: Ghost(Seq::empty()),
        }
    }

    /// Takes in the next bytes of the object and releases the plaintext of
    /// every record that they complete.
    ///
    /// The pending bytes followed by `bytes` are read as a stream: every
    /// full record is opened, and what is left over stays pending. Where a
    /// record does not authenticate the call fails and the stream is as it
    /// was.
    pub fn push(&mut self, bytes: &[u8]) -> (r: Result<Vec<u8>, CryptoError>)
        ensures
            final(self).key() == old(self).key(),
            r is Ok <==> open_full_records(old(self).key(), old(self).pending() + bytes@) is Some,
            r matches Ok(plaintext) ==> {
                let total = old(self).pending() + bytes@;
                &&& open_full_records(old(self).key(), total) == Some(plaintext@)
                &&& final(self).pending() == total.skip(full_records_len(total.len()) as int)
                &&& final(self).fed() == old(self).fed() + bytes@
                &&& final(self).released() == old(self).released() + plaintext@
            },
            r matches Err(e) ==> {
                &&& e == CryptoError::Authentication
                &&& final(self).pending() == old(self).pending()
                &&& final(self).fed() == old(self).fed()
                &&& final(self).released() == old(self).released()
            },
    {
        proof {
            use_type_invariant(&*self);
        }
        let mut total = self.staging.clone();
        assert(total@ =~= self.staging@);
        let mut more = slice_to_vec(bytes);
        total.append(&mut more);
        match open_leading(total.as_slice(), &self.key) {
            Some((plaintext, cut)) => {
                let rest = slice_to_vec(slice_subrange(total.as_slice(), cut, total.len()));
                let ghost fed = self.fed@ + bytes@;
                let ghost released = self.released@ + plaintext@;
                proof {
                    let old_done = self.fed@.len() - self.staging@.len();
                    let old_head = self.fed@.take(old_done);
                    let mid = total@.take(cut as int);
                    let done = fed.len() - rest@.len();
                    assert(fed =~= old_head + total@);
                    assert(fed.take(done) =~= old_head + mid);
                    assert(fed.skip(done) =~= rest@);
                    lemma_open_object_by_full_records(self.key@, total@);
                    lemma_leading_is_prefix(self.key@, total@);
                    lemma_full_records_are_an_object(self.key@, old_head);
                    lemma_full_records_are_an_object(self.key@, mid);
                    lemma_full_records_are_an_object(self.key@, old_head + mid);
                    lemma_open_object_concat(self.key@, old_head, mid);
                }
                *self = DecryptStream {
                    key: self.key,
                    staging: rest,
                    fed: Ghost(fed),
                    released: Ghost(released),
                };
                Ok(plaintext)
            },
            None => Err(CryptoError::Authentication),
        }
    }

    /// Ends the stream: opens what is pending as the final record.
    ///
    /// With nothing pending the result is empty. The plaintext released
    /// over the whole stream, this last piece included, is what the bytes
    /// taken in open to as one object; where the call fails, they do not
    /// open. Pending bytes too few for a record with plaintext are refused
    /// as malformed, others that do not authenticate as such.
    pub fn finish(self) -> (r: Result<Vec<u8>, CryptoError>)
        ensures
            r is Ok <==> open_object(self.key(), self.fed()) is Some,
            r matches Ok(last) ==> {
                &&& open_object(self.key(), self.pending()) == Some(last@)
                &&& open_object(self.key(), self.fed()) == Some(self.released() + last@)
            },
            r matches Err(e) ==> e == (if self.pending().len() <= RECORD_OVERHEAD {
                CryptoError::MalformedLength
            } else {
                CryptoError::Authentication
            }),
    {
        proof {
            use_type_invariant(&self);
            let done = self.fed@.len() - self.staging@.len();
            let head = self.fed@.take(done);
            lemma_full_records_are_an_object(self.key@, head);
            assert(self.fed@ =~= head + self.staging@);
            lemma_open_object_concat(self.key@, head, self.staging@);
        }
        if self.staging.len() == 0 {
            proof {
                assert(self.released@ + Seq::<u8>::empty() =~= self.released@);
            }
            return Ok(Vec::new());
        }
        if self.staging.len() <= RECORD_OVERHEAD {
            return Err(CryptoError::MalformedLength);
        }
        match open_chunk(self.staging.as_slice(), &self.key) {
            Some(plaintext) => Ok(plaintext),
            None => Err(CryptoError::Authentication),
        }
    }
}

/// The leading full records of a stream are themselves a run of full
/// records, and open to the same plaintext.
proof fn lemma_leading_is_prefix(key: Seq<u8>, bytes: Seq<u8>)
    ensures
        full_records_len(bytes.len()) <= bytes.len(),
        full_records_len(bytes.len()) % (RECORD_SIZE as nat) == 0,
        open_full_records(key, bytes.take(full_records_len(bytes.len()) as int))
            == open_full_records(key, bytes),
    decreases bytes.len(),
{
    let cut = full_records_len(bytes.len());
    if bytes.len() < RECORD_SIZE {
        assert(cut == 0);
    } else {
        let rest = bytes.skip(RECORD_SIZE as int);
        lemma_leading_is_prefix(key, rest);
        let rest_cut = full_records_len(rest.len());
        assert(cut == rest_cut + RECORD_SIZE);
        let lead = bytes.take(cut as int);
        assert(lead.take(RECORD_SIZE as int) =~= bytes.take(RECORD_SIZE as int));
        assert(lead.skip(RECORD_SIZE as int) =~= rest.take(rest_cut as int));
    }
}

} // verus!
