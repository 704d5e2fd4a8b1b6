//! Uploads in parts.
//!
//! A large file is cut into parts of [`PART_SIZE`] bytes by offset, numbered
//! from one; the last part may be shorter. At most [`MAX_IN_FLIGHT`] parts
//! are on their way at any time. Parts finish in any order; the upload is
//! completed with their tags in the order of their numbers, and aborted as
//! soon as one part has failed.
//!
//! [`MultipartUpload`] decides; whoever drives it reads the file, talks to
//! the store and reports back what happened.

use vstd::prelude::*;
use crate::crypto::CHUNK_SIZE;
use crate::crypto::RECORD_SIZE;
use crate::crypto::lemma_open_object_concat;
use crate::crypto::open_object;
use crate::crypto::sealed_len;

verus! {

/// Number of bytes in every part but the last.
pub const PART_SIZE: u64 = 52428800;

/// Largest number of parts that are uploaded at the same time.
pub const MAX_IN_FLIGHT: usize = 6;

/// Number of parts that a file of `size` bytes is cut into.
pub open spec fn part_count(size: nat) -> nat {
    (size + PART_SIZE - 1) as nat / (PART_SIZE as nat)
}

/// Offset of part `number` in the file.
pub open spec fn part_offset(number: nat) -> nat {
    ((number - 1) * PART_SIZE) as nat
}

/// Length of part `number` of a file of `size` bytes.
pub open spec fn part_len(size: nat, number: nat) -> nat {
    if part_offset(number) + PART_SIZE <= size {
        PART_SIZE as nat
    } else {
        (size - part_offset(number)) as nat
    }
}

/// One part of a file: its number, and where it lies.
#[derive(Clone, Copy, Debug, PartialEq, Eq, Structural)]
pub struct PartSpan {
    /// Number of the part, counted from one.
    pub part_number: u64,
    /// Offset of the part's first byte in the file.
    pub offset: u64,
    /// Number of bytes in the part.
    pub len: u64,
}

/// The parts tile the file: every part of a file holds at least one byte and
/// at most [`PART_SIZE`], every part but the last is full, each part starts
/// where the one before ends, and the last part ends with the file.
pub proof fn lemma_parts_tile(size: nat, number: nat)
    requires
        1 <= number <= part_count(size),
    ensures
        part_offset(1) == 0,
        1 <= part_len(size, number) <= PART_SIZE,
        part_offset(number) + part_len(size, number) <= size,
        number < part_count(size) ==> part_len(size, number) == PART_SIZE,
        number < part_count(size) ==> part_offset(number + 1) == part_offset(number) + part_len(
            size,
            number,
        ),
        number == part_count(size) ==> part_offset(number) + part_len(size, number) == size,
{
    let count = part_count(size);
    assert(count * PART_SIZE >= size && (count - 1) * PART_SIZE < size) by (nonlinear_arith)
        requires
            count == (size + 52428800 - 1) as nat / 52428800,
            count >= 1,
    ;
    assert((number - 1) * PART_SIZE <= (count - 1) * PART_SIZE) by (nonlinear_arith)
        requires
            number <= count,
    ;
    if number < count {
        assert(number * PART_SIZE <= (count - 1) * PART_SIZE) by (nonlinear_arith)
            requires
                number <= count - 1,
        ;
    }
    assert(number * PART_SIZE == (number - 1) * PART_SIZE + PART_SIZE) by (nonlinear_arith);
}

/// Number of parts that a file of `size` bytes is cut into.
pub fn total_parts(size: u64) -> (count: u64)
    ensures
        count == part_count(size as nat),
{
    let full = size / PART_SIZE;
    if size % PART_SIZE == 0 {
        full
    } else {
        full + 1
    }
}

/// Where part `number` of a file of `size` bytes lies; `None` where the file
/// has no such part.
pub fn part_span(size: u64, number: u64) -> (r: Option<PartSpan>)
    ensures
        r is Some <==> 1 <= number <= part_count(size as nat),
        r matches Some(span) ==> {
            &&& span.part_number == number
            &&& span.offset == part_offset(number as nat)
            &&& span.len == part_len(size as nat, number as nat)
        },
{
    let count = total_parts(size);
    if number < 1 || number > count {
        return None;
    }
    proof {
        lemma_parts_tile(size as nat, number as nat);
    }
    let offset = (number - 1) * PART_SIZE;
    let len = if size - offset < PART_SIZE {
        size - offset
    } else {
        PART_SIZE
    };
    Some(PartSpan { part_number: number, offset, len })
}

/// The bytes of a sequence of parts, one after the other.
pub open spec fn concat_parts(parts: Seq<Seq<u8>>) -> Seq<u8>
    decreases parts.len(),
{
    if parts.len() == 0 {
        Seq::empty()
    } else {
        parts[0] + concat_parts(parts.skip(1))
    }
}

/// A full part is sealed into full records only.
pub proof fn lemma_full_part_seals_to_full_records()
    ensures
        sealed_len(PART_SIZE as nat) == 50 * RECORD_SIZE,
        sealed_len(PART_SIZE as nat) % (RECORD_SIZE as nat) == 0,
        PART_SIZE == 50 * CHUNK_SIZE,
{
}

/// An object uploaded in sealed parts opens to the file: where every part
/// but the last is full, and each sealed part opens to its part of the file,
/// the sealed parts one after the other open to the parts one after the
/// other.
pub proof fn lemma_sealed_parts_open_to_file(
    key: Seq<u8>,
    plain: Seq<Seq<u8>>,
    sealed: Seq<Seq<u8>>,
)
    requires
        plain.len() == sealed.len(),
        forall|i: int| 0 <= i < plain.len() - 1 ==> (#[trigger] plain[i]).len() == PART_SIZE,
        forall|i: int|
            0 <= i < plain.len() ==> (#[trigger] sealed[i]).len() == sealed_len(plain[i].len()),
        forall|i: int|
            0 <= i < plain.len() ==> open_object(key, #[trigger] sealed[i]) == Some(plain[i]),
    ensures
        open_object(key, concat_parts(sealed)) == Some(concat_parts(plain)),
    decreases plain.len(),
{
    if plain.len() > 0 {
        let rest_plain = plain.skip(1);
        let rest_sealed = sealed.skip(1);
        assert forall|i: int| 0 <= i < rest_plain.len() - 1 implies (#[trigger] rest_plain[i]).len()
            == PART_SIZE by {
            assert(rest_plain[i] == plain[i + 1]);
        }
        assert forall|i: int| 0 <= i < rest_plain.len() implies (#[trigger] rest_sealed[i]).len()
            == sealed_len(rest_plain[i].len()) by {
            assert(rest_sealed[i] == sealed[i + 1]);
            assert(rest_plain[i] == plain[i + 1]);
        }
        assert forall|i: int| 0 <= i < rest_plain.len() implies open_object(
            key,
            #[trigger] rest_sealed[i],
        ) == Some(rest_plain[i]) by {
            assert(rest_sealed[i] == sealed[i + 1]);
            assert(rest_plain[i] == plain[i + 1]);
        }
        lemma_sealed_parts_open_to_file(key, rest_plain, rest_sealed);
        if plain.len() == 1 {
            assert(concat_parts(rest_sealed) =~= Seq::<u8>::empty());
            assert(concat_parts(rest_plain) =~= Seq::<u8>::empty());
            assert(concat_parts(sealed) =~= sealed[0]);
            assert(concat_parts(plain) =~= plain[0]);
        } else {
            assert(plain[0].len() == PART_SIZE);
            lemma_full_part_seals_to_full_records();
            lemma_open_object_concat(key, sealed[0], concat_parts(rest_sealed));
        }
    }
}

/// A part that the store has taken: its number and the tag the store gave.
#[derive(Debug)]
pub struct CompletedPart {
    /// Number of the part, counted from one.
    pub part_number: u64,
    /// The tag that the store returned for the part.
    pub etag: String,
}

/// What to do next in an upload.
#[derive(Clone, Copy, Debug, PartialEq, Eq, Structural)]
pub enum UploadStep {
    /// Read this part of the file and send it off; it now counts as on its
    /// way.
    Dispatch(PartSpan),
    /// Nothing can be started: wait until a part on its way has finished.
    Wait,
    /// Every part has been taken: complete the upload.
    Complete,
    /// A part has failed: abort the upload.
    Abort,
}

/// Number of parts on their way: those dispatched whose tag is still
/// missing.
pub open spec fn count_pending(tags: Seq<Option<Seq<char>>>) -> nat
    decreases tags.len(),
{
    if tags.len() == 0 {
        0
    } else {
        count_pending(tags.drop_last()) + if tags.last() is None {
            1nat
        } else {
            0nat
        }
    }
}

/// Without a part on its way, every tag is there.
pub proof fn lemma_none_pending(tags: Seq<Option<Seq<char>>>)
    requires
        count_pending(tags) == 0,
    ensures
        forall|i: int| 0 <= i < tags.len() ==> (#[trigger] tags[i]) is Some,
    decreases tags.len(),
{
    if tags.len() > 0 {
        lemma_none_pending(tags.drop_last());
        assert forall|i: int| 0 <= i < tags.len() implies (#[trigger] tags[i]) is Some by {
            if i < tags.len() - 1 {
                assert(tags.drop_last()[i] == tags[i]);
            }
        }
    }
}

/// Filling in a missing tag takes one part off the way.
proof fn lemma_fill_pending(tags: Seq<Option<Seq<char>>>, i: int, tag: Seq<char>)
    requires
        0 <= i < tags.len(),
        tags[i] is None,
    ensures
        count_pending(tags.update(i, Some(tag))) + 1 == count_pending(tags),
    decreases tags.len(),
{
    let after = tags.update(i, Some(tag));
    if i == tags.len() - 1 {
        assert(after.drop_last() =~= tags.drop_last());
    } else {
        lemma_fill_pending(tags.drop_last(), i, tag);
        assert(after.drop_last() =~= tags.drop_last().update(i, Some(tag)));
    }
}

/// The tags of a vector of slots.
pub open spec fn tags_of(slots: Seq<Option<String>>) -> Seq<Option<Seq<char>>> {
    Seq::new(
        slots.len(),
        |i: int|
            match slots[i] {
                Some(tag) => Some(tag@),
                None => None,
            },
    )
}

/// The state of one upload in parts.
pub struct MultipartUpload {
    file_size: u64,
    total: u64,
    slots: Vec<Option<String>>,
    in_flight: usize,
    failed: bool,
}

impl MultipartUpload {
    /// Size of the file in bytes.
    pub closed spec fn file_size(&self) -> nat {
        self.file_size as nat
    }

    /// For every part dispatched so far, in the order of the numbers: the
    /// tag that the store returned, or `None` while the part is on its way.
    pub closed spec fn tags(&self) -> Seq<Option<Seq<char>>> {
        tags_of(self.slots@)
    }

    /// Whether a part has failed.
    pub closed spec fn failed(&self) -> bool {
        self.failed
    }

    /// Number of parts dispatched so far.
    pub open spec fn dispatched(&self) -> nat {
        self.tags().len()
    }

    /// Number of parts on their way.
    pub open spec fn in_flight(&self) -> nat {
        count_pending(self.tags())
    }

    #[verifier::type_invariant]
    spec fn inv(&self) -> bool {
        &&& self.total == part_count(self.file_size as nat)
        &&& self.slots@.len() <= self.total
        &&& self.in_flight == count_pending(tags_of(self.slots@))
        &&& self.in_flight <= MAX_IN_FLIGHT
    }

    /// An upload of a file of `file_size` bytes, with nothing dispatched.
    pub fn new(file_size: u64) -> (upload: MultipartUpload)
        ensures
            upload.file_size() == file_size,
            upload.tags() == Seq::<Option<Seq<char>>>::empty(),
            upload.in_flight() == 0,
            !upload.failed(),
    {
        let slots: Vec<Option<String>> = Vec::new();
        proof {
            assert(tags_of(slots@) =~= Seq::<Option<Seq<char>>>::empty());
        }
        MultipartUpload {
            file_size,
            total: total_parts(file_size),
            slots,
            in_flight: 0,
            failed: false,
        }
    }

    /// Number of parts of the file.
    pub fn total_parts(&self) -> (count: u64)
        ensures
            count == part_count(self.file_size()),
    {
        proof {
            use_type_invariant(self);
        }
        self.total
    }

    /// Decides what to do next.
    ///
    /// After a failure the upload is aborted. Otherwise the next part is
    /// dispatched while parts are left and fewer than [`MAX_IN_FLIGHT`] are
    /// on their way; with none left to start, the upload waits for those on
    /// their way and is completed once there are none.
    pub fn next_step(&mut self) -> (step: UploadStep)
        ensures
            final(self).file_size() == old(self).file_size(),
            final(self).failed() == old(self).failed(),
            step == (if old(self).failed() {
                UploadStep::Abort
            } else if old(self).dispatched() < part_count(old(self).file_size()) && old(
                self,
            ).in_flight() < MAX_IN_FLIGHT {
                UploadStep::Dispatch(
                    PartSpan {
                        part_number: (old(self).dispatched() + 1) as u64,
                        offset: part_offset(old(self).dispatched() + 1) as u64,
                        len: part_len(old(self).file_size(), old(self).dispatched() + 1) as u64,
                    },
                )
            } else if old(self).in_flight() > 0 {
                UploadStep::Wait
            } else {
                UploadStep::Complete
            }),
            step is Dispatch ==> final(self).tags() == old(self).tags().push(None),
            step is Dispatch ==> final(self).in_flight() == old(self).in_flight() + 1,
            old(self).in_flight() <= MAX_IN_FLIGHT,
            final(self).in_flight() <= MAX_IN_FLIGHT,
            final(self).dispatched() <= part_count(final(self).file_size()),
            !(step is Dispatch) ==> final(self).tags() == old(self).tags(),
            step is Complete ==> final(self).dispatched() == part_count(final(self).file_size())
                && forall|i: int|
                0 <= i < final(self).tags().len() ==> (#[trigger] final(self).tags()[i]) is Some,
    {
        proof {
            use_type_invariant(&*self);
        }
        if self.failed {
            return UploadStep::Abort;
        }
        let dispatched = self.slots.len() as u64;
        if dispatched < self.total && self.in_flight < MAX_IN_FLIGHT {
            let number = dispatched + 1;
            match part_span(self.file_size, number) {
                Some(span) => {
                    let ghost before = self.slots@;
                    let mut state = MultipartUpload::new(0);
                    std::mem::swap(self, &mut state);
                    let MultipartUpload { file_size, total, mut slots, in_flight, failed } = state;
                    slots.push(None);
                    proof {
                        assert(tags_of(slots@) =~= tags_of(before).push(None));
                        assert(tags_of(slots@).drop_last() =~= tags_of(before));
                    }
                    *self = MultipartUpload {
                        file_size,
                        total,
                        slots,
                        in_flight: in_flight + 1,
                        failed,
                    };
                    UploadStep::Dispatch(span)
                },
                None => UploadStep::Abort,
            }
        } else if self.in_flight > 0 {
            UploadStep::Wait
        } else {
            proof {
                lemma_none_pending(tags_of(self.slots@));
            }
            UploadStep::Complete
        }
    }

    /// Takes note that the store has taken a part and returned a tag for
    /// it. A report for a part that is not on its way counts as a failure.
    pub fn part_done(&mut self, part_number: u64, etag: String)
        ensures
            final(self).file_size() == old(self).file_size(),
            if 1 <= part_number <= old(self).dispatched() && old(self).tags()[part_number - 1]
                is None {
                &&& final(self).tags() == old(self).tags().update(part_number - 1, Some(etag@))
                &&& final(self).failed() == old(self).failed()
                &&& final(self).in_flight() + 1 == old(self).in_flight()
            } else {
                &&& final(self).tags() == old(self).tags()
                &&& final(self).failed()
            },
            final(self).in_flight() <= MAX_IN_FLIGHT,
            final(self).dispatched() <= part_count(final(self).file_size()),
    {
        proof {
            use_type_invariant(&*self);
        }
        let ghost before = self.slots@;
        let mut state = MultipartUpload::new(0);
        std::mem::swap(self, &mut state);
        let MultipartUpload { file_size, total, mut slots, in_flight, failed } = state;
        let known = 1 <= part_number && part_number <= slots.len() as u64;
        if known && slots[(part_number - 1) as usize].is_none() {
            let ghost tag = etag@;
            slots.set((part_number - 1) as usize, Some(etag));
            proof {
                assert(tags_of(slots@) =~= tags_of(before).update(part_number - 1, Some(tag)));
                lemma_fill_pending(tags_of(before), part_number - 1, tag);
            }
            *self = MultipartUpload { file_size, total, slots, in_flight: in_flight - 1, failed };
        } else {
            *self = MultipartUpload { file_size, total, slots, in_flight, failed: true };
        }
    }

    /// Takes note that a part has failed: the upload is to be aborted.
    pub fn part_failed(&mut self)
        ensures
            final(self).file_size() == old(self).file_size(),
            final(self).tags() == old(self).tags(),
            final(self).failed(),
    {
        proof {
            use_type_invariant(&*self);
        }
        let mut state = MultipartUpload::new(0);
        std::mem::swap(self, &mut state);
        let MultipartUpload { file_size, total, slots, in_flight, failed } = state;
        *self = MultipartUpload { file_size, total, slots, in_flight, failed: true };
    }

    /// Whether the upload is ready to be completed: nothing has failed,
    /// every part of the file has been dispatched and none is on its way.
    pub open spec fn is_complete(&self) -> bool {
        &&& !self.failed()
        &&& self.dispatched() == part_count(self.file_size())
        &&& self.in_flight() == 0
    }

    /// The parts to complete the upload with: one for every part of the
    /// file, in the order of their numbers, which run from one without a
    /// gap. `None` while the upload is not ready to be completed.
    pub fn into_parts(self) -> (r: Option<Vec<CompletedPart>>)
        ensures
            r is Some <==> self.is_complete(),
            r matches Some(parts) ==> {
                &&& parts@.len() == part_count(self.file_size())
                &&& forall|i: int|
                    0 <= i < parts@.len() ==> {
                        &&& (#[trigger] parts@[i]).part_number == i + 1
                        &&& self.tags()[i] == Some(parts@[i].etag@)
                    }
            },
    {
        proof {
            use_type_invariant(&self);
        }
        if self.failed || self.slots.len() as u64 != self.total || self.in_flight != 0 {
            return None;
        }
        proof {
            lemma_none_pending(tags_of(self.slots@));
        }
        let mut parts: Vec<CompletedPart> = Vec::new();
        let mut i: usize = 0;
        while i < self.slots.len()
            invariant
                i <= self.slots@.len(),
                self.slots@.len() <= u64::MAX,
                parts@.len() == i,
                forall|j: int| 0 <= j < self.slots@.len() ==> (#[trigger] tags_of(self.slots@)[j]) is Some,
                forall|j: int|
                    0 <= j < i ==> {
                        &&& (#[trigger] parts@[j]).part_number == j + 1
                        &&& tags_of(self.slots@)[j] == Some(parts@[j].etag@)
                    },
            decreases self.slots@.len() - i,
        {
            assert(tags_of(self.slots@)[i as int] is Some);
            match &self.slots[i] {
                Some(tag) => {
                    parts.push(CompletedPart { part_number: i as u64 + 1, etag: tag.clone() });
                },
                None => {},
            }
            i += 1;
        }
        Some(parts)
    }
}

} // verus!
