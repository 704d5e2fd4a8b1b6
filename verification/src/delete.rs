//! Deletion: one object, or everything under a prefix.
//!
//! A folder is deleted by listing its prefix page by page and deleting the
//! keys of every page in batches of at most [`DELETE_BATCH`].

use vstd::prelude::*;

verus! {

/// Largest number of keys that one delete request may carry.
pub const DELETE_BATCH: usize = 1000;

/// What a delete command asks the store to do.
#[derive(Clone, Copy, Debug, PartialEq, Eq, Structural)]
pub enum DeleteKind {
    /// Delete the one object with the key.
    Object,
    /// Delete every object whose key begins with the key.
    Prefix,
}

/// What a delete command asks for: a folder is deleted as a prefix,
/// anything else as one object.
pub fn delete_file(is_folder: bool) -> (kind: DeleteKind)
    ensures
        kind == (if is_folder {
            DeleteKind::Prefix
        } else {
            DeleteKind::Object
        }),
{
    if is_folder {
        DeleteKind::Prefix
    } else {
        DeleteKind::Object
    }
}

/// The keys of a sequence of batches, one batch after the other.
pub open spec fn concat_batches(batches: Seq<Vec<String>>) -> Seq<String>
    decreases batches.len(),
{
    if batches.len() == 0 {
        Seq::empty()
    } else {
        concat_batches(batches.drop_last()) + batches.last()@
    }
}

/// Whether `batches` cut `keys` into delete requests: the batches hold the
/// keys in order, none is empty, none holds more than [`DELETE_BATCH`], and
/// every batch but the last is full.
pub open spec fn are_delete_batches(batches: Seq<Vec<String>>, keys: Seq<String>) -> bool {
    &&& concat_batches(batches) == keys
    &&& forall|i: int| 0 <= i < batches.len() ==> 1 <= (#[trigger] batches[i])@.len() <= DELETE_BATCH
    &&& forall|i: int| 0 <= i < batches.len() - 1 ==> (#[trigger] batches[i])@.len() == DELETE_BATCH
}

/// Number of batches that `n` keys are cut into.
pub open spec fn batch_count(n: nat) -> nat {
    (n + DELETE_BATCH - 1) as nat / (DELETE_BATCH as nat)
}

/// Cuts the keys of one page of a prefix into delete requests of at most
/// [`DELETE_BATCH`] keys. No keys give no request.
pub fn delete_prefix(keys: Vec<String>) -> (batches: Vec<Vec<String>>)
    ensures
        are_delete_batches(batches@, keys@),
        batches@.len() == batch_count(keys@.len()),
{
    let ghost all = keys@;
    let mut rest = keys;
    let mut batches: Vec<Vec<String>> = Vec::new();
    while rest.len() > DELETE_BATCH
        invariant
            concat_batches(batches@) + rest@ == all,
            forall|i: int| 0 <= i < batches@.len() ==> (#[trigger] batches@[i])@.len() == DELETE_BATCH,
            batches@.len() * DELETE_BATCH + rest@.len() == all.len(),
        decreases rest@.len(),
    {
        let ghost prior = batches@;
        let ghost whole = rest@;
        let tail = rest.split_off(DELETE_BATCH);
        let batch = rest;
        rest = tail;
        batches.push(batch);
        proof {
            assert(batches@.drop_last() =~= prior);
            assert(whole =~= batch@ + rest@);
            assert(concat_batches(batches@) + rest@ =~= concat_batches(prior) + whole);
            assert forall|i: int| 0 <= i < batches@.len() implies (#[trigger] batches@[i])@.len()
                == DELETE_BATCH by {
                if i < prior.len() {
                    assert(batches@[i] == prior[i]);
                }
            }
            assert((prior.len() + 1) * DELETE_BATCH == prior.len() * DELETE_BATCH + DELETE_BATCH)
                by (nonlinear_arith);
        }
    }
    let ghost full = batches@.len();
    proof {
        assert(batch_count(all.len()) == full + (if rest@.len() > 0 {
            1nat
        } else {
            0nat
        })) by (nonlinear_arith)
            requires
                full * 1000 + rest@.len() == all.len(),
                rest@.len() <= 1000,
        ;
    }
    if rest.len() > 0 {
        let ghost prior = batches@;
        let ghost last = rest@;
        batches.push(rest);
        proof {
            assert(batches@.drop_last() =~= prior);
            assert forall|i: int| 0 <= i < batches@.len() implies 1 <= (#[trigger] batches@[i])@.len()
                <= DELETE_BATCH by {
                if i < prior.len() {
                    assert(batches@[i] == prior[i]);
                }
            }
            assert forall|i: int| 0 <= i < batches@.len() - 1 implies (#[trigger] batches@[i])@.len()
                == DELETE_BATCH by {
                assert(batches@[i] == prior[i]);
            }
        }
    } else {
        proof {
            assert(concat_batches(batches@) + rest@ =~= concat_batches(batches@));
        }
    }
    batches
}

} // verus!
