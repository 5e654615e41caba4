//! The training driver's decisions: shuffle the file list once per epoch,
//! hand it out in fixed-size batches — the caller checkpoints after each —
//! and score top-1 accuracy on a test pass.

use rand::seq::SliceRandom;
use vstd::prelude::*;

verus! {

/// How many samples a mini-batch holds before the next checkpoint.
pub const BATCH_SIZE: usize = 100;

/// Relies on `rand::seq::SliceRandom::shuffle` with `rand::rng()`: a shuffle
/// permutes the slice in place, so the entries form the same multiset; what
/// order comes out is left open.
#[verifier::external_body]
fn shuffle_strings(files: &mut Vec<String>)
    ensures
        final(files)@.to_multiset() == old(files)@.to_multiset(),
        final(files)@.len() == old(files)@.len(),
{
    files.shuffle(&mut rand::rng());
}

/// Walks one epoch after another over a set of training files: each epoch
/// shuffles the list and hands out batches of at most `BATCH_SIZE` files, in
/// order, without gaps or overlap.
pub struct Trainer {
    pub files: Vec<String>,
    pub pos: usize,
}

impl Trainer {
    /// The cursor never passes the end of the list.
    pub open spec fn wf(&self) -> bool {
        self.pos <= self.files@.len()
    }

    /// A driver over `files`, before its first epoch.
    pub fn new(files: Vec<String>) -> (r: Trainer)
        ensures
            r.wf(),
            r.files@ == files@,
            r.pos == 0,
    {
        Trainer { files, pos: 0 }
    }

    /// Begins an epoch: shuffles the file list — keeping exactly the same
    /// files — and rewinds the batch cursor.
    pub fn start_epoch(&mut self)
        ensures
            final(self).wf(),
            final(self).files@.to_multiset() == old(self).files@.to_multiset(),
            final(self).files@.len() == old(self).files@.len(),
            final(self).pos == 0,
    {
        shuffle_strings(&mut self.files);
        self.pos = 0;
    }

    /// The next batch: the half-open index window of at most `BATCH_SIZE`
    /// files at the cursor, or nothing once the epoch is exhausted. The
    /// window starts where the last one ended and the cursor moves to its
    /// end, so an epoch's batches tile the whole list.
    pub fn next_batch(&mut self) -> (r: Option<(usize, usize)>)
        requires
            old(self).wf(),
        ensures
            final(self).wf(),
            final(self).files@ == old(self).files@,
            old(self).pos == old(self).files@.len() ==> r is None && final(self).pos == old(
                self,
            ).pos,
            old(self).pos < old(self).files@.len() ==> (r matches Some(b) && b.0 == old(self).pos
                && b.1 == (if old(self).pos + BATCH_SIZE <= old(self).files@.len() {
                old(self).pos + BATCH_SIZE
            } else {
                old(self).files@.len() as int
            }) && b.0 < b.1 <= final(self).files@.len() && final(self).pos == b.1),
    {
        if self.pos == self.files.len() {
            return None;
        }
        let start = self.pos;
        let end = if self.files.len() - self.pos >= BATCH_SIZE {
            self.pos + BATCH_SIZE
        } else {
            self.files.len()
        };
        self.pos = end;
        Some((start, end))
    }
}

/// How many of the first `k` pairs agree: a guessed class beside the true
/// label.
pub open spec fn count_matches(pairs: Seq<(usize, usize)>, k: int) -> int
    decreases k,
{
    if k <= 0 {
        0
    } else {
        count_matches(pairs, k - 1) + (if pairs[k - 1].0 == pairs[k - 1].1 {
            1int
        } else {
            0int
        })
    }
}

/// Top-1 accuracy scoring: of the `(guessed, actual)` pairs of a test pass,
/// how many agree.
pub fn count_correct(pairs: &Vec<(usize, usize)>) -> (r: usize)
    ensures
        r == count_matches(pairs@, pairs@.len() as int),
        r <= pairs@.len(),
{
    let mut r: usize = 0;
    let mut k: usize = 0;
    while k < pairs.len()
        invariant
            0 <= k <= pairs@.len(),
            r == count_matches(pairs@, k as int),
            r <= k,
        decreases pairs@.len() - k,
    {
        if pairs[k].0 == pairs[k].1 {
            r = r + 1;
        }
        k = k + 1;
    }
    r
}

} // verus!
