//! Measuring a directory: adding up the sizes of the files found under it.
use vstd::prelude::*;

verus! {

/// The exact sum of `lens`.
pub open spec fn sum_of(lens: Seq<u64>) -> nat
    decreases lens.len(),
{
    if lens.len() == 0 {
        0
    } else {
        sum_of(lens.drop_last()) + lens.last() as nat
    }
}

/// `n`, or `u64::MAX` when `n` does not fit.
pub open spec fn clamp(n: nat) -> u64 {
    if n > u64::MAX {
        u64::MAX
    } else {
        n as u64
    }
}

/// How many entries between two checks for a cancelled scan.
pub open spec fn cancel_check_interval() -> u64 {
    512
}

/// The running size of a directory being walked: the files' sizes added up
/// (saturating at `u64::MAX`) and the number of entries seen (saturating too).
pub struct DirSizeTally {
    total: u64,
    processed: u64,
    files: Ghost<Seq<u64>>,
    entries: Ghost<nat>,
}

impl DirSizeTally {
    #[verifier::type_invariant]
    spec fn tally_invariant(self) -> bool {
        &&& self.total == clamp(sum_of(self.files@))
        &&& self.processed == clamp(self.entries@)
    }

    /// The sizes of the files recorded so far.
    pub closed spec fn files(self) -> Seq<u64> {
        self.files@
    }

    /// The number of entries recorded so far.
    pub closed spec fn entries(self) -> nat {
        self.entries@
    }

    /// Nothing recorded yet.
    pub fn new() -> (r: Self)
        ensures
            r.files() == Seq::<u64>::empty(),
            r.entries() == 0,
    {
        DirSizeTally { total: 0, processed: 0, files: Ghost(Seq::empty()), entries: Ghost(0) }
    }

    /// Records one entry of the walk: `file_len` is the size of a regular
    /// file, `None` for anything else (or a file whose size is unknown).
    /// Answers whether a check for a cancelled scan is due now: on every
    /// 512th entry.
    pub fn record(&mut self, file_len: Option<u64>) -> (check_cancel: bool)
        ensures
            final(self).entries() == old(self).entries() + 1,
            final(self).files() == match file_len {
                Some(n) => old(self).files().push(n),
                None => old(self).files(),
            },
            check_cancel == (clamp(final(self).entries()) % cancel_check_interval() == 0),
    {
        proof {
            use_type_invariant(&*self);
        }
        let processed = self.processed.saturating_add(1);
        let ghost entries = self.entries@ + 1;
        let (total, files) = match file_len {
            Some(n) => {
                proof {
                    lemma_saturating_step(self.files@, n);
                }
                (self.total.saturating_add(n), Ghost(self.files@.push(n)))
            },
            None => (self.total, Ghost(self.files@)),
        };
        *self = DirSizeTally { total, processed, files, entries: Ghost(entries) };
        processed % 512 == 0
    }

    /// The size of the files recorded so far: their sum, or `u64::MAX` when
    /// it does not fit.
    pub fn total(&self) -> (r: u64)
        ensures
            r == clamp(sum_of(self.files())),
    {
        proof {
            use_type_invariant(self);
        }
        self.total
    }
}

/// Adding with saturation to a clamped sum gives the clamped larger sum.
pub proof fn lemma_saturating_step(lens: Seq<u64>, n: u64)
    ensures
        clamp(sum_of(lens.push(n))) == (if clamp(sum_of(lens)) + n > u64::MAX {
            u64::MAX
        } else {
            (clamp(sum_of(lens)) + n) as u64
        }),
{
    assert(lens.push(n).drop_last() =~= lens);
}

} // verus!
