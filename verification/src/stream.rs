//! Live log following.  A follower first sends a snapshot page, then the
//! lines published after it; a line already covered by the snapshot or
//! already sent is skipped, so snapshot and live tail join without
//! duplicates.  Sequence 0 marks lines from sources without a durable cursor
//! and is always forwarded.

use vstd::prelude::*;

use crate::journal::LogLine;

verus! {

/// Whether a live line must be skipped: it carries a cursor that the
/// snapshot (up to `high_watermark`) or an earlier line (up to `last`)
/// already covered.
pub open spec fn covered(high_watermark: u64, last: u64, sequence: u64) -> bool {
    sequence != 0 && (sequence <= high_watermark || sequence <= last)
}

/// The last sequence sent after forwarding `sequence`.
pub open spec fn advanced(last: u64, sequence: u64) -> u64 {
    if sequence > last {
        sequence
    } else {
        last
    }
}

/// The live sequences that a follower forwards, in order, out of the
/// published sequences `published`.
pub open spec fn forwarded(high_watermark: u64, last: u64, published: Seq<u64>) -> Seq<u64>
    decreases published.len(),
{
    if published.len() == 0 {
        Seq::empty()
    } else {
        let s = published[0];
        if covered(high_watermark, last, s) {
            forwarded(high_watermark, last, published.drop_first())
        } else {
            seq![s] + forwarded(high_watermark, advanced(last, s), published.drop_first())
        }
    }
}

/// Position of a live log follower.
#[derive(Debug, Clone, Copy, PartialEq, Eq, Structural)]
pub struct LogFollow {
    /// Last durable sequence of the snapshot page.
    pub high_watermark: u64,
    /// Greatest sequence sent so far (0 before any).
    pub last_sequence: u64,
}

impl LogFollow {
    /// The follower after sending `page` (whose boundary is
    /// `high_watermark`): it resumes from the page's last line.
    pub fn after_page(page: &Vec<LogLine>, high_watermark: u64) -> (r: Self)
        ensures
            r.high_watermark == high_watermark,
            r.last_sequence == (if page@.len() == 0 {
                0
            } else {
                page@.last().sequence
            }),
    {
        let last_sequence: u64 = if page.len() == 0 {
            0
        } else {
            page[page.len() - 1].sequence
        };
        LogFollow { high_watermark, last_sequence }
    }

    /// Decides whether the live line with `sequence` is sent, and records it
    /// when it is.
    pub fn accept(&mut self, sequence: u64) -> (forward: bool)
        ensures
            forward == !covered(old(self).high_watermark, old(self).last_sequence, sequence),
            final(self).high_watermark == old(self).high_watermark,
            final(self).last_sequence == (if forward {
                advanced(old(self).last_sequence, sequence)
            } else {
                old(self).last_sequence
            }),
    {
        if sequence != 0 && (sequence <= self.high_watermark || sequence <= self.last_sequence) {
            return false;
        }
        if sequence > self.last_sequence {
            self.last_sequence = sequence;
        }
        true
    }
}

/// Every forwarded cursor lies beyond both the snapshot boundary and what
/// was already sent.
pub proof fn lemma_forwarded_beyond(high_watermark: u64, last: u64, published: Seq<u64>)
    ensures
        forall|k: int|
            0 <= k < forwarded(high_watermark, last, published).len() && #[trigger] forwarded(
                high_watermark,
                last,
                published,
            )[k] != 0 ==> forwarded(high_watermark, last, published)[k] > high_watermark
                && forwarded(high_watermark, last, published)[k] > last,
    decreases published.len(),
{
    if published.len() > 0 {
        let s = published[0];
        let rest = published.drop_first();
        if covered(high_watermark, last, s) {
            lemma_forwarded_beyond(high_watermark, last, rest);
            assert(forwarded(high_watermark, last, published) == forwarded(high_watermark, last, rest));
        } else {
            lemma_forwarded_beyond(high_watermark, advanced(last, s), rest);
            let f = forwarded(high_watermark, last, published);
            let g = forwarded(high_watermark, advanced(last, s), rest);
            assert(f == seq![s] + g);
            assert forall|k: int| 0 <= k < f.len() && #[trigger] f[k] != 0 implies f[k] > high_watermark
                && f[k] > last by {
                if k > 0 {
                    assert(f[k] == g[k - 1]);
                    assert(g[k - 1] > advanced(last, s));
                } else {
                    assert(f[k] == s);
                }
            }
        }
    }
}

/// Snapshot and live tail join without duplicates: the cursors a follower
/// forwards after its snapshot are all beyond the snapshot boundary and
/// strictly increasing.
pub proof fn lemma_follow_no_duplicates(high_watermark: u64, last: u64, published: Seq<u64>)
    ensures
        forall|i: int, j: int|
            #![trigger forwarded(high_watermark, last, published)[i], forwarded(high_watermark, last, published)[j]]
            0 <= i < j < forwarded(high_watermark, last, published).len() && forwarded(
                high_watermark,
                last,
                published,
            )[i] != 0 && forwarded(high_watermark, last, published)[j] != 0 ==> forwarded(
                high_watermark,
                last,
                published,
            )[i] < forwarded(high_watermark, last, published)[j],
        forall|k: int|
            0 <= k < forwarded(high_watermark, last, published).len() && #[trigger] forwarded(
                high_watermark,
                last,
                published,
            )[k] != 0 ==> forwarded(high_watermark, last, published)[k] > high_watermark,
    decreases published.len(),
{
    lemma_forwarded_beyond(high_watermark, last, published);
    if published.len() > 0 {
        let s = published[0];
        let rest = published.drop_first();
        if covered(high_watermark, last, s) {
            lemma_follow_no_duplicates(high_watermark, last, rest);
            assert(forwarded(high_watermark, last, published) == forwarded(high_watermark, last, rest));
        } else {
            let next = advanced(last, s);
            lemma_follow_no_duplicates(high_watermark, next, rest);
            lemma_forwarded_beyond(high_watermark, next, rest);
            let f = forwarded(high_watermark, last, published);
            let g = forwarded(high_watermark, next, rest);
            assert(f == seq![s] + g);
            assert forall|i: int, j: int|
                0 <= i < j < f.len() && f[i] != 0 && f[j] != 0 implies #[trigger] f[i] < #[trigger] f[j] by {
                assert(f[j] == g[j - 1]);
                if i > 0 {
                    assert(f[i] == g[i - 1]);
                } else {
                    assert(f[i] == s);
                    assert(g[j - 1] > next);
                }
            }
        }
    }
}

} // verus!
