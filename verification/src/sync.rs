//! The batch sync engine: partitions a deduplicated track sequence into
//! bounded chunks, tracks the outcome of each chunk's write, and renders the
//! progress bar.  A failed chunk is recorded and the remaining chunks are
//! still attempted; the error list is reconciled only after every chunk has
//! been tried.

use vstd::prelude::*;
use vstd::string::StringExecFns;

use crate::render::{push_repeated, repeat_seq};

verus! {

/// The per-call item ceiling of the remote write endpoint is one hundred;
/// half of it is used, because requests near the ceiling can exceed
/// transport-level URL length limits even while honouring the item count.
pub const CHUNK_SIZE: usize = 50;

/// Width of the progress bar, in cells.
pub const BAR_WIDTH: usize = 40;

/// The sequences behind a run of chunks.
pub open spec fn chunk_views(cs: Seq<Vec<String>>) -> Seq<Seq<String>> {
    cs.map_values(|c: Vec<String>| c@)
}

/// Partitions `tracks` into chunks of `chunk_size`, the last chunk possibly
/// smaller, preserving order and content.  The number of chunks is the
/// number of write calls a sync will issue.
pub fn chunk_tracks(tracks: &Vec<String>, chunk_size: usize) -> (chunks: Vec<Vec<String>>)
    requires
        chunk_size >= 1,
    ensures
        chunk_views(chunks@).flatten() == tracks@,
        chunks@.len() == (tracks@.len() + chunk_size - 1) / (chunk_size as int),
        forall|j: int| 0 <= j < chunks@.len() - 1
            ==> (#[trigger] chunks@[j])@.len() == chunk_size,
        chunks@.len() > 0 ==> chunks@.last()@.len() == (
            if tracks@.len() as int % (chunk_size as int) == 0 {
                chunk_size as int
            } else {
                tracks@.len() as int % (chunk_size as int)
            }
        ),
    {
    let total = tracks.len();
    let mut chunks: Vec<Vec<String>> = Vec::new();
    let mut i: usize = 0;
    proof {
        assert(chunk_views(chunks@).flatten() =~= tracks@.take(0));
    }
    while i < total
        invariant
            chunk_size >= 1,
            total == tracks@.len(),
            i <= total,
            chunk_views(chunks@).flatten() == tracks@.take(i as int),
            i == chunks@.len() * chunk_size || (i == total && chunks@.len() >= 1
                && i > (chunks@.len() - 1) * chunk_size),
            i < total ==> i == chunks@.len() * chunk_size,
            i <= chunks@.len() * chunk_size,
            forall|j: int| 0 <= j < chunks@.len() - 1
                ==> (#[trigger] chunks@[j])@.len() == chunk_size,
            chunks@.len() > 0 ==> chunks@.last()@.len()
                == i - (chunks@.len() - 1) * chunk_size,
        decreases total - i,
    {
        let m = if total - i < chunk_size {
            total - i
        } else {
            chunk_size
        };
        proof {
            // The chunk being closed out was full, so every chunk but the
            // newest stays full once the new one is pushed.
            if chunks@.len() >= 1 {
                assert(chunks@.len() * chunk_size - (chunks@.len() - 1) * chunk_size
                    == chunk_size) by (nonlinear_arith);
            }
        }
        let mut chunk: Vec<String> = Vec::new();
        let mut k: usize = 0;
        while k < m
            invariant
                i + m <= total,
                total == tracks@.len(),
                k <= m,
                chunk@ == tracks@.subrange(i as int, i + k),
            decreases m - k,
        {
            chunk.push(tracks[i + k].clone());
            proof {
                assert(chunk@ =~= tracks@.subrange(i as int, i + k + 1));
            }
            k = k + 1;
        }
        proof {
            let old_views = chunk_views(chunks@);
            assert(chunk_views(chunks@.push(chunk)) =~= old_views.push(chunk@));
            Seq::lemma_flatten_push(old_views, chunk@);
            assert(tracks@.take(i as int) + tracks@.subrange(i as int, i + m)
                =~= tracks@.take(i + m));
            assert((chunks@.len() + 1) * chunk_size
                == chunks@.len() * chunk_size + chunk_size) by (nonlinear_arith);
        }
        chunks.push(chunk);
        i = i + m;
    }
    proof {
        assert(tracks@.take(total as int) =~= tracks@);
        let n = chunks@.len() as int;
        let c = chunk_size as int;
        let l = total as int;
        if l == 0 {
            assert(n == 0) by (nonlinear_arith)
                requires n * c == 0, c >= 1, n >= 0;
            assert((l + c - 1) / c == 0) by (nonlinear_arith)
                requires c >= 1, l == 0;
        } else if l == n * c {
            // Every chunk is full; the ceiling of l / c is exactly n.
            assert((n * c + c - 1) / c == n && (n * c) % c == 0 && n >= 1
                && n * c - (n - 1) * c == c) by (nonlinear_arith)
                requires c >= 1, n >= 0, n * c == l, l > 0;
            assert(chunks@.last()@.len() == l - (n - 1) * c);
        } else {
            // The last chunk is partial: l == (n - 1) * c + r with 0 < r < c.
            assert(n >= 1);
            let r = l - (n - 1) * c;
            assert(r > 0);
            assert((n - 1) * c + c == n * c) by (nonlinear_arith);
            assert(r < c);
            assert((l + c - 1) / c == n && l % c == r) by (nonlinear_arith)
                requires
                    c >= 1,
                    n >= 1,
                    l == (n - 1) * c + r,
                    0 < r < c;
        }
    }
    chunks
}

/// One failed chunk write: the chunk's position in the run, and the error's
/// rendering, kept for end-of-batch reporting.
pub struct ChunkFailure {
    pub chunk_index: usize,
    pub message: String,
}

/// The failure records as mathematical pairs of index and message.
pub open spec fn failure_views(fs: Seq<ChunkFailure>) -> Seq<(int, Seq<char>)> {
    fs.map_values(|f: ChunkFailure| (f.chunk_index as int, f.message@))
}

/// The failure records that a run of outcomes starting at chunk `base`
/// produces: one entry per failed outcome, in order.  `None` is a success;
/// `Some` carries the failure's message.
pub open spec fn failures_of(outcomes: Seq<Option<String>>, base: int) -> Seq<(int, Seq<char>)>
    decreases outcomes.len(),
{
    if outcomes.len() == 0 {
        Seq::empty()
    } else {
        failures_of(outcomes.drop_last(), base) + (match outcomes.last() {
            Some(m) => seq![(base + outcomes.len() - 1, m@)],
            None => Seq::<(int, Seq<char>)>::empty(),
        })
    }
}

/// How many outcomes in a run succeeded.
pub open spec fn successes_in(outcomes: Seq<Option<String>>) -> int
    decreases outcomes.len(),
{
    if outcomes.len() == 0 {
        0
    } else {
        successes_in(outcomes.drop_last()) + (if outcomes.last() is None {
            1int
        } else {
            0int
        })
    }
}

pub proof fn lemma_successes_bounds(outcomes: Seq<Option<String>>)
    ensures
        0 <= successes_in(outcomes) <= outcomes.len(),
    decreases outcomes.len(),
{
    if outcomes.len() > 0 {
        lemma_successes_bounds(outcomes.drop_last());
    }
}

pub proof fn lemma_failures_of_push(outcomes: Seq<Option<String>>, base: int, x: Option<String>)
    ensures
        failures_of(outcomes.push(x), base) == failures_of(outcomes, base) + (match x {
            Some(m) => seq![(base + outcomes.len() as int, m@)],
            None => Seq::<(int, Seq<char>)>::empty(),
        }),
        successes_in(outcomes.push(x)) == successes_in(outcomes) + (if x is None {
            1int
        } else {
            0int
        }),
{
    assert(outcomes.push(x).drop_last() =~= outcomes);
    assert(outcomes.push(x).last() == x);
}

/// A run with no failed outcome records no failure.
pub proof fn lemma_failures_of_all_ok(outcomes: Seq<Option<String>>, base: int)
    requires
        forall|j: int| 0 <= j < outcomes.len() ==> outcomes[j] is None,
    ensures
        failures_of(outcomes, base) == Seq::<(int, Seq<char>)>::empty(),
    decreases outcomes.len(),
{
    if outcomes.len() > 0 {
        lemma_failures_of_all_ok(outcomes.drop_last(), base);
        assert(failures_of(outcomes, base) =~= Seq::<(int, Seq<char>)>::empty());
    } else {
        assert(failures_of(outcomes, base) =~= Seq::<(int, Seq<char>)>::empty());
    }
}

/// Partial-failure independence: when exactly the outcome of chunk `k`
/// fails, the recorded error list holds exactly one entry, it references
/// chunk `base + k`, and it carries that outcome's message — however many
/// chunks follow `k`, since every one of them is still attempted.
pub proof fn lemma_single_failure(outcomes: Seq<Option<String>>, base: int, k: int)
    requires
        0 <= k < outcomes.len(),
        outcomes[k] is Some,
        forall|j: int| 0 <= j < outcomes.len() && j != k ==> outcomes[j] is None,
    ensures
        failures_of(outcomes, base).len() == 1,
        failures_of(outcomes, base)[0].0 == base + k,
        failures_of(outcomes, base)[0].1 == outcomes[k]->Some_0@,
    decreases outcomes.len(),
{
    if k == outcomes.len() - 1 {
        lemma_failures_of_all_ok(outcomes.drop_last(), base);
    } else {
        lemma_single_failure(outcomes.drop_last(), base, k);
    }
}

/// The running state of one chunked batch write: how many chunks exist, how
/// many have been attempted, the nominal count of items added so far, and
/// the failures recorded.  Chunk outcomes arrive strictly in chunk order;
/// a failure never stops the run.
pub struct BatchRun {
    pub total_tracks: usize,
    pub chunk_size: usize,
    pub num_chunks: usize,
    pub chunks_attempted: usize,
    pub added: usize,
    pub failures: Vec<ChunkFailure>,
}

impl BatchRun {
    pub open spec fn wf(self) -> bool {
        &&& self.chunk_size >= 1
        &&& self.chunks_attempted <= self.num_chunks
        &&& forall|i: int| 0 <= i < self.failures@.len()
            ==> (#[trigger] self.failures@[i]).chunk_index < self.chunks_attempted
        &&& forall|i: int, j: int| 0 <= i < j < self.failures@.len()
            ==> self.failures@[i].chunk_index < self.failures@[j].chunk_index
    }

    pub fn new(total_tracks: usize, chunk_size: usize, num_chunks: usize) -> (r: BatchRun)
        requires
            chunk_size >= 1,
        ensures
            r.wf(),
            r.total_tracks == total_tracks,
            r.chunk_size == chunk_size,
            r.num_chunks == num_chunks,
            r.chunks_attempted == 0,
            r.added == 0,
            r.failures@.len() == 0,
    {
        BatchRun {
            total_tracks,
            chunk_size,
            num_chunks,
            chunks_attempted: 0,
            added: 0,
            failures: Vec::new(),
        }
    }

    /// Records one successful chunk write: the added counter advances by the
    /// chunk's nominal size.
    pub fn note_success(&mut self)
        requires
            old(self).wf(),
            old(self).chunks_attempted < old(self).num_chunks,
            old(self).added + old(self).chunk_size <= usize::MAX,
        ensures
            final(self).wf(),
            *final(self) == (BatchRun {
                chunks_attempted: (old(self).chunks_attempted + 1) as usize,
                added: (old(self).added + old(self).chunk_size) as usize,
                ..*old(self)
            }),
    {
        self.added = self.added + self.chunk_size;
        self.chunks_attempted = self.chunks_attempted + 1;
    }

    /// Records one failed chunk write; the run goes on, so only the attempt
    /// counter advances, and the failure keeps its chunk's position.
    pub fn note_failure(&mut self, message: String)
        requires
            old(self).wf(),
            old(self).chunks_attempted < old(self).num_chunks,
        ensures
            final(self).wf(),
            final(self).total_tracks == old(self).total_tracks,
            final(self).chunk_size == old(self).chunk_size,
            final(self).num_chunks == old(self).num_chunks,
            final(self).chunks_attempted == old(self).chunks_attempted + 1,
            final(self).added == old(self).added,
            final(self).failures@ == old(self).failures@.push(ChunkFailure {
                chunk_index: old(self).chunks_attempted,
                message,
            }),
    {
        let index = self.chunks_attempted;
        self.failures.push(ChunkFailure { chunk_index: index, message });
        self.chunks_attempted = self.chunks_attempted + 1;
    }

    /// Whether any chunk failed, in which case the destination playlist is
    /// known incomplete and cleanup must be offered.
    pub fn needs_cleanup(&self) -> (b: bool)
        ensures
            b == (self.failures@.len() > 0),
    {
        self.failures.len() > 0
    }

    /// How many of the bar's cells are filled: proportional to the nominal
    /// added count, clamped at the full width.
    pub fn fill_cells(&self) -> (f: usize)
        requires
            self.total_tracks > 0,
        ensures
            f == fill_spec(self.added as int, self.total_tracks as int),
            f <= BAR_WIDTH,
    {
        let wide = (BAR_WIDTH as u128) * (self.added as u128) / (self.total_tracks as u128);
        if wide >= BAR_WIDTH as u128 {
            BAR_WIDTH
        } else {
            proof {
                assert(BAR_WIDTH * self.added as int / (self.total_tracks as int)
                    == wide as int) by (nonlinear_arith)
                    requires
                        self.total_tracks as int >= 1,
                        wide == (BAR_WIDTH as int) * (self.added as int) / (self.total_tracks as int),
                    ;
            }
            wide as usize
        }
    }

    /// Feeds a recorded run of chunk outcomes through the state machine, in
    /// order.  Every outcome is consumed — a failure never cuts the run
    /// short — so the attempt counter always advances by the full length.
    pub fn apply_outcomes(&mut self, outcomes: &Vec<Option<String>>)
        requires
            old(self).wf(),
            old(self).chunks_attempted + outcomes@.len() <= old(self).num_chunks,
            old(self).added + old(self).chunk_size * outcomes@.len() <= usize::MAX,
        ensures
            final(self).wf(),
            final(self).total_tracks == old(self).total_tracks,
            final(self).chunk_size == old(self).chunk_size,
            final(self).num_chunks == old(self).num_chunks,
            final(self).chunks_attempted == old(self).chunks_attempted + outcomes@.len(),
            final(self).added == old(self).added
                + old(self).chunk_size * successes_in(outcomes@),
            failure_views(final(self).failures@) == failure_views(old(self).failures@)
                + failures_of(outcomes@, old(self).chunks_attempted as int),
    {
        let n = outcomes.len();
        let mut i: usize = 0;
        proof {
            assert(outcomes@.take(0) =~= Seq::<Option<String>>::empty());
            assert(failure_views(self.failures@)
                =~= failure_views(old(self).failures@)
                    + failures_of(outcomes@.take(0), old(self).chunks_attempted as int));
        }
        while i < n
            invariant
                self.wf(),
                i <= n,
                n == outcomes@.len(),
                self.total_tracks == old(self).total_tracks,
                self.chunk_size == old(self).chunk_size,
                self.num_chunks == old(self).num_chunks,
                self.chunks_attempted == old(self).chunks_attempted + i,
                old(self).chunks_attempted + n <= old(self).num_chunks,
                self.added == old(self).added
                    + old(self).chunk_size * successes_in(outcomes@.take(i as int)),
                old(self).added + old(self).chunk_size * n <= usize::MAX,
                failure_views(self.failures@) == failure_views(old(self).failures@)
                    + failures_of(outcomes@.take(i as int), old(self).chunks_attempted as int),
            decreases n - i,
        {
            proof {
                assert(outcomes@.take(i as int).push(outcomes@[i as int])
                    =~= outcomes@.take(i + 1));
                lemma_failures_of_push(
                    outcomes@.take(i as int),
                    old(self).chunks_attempted as int,
                    outcomes@[i as int],
                );
                lemma_successes_bounds(outcomes@.take(i as int));
                lemma_successes_bounds(outcomes@.take(i + 1));
                let cs = old(self).chunk_size as int;
                let suc = successes_in(outcomes@.take(i + 1));
                let s_i = successes_in(outcomes@.take(i as int));
                let len = n as int;
                assert(cs * suc <= cs * len && cs * (s_i + 1) == cs * s_i + cs)
                    by (nonlinear_arith)
                    requires
                        0 <= suc <= len,
                        cs >= 1,
                    ;
            }
            match &outcomes[i] {
                None => {
                    self.note_success();
                    proof {
                        assert(failures_of(
                            outcomes@.take(i + 1),
                            old(self).chunks_attempted as int,
                        ) =~= failures_of(
                            outcomes@.take(i as int),
                            old(self).chunks_attempted as int,
                        ));
                    }
                },
                Some(m) => {
                    let ghost f_prev = self.failures@;
                    self.note_failure(m.clone());
                    proof {
                        let last = self.failures@.last();
                        assert(failure_views(self.failures@)
                            =~= failure_views(f_prev).push((
                                last.chunk_index as int,
                                last.message@,
                            )));
                        assert(failure_views(self.failures@)
                            =~= failure_views(old(self).failures@)
                                + failures_of(
                                    outcomes@.take(i + 1),
                                    old(self).chunks_attempted as int,
                                ));
                    }
                },
            }
            i = i + 1;
        }
        proof {
            assert(outcomes@.take(n as int) =~= outcomes@);
        }
    }
}

/// Filled cells of the bar for an added count against the total.
pub open spec fn fill_spec(added: int, total: int) -> int
    recommends
        total > 0,
{
    let raw = BAR_WIDTH * added / total;
    if raw > BAR_WIDTH {
        BAR_WIDTH as int
    } else {
        raw
    }
}

/// The in-progress bar: a head of `=` cells, a `>` tip, and blank cells up
/// to the fixed width, between brackets.
pub open spec fn bar_seq(fill: int) -> Seq<char>
    recommends
        0 <= fill <= BAR_WIDTH,
{
    seq!['['] + repeat_seq(seq!['='], (if fill >= 1 {
        fill - 1
    } else {
        0int
    }) as nat) + seq!['>'] + repeat_seq(seq![' '], (BAR_WIDTH - fill) as nat) + seq![']']
}

/// The completed bar: every cell filled, no tip.
pub open spec fn final_bar_seq() -> Seq<char> {
    seq!['['] + repeat_seq(seq!['='], BAR_WIDTH as nat) + seq![']']
}

/// Renders the in-progress bar for a given fill.
pub fn render_bar(fill: usize) -> (s: String)
    requires
        fill <= BAR_WIDTH,
    ensures
        s@ == bar_seq(fill as int),
{
    proof {
        reveal_strlit("[");
        reveal_strlit("=");
        reveal_strlit(">");
        reveal_strlit(" ");
        reveal_strlit("]");
    }
    let mut s = String::new();
    s.append("[");
    push_repeated(&mut s, "=", if fill >= 1 {
        fill - 1
    } else {
        0
    });
    s.append(">");
    push_repeated(&mut s, " ", BAR_WIDTH - fill);
    s.append("]");
    proof {
        assert("="@ =~= seq!['=']);
        assert(" "@ =~= seq![' ']);
        assert(s@ =~= bar_seq(fill as int));
    }
    s
}

/// Renders the completed bar.
pub fn render_final_bar() -> (s: String)
    ensures
        s@ == final_bar_seq(),
{
    proof {
        reveal_strlit("[");
        reveal_strlit("=");
        reveal_strlit("]");
    }
    let mut s = String::new();
    s.append("[");
    push_repeated(&mut s, "=", BAR_WIDTH);
    s.append("]");
    proof {
        assert("="@ =~= seq!['=']);
        assert(s@ =~= final_bar_seq());
    }
    s
}

} // verus!
