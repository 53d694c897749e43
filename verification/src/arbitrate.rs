//! Arbitration between competing entry candidates: candidates whose
//! symbols overlap an active pair are excluded, the rest are
//! shortlisted by model score, and one winner is picked by the
//! lexicographic key of carry, score, liquidity and spread magnitude.

use vstd::prelude::*;

use crate::state::PositionDirection;

verus! {

/// One pair that signalled an entry this tick.
#[derive(Clone, Debug)]
pub struct EntryCandidate {
    pub base: String,
    pub quote: String,
    pub direction: PositionDirection,
    /// Model score, micro-units.
    pub score: i64,
    /// Net funding carry, micro-units per hour.
    pub net_funding: i64,
    /// Touch liquidity of both legs, atoms.
    pub liquidity: u64,
    /// Magnitude of the entry z-score, micro-units.
    pub abs_z: i64,
}

/// Whether a candidate shares a symbol with the active set.
pub open spec fn spec_overlaps(c: &EntryCandidate, actives: Seq<String>) -> bool {
    exists|i: int|
        0 <= i < actives.len() && ((#[trigger] actives[i])@ == c.base@ || actives[i]@ == c.quote@)
}

fn overlaps(c: &EntryCandidate, actives: &Vec<String>) -> (r: bool)
    ensures
        r == spec_overlaps(c, actives@),
{
    let mut i: usize = 0;
    let n: usize = actives.len();
    while i < n
        invariant
            0 <= i <= n,
            n == actives@.len(),
            forall|j: int|
                0 <= j < i ==> (#[trigger] actives@[j])@ != c.base@ && actives@[j]@ != c.quote@,
        decreases n - i,
    {
        if actives[i] == c.base || actives[i] == c.quote {
            return true;
        }
        i = i + 1;
    }
    false
}

/// The strict lexicographic order on the arbitration key: net funding
/// first, then score, liquidity, and the z-score magnitude.
pub open spec fn spec_key_lt(a: &EntryCandidate, b: &EntryCandidate) -> bool {
    ||| a.net_funding < b.net_funding
    ||| (a.net_funding == b.net_funding && a.score < b.score)
    ||| (a.net_funding == b.net_funding && a.score == b.score && a.liquidity < b.liquidity)
    ||| (a.net_funding == b.net_funding && a.score == b.score && a.liquidity == b.liquidity
        && a.abs_z < b.abs_z)
}

/// Equality of the arbitration key.
pub open spec fn spec_key_eq(a: &EntryCandidate, b: &EntryCandidate) -> bool {
    a.net_funding == b.net_funding && a.score == b.score && a.liquidity == b.liquidity && a.abs_z
        == b.abs_z
}

fn key_ge(a: &EntryCandidate, b: &EntryCandidate) -> (r: bool)
    ensures
        r == !spec_key_lt(a, b),
{
    if a.net_funding != b.net_funding {
        return a.net_funding > b.net_funding;
    }
    if a.score != b.score {
        return a.score > b.score;
    }
    if a.liquidity != b.liquidity {
        return a.liquidity > b.liquidity;
    }
    a.abs_z >= b.abs_z
}

/// Whether the candidate at `j2` stands before the one at `j1` in the
/// score shortlist order: a strictly higher score, or the same score
/// and an earlier position.
pub open spec fn spec_beats(cands: Seq<EntryCandidate>, j2: int, j1: int) -> bool {
    cands[j2].score > cands[j1].score || (cands[j2].score == cands[j1].score && j2 < j1)
}

/// How many non-overlapping candidates among the first `upto` stand
/// before the candidate at `j` in the shortlist order.
pub open spec fn spec_rank_upto(
    cands: Seq<EntryCandidate>,
    actives: Seq<String>,
    j: int,
    upto: int,
) -> int
    decreases upto,
{
    if upto <= 0 {
        0
    } else {
        spec_rank_upto(cands, actives, j, upto - 1) + (if !spec_overlaps(&cands[upto - 1], actives)
            && spec_beats(cands, upto - 1, j) {
            1int
        } else {
            0int
        })
    }
}

/// The shortlist rank of the candidate at `j`.
pub open spec fn spec_rank(cands: Seq<EntryCandidate>, actives: Seq<String>, j: int) -> int {
    spec_rank_upto(cands, actives, j, cands.len() as int)
}

fn rank_of(cands: &Vec<EntryCandidate>, actives: &Vec<String>, j: usize) -> (r: usize)
    requires
        j < cands@.len(),
    ensures
        r == spec_rank(cands@, actives@, j as int),
        r <= cands@.len(),
{
    let mut count: usize = 0;
    let mut i: usize = 0;
    let n: usize = cands.len();
    while i < n
        invariant
            0 <= i <= n,
            n == cands@.len(),
            j < cands@.len(),
            count == spec_rank_upto(cands@, actives@, j as int, i as int),
            count <= i,
        decreases n - i,
    {
        let beats: bool = cands[i].score > cands[j].score || (cands[i].score == cands[j].score && i
            < j);
        if beats {
            if !overlaps(&cands[i], actives) {
                count = count + 1;
            }
        }
        i = i + 1;
    }
    count
}

/// Picks this tick's single entry among the candidates: those sharing
/// a symbol with an active pair are excluded, the remainder is
/// shortlisted to the `max_active` best scores (at least one, earlier
/// candidates first on equal scores), and the shortlisted candidate
/// with the greatest arbitration key wins; on equal keys the latest
/// wins. Returns the winner's index, or `None` when every candidate
/// overlaps.
pub fn select_entry(
    cands: &Vec<EntryCandidate>,
    actives: &Vec<String>,
    max_active: usize,
) -> (r: Option<usize>)
    ensures
        r is None <==> forall|j: int|
            0 <= j < cands@.len() ==> spec_overlaps(&cands@[j], actives@),
        r matches Some(idx) ==> {
            let k = if max_active >= 1 {
                max_active as int
            } else {
                1
            };
            &&& 0 <= idx < cands@.len()
            &&& !spec_overlaps(&cands@[idx as int], actives@)
            &&& spec_rank(cands@, actives@, idx as int) < k
            &&& forall|j: int|
                0 <= j < cands@.len() && j != idx && !spec_overlaps(&cands@[j], actives@)
                    && spec_rank(cands@, actives@, j) < k ==> (spec_key_lt(
                    &cands@[j],
                    &cands@[idx as int],
                ) || (spec_key_eq(&cands@[j], &cands@[idx as int]) && j < idx))
        },
{
    let k: usize = if max_active >= 1 {
        max_active
    } else {
        1
    };
    let mut best: Option<usize> = None;
    let mut j: usize = 0;
    let n: usize = cands.len();
    while j < n
        invariant
            0 <= j <= n,
            n == cands@.len(),
            k == (if max_active >= 1 {
                max_active as int
            } else {
                1
            }),
            best is None ==> forall|m: int|
                0 <= m < j ==> spec_overlaps(&cands@[m], actives@) || spec_rank(
                    cands@,
                    actives@,
                    m,
                ) >= k,
            best matches Some(b) ==> {
                &&& 0 <= b < j
                &&& !spec_overlaps(&cands@[b as int], actives@)
                &&& spec_rank(cands@, actives@, b as int) < k
                &&& forall|m: int|
                    0 <= m < j && m != b && !spec_overlaps(&cands@[m], actives@) && spec_rank(
                        cands@,
                        actives@,
                        m,
                    ) < k ==> (spec_key_lt(&cands@[m], &cands@[b as int]) || (spec_key_eq(
                        &cands@[m],
                        &cands@[b as int],
                    ) && m < b))
            },
        decreases n - j,
    {
        if !overlaps(&cands[j], actives) {
            let rank: usize = rank_of(cands, actives, j);
            if rank < k {
                let replace: bool = match best {
                    Some(b) => key_ge(&cands[j], &cands[b]),
                    None => true,
                };
                if replace {
                    best = Some(j);
                }
            }
        }
        j = j + 1;
    }
    proof {
        if best is None {
            if exists|j0: int|
                0 <= j0 < cands@.len() && !(#[trigger] spec_overlaps(&cands@[j0], actives@)) {
                let j0 = choose|j0: int|
                    0 <= j0 < cands@.len() && !(#[trigger] spec_overlaps(&cands@[j0], actives@));
                lemma_exists_rank0_from(cands@, actives@, j0);
                let m = choose|m: int|
                    0 <= m < cands@.len() && !(#[trigger] spec_overlaps(&cands@[m], actives@))
                        && spec_rank(cands@, actives@, m) == 0;
                assert(false);
            }
        }
    }
    best
}

proof fn lemma_rank_nonneg(cands: Seq<EntryCandidate>, actives: Seq<String>, j: int, upto: int)
    ensures
        spec_rank_upto(cands, actives, j, upto) >= 0,
    decreases upto,
{
    if upto > 0 {
        lemma_rank_nonneg(cands, actives, j, upto - 1);
    }
}

proof fn lemma_rank_beat_witness(cands: Seq<EntryCandidate>, actives: Seq<String>, j: int, upto: int)
    requires
        0 <= upto <= cands.len(),
        spec_rank_upto(cands, actives, j, upto) >= 1,
    ensures
        exists|m: int|
            0 <= m < cands.len() && !(#[trigger] spec_overlaps(&cands[m], actives)) && spec_beats(
                cands,
                m,
                j,
            ),
    decreases upto,
{
    if upto > 0 {
        if !spec_overlaps(&cands[upto - 1], actives) && spec_beats(cands, upto - 1, j) {
            assert(!spec_overlaps(&cands[upto - 1], actives));
        } else {
            lemma_rank_beat_witness(cands, actives, j, upto - 1);
        }
    }
}

proof fn lemma_rank_strict_mono(
    cands: Seq<EntryCandidate>,
    actives: Seq<String>,
    m: int,
    j: int,
    upto: int,
)
    requires
        0 <= m < cands.len(),
        0 <= upto <= cands.len(),
        !spec_overlaps(&cands[m], actives),
        spec_beats(cands, m, j),
    ensures
        spec_rank_upto(cands, actives, m, upto) <= spec_rank_upto(cands, actives, j, upto) - (
        if m < upto {
            1int
        } else {
            0int
        }),
    decreases upto,
{
    if upto > 0 {
        lemma_rank_strict_mono(cands, actives, m, j, upto - 1);
    }
}

/// Among any non-overlapping candidates, some candidate has shortlist
/// rank zero, so a shortlist of at least one is never empty.
proof fn lemma_exists_rank0_from(cands: Seq<EntryCandidate>, actives: Seq<String>, j: int)
    requires
        0 <= j < cands.len(),
        !spec_overlaps(&cands[j], actives),
    ensures
        exists|m: int|
            0 <= m < cands.len() && !(#[trigger] spec_overlaps(&cands[m], actives)) && spec_rank(
                cands,
                actives,
                m,
            ) == 0,
    decreases spec_rank(cands, actives, j),
{
    lemma_rank_nonneg(cands, actives, j, cands.len() as int);
    if spec_rank(cands, actives, j) == 0 {
        assert(!spec_overlaps(&cands[j], actives) && spec_rank(cands, actives, j) == 0);
    } else {
        lemma_rank_beat_witness(cands, actives, j, cands.len() as int);
        let m = choose|m: int|
            0 <= m < cands.len() && !(#[trigger] spec_overlaps(&cands[m], actives)) && spec_beats(
                cands,
                m,
                j,
            );
        lemma_rank_strict_mono(cands, actives, m, j, cands.len() as int);
        lemma_rank_nonneg(cands, actives, m, cands.len() as int);
        lemma_exists_rank0_from(cands, actives, m);
    }
}

/// Symbol exclusivity: entering a non-overlapping candidate whose legs
/// differ keeps the union of active symbols free of duplicates.
pub proof fn lemma_entry_keeps_symbol_exclusivity(
    actives: Seq<Seq<char>>,
    base: Seq<char>,
    quote: Seq<char>,
)
    requires
        forall|i: int, j: int|
            0 <= i < actives.len() && 0 <= j < actives.len() && i != j ==> #[trigger] actives[i]
                != #[trigger] actives[j],
        forall|i: int| 0 <= i < actives.len() ==> #[trigger] actives[i] != base,
        forall|i: int| 0 <= i < actives.len() ==> #[trigger] actives[i] != quote,
        base != quote,
    ensures
        ({
            let extended = actives.push(base).push(quote);
            forall|i: int, j: int|
                0 <= i < extended.len() && 0 <= j < extended.len() && i != j
                    ==> #[trigger] extended[i] != #[trigger] extended[j]
        }),
{
    let extended = actives.push(base).push(quote);
    assert forall|i: int, j: int|
        0 <= i < extended.len() && 0 <= j < extended.len() && i != j implies #[trigger] extended[i]
        != #[trigger] extended[j] by {
        if i < actives.len() && j < actives.len() {
            assert(extended[i] == actives[i]);
            assert(extended[j] == actives[j]);
        } else if i < actives.len() {
            assert(extended[i] == actives[i]);
            assert(extended[j] == base || extended[j] == quote);
        } else if j < actives.len() {
            assert(extended[j] == actives[j]);
            assert(extended[i] == base || extended[i] == quote);
        } else {
            assert(extended[i] == base || extended[i] == quote);
            assert(extended[j] == base || extended[j] == quote);
        }
    }
}

} // verus!
