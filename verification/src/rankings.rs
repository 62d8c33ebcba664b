//! Placings of the players of a game by their scores.
use vstd::prelude::*;

verus! {

/// The placings of up to four players: who holds each rank, and the rank of each seat.
#[derive(Debug, Clone, Copy)]
pub struct Rankings {
    pub player_by_rank: [u8; 4],
    pub rank_by_player: [u8; 4],
}

/// Seat `q` places above seat `p`: a higher score, or the same score and an earlier seat.
pub open spec fn places_above(scores: Seq<i32>, q: int, p: int) -> bool {
    scores[q] > scores[p] || (scores[q] == scores[p] && q < p)
}

/// `pbr` and `rbp` are the placings of the first `n` seats by `scores`: the first `n`
/// ranks hold seats below `n` ordered by score, higher first and the earlier seat first
/// among equals, each such seat knows its rank, and the seats and ranks from `n` on keep
/// their own number, the seats having rank `n`.
pub open spec fn placings(scores: Seq<i32>, n: int, pbr: Seq<u8>, rbp: Seq<u8>) -> bool {
    &&& pbr.len() == 4
    &&& rbp.len() == 4
    &&& forall|r: int| 0 <= r < n ==> #[trigger] pbr[r] < n
    &&& forall|r1: int, r2: int|
        0 <= r1 < r2 < n ==> places_above(scores, #[trigger] pbr[r1] as int, #[trigger] pbr[r2] as int)
    &&& forall|r: int| n <= r < 4 ==> #[trigger] pbr[r] == r
    &&& forall|r: int| 0 <= r < n ==> #[trigger] rbp[pbr[r] as int] == r
    &&& forall|p: int| n <= p < 4 ==> #[trigger] rbp[p] == n
}

impl Rankings {
    /// Places the four players by score, the earlier seat first among equal scores.
    pub fn new(scores: [i32; 4]) -> (res: Self)
        requires
            forall|i: int| 0 <= i < 4 ==> scores[i] != i32::MIN,
        ensures
            placings(scores@, 4, res.player_by_rank@, res.rank_by_player@),
    {
        Self::new_n(&scores, 4)
    }

    /// Compute rankings for `n` players (n <= 4) using only the first n scores.
    pub fn new_n(scores: &[i32; 4], n: usize) -> (res: Self)
        requires
            n <= 4,
            forall|i: int| 0 <= i < n ==> scores[i] != i32::MIN,
        ensures
            placings(scores@, n as int, res.player_by_rank@, res.rank_by_player@),
    {
        let ghost s = scores@;
        let mut player_by_rank: [u8; 4] = [0, 1, 2, 3];
        let mut i: usize = 0;
        while i < n
            invariant
                n <= 4,
                i <= n,
                s == scores@,
                forall|r: int| 0 <= r < i ==> #[trigger] player_by_rank@[r] < i,
                forall|r1: int, r2: int|
                    0 <= r1 < r2 < i ==> places_above(
                        s,
                        #[trigger] player_by_rank@[r1] as int,
                        #[trigger] player_by_rank@[r2] as int,
                    ),
                forall|r: int| i <= r < 4 ==> #[trigger] player_by_rank@[r] == r,
            decreases n - i,
        {
            // Insert seat `i`, now at position `i`, into the ordered prefix.
            let mut j: usize = i;
            while j > 0 && scores[player_by_rank[j - 1] as usize] < scores[player_by_rank[j] as usize]
                invariant
                    n <= 4,
                    i < n,
                    j <= i,
                    s == scores@,
                    player_by_rank@[j as int] == i,
                    forall|r: int| i < r < 4 ==> #[trigger] player_by_rank@[r] == r,
                    forall|r: int| 0 <= r <= i && r != j ==> #[trigger] player_by_rank@[r] < i,
                    forall|r1: int, r2: int|
                        0 <= r1 < r2 <= i && r1 != j && r2 != j ==> places_above(
                            s,
                            #[trigger] player_by_rank@[r1] as int,
                            #[trigger] player_by_rank@[r2] as int,
                        ),
                    forall|r: int| j < r <= i ==> s[#[trigger] player_by_rank@[r] as int] < s[i as int],
                decreases j,
            {
                let a = player_by_rank[j - 1];
                let b = player_by_rank[j];
                player_by_rank[j - 1] = b;
                player_by_rank[j] = a;
                j -= 1;
            }
            proof {
                let pbr = player_by_rank@;
                assert forall|r: int| 0 <= r < j implies places_above(s, pbr[r] as int, i as int) by {
                    assert(places_above(s, pbr[j - 1] as int, i as int));
                    if r < j - 1 {
                        assert(places_above(s, pbr[r] as int, pbr[j - 1] as int));
                    }
                }
                assert forall|r: int| j < r <= i implies places_above(s, i as int, pbr[r] as int) by {
                    assert(s[pbr[r] as int] < s[i as int]);
                }
            }
            i += 1;
        }
        let mut rank_by_player: [u8; 4] = [0; 4];
        let mut r: usize = 0;
        while r < n
            invariant
                n <= 4,
                r <= n,
                forall|q: int| 0 <= q < n ==> #[trigger] player_by_rank@[q] < n,
                forall|r1: int, r2: int|
                    0 <= r1 < r2 < n ==> places_above(
                        s,
                        #[trigger] player_by_rank@[r1] as int,
                        #[trigger] player_by_rank@[r2] as int,
                    ),
                forall|q: int| 0 <= q < r ==> #[trigger] rank_by_player@[player_by_rank@[q] as int]
                    == q,
            decreases n - r,
        {
            let p = player_by_rank[r];
            assert forall|q: int| 0 <= q < r implies player_by_rank@[q] != p by {
                assert(places_above(s, player_by_rank@[q] as int, player_by_rank@[r as int] as int));
            }
            rank_by_player[p as usize] = r as u8;
            r += 1;
        }
        let mut p: usize = n;
        while p < 4
            invariant
                n <= p <= 4,
                forall|q: int| 0 <= q < n ==> #[trigger] player_by_rank@[q] < n,
                forall|q: int| 0 <= q < n ==> #[trigger] rank_by_player@[player_by_rank@[q] as int]
                    == q,
                forall|q: int| n <= q < p ==> #[trigger] rank_by_player@[q] == n,
            decreases 4 - p,
        {
            rank_by_player[p] = n as u8;
            p += 1;
        }
        Rankings { player_by_rank, rank_by_player }
    }

    /// Places the three players of a three-player game by score.
    pub fn new_sanma(scores: [i32; 3]) -> (res: Self)
        requires
            forall|i: int| 0 <= i < 3 ==> scores[i] != i32::MIN,
        ensures
            placings(seq![scores[0], scores[1], scores[2], 0i32], 3, res.player_by_rank@, res.rank_by_player@),
    {
        let scores4: [i32; 4] = [scores[0], scores[1], scores[2], 0];
        assert(scores4@ =~= seq![scores[0], scores[1], scores[2], 0i32]);
        Self::new_n(&scores4, 3)
    }
}

/// Among `n` distinct values below `n` (at most four), every value below `n` occurs.
proof fn lemma_all_ranks_held(pbr: Seq<u8>, n: int, p: int)
    requires
        0 <= n <= 4,
        pbr.len() == 4,
        forall|r: int| 0 <= r < n ==> #[trigger] pbr[r] < n,
        forall|r1: int, r2: int| 0 <= r1 < r2 < n ==> #[trigger] pbr[r1] != #[trigger] pbr[r2],
        0 <= p < n,
    ensures
        exists|r: int| 0 <= r < n && pbr[r] == p,
{
    if !(exists|r: int| 0 <= r < n && pbr[r] == p) {
        assert(forall|r: int| 0 <= r < n ==> pbr[r] != p);
        if n == 1 {
            assert(pbr[0] < 1);
        } else if n == 2 {
            assert(pbr[0] != pbr[1]);
        } else if n == 3 {
            assert(pbr[0] != pbr[1] && pbr[0] != pbr[2] && pbr[1] != pbr[2]);
        } else if n == 4 {
            assert(pbr[0] != pbr[1] && pbr[0] != pbr[2] && pbr[0] != pbr[3] && pbr[1] != pbr[2]
                && pbr[1] != pbr[3] && pbr[2] != pbr[3]);
        }
    }
}

/// The placings of the first `n` seats are a permutation and its inverse: every seat
/// below `n` holds exactly one rank below `n`, and looking up the rank of the seat that
/// holds a rank gives that rank back, and the other way round.
pub proof fn lemma_placings_inverse(scores: Seq<i32>, n: int, pbr: Seq<u8>, rbp: Seq<u8>)
    requires
        0 <= n <= 4,
        placings(scores, n, pbr, rbp),
    ensures
        forall|r: int| 0 <= r < n ==> #[trigger] rbp[pbr[r] as int] == r,
        forall|p: int| 0 <= p < n ==> #[trigger] rbp[p] < n && pbr[rbp[p] as int] == p,
        forall|r1: int, r2: int| 0 <= r1 < r2 < n ==> #[trigger] pbr[r1] != #[trigger] pbr[r2],
{
    assert forall|r1: int, r2: int| 0 <= r1 < r2 < n implies #[trigger] pbr[r1] != #[trigger] pbr[r2] by {
        assert(places_above(scores, pbr[r1] as int, pbr[r2] as int));
    }
    assert forall|p: int| 0 <= p < n implies #[trigger] rbp[p] < n && pbr[rbp[p] as int] == p by {
        lemma_all_ranks_held(pbr, n, p);
        let r = choose|r: int| 0 <= r < n && pbr[r] == p;
        assert(rbp[pbr[r] as int] == r);
    }
}

proof fn lemma_placings_agree_upto(
    scores: Seq<i32>,
    n: int,
    pbr1: Seq<u8>,
    rbp1: Seq<u8>,
    pbr2: Seq<u8>,
    rbp2: Seq<u8>,
    k: int,
)
    requires
        0 <= k <= n <= 4,
        placings(scores, n, pbr1, rbp1),
        placings(scores, n, pbr2, rbp2),
    ensures
        forall|r: int| 0 <= r < k ==> pbr1[r] == pbr2[r],
    decreases k,
{
    if k > 0 {
        lemma_placings_agree_upto(scores, n, pbr1, rbp1, pbr2, rbp2, k - 1);
        lemma_placings_inverse(scores, n, pbr1, rbp1);
        lemma_placings_inverse(scores, n, pbr2, rbp2);
        let r = k - 1;
        let a = pbr1[r] as int;
        let b = pbr2[r] as int;
        if a != b {
            // `b` holds a later rank in the first placing, `a` a later one in the second
            let rb = rbp1[b] as int;
            let ra = rbp2[a] as int;
            assert(pbr1[rb] == b);
            assert(pbr2[ra] == a);
            if rb < r {
                assert(pbr2[rb] == b);
            }
            if ra < r {
                assert(pbr1[ra] == a);
            }
            assert(places_above(scores, pbr1[r] as int, pbr1[rb] as int));
            assert(places_above(scores, pbr2[r] as int, pbr2[ra] as int));
        }
    }
}

/// The placings of the first `n` seats are determined by the scores: two placings of
/// the same scores are the same.
pub proof fn lemma_placings_unique(
    scores: Seq<i32>,
    n: int,
    pbr1: Seq<u8>,
    rbp1: Seq<u8>,
    pbr2: Seq<u8>,
    rbp2: Seq<u8>,
)
    requires
        0 <= n <= 4,
        placings(scores, n, pbr1, rbp1),
        placings(scores, n, pbr2, rbp2),
    ensures
        pbr1 == pbr2,
        rbp1 == rbp2,
{
    lemma_placings_inverse(scores, n, pbr1, rbp1);
    lemma_placings_inverse(scores, n, pbr2, rbp2);
    lemma_placings_agree_upto(scores, n, pbr1, rbp1, pbr2, rbp2, n);
    assert(pbr1 =~= pbr2);
    assert forall|p: int| 0 <= p < 4 implies rbp1[p] == rbp2[p] by {
        if p < n {
            let r = rbp1[p] as int;
            assert(pbr1[r] == p);
            assert(rbp2[pbr2[r] as int] == r);
        }
    }
    assert(rbp1 =~= rbp2);
}

} // verus!
