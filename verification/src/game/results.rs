//! Per-player win counts and play-preference statistics, merged upward
//! through the search by element-wise saturating addition.

use vstd::prelude::*;

verus! {

use crate::bits::popcnt;
use crate::cards::CardCollection;

/// Saturating addition: counters stop at the machine limit rather than
/// wrap, so a merged tally never decreases.
pub open spec fn sadd(a: int, b: int) -> int {
    if a + b > usize::MAX {
        usize::MAX as int
    } else {
        a + b
    }
}

/// The spec-level record of one player's counters.
#[verifier::ext_equal]
pub ghost struct PlayerTally {
    pub wins: int,
    pub misses: int,
    pub single: Seq<int>,
    pub multi: Seq<int>,
}

/// The spec-level aggregate of a search: one record per player, plus the
/// number of finished games.
#[verifier::ext_equal]
pub ghost struct Tally {
    pub games: int,
    pub players: Seq<PlayerTally>,
}

/// One player's empty record.
pub open spec fn pt_zero() -> PlayerTally {
    PlayerTally { wins: 0, misses: 0, single: seq![0, 0, 0, 0], multi: seq![0, 0, 0, 0] }
}

/// Element-wise saturating sum of two player records.
pub open spec fn pt_add(a: PlayerTally, b: PlayerTally) -> PlayerTally {
    PlayerTally {
        wins: sadd(a.wins, b.wins),
        misses: sadd(a.misses, b.misses),
        single: Seq::new(4, |i: int| sadd(a.single[i], b.single[i])),
        multi: Seq::new(4, |i: int| sadd(a.multi[i], b.multi[i])),
    }
}

/// A player record that an executable value can hold: four buckets each
/// way, every counter within the machine range.
pub open spec fn pt_wf(p: PlayerTally) -> bool {
    &&& 0 <= p.wins <= usize::MAX
    &&& 0 <= p.misses <= usize::MAX
    &&& p.single.len() == 4
    &&& p.multi.len() == 4
    &&& forall|i: int| 0 <= i < 4 ==> 0 <= #[trigger] p.single[i] <= usize::MAX
    &&& forall|i: int| 0 <= i < 4 ==> 0 <= #[trigger] p.multi[i] <= usize::MAX
}

/// The empty tally for `n` players.
pub open spec fn t_zero(n: int) -> Tally {
    Tally { games: 0, players: Seq::new(n as nat, |i: int| pt_zero()) }
}

/// Element-wise saturating sum of two tallies over the same players.
pub open spec fn t_add(a: Tally, b: Tally) -> Tally {
    Tally {
        games: sadd(a.games, b.games),
        players: Seq::new(a.players.len(), |i: int| pt_add(a.players[i], b.players[i])),
    }
}

/// A tally that an executable value can hold.
pub open spec fn t_wf(t: Tally) -> bool {
    &&& 0 <= t.games <= usize::MAX
    &&& forall|i: int| 0 <= i < t.players.len() ==> pt_wf(#[trigger] t.players[i])
}

/// The tally after one more win for `player`: that player's win count and
/// the total game count each go up by one.
pub open spec fn t_win(t: Tally, player: int) -> Tally {
    Tally {
        games: sadd(t.games, 1),
        players: t.players.update(
            player,
            PlayerTally { wins: sadd(t.players[player].wins, 1), ..t.players[player] },
        ),
    }
}

/// The tally after one strategy decision for `player`: an empty choice set
/// counts a missed turn, a single card a forced play, several cards a
/// branch point, the plays bucketed by the preference rank of the set.
pub open spec fn t_stat(t: Tally, player: int, count: nat, rank: int) -> Tally {
    let p = t.players[player];
    let p2 = if count == 0 {
        PlayerTally { misses: sadd(p.misses, 1), ..p }
    } else if count == 1 {
        PlayerTally { single: p.single.update(rank, sadd(p.single[rank], 1)), ..p }
    } else {
        PlayerTally { multi: p.multi.update(rank, sadd(p.multi[rank], 1)), ..p }
    };
    Tally { games: t.games, players: t.players.update(player, p2) }
}

/// The empty tally is well formed, with one record per player.
pub proof fn lemma_t_zero_wf(n: int)
    requires
        n >= 0,
    ensures
        t_wf(t_zero(n)),
        t_zero(n).players.len() == n,
{
    assert(pt_zero().single.len() == 4);
    assert(forall|i: int| 0 <= i < 4 ==> #[trigger] pt_zero().single[i] == 0);
    assert(forall|i: int| 0 <= i < 4 ==> #[trigger] pt_zero().multi[i] == 0);
}

/// Saturating addition of non-negative counters is associative.
pub proof fn lemma_sadd_assoc(x: int, y: int, z: int)
    requires
        0 <= x,
        0 <= y,
        0 <= z,
    ensures
        sadd(sadd(x, y), z) == sadd(x, sadd(y, z)),
{
}

/// Law: merging two tallies gives the same aggregate in either order.
pub proof fn lemma_t_add_comm(a: Tally, b: Tally)
    requires
        a.players.len() == b.players.len(),
    ensures
        t_add(a, b) == t_add(b, a),
{
    assert forall|i: int| 0 <= i < a.players.len() implies pt_add(a.players[i], b.players[i])
        == pt_add(b.players[i], a.players[i]) by {
        assert(pt_add(a.players[i], b.players[i]).single =~= pt_add(
            b.players[i],
            a.players[i],
        ).single);
        assert(pt_add(a.players[i], b.players[i]).multi =~= pt_add(
            b.players[i],
            a.players[i],
        ).multi);
        assert(pt_add(a.players[i], b.players[i]) =~= pt_add(b.players[i], a.players[i]));
    }
    assert(t_add(a, b).players =~= t_add(b, a).players);
    assert(t_add(a, b) =~= t_add(b, a));
}

/// Law: merging tallies is associative, so a fold over any bracketing of
/// the same branches gives the same aggregate.
pub proof fn lemma_t_add_assoc(a: Tally, b: Tally, c: Tally)
    requires
        t_wf(a),
        t_wf(b),
        t_wf(c),
        a.players.len() == b.players.len(),
        b.players.len() == c.players.len(),
    ensures
        t_add(t_add(a, b), c) == t_add(a, t_add(b, c)),
{
    lemma_sadd_assoc(a.games, b.games, c.games);
    assert forall|i: int| 0 <= i < a.players.len() implies pt_add(
        pt_add(a.players[i], b.players[i]),
        c.players[i],
    ) == pt_add(a.players[i], pt_add(b.players[i], c.players[i])) by {
        let pa = a.players[i];
        let pb = b.players[i];
        let pc = c.players[i];
        lemma_sadd_assoc(pa.wins, pb.wins, pc.wins);
        lemma_sadd_assoc(pa.misses, pb.misses, pc.misses);
        assert forall|j: int| 0 <= j < 4 implies sadd(sadd(pa.single[j], pb.single[j]), pc.single[j])
            == sadd(pa.single[j], sadd(pb.single[j], pc.single[j])) && sadd(
            sadd(pa.multi[j], pb.multi[j]),
            pc.multi[j],
        ) == sadd(pa.multi[j], sadd(pb.multi[j], pc.multi[j])) by {
            lemma_sadd_assoc(pa.single[j], pb.single[j], pc.single[j]);
            lemma_sadd_assoc(pa.multi[j], pb.multi[j], pc.multi[j]);
        }
        assert(pt_add(pt_add(pa, pb), pc).single =~= pt_add(pa, pt_add(pb, pc)).single);
        assert(pt_add(pt_add(pa, pb), pc).multi =~= pt_add(pa, pt_add(pb, pc)).multi);
        assert(pt_add(pt_add(pa, pb), pc) =~= pt_add(pa, pt_add(pb, pc)));
    }
    assert(t_add(t_add(a, b), c).players =~= t_add(a, t_add(b, c)).players);
    assert(t_add(t_add(a, b), c) =~= t_add(a, t_add(b, c)));
}

/// Law: the empty tally is the neutral element of the merge.
pub proof fn lemma_t_add_zero(a: Tally)
    requires
        t_wf(a),
    ensures
        t_add(a, t_zero(a.players.len() as int)) == a,
{
    assert forall|i: int| 0 <= i < a.players.len() implies pt_add(a.players[i], pt_zero())
        == a.players[i] by {
        assert(pt_add(a.players[i], pt_zero()).single =~= a.players[i].single);
        assert(pt_add(a.players[i], pt_zero()).multi =~= a.players[i].multi);
        assert(pt_add(a.players[i], pt_zero()) =~= a.players[i]);
    }
    assert(t_add(a, t_zero(a.players.len() as int)).players =~= a.players);
    assert(t_add(a, t_zero(a.players.len() as int)) =~= a);
}

/// A merge of well-formed tallies stays well-formed, over the same players.
pub proof fn lemma_t_add_wf(a: Tally, b: Tally)
    requires
        t_wf(a),
        t_wf(b),
        a.players.len() == b.players.len(),
    ensures
        t_wf(t_add(a, b)),
        t_add(a, b).players.len() == a.players.len(),
{
}

/// Bumping a statistics counter is the merge with a tally holding only
/// that bump.
pub proof fn lemma_t_stat_as_add(t: Tally, player: int, count: nat, rank: int)
    requires
        t_wf(t),
        0 <= player < t.players.len(),
        0 <= rank < 4,
    ensures
        t_stat(t, player, count, rank) == t_add(
            t,
            t_stat(t_zero(t.players.len() as int), player, count, rank),
        ),
        t_wf(t_stat(t, player, count, rank)),
        t_stat(t, player, count, rank).players.len() == t.players.len(),
{
    let n = t.players.len() as int;
    let d = t_stat(t_zero(n), player, count, rank);
    assert forall|i: int| 0 <= i < n implies pt_add(t.players[i], d.players[i]) == t_stat(
        t,
        player,
        count,
        rank,
    ).players[i] by {
        let p = t.players[i];
        if i == player {
            assert(pt_add(p, d.players[i]).single =~= t_stat(t, player, count, rank).players[i].single);
            assert(pt_add(p, d.players[i]).multi =~= t_stat(t, player, count, rank).players[i].multi);
            assert(pt_add(p, d.players[i]) =~= t_stat(t, player, count, rank).players[i]);
        } else {
            assert(d.players[i] == pt_zero());
            assert(pt_add(p, pt_zero()).single =~= p.single);
            assert(pt_add(p, pt_zero()).multi =~= p.multi);
            assert(pt_add(p, pt_zero()) =~= p);
        }
    }
    assert(t_add(t, d).players =~= t_stat(t, player, count, rank).players);
    assert(t_add(t, d) =~= t_stat(t, player, count, rank));
}

/// Recording a win is the merge with a tally holding only that win.
pub proof fn lemma_t_win_as_add(t: Tally, player: int)
    requires
        t_wf(t),
        0 <= player < t.players.len(),
    ensures
        t_win(t, player) == t_add(t, t_win(t_zero(t.players.len() as int), player)),
        t_wf(t_win(t, player)),
        t_win(t, player).players.len() == t.players.len(),
{
    let n = t.players.len() as int;
    let d = t_win(t_zero(n), player);
    assert forall|i: int| 0 <= i < n implies pt_add(t.players[i], d.players[i]) == t_win(
        t,
        player,
    ).players[i] by {
        let p = t.players[i];
        if i == player {
            assert(pt_add(p, d.players[i]).single =~= t_win(t, player).players[i].single);
            assert(pt_add(p, d.players[i]).multi =~= t_win(t, player).players[i].multi);
            assert(pt_add(p, d.players[i]) =~= t_win(t, player).players[i]);
        } else {
            assert(d.players[i] == pt_zero());
            assert(pt_add(p, pt_zero()).single =~= p.single);
            assert(pt_add(p, pt_zero()).multi =~= p.multi);
            assert(pt_add(p, pt_zero()) =~= p);
        }
    }
    assert(t_add(t, d).players =~= t_win(t, player).players);
    assert(t_add(t, d) =~= t_win(t, player));
}

/// One player's counters: wins, missed turns, and play counts bucketed by
/// the preference rank of the chosen set, split into forced single plays
/// and multi-way branch points.
#[derive(Clone, Copy, Debug, PartialEq)]
pub struct PlayerResults {
    pub wins: usize,
    pub misses: usize,
    pub single: [usize; 4],
    pub multi: [usize; 4],
}

impl View for PlayerResults {
    type V = PlayerTally;

    open spec fn view(&self) -> PlayerTally {
        PlayerTally {
            wins: self.wins as int,
            misses: self.misses as int,
            single: Seq::new(4, |i: int| self.single@[i] as int),
            multi: Seq::new(4, |i: int| self.multi@[i] as int),
        }
    }
}

impl Default for PlayerResults {
    /// All counters zero.
    fn default() -> (r: Self)
        ensures
            r@ == pt_zero(),
    {
        let r = PlayerResults { wins: 0, misses: 0, single: [0, 0, 0, 0], multi: [0, 0, 0, 0] };
        proof {
            assert(r@.single =~= pt_zero().single);
            assert(r@.multi =~= pt_zero().multi);
            assert(r@ =~= pt_zero());
        }
        r
    }
}

impl PlayerResults {
    /// Folds another player's counters into this one, element-wise and
    /// saturating.
    pub fn add_assign(&mut self, other: &PlayerResults)
        ensures
            final(self)@ == pt_add(old(self)@, other@),
    {
        self.wins = self.wins.saturating_add(other.wins);
        self.misses = self.misses.saturating_add(other.misses);
        self.single = [
            self.single[0].saturating_add(other.single[0]),
            self.single[1].saturating_add(other.single[1]),
            self.single[2].saturating_add(other.single[2]),
            self.single[3].saturating_add(other.single[3]),
        ];
        self.multi = [
            self.multi[0].saturating_add(other.multi[0]),
            self.multi[1].saturating_add(other.multi[1]),
            self.multi[2].saturating_add(other.multi[2]),
            self.multi[3].saturating_add(other.multi[3]),
        ];
        proof {
            assert(self@.single =~= pt_add(old(self)@, other@).single);
            assert(self@.multi =~= pt_add(old(self)@, other@).multi);
            assert(self@ =~= pt_add(old(self)@, other@));
        }
    }
}

/// The aggregate outcome of a search: per-player results and the total
/// number of finished games.
#[derive(Debug)]
pub struct Results {
    player_results: Vec<PlayerResults>,
    games: usize,
}

impl View for Results {
    type V = Tally;

    closed spec fn view(&self) -> Tally {
        Tally {
            games: self.games as int,
            players: Seq::new(self.player_results@.len(), |i: int| self.player_results@[i]@),
        }
    }
}

impl Results {
    /// Fresh results with every counter zero.
    pub fn new(players: u8) -> (r: Self)
        ensures
            r@ == t_zero(players as int),
            t_wf(r@),
            r@.players.len() == players,
    {
        let mut pr: Vec<PlayerResults> = Vec::new();
        let mut i: usize = 0;
        while i < players as usize
            invariant
                i <= players,
                pr@.len() == i,
                forall|j: int| 0 <= j < i ==> (#[trigger] pr@[j])@ == pt_zero(),
            decreases players - i,
        {
            pr.push(PlayerResults::default());
            i = i + 1;
        }
        let r = Results { player_results: pr, games: 0 };
        proof {
            assert(r@.players =~= t_zero(players as int).players);
            assert(r@ =~= t_zero(players as int));
        }
        r
    }

    /// Records what kind of choice set one turn produced for `player`.
    #[inline]
    pub fn update_stats_for(&mut self, player: usize, cards: &CardCollection, pref_rank: u8)
        requires
            player < old(self)@.players.len(),
            pref_rank < 4,
        ensures
            final(self)@ == t_stat(old(self)@, player as int, popcnt(cards@), pref_rank as int),
    {
        let count = cards.len();
        let mut pr = self.player_results[player];
        if count == 0 {
            pr.misses = pr.misses.saturating_add(1);
        } else if count == 1 {
            let v = pr.single[pref_rank as usize].saturating_add(1);
            pr.single[pref_rank as usize] = v;
        } else {
            let v = pr.multi[pref_rank as usize].saturating_add(1);
            pr.multi[pref_rank as usize] = v;
        }
        self.player_results[player] = pr;
        proof {
            let want = t_stat(old(self)@, player as int, popcnt(cards@), pref_rank as int);
            assert(self@.players[player as int].single =~= want.players[player as int].single);
            assert(self@.players[player as int].multi =~= want.players[player as int].multi);
            assert(self@.players[player as int] =~= want.players[player as int]);
            assert(self@.players =~= want.players);
            assert(self@ =~= want);
        }
    }

    /// Records a finished game won by `player`.
    #[inline]
    pub fn win_for(&mut self, player: usize)
        requires
            player < old(self)@.players.len(),
        ensures
            final(self)@ == t_win(old(self)@, player as int),
    {
        let mut pr = self.player_results[player];
        pr.wins = pr.wins.saturating_add(1);
        self.player_results[player] = pr;
        self.games = self.games.saturating_add(1);
        proof {
            let want = t_win(old(self)@, player as int);
            assert(self@.players[player as int].single =~= want.players[player as int].single);
            assert(self@.players[player as int].multi =~= want.players[player as int].multi);
            assert(self@.players[player as int] =~= want.players[player as int]);
            assert(self@.players =~= want.players);
            assert(self@ =~= want);
        }
    }

    /// The number of finished games counted so far.
    #[inline]
    pub fn games(&self) -> (r: usize)
        ensures
            r == self@.games,
    {
        self.games
    }

    /// The per-player results, one entry per player.
    pub fn player_results(&self) -> (r: &Vec<PlayerResults>)
        ensures
            r@.len() == self@.players.len(),
            forall|i: int| 0 <= i < r@.len() ==> (#[trigger] r@[i])@ == self@.players[i],
    {
        &self.player_results
    }

    /// Merges another aggregate into this one, element-wise.
    pub fn add(&mut self, other: Results)
        requires
            old(self)@.players.len() == other@.players.len(),
        ensures
            final(self)@ == t_add(old(self)@, other@),
    {
        self.games = self.games.saturating_add(other.games);
        let mut i: usize = 0;
        while i < self.player_results.len()
            invariant
                self.player_results@.len() == old(self)@.players.len(),
                other@.players.len() == old(self)@.players.len(),
                i <= self.player_results@.len(),
                self.games as int == sadd(old(self)@.games, other@.games),
                forall|j: int|
                    0 <= j < i ==> (#[trigger] self.player_results@[j])@ == pt_add(
                        old(self)@.players[j],
                        other@.players[j],
                    ),
                forall|j: int|
                    i <= j < self.player_results@.len() ==> (#[trigger] self.player_results@[j])@
                        == old(self)@.players[j],
                forall|j: int|
                    0 <= j < other.player_results@.len() ==> (#[trigger] other.player_results@[j])@
                        == other@.players[j],
            decreases self.player_results@.len() - i,
        {
            let mut pr = self.player_results[i];
            pr.add_assign(&other.player_results[i]);
            self.player_results[i] = pr;
            i = i + 1;
        }
        proof {
            assert(self@.players =~= t_add(old(self)@, other@).players);
            assert(self@ =~= t_add(old(self)@, other@));
        }
    }
}

} // verus!
