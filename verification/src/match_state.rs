//! Authoritative match data, shared with all clients: the scoreboard rows and
//! the match phase.
use vstd::prelude::*;

verus! {

pub const MATCH_SECONDS: u32 = 300;

pub const RESULTS_SECONDS: u32 = 10;

/// One participant's line on the scoreboard.
#[derive(Clone, Debug, PartialEq)]
pub struct ScoreRow {
    pub id: u64,
    pub nickname: String,
    pub kills: u32,
    pub deaths: u32,
    pub connected: bool,
}

/// The match number, its phase (playing or showing results), the seconds left
/// in that phase and the scoreboard.
#[derive(Clone, Debug, PartialEq)]
pub struct MatchState {
    pub number: u64,
    pub results: bool,
    pub remaining_seconds: u32,
    pub rows: Vec<ScoreRow>,
}

impl Default for MatchState {
    fn default() -> (m: Self)
        ensures
            m.number == 1,
            !m.results,
            m.remaining_seconds == MATCH_SECONDS,
            m.rows@.len() == 0,
    {
        MatchState { number: 1, results: false, remaining_seconds: MATCH_SECONDS, rows: Vec::new() }
    }
}

/// Kills credited to `row` when `victim` dies at the hands of `killer`:
/// one, unless the row is not the killer's or the death was self-inflicted.
pub open spec fn kill_credit(row: ScoreRow, victim: u64, killer: Option<u64>) -> int {
    if killer == Some(row.id) && row.id != victim {
        1
    } else {
        0
    }
}

/// Deaths recorded on `row` when `victim` dies.
pub open spec fn death_credit(row: ScoreRow, victim: u64) -> int {
    if row.id == victim {
        1
    } else {
        0
    }
}

/// `after` is `before` with one death of `victim` by `killer` recorded.
pub open spec fn death_recorded(before: ScoreRow, after: ScoreRow, victim: u64, killer: Option<u64>) -> bool {
    &&& after.id == before.id
    &&& after.nickname@ == before.nickname@
    &&& after.connected == before.connected
    &&& after.deaths == before.deaths + death_credit(before, victim)
    &&& after.kills == before.kills + kill_credit(before, victim, killer)
}

/// Whether row `a` ranks strictly above row `b`: more kills, then fewer deaths,
/// then the smaller player id.
pub open spec fn ranks_above(a: ScoreRow, b: ScoreRow) -> bool {
    ||| a.kills > b.kills
    ||| (a.kills == b.kills && a.deaths < b.deaths)
    ||| (a.kills == b.kills && a.deaths == b.deaths && a.id < b.id)
}

/// Rows with the same rank key.
pub open spec fn same_rank(a: ScoreRow, b: ScoreRow) -> bool {
    a.kills == b.kills && a.deaths == b.deaths && a.id == b.id
}

/// The order in which row indices `a` and `b` of `rows` are ranked: by rank key,
/// and by position in `rows` between rows with the same key.
pub open spec fn listed_before(rows: Seq<ScoreRow>, a: int, b: int) -> bool {
    ranks_above(rows[a], rows[b]) || (same_rank(rows[a], rows[b]) && a < b)
}

/// `order` lists every index of `rows` once, in ranking order.
pub open spec fn is_rank_order(rows: Seq<ScoreRow>, order: Seq<usize>) -> bool {
    &&& order.len() == rows.len()
    &&& forall|k: int| 0 <= k < order.len() ==> 0 <= #[trigger] order[k] < rows.len()
    &&& forall|k: int, l: int|
        0 <= k < l < order.len() ==> listed_before(
            rows,
            #[trigger] order[k] as int,
            #[trigger] order[l] as int,
        )
}

/// `order` lists, in ranking order, each of the first `n` indices of `rows` once.
pub open spec fn ranks_prefix(rows: Seq<ScoreRow>, order: Seq<usize>, n: int) -> bool {
    &&& order.len() == n
    &&& forall|k: int| 0 <= k < order.len() ==> #[trigger] order[k] < n
    &&& forall|k: int, l: int|
        0 <= k < l < order.len() ==> listed_before(
            rows,
            #[trigger] order[k] as int,
            #[trigger] order[l] as int,
        )
}

proof fn lemma_listed_before_total(rows: Seq<ScoreRow>, a: int, b: int)
    requires
        a != b,
    ensures
        listed_before(rows, a, b) || listed_before(rows, b, a),
        !(listed_before(rows, a, b) && listed_before(rows, b, a)),
{
}

proof fn lemma_listed_before_transitive(rows: Seq<ScoreRow>, a: int, b: int, c: int)
    requires
        listed_before(rows, a, b),
        listed_before(rows, b, c),
    ensures
        listed_before(rows, a, c),
{
}

fn listed_before_exec(rows: &Vec<ScoreRow>, a: usize, b: usize) -> (r: bool)
    requires
        a < rows@.len(),
        b < rows@.len(),
    ensures
        r == listed_before(rows@, a as int, b as int),
{
    let x = &rows[a];
    let y = &rows[b];
    x.kills > y.kills || (x.kills == y.kills && x.deaths < y.deaths) || (x.kills == y.kills
        && x.deaths == y.deaths && x.id < y.id) || (x.kills == y.kills && x.deaths == y.deaths
        && x.id == y.id && a < b)
}

/// The indices of `rows` in ranking order, by insertion of each index after
/// every index already placed that it does not rank above.
fn rank_order(rows: &Vec<ScoreRow>) -> (order: Vec<usize>)
    ensures
        is_rank_order(rows@, order@),
{
    let n = rows.len();
    let mut order: Vec<usize> = Vec::new();
    let mut i: usize = 0;
    while i < n
        invariant
            0 <= i <= n,
            n == rows@.len(),
            ranks_prefix(rows@, order@, i as int),
        decreases n - i,
    {
        let mut pos: usize = 0;
        while pos < order.len() && listed_before_exec(rows, order[pos], i)
            invariant
                0 <= pos <= order@.len(),
                n == rows@.len(),
                i < n,
                ranks_prefix(rows@, order@, i as int),
                forall|k: int| 0 <= k < pos ==> listed_before(rows@, #[trigger] order@[k] as int, i as int),
            decreases order@.len() - pos,
        {
            pos = pos + 1;
        }
        let ghost old_order = order@;
        proof {
            if pos < old_order.len() {
                lemma_listed_before_total(rows@, old_order[pos as int] as int, i as int);
                assert forall|k: int| pos <= k < old_order.len() implies listed_before(rows@, i as int, #[trigger] old_order[k] as int) by {
                    if k > pos {
                        assert(listed_before(rows@, old_order[pos as int] as int, old_order[k] as int));
                        lemma_listed_before_transitive(rows@, i as int, old_order[pos as int] as int, old_order[k] as int);
                    }
                }
            }
        }
        order.insert(pos, i);
        proof {
            assert forall|k: int, l: int| 0 <= k < l < order@.len() implies listed_before(rows@, #[trigger] order@[k] as int, #[trigger] order@[l] as int) by {
                if k < pos && l < pos {
                    assert(order@[k] == old_order[k] && order@[l] == old_order[l]);
                } else if k < pos && l == pos {
                    assert(order@[k] == old_order[k]);
                } else if k < pos && l > pos {
                    assert(order@[k] == old_order[k] && order@[l] == old_order[l - 1]);
                } else if k == pos {
                    assert(order@[l] == old_order[l - 1]);
                } else {
                    assert(order@[k] == old_order[k - 1] && order@[l] == old_order[l - 1]);
                }
            }
            assert forall|k: int| 0 <= k < order@.len() implies #[trigger] order@[k] < i + 1 by {
                if k < pos {
                    assert(order@[k] == old_order[k]);
                } else if k > pos {
                    assert(order@[k] == old_order[k - 1]);
                }
            }
        }
        i = i + 1;
    }
    order
}

impl MatchState {
    /// Count a death for `victim` and a kill for `killer`, unless the match is
    /// showing results.  A player who kills themself earns no kill.
    pub fn record_death(&mut self, victim: u64, killer: Option<u64>)
        requires
            !old(self).results ==> forall|i: int|
                0 <= i < old(self).rows@.len() ==> {
                    &&& (#[trigger] old(self).rows@[i]).deaths + death_credit(old(self).rows@[i], victim) <= u32::MAX
                    &&& old(self).rows@[i].kills + kill_credit(old(self).rows@[i], victim, killer) <= u32::MAX
                },
        ensures
            final(self).number == old(self).number,
            final(self).results == old(self).results,
            final(self).remaining_seconds == old(self).remaining_seconds,
            final(self).rows@.len() == old(self).rows@.len(),
            old(self).results ==> final(self).rows@ == old(self).rows@,
            !old(self).results ==> forall|i: int|
                0 <= i < old(self).rows@.len() ==> death_recorded(
                    old(self).rows@[i],
                    #[trigger] final(self).rows@[i],
                    victim,
                    killer,
                ),
    {
        if self.results {
            return;
        }
        let n = self.rows.len();
        let mut i: usize = 0;
        while i < n
            invariant
                0 <= i <= n,
                n == self.rows@.len(),
                n == old(self).rows@.len(),
                self.number == old(self).number,
                self.results == old(self).results,
                !self.results,
                self.remaining_seconds == old(self).remaining_seconds,
                forall|k: int| i <= k < n ==> #[trigger] self.rows@[k] == old(self).rows@[k],
                forall|k: int| 0 <= k < i ==> death_recorded(old(self).rows@[k], #[trigger] self.rows@[k], victim, killer),
                forall|k: int|
                    0 <= k < n ==> {
                        &&& (#[trigger] old(self).rows@[k]).deaths + death_credit(old(self).rows@[k], victim) <= u32::MAX
                        &&& old(self).rows@[k].kills + kill_credit(old(self).rows@[k], victim, killer) <= u32::MAX
                    },
            decreases n - i,
        {
            if self.rows[i].id == victim {
                self.rows[i].deaths = self.rows[i].deaths + 1;
            }
            let id = self.rows[i].id;
            if killer == Some(id) && id != victim {
                self.rows[i].kills = self.rows[i].kills + 1;
            }
            i = i + 1;
        }
    }

    /// The rows in rank order: most kills, fewest deaths, then the smaller
    /// player id; rows with equal keys keep their scoreboard order.
    pub fn ranked(&self) -> (ranked: Vec<&ScoreRow>)
        ensures
            exists|order: Seq<usize>|
                {
                    &&& is_rank_order(self.rows@, order)
                    &&& ranked@.len() == order.len()
                    &&& forall|k: int| 0 <= k < order.len() ==> *ranked@[k] == self.rows@[#[trigger] order[k] as int]
                },
    {
        let order = rank_order(&self.rows);
        let mut ranked: Vec<&ScoreRow> = Vec::new();
        let mut k: usize = 0;
        while k < order.len()
            invariant
                0 <= k <= order@.len(),
                is_rank_order(self.rows@, order@),
                ranked@.len() == k,
                forall|m: int| 0 <= m < k ==> *ranked@[m] == self.rows@[#[trigger] order@[m] as int],
            decreases order@.len() - k,
        {
            ranked.push(&self.rows[order[k]]);
            k = k + 1;
        }
        ranked
    }
}

/// A rank order lists every row index.
proof fn lemma_rank_order_covers(rows: Seq<ScoreRow>, order: Seq<usize>, a: int)
    requires
        is_rank_order(rows, order),
        0 <= a < rows.len(),
    ensures
        exists|j: int| 0 <= j < order.len() && order[j] == a,
{
    let n = rows.len() as int;
    let s = order.map_values(|x: usize| x as int);
    assert forall|i: int, j: int| 0 <= i < s.len() && 0 <= j < s.len() && i != j implies s[i] != s[j] by {
        if i < j {
            assert(listed_before(rows, order[i] as int, order[j] as int));
        } else {
            assert(listed_before(rows, order[j] as int, order[i] as int));
        }
    }
    assert(s.no_duplicates());
    s.unique_seq_to_set();
    vstd::set_lib::lemma_int_range(0, n);
    assert forall|x: int| s.to_set().contains(x) implies vstd::set_lib::set_int_range(0, n).contains(x) by {
        let j = choose|j: int| 0 <= j < s.len() && s[j] == x;
        assert(order[j] < n);
    }
    vstd::set_lib::lemma_subset_equality(s.to_set(), vstd::set_lib::set_int_range(0, n));
    assert(vstd::set_lib::set_int_range(0, n).contains(a));
    assert(s.to_set().contains(a));
    let j = choose|j: int| 0 <= j < s.len() && s[j] == a;
    assert(order[j] == a);
}

proof fn lemma_rank_orders_agree_upto(rows: Seq<ScoreRow>, o1: Seq<usize>, o2: Seq<usize>, k: int)
    requires
        is_rank_order(rows, o1),
        is_rank_order(rows, o2),
        0 <= k <= rows.len(),
    ensures
        forall|m: int| 0 <= m < k ==> o1[m] == o2[m],
    decreases k,
{
    if k > 0 {
        lemma_rank_orders_agree_upto(rows, o1, o2, k - 1);
        let p = k - 1;
        let a = o1[p] as int;
        let b = o2[p] as int;
        if a != b {
            lemma_listed_before_total(rows, a, b);
            if listed_before(rows, a, b) {
                lemma_rank_order_covers(rows, o2, a);
                let j = choose|j: int| 0 <= j < o2.len() && o2[j] == a;
                if j < p {
                    assert(o1[j] == a);
                    assert(listed_before(rows, o1[j] as int, o1[p] as int));
                } else {
                    assert(listed_before(rows, o2[p] as int, o2[j] as int));
                }
            } else {
                lemma_rank_order_covers(rows, o1, b);
                let j = choose|j: int| 0 <= j < o1.len() && o1[j] == b;
                if j < p {
                    assert(o2[j] == b);
                    assert(listed_before(rows, o2[j] as int, o2[p] as int));
                } else {
                    assert(listed_before(rows, o1[p] as int, o1[j] as int));
                }
            }
        }
    }
}

/// The ranking is deterministic: the rows admit exactly one rank order.
pub proof fn lemma_rank_order_unique(rows: Seq<ScoreRow>, o1: Seq<usize>, o2: Seq<usize>)
    requires
        is_rank_order(rows, o1),
        is_rank_order(rows, o2),
    ensures
        o1 == o2,
{
    lemma_rank_orders_agree_upto(rows, o1, o2, rows.len() as int);
    assert(o1 =~= o2);
}

} // verus!
