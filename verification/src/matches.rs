//! The server's match clock and roster: matches of five minutes alternate
//! with ten seconds of results, and every connected player has a score row.
use vstd::prelude::*;
use crate::match_state::{MatchState, ScoreRow};
use crate::movement::{respawn, respawned};
use crate::protocol::{PlayerInput, PlayerState};

verus! {

pub const NANOS_PER_SECOND: u128 = 1_000_000_000;

/// Length of a match, in nanoseconds.
pub const MATCH_NANOS: u128 = 300_000_000_000;

/// Length of the results phase, in nanoseconds.
pub const RESULTS_NANOS: u128 = 10_000_000_000;

/// Time left in the current phase, in nanoseconds.
pub struct MatchClock {
    pub remaining: u128,
}

impl Default for MatchClock {
    fn default() -> (c: Self)
        ensures
            c.remaining == MATCH_NANOS,
    {
        MatchClock { remaining: MATCH_NANOS }
    }
}

/// A clock state that `advance` accepts: some time is left, at most a match.
pub open spec fn clock_valid(remaining: int) -> bool {
    0 < remaining <= MATCH_NANOS
}

/// The clock after `delta` nanoseconds from `remaining` in the given phase:
/// the time left, the phase, the number of matches started and the number of
/// phase changes.
pub open spec fn run_clock(remaining: int, results: bool, delta: int) -> (int, bool, nat, nat)
    decreases delta,
    when remaining > 0
{
    if delta >= remaining {
        if results {
            let r = run_clock(MATCH_NANOS as int, false, delta - remaining);
            (r.0, r.1, r.2 + 1, r.3 + 1)
        } else {
            let r = run_clock(RESULTS_NANOS as int, true, delta - remaining);
            (r.0, r.1, r.2, r.3 + 1)
        }
    } else {
        (remaining - delta, results, 0, 0)
    }
}

/// Whole seconds shown for `nanos` nanoseconds, rounded up.
pub open spec fn ceil_seconds(nanos: int) -> int {
    (nanos + NANOS_PER_SECOND - 1) / NANOS_PER_SECOND as int
}

proof fn lemma_run_clock_bounds(remaining: int, results: bool, delta: int)
    requires
        remaining > 0,
        delta >= 0,
        results ==> remaining <= RESULTS_NANOS,
        !results ==> remaining <= MATCH_NANOS,
    ensures
        0 < run_clock(remaining, results, delta).0 <= MATCH_NANOS,
        run_clock(remaining, results, delta).1 ==> run_clock(remaining, results, delta).0 <= RESULTS_NANOS,
        run_clock(remaining, results, delta).2 * MATCH_NANOS <= delta + (if results {
            MATCH_NANOS as int
        } else {
            MATCH_NANOS - remaining
        }),
    decreases delta,
{
    if delta >= remaining {
        if results {
            lemma_run_clock_bounds(MATCH_NANOS as int, false, delta - remaining);
        } else {
            lemma_run_clock_bounds(RESULTS_NANOS as int, true, delta - remaining);
        }
        let n = run_clock(remaining, results, delta).2;
        if results {
            assert(n * MATCH_NANOS == (n - 1) * MATCH_NANOS + MATCH_NANOS) by (nonlinear_arith);
        }
    }
}

/// Whether the clock's outcome, the end of a phase or the start of a match, occurred.
pub struct ClockOutcome {
    /// A new match started: players respawn and the scoreboard was cleared.
    pub reset: bool,
    /// A phase ended: projectiles in flight are removed.
    pub clear_bolts: bool,
}

/// Advance the match clock by `delta` nanoseconds of real time, ending
/// matches into results and results into a fresh match as often as `delta`
/// covers, and publish the whole seconds left.
pub fn advance(clock: &mut MatchClock, round: &mut MatchState, delta: u128) -> (outcome: ClockOutcome)
    requires
        clock_valid(old(clock).remaining as int),
        old(round).results ==> old(clock).remaining <= RESULTS_NANOS,
        old(round).number + delta / MATCH_NANOS + 1 <= u64::MAX,
    ensures
        ({
            let run = run_clock(old(clock).remaining as int, old(round).results, delta as int);
            &&& final(clock).remaining == run.0
            &&& final(round).results == run.1
            &&& final(round).number == old(round).number + run.2
            &&& outcome.reset == (run.2 > 0)
            &&& outcome.clear_bolts == (run.3 > 0)
            &&& run.2 > 0 ==> final(round).rows@.len() == 0
            &&& run.2 == 0 ==> final(round).rows@ == old(round).rows@
            &&& final(round).remaining_seconds == ceil_seconds(run.0)
        }),
        clock_valid(final(clock).remaining as int),
        final(round).results ==> final(clock).remaining <= RESULTS_NANOS,
{
    let ghost run = run_clock(old(clock).remaining as int, old(round).results, delta as int);
    proof {
        lemma_run_clock_bounds(old(clock).remaining as int, old(round).results, delta as int);
        assert(run.2 <= delta / MATCH_NANOS + 1) by (nonlinear_arith)
            requires
                run.2 * MATCH_NANOS <= delta + MATCH_NANOS,
                delta >= 0,
        ;
    }
    let mut delta = delta;
    let mut reset = false;
    let mut clear_bolts = false;
    let ghost mut started: nat = 0;
    let ghost mut changes: nat = 0;
    while delta >= clock.remaining
        invariant
            0 < clock.remaining,
            round.results ==> clock.remaining <= RESULTS_NANOS,
            !round.results ==> clock.remaining <= MATCH_NANOS,
            run.0 == run_clock(clock.remaining as int, round.results, delta as int).0,
            run.1 == run_clock(clock.remaining as int, round.results, delta as int).1,
            run.2 == started + run_clock(clock.remaining as int, round.results, delta as int).2,
            run.3 == changes + run_clock(clock.remaining as int, round.results, delta as int).3,
            round.number == old(round).number + started,
            old(round).number + run.2 <= u64::MAX,
            reset == (started > 0),
            clear_bolts == (changes > 0),
            started > 0 ==> round.rows@.len() == 0,
            started == 0 ==> round.rows@ == old(round).rows@,
        decreases delta,
    {
        proof {
            lemma_run_clock_bounds(clock.remaining as int, round.results, delta as int);
        }
        delta = delta - clock.remaining;
        if round.results {
            round.number = round.number + 1;
            round.results = false;
            round.rows.clear();
            clock.remaining = MATCH_NANOS;
            reset = true;
            proof {
                started = started + 1;
            }
        } else {
            round.results = true;
            clock.remaining = RESULTS_NANOS;
        }
        clear_bolts = true;
        proof {
            changes = changes + 1;
        }
    }
    clock.remaining = clock.remaining - delta;
    let seconds: u128 = (clock.remaining + NANOS_PER_SECOND - 1) / NANOS_PER_SECOND;
    proof {
        assert(seconds <= 300) by (nonlinear_arith)
            requires
                seconds == (clock.remaining + NANOS_PER_SECOND - 1) / NANOS_PER_SECOND as int,
                clock.remaining <= MATCH_NANOS,
        ;
    }
    round.remaining_seconds = seconds as u32;
    ClockOutcome { reset, clear_bolts }
}

/// Whether some row of `rows` belongs to player `id`.
pub open spec fn has_row(rows: Seq<ScoreRow>, id: u64) -> bool {
    exists|k: int| 0 <= k < rows.len() && (#[trigger] rows[k]).id == id
}

/// Whether player `id` is among the connected players.
pub open spec fn is_present(present: Seq<(u64, String)>, id: u64) -> bool {
    exists|k: int| 0 <= k < present.len() && (#[trigger] present[k]).0 == id
}

/// The scoreboard after each connected player without a row, in order, got a
/// fresh row (no kills, no deaths), when rows may still be added.
pub open spec fn joined_rows(rows: Seq<ScoreRow>, present: Seq<(u64, String)>, open: bool) -> Seq<
    ScoreRow,
>
    decreases present.len(),
{
    if present.len() == 0 {
        rows
    } else {
        let earlier = joined_rows(rows, present.drop_last(), open);
        let (id, name) = present.last();
        if !open || has_row(earlier, id) {
            earlier
        } else {
            earlier.push(ScoreRow { id, nickname: name, kills: 0, deaths: 0, connected: true })
        }
    }
}

/// `after` is `before` with its connection flag set from the connected players.
pub open spec fn presence_marked(before: ScoreRow, after: ScoreRow, present: Seq<(u64, String)>) -> bool {
    &&& after.id == before.id
    &&& after.nickname@ == before.nickname@
    &&& after.kills == before.kills
    &&& after.deaths == before.deaths
    &&& after.connected == is_present(present, before.id)
}

fn has_row_exec(rows: &Vec<ScoreRow>, id: u64) -> (r: bool)
    ensures
        r == has_row(rows@, id),
{
    let mut k: usize = 0;
    while k < rows.len()
        invariant
            0 <= k <= rows@.len(),
            forall|m: int| 0 <= m < k ==> (#[trigger] rows@[m]).id != id,
        decreases rows@.len() - k,
    {
        if rows[k].id == id {
            return true;
        }
        k = k + 1;
    }
    false
}

fn is_present_exec(present: &Vec<(u64, String)>, id: u64) -> (r: bool)
    ensures
        r == is_present(present@, id),
{
    let mut k: usize = 0;
    while k < present.len()
        invariant
            0 <= k <= present@.len(),
            forall|m: int| 0 <= m < k ==> (#[trigger] present@[m]).0 != id,
        decreases present@.len() - k,
    {
        if present[k].0 == id {
            return true;
        }
        k = k + 1;
    }
    false
}

/// Give every connected player (`id`, nickname) a row while a match runs, and
/// mark each row connected or not.  Rows of players who left stay until the
/// match ends.
pub fn sync_roster(round: &mut MatchState, present: &Vec<(u64, String)>)
    ensures
        final(round).number == old(round).number,
        final(round).results == old(round).results,
        final(round).remaining_seconds == old(round).remaining_seconds,
        final(round).rows@.len() == joined_rows(old(round).rows@, present@, !old(round).results).len(),
        forall|k: int|
            0 <= k < final(round).rows@.len() ==> presence_marked(
                joined_rows(old(round).rows@, present@, !old(round).results)[k],
                #[trigger] final(round).rows@[k],
                present@,
            ),
{
    let open = !round.results;
    let mut p: usize = 0;
    while p < present.len()
        invariant
            0 <= p <= present@.len(),
            open == !old(round).results,
            round.number == old(round).number,
            round.results == old(round).results,
            round.remaining_seconds == old(round).remaining_seconds,
            round.rows@ == joined_rows(old(round).rows@, present@.take(p as int), open),
        decreases present@.len() - p,
    {
        assert(present@.take(p + 1).drop_last() =~= present@.take(p as int));
        let id = present[p].0;
        if open && !has_row_exec(&round.rows, id) {
            let nickname = present[p].1.clone();
            round.rows.push(ScoreRow { id, nickname, kills: 0, deaths: 0, connected: true });
        }
        p = p + 1;
    }
    assert(present@.take(present@.len() as int) =~= present@);
    let ghost joined = round.rows@;
    let n = round.rows.len();
    let mut k: usize = 0;
    while k < n
        invariant
            0 <= k <= n,
            n == round.rows@.len(),
            n == joined.len(),
            round.number == old(round).number,
            round.results == old(round).results,
            round.remaining_seconds == old(round).remaining_seconds,
            forall|m: int| k <= m < n ==> #[trigger] round.rows@[m] == joined[m],
            forall|m: int| 0 <= m < k ==> presence_marked(joined[m], #[trigger] round.rows@[m], present@),
        decreases n - k,
    {
        let id = round.rows[k].id;
        let connected = is_present_exec(present, id);
        round.rows[k].connected = connected;
        k = k + 1;
    }
}

/// A player's discrete state after the match clock ran: respawned when a new
/// match started (`reset`), and paused exactly while results are shown.
pub open spec fn match_player(s: PlayerState, input: PlayerInput, reset: bool, results: bool, spawn_count: int) -> PlayerState {
    let s = if reset {
        respawned(s, input, spawn_count)
    } else {
        s
    };
    PlayerState { match_paused: results, ..s }
}

/// One server frame of the match: advance the clock by `delta` nanoseconds,
/// respawn every player (`players[i]`, whose latest input is `inputs[i]`, on
/// a map with `spawn_count` spawns) when a new match starts, pause them all
/// while results are shown and unpause them otherwise, and bring the
/// scoreboard's roster up to date with the connected players `present`.
pub fn run_match(
    clock: &mut MatchClock,
    round: &mut MatchState,
    delta: u128,
    players: &mut Vec<PlayerState>,
    inputs: &Vec<PlayerInput>,
    present: &Vec<(u64, String)>,
    spawn_count: usize,
) -> (outcome: ClockOutcome)
    requires
        clock_valid(old(clock).remaining as int),
        old(round).results ==> old(clock).remaining <= RESULTS_NANOS,
        old(round).number + delta / MATCH_NANOS + 1 <= u64::MAX,
        old(players)@.len() == inputs@.len(),
        old(players)@.len() > 0 && run_clock(old(clock).remaining as int, old(round).results, delta as int).2
            > 0 ==> spawn_count > 0,
    ensures
        ({
            let run = run_clock(old(clock).remaining as int, old(round).results, delta as int);
            let kept = if run.2 > 0 {
                Seq::<ScoreRow>::empty()
            } else {
                old(round).rows@
            };
            let rows = joined_rows(kept, present@, !run.1);
            &&& final(clock).remaining == run.0
            &&& final(round).results == run.1
            &&& final(round).number == old(round).number + run.2
            &&& final(round).remaining_seconds == ceil_seconds(run.0)
            &&& outcome.reset == (run.2 > 0)
            &&& outcome.clear_bolts == (run.3 > 0)
            &&& final(round).rows@.len() == rows.len()
            &&& forall|k: int|
                0 <= k < rows.len() ==> presence_marked(rows[k], #[trigger] final(round).rows@[k], present@)
            &&& final(players)@.len() == old(players)@.len()
            &&& forall|i: int|
                0 <= i < old(players)@.len() ==> #[trigger] final(players)@[i] == match_player(
                    old(players)@[i],
                    inputs@[i],
                    run.2 > 0,
                    run.1,
                    spawn_count as int,
                )
        }),
        clock_valid(final(clock).remaining as int),
        final(round).results ==> final(clock).remaining <= RESULTS_NANOS,
{
    let outcome = advance(clock, round, delta);
    proof {
        if outcome.reset {
            assert(round.rows@ =~= Seq::<ScoreRow>::empty());
        }
    }
    let n = players.len();
    let mut i: usize = 0;
    while i < n
        invariant
            0 <= i <= n,
            n == players@.len(),
            n == old(players)@.len(),
            n == inputs@.len(),
            n > 0 && outcome.reset ==> spawn_count > 0,
            forall|k: int| i <= k < n ==> #[trigger] players@[k] == old(players)@[k],
            forall|k: int|
                0 <= k < i ==> #[trigger] players@[k] == match_player(
                    old(players)@[k],
                    inputs@[k],
                    outcome.reset,
                    round.results,
                    spawn_count as int,
                ),
        decreases n - i,
    {
        let mut s = players[i];
        if outcome.reset {
            respawn(&mut s, &inputs[i], spawn_count);
        }
        s.match_paused = round.results;
        players.set(i, s);
        i = i + 1;
    }
    sync_roster(round, present);
    outcome
}

} // verus!
