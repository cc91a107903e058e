//! The Goal Aggregator: folds the finished matches of a season into one
//! total per team and orders the board. Matches are read side by side —
//! slot `2*i` is match `i`'s first team, slot `2*i + 1` its second — so a
//! team's total is the sum of its goals over every finished match that
//! lists it on either side; unfinished matches contribute nothing, and a
//! team whose finished matches were all goalless still gets its row. The
//! board is ordered by total, largest first; teams with equal totals keep
//! the order in which the season first shows them.

use vstd::prelude::*;
use vstd::string::*;
use vstd::pervasive::VecAdditionalExecFns;
use crate::season::{Match, MatchV, matches_view};
use crate::text::{dec_rep, u64_string, pad_right_spec, pad_right, str_eq};

verus! {

/// One board row: a team and its goal total.
pub struct TeamGoals {
    pub team: String,
    pub goals: u64,
}

/// The mathematical image of a `TeamGoals`.
pub struct TeamGoalsV {
    pub team: Seq<char>,
    pub goals: u64,
}

impl View for TeamGoals {
    type V = TeamGoalsV;

    open spec fn view(&self) -> TeamGoalsV {
        TeamGoalsV { team: self.team@, goals: self.goals }
    }
}

/// The views of a board.
pub open spec fn board_view(s: Seq<TeamGoals>) -> Seq<TeamGoalsV> {
    s.map_values(|e: TeamGoals| e@)
}

/// The team a slot names: even slots the first team, odd slots the second.
pub open spec fn slot_team(ms: Seq<MatchV>, k: int) -> Seq<char> {
    if k % 2 == 0 {
        ms[k / 2].team_1
    } else {
        ms[k / 2].team_2
    }
}

/// The goals a slot carries for its team.
pub open spec fn slot_goals(ms: Seq<MatchV>, k: int) -> u32 {
    if k % 2 == 0 {
        ms[k / 2].team_1_goals
    } else {
        ms[k / 2].team_2_goals
    }
}

/// Slot `k` contributes to `team`: it lies in range, its match is
/// finished, and it names `team`.
pub open spec fn slot_counts(ms: Seq<MatchV>, k: int, team: Seq<char>) -> bool {
    0 <= k < 2 * ms.len() && ms[k / 2].finished && slot_team(ms, k) == team
}

/// The goals `team` scored in the first `n` slots.
pub open spec fn goals_upto(ms: Seq<MatchV>, team: Seq<char>, n: int) -> int
    decreases n,
{
    if n <= 0 {
        0
    } else {
        goals_upto(ms, team, n - 1) + if slot_counts(ms, n - 1, team) {
            slot_goals(ms, n - 1) as int
        } else {
            0
        }
    }
}

/// A team's total: the sum of its goals across every finished match that
/// lists it as either side.
pub open spec fn team_total(ms: Seq<MatchV>, team: Seq<char>) -> int {
    goals_upto(ms, team, 2 * ms.len() as int)
}

/// `team` stands in some finished match of the season.
pub open spec fn appears(ms: Seq<MatchV>, team: Seq<char>) -> bool {
    exists|k: int| slot_counts(ms, k, team)
}

/// The first slot from `k` on that contributes to `team`; `2 * ms.len()`
/// when none does.
pub open spec fn first_slot_from(ms: Seq<MatchV>, team: Seq<char>, k: int) -> int
    decreases 2 * ms.len() - k,
{
    if k < 0 || k >= 2 * ms.len() {
        2 * ms.len() as int
    } else if slot_counts(ms, k, team) {
        k
    } else {
        first_slot_from(ms, team, k + 1)
    }
}

/// Where the season first shows `team` in a finished match; the rank that
/// breaks ties on the board.
pub open spec fn first_slot(ms: Seq<MatchV>, team: Seq<char>) -> int {
    first_slot_from(ms, team, 0)
}

proof fn lemma_first_slot_from(ms: Seq<MatchV>, team: Seq<char>, k0: int)
    requires
        0 <= k0 <= 2 * ms.len(),
    ensures
        k0 <= first_slot_from(ms, team, k0) <= 2 * ms.len(),
        first_slot_from(ms, team, k0) < 2 * ms.len() ==> slot_counts(
            ms,
            first_slot_from(ms, team, k0),
            team,
        ),
        forall|k: int| k0 <= k < first_slot_from(ms, team, k0) ==> !slot_counts(ms, k, team),
    decreases 2 * ms.len() - k0,
{
    if k0 < 2 * ms.len() && !slot_counts(ms, k0, team) {
        lemma_first_slot_from(ms, team, k0 + 1);
    }
}

/// Basic facts about the first-seen rank.
pub proof fn lemma_first_slot(ms: Seq<MatchV>, team: Seq<char>)
    ensures
        0 <= first_slot(ms, team) <= 2 * ms.len(),
        first_slot(ms, team) < 2 * ms.len() ==> slot_counts(ms, first_slot(ms, team), team),
        forall|k: int| 0 <= k < first_slot(ms, team) ==> !slot_counts(ms, k, team),
        appears(ms, team) <==> first_slot(ms, team) < 2 * ms.len(),
{
    lemma_first_slot_from(ms, team, 0);
    if appears(ms, team) {
        let k = choose|k: int| slot_counts(ms, k, team);
        assert(0 <= k < 2 * ms.len());
        if first_slot(ms, team) == 2 * ms.len() {
            assert(!slot_counts(ms, k, team));
        }
    }
}

proof fn lemma_goals_upto_bound(ms: Seq<MatchV>, team: Seq<char>, n: int)
    requires
        n >= 0,
    ensures
        0 <= goals_upto(ms, team, n) <= n * (u32::MAX as int),
    decreases n,
{
    if n > 0 {
        lemma_goals_upto_bound(ms, team, n - 1);
        assert((n - 1) * (u32::MAX as int) + (u32::MAX as int) == n * (u32::MAX as int))
            by (nonlinear_arith);
    }
}

proof fn lemma_goals_upto_zero(ms: Seq<MatchV>, team: Seq<char>, n: int)
    requires
        forall|k: int| 0 <= k < n ==> !slot_counts(ms, k, team),
    ensures
        goals_upto(ms, team, n) == 0,
    decreases n,
{
    if n > 0 {
        lemma_goals_upto_zero(ms, team, n - 1);
    }
}

/// Rows stand in first-seen order.
pub open spec fn fs_ordered(acc: Seq<TeamGoalsV>, ms: Seq<MatchV>) -> bool {
    forall|a: int, b: int|
        0 <= a < b < acc.len() ==> first_slot(ms, (#[trigger] acc[a]).team) < first_slot(
            ms,
            (#[trigger] acc[b]).team,
        )
}

/// The accumulation invariant: after the first `k` slots, `acc` holds one
/// row per team seen so far, in first-seen order, with its partial total.
pub open spec fn agg_inv(acc: Seq<TeamGoalsV>, ms: Seq<MatchV>, k: int) -> bool {
    &&& forall|t: int| 0 <= t < acc.len() ==> first_slot(ms, #[trigger] acc[t].team) < k
    &&& forall|t: int|
        0 <= t < acc.len() ==> (#[trigger] acc[t].goals) as int == goals_upto(ms, acc[t].team, k)
    &&& fs_ordered(acc, ms)
    &&& forall|team: Seq<char>|
        #[trigger] first_slot(ms, team) < k ==> exists|t: int|
            0 <= t < acc.len() && acc[t].team == team
}

fn add_goal(
    acc: &mut Vec<TeamGoals>,
    team: &String,
    g: u32,
    Ghost(ms): Ghost<Seq<MatchV>>,
    Ghost(k): Ghost<int>,
)
    requires
        ms.len() <= 0x7fff_ffff,
        0 <= k < 2 * ms.len(),
        slot_counts(ms, k, team@),
        g == slot_goals(ms, k),
        agg_inv(board_view(old(acc)@), ms, k),
    ensures
        agg_inv(board_view(final(acc)@), ms, k + 1),
{
    proof {
        lemma_first_slot(ms, team@);
    }
    let n = acc.len();
    let mut found: Option<usize> = None;
    for i in 0..n
        invariant
            n == acc@.len(),
            found matches Some(t) ==> t < n && board_view(acc@)[t as int].team == team@,
            found is None ==> forall|t: int| 0 <= t < i ==> board_view(acc@)[t].team != team@,
        {
        if found.is_none() && str_eq(acc[i].team.as_str(), team.as_str()) {
            found = Some(i);
        }
    }
    let ghost prev = board_view(acc@);
    match found {
        Some(i) => {
            proof {
                lemma_goals_upto_bound(ms, team@, k);
                assert(prev[i as int].goals as int == goals_upto(ms, prev[i as int].team, k));
                assert(goals_upto(ms, team@, k) <= k * (u32::MAX as int));
                assert(k * (u32::MAX as int) <= 0xfffffffd * (u32::MAX as int))
                    by (nonlinear_arith)
                    requires 0 <= k <= 0xfffffffd,
                ;
            }
            let new_total = acc[i].goals + (g as u64);
            let row = TeamGoals { team: acc[i].team.clone(), goals: new_total };
            acc.set(i, row);
            proof {
                let cur = board_view(acc@);
                assert(cur =~= prev.update(
                    i as int,
                    TeamGoalsV { team: prev[i as int].team, goals: new_total },
                ));
                assert forall|t: int| 0 <= t < cur.len() implies (#[trigger] cur[t].goals) as int
                    == goals_upto(ms, cur[t].team, k + 1) by {
                    if t == i as int {
                        assert(slot_counts(ms, k, cur[t].team));
                    } else {
                        assert(cur[t] == prev[t]);
                        if slot_counts(ms, k, cur[t].team) {
                            assert(cur[t].team == slot_team(ms, k));
                            assert(prev[i as int].team == team@);
                            assert(first_slot(ms, cur[t].team) == first_slot(ms, prev[i as int].team));
                            assert(false);
                        }
                    }
                }
                assert forall|team2: Seq<char>| #[trigger] first_slot(ms, team2) < k + 1 implies
                    exists|t: int| 0 <= t < cur.len() && cur[t].team == team2 by {
                    if first_slot(ms, team2) < k {
                        let t = choose|t: int| 0 <= t < prev.len() && prev[t].team == team2;
                        assert(cur[t].team == team2);
                    } else {
                        lemma_first_slot(ms, team2);
                        assert(slot_counts(ms, first_slot(ms, team2), team2));
                        assert(team2 == slot_team(ms, k));
                        assert(cur[i as int].team == team2);
                    }
                }
            }
        },
        None => {
            let row = TeamGoals { team: (*team).clone(), goals: g as u64 };
            acc.push(row);
            proof {
                let cur = board_view(acc@);
                assert(cur =~= prev.push(TeamGoalsV { team: team@, goals: g as u64 }));
                // the new team was not seen before slot k
                if first_slot(ms, team@) < k {
                    let t = choose|t: int| 0 <= t < prev.len() && prev[t].team == team@;
                    assert(prev[t].team != team@);
                }
                assert(first_slot(ms, team@) <= k);
                assert(first_slot(ms, team@) == k);
                lemma_goals_upto_zero(ms, team@, k);
                assert forall|t: int| 0 <= t < cur.len() implies (#[trigger] cur[t].goals) as int
                    == goals_upto(ms, cur[t].team, k + 1) by {
                    if t == cur.len() - 1 {
                        assert(goals_upto(ms, team@, k + 1) == g);
                    } else {
                        assert(cur[t] == prev[t]);
                        if slot_counts(ms, k, cur[t].team) {
                            assert(cur[t].team == team@);
                            assert(first_slot(ms, cur[t].team) < k);
                            assert(false);
                        }
                    }
                }
                assert forall|a: int, b: int| 0 <= a < b < cur.len() implies first_slot(
                    ms,
                    #[trigger] cur[a].team,
                ) < first_slot(ms, #[trigger] cur[b].team) by {
                    if b < cur.len() - 1 {
                        assert(cur[a] == prev[a] && cur[b] == prev[b]);
                    } else {
                        assert(cur[a] == prev[a]);
                        assert(first_slot(ms, prev[a].team) < k);
                    }
                }
                assert forall|team2: Seq<char>| #[trigger] first_slot(ms, team2) < k + 1 implies
                    exists|t: int| 0 <= t < cur.len() && cur[t].team == team2 by {
                    if first_slot(ms, team2) < k {
                        let t = choose|t: int| 0 <= t < prev.len() && prev[t].team == team2;
                        assert(cur[t].team == team2);
                    } else {
                        lemma_first_slot(ms, team2);
                        assert(slot_counts(ms, first_slot(ms, team2), team2));
                        assert(team2 == slot_team(ms, k));
                        assert(cur[cur.len() - 1].team == team2);
                    }
                }
            }
        },
    }
}

/// What the finished board states: one row per team of a finished match,
/// each row carrying that team's full total, ordered by total (largest
/// first) and, among equal totals, by first appearance in the season.
pub open spec fn goal_board(r: Seq<TeamGoalsV>, ms: Seq<MatchV>) -> bool {
    &&& forall|t: int|
        0 <= t < r.len() ==> appears(ms, #[trigger] r[t].team) && (r[t].goals) as int == team_total(
            ms,
            r[t].team,
        )
    &&& forall|team: Seq<char>|
        appears(ms, team) ==> exists|t: int| 0 <= t < r.len() && (#[trigger] r[t]).team == team
    &&& board_sorted(r, ms)
}

/// Folds the finished matches into the ordered goal board. The bound on
/// the season's length keeps every total below `u64::MAX`.
pub fn aggregate_goals(ms: &Vec<Match>) -> (r: Vec<TeamGoals>)
    requires
        ms@.len() <= 0x7fff_ffff,
    ensures
        goal_board(board_view(r@), matches_view(ms@)),
{
    let ghost msv = matches_view(ms@);
    let n = ms.len();
    let mut acc: Vec<TeamGoals> = Vec::new();
    proof {
        assert(board_view(acc@) =~= Seq::<TeamGoalsV>::empty());
        assert(msv.len() == ms@.len());
        assert forall|team: Seq<char>| #[trigger] first_slot(msv, team) >= 0 by {
            lemma_first_slot(msv, team);
        }
    }
    let mut k: usize = 0;
    while k < 2 * n
        invariant
            n == ms@.len(),
            n <= 0x7fff_ffff,
            msv == matches_view(ms@),
            k <= 2 * n,
            agg_inv(board_view(acc@), msv, k as int),
        decreases 2 * n - k,
    {
        let m = &ms[k / 2];
        proof {
            assert(msv[k as int / 2] == ms@[k as int / 2]@);
        }
        if m.finished {
            let g = if k % 2 == 0 {
                m.team_1_goals
            } else {
                m.team_2_goals
            };
            let team = if k % 2 == 0 {
                &m.team_1
            } else {
                &m.team_2
            };
            proof {
                assert(slot_counts(msv, k as int, team@));
                assert(g == slot_goals(msv, k as int));
            }
            add_goal(&mut acc, team, g, Ghost(msv), Ghost(k as int));
        } else {
            proof {
                let cur = board_view(acc@);
                assert forall|t: int| 0 <= t < cur.len() implies (#[trigger] cur[t].goals) as int
                    == goals_upto(msv, cur[t].team, k + 1) by {
                    assert(!slot_counts(msv, k as int, cur[t].team));
                }
                assert forall|team2: Seq<char>| #[trigger] first_slot(msv, team2) < k + 1 implies
                    exists|t: int| 0 <= t < cur.len() && cur[t].team == team2 by {
                    lemma_first_slot(msv, team2);
                    if first_slot(msv, team2) == k {
                        assert(slot_counts(msv, k as int, team2));
                        assert(false);
                    }
                }
            }
        }
        k = k + 1;
    }
    proof {
        assert(msv.len() == ms@.len());
        assert(agg_inv(board_view(acc@), msv, 2 * msv.len() as int));
    }
    sort_board(acc, Ghost(msv))
}

/// The board's order: totals descending; equal totals in first-seen order.
pub open spec fn board_sorted(r: Seq<TeamGoalsV>, ms: Seq<MatchV>) -> bool {
    forall|a: int, b: int|
        0 <= a < b < r.len() ==> (#[trigger] r[a]).goals > (#[trigger] r[b]).goals || (r[a].goals
            == r[b].goals && first_slot(ms, r[a].team) < first_slot(ms, r[b].team))
}

/// `out` holds exactly the rows `accv[0..u]`, each once.
pub open spec fn board_rows(out: Seq<TeamGoalsV>, accv: Seq<TeamGoalsV>, u: int) -> bool {
    &&& out.len() == u
    &&& forall|i: int|
        0 <= i < out.len() ==> exists|t: int| 0 <= t < u && accv[t] == #[trigger] out[i]
    &&& forall|t: int|
        0 <= t < u ==> exists|i: int| 0 <= i < out.len() && out[i] == #[trigger] accv[t]
}
#[verifier::spinoff_prover]
#[verifier::rlimit(80)]
proof fn lemma_insert_index(prev_out: Seq<TeamGoalsV>, cur: Seq<TeamGoalsV>, e: TeamGoalsV, pos: int)
    requires
        0 <= pos <= prev_out.len(),
        cur == prev_out.insert(pos, e),
    ensures
        cur.len() == prev_out.len() + 1,
        forall|i: int|
            0 <= i < cur.len() ==> #[trigger] cur[i] == (if i < pos {
                prev_out[i]
            } else if i == pos {
                e
            } else {
                prev_out[i - 1]
            }),
{
    assert forall|i: int| 0 <= i < cur.len() implies #[trigger] cur[i] == (if i < pos {
        prev_out[i]
    } else if i == pos {
        e
    } else {
        prev_out[i - 1]
    }) by {
        assert(cur =~= prev_out.subrange(0, pos).push(e) + prev_out.subrange(
            pos,
            prev_out.len() as int,
        ));
    }
}

#[verifier::spinoff_prover]
#[verifier::rlimit(80)]
proof fn lemma_insert_sorted(
    prev_out: Seq<TeamGoalsV>,
    cur: Seq<TeamGoalsV>,
    accv: Seq<TeamGoalsV>,
    msv: Seq<MatchV>,
    u: int,
    pos: int,
)
    requires
        fs_ordered(accv, msv),
        0 <= u < accv.len(),
        0 <= pos <= prev_out.len(),
        cur == prev_out.insert(pos, accv[u]),
        board_sorted(prev_out, msv),
        board_rows(prev_out, accv, u),
        forall|j: int| 0 <= j < pos ==> (#[trigger] prev_out[j]).goals >= accv[u].goals,
        pos < prev_out.len() ==> prev_out[pos].goals < accv[u].goals,
    ensures
        board_sorted(cur, msv),
{
    let e = accv[u];
    lemma_insert_index(prev_out, cur, e, pos);
    assert forall|a: int, b: int| 0 <= a < b < cur.len() implies (#[trigger] cur[a]).goals > (
    #[trigger] cur[b]).goals || (cur[a].goals == cur[b].goals && first_slot(msv, cur[a].team)
        < first_slot(msv, cur[b].team)) by {
        if a < pos && b == pos {
            assert(prev_out[a].goals >= e.goals);
            if prev_out[a].goals == e.goals {
                let t = choose|t: int| 0 <= t < u && accv[t] == prev_out[a];
                assert(first_slot(msv, accv[t].team) < first_slot(msv, accv[u].team));
            }
        } else if a == pos && b > pos {
            assert(prev_out[pos].goals < e.goals);
            if pos < b - 1 {
                assert(prev_out[pos].goals > prev_out[b - 1].goals || prev_out[pos].goals
                    == prev_out[b - 1].goals);
            }
        } else if a < pos && b > pos {
            assert(prev_out[pos].goals < e.goals);
            assert(prev_out[a].goals >= e.goals);
            if pos < b - 1 {
                assert(prev_out[pos].goals > prev_out[b - 1].goals || prev_out[pos].goals
                    == prev_out[b - 1].goals);
            }
            assert(prev_out[a].goals > prev_out[b - 1].goals);
        }
    }
}

#[verifier::spinoff_prover]
#[verifier::rlimit(80)]
proof fn lemma_insert_rows(
    prev_out: Seq<TeamGoalsV>,
    cur: Seq<TeamGoalsV>,
    accv: Seq<TeamGoalsV>,
    u: int,
    pos: int,
)
    requires
        0 <= u < accv.len(),
        0 <= pos <= prev_out.len(),
        cur == prev_out.insert(pos, accv[u]),
        board_rows(prev_out, accv, u),
    ensures
        board_rows(cur, accv, u + 1),
{
    lemma_insert_index(prev_out, cur, accv[u], pos);
    assert forall|t: int| 0 <= t < u + 1 implies exists|i: int|
        0 <= i < cur.len() && cur[i] == #[trigger] accv[t] by {
        if t < u {
            let i = choose|i: int| 0 <= i < prev_out.len() && prev_out[i] == accv[t];
            if i < pos {
                assert(cur[i] == accv[t]);
            } else {
                assert(cur[i + 1] == accv[t]);
            }
        } else {
            assert(cur[pos] == accv[t]);
        }
    }
    assert forall|i: int| 0 <= i < cur.len() implies exists|t: int|
        0 <= t < u + 1 && accv[t] == #[trigger] cur[i] by {
        if i < pos {
            let t = choose|t: int| 0 <= t < u && accv[t] == prev_out[i];
            assert(accv[t] == cur[i]);
        } else if i == pos {
            assert(accv[u] == cur[i]);
        } else {
            let t = choose|t: int| 0 <= t < u && accv[t] == prev_out[i - 1];
            assert(accv[t] == cur[i]);
        }
    }
}

/// Orders a finished accumulation: largest total first, stable in
/// first-seen order.
#[verifier::spinoff_prover]
#[verifier::rlimit(100)]
fn sort_board(acc: Vec<TeamGoals>, Ghost(msv): Ghost<Seq<MatchV>>) -> (out: Vec<TeamGoals>)
    requires
        agg_inv(board_view(acc@), msv, 2 * msv.len() as int),
    ensures
        goal_board(board_view(out@), msv),
{
    let mut out: Vec<TeamGoals> = Vec::new();
    proof {
        assert(board_view(out@) =~= Seq::<TeamGoalsV>::empty());
    }
    let total = acc.len();
    let ghost accv = board_view(acc@);
    for u in 0..total
        invariant
            total == acc@.len(),
            accv == board_view(acc@),
            fs_ordered(accv, msv),
            board_rows(board_view(out@), accv, u as int),
            board_sorted(board_view(out@), msv),
    {
        let e_goals = acc[u].goals;
        let n_out = out.len();
        let mut pos: usize = 0;
        while pos < n_out && out[pos].goals >= e_goals
            invariant
                n_out == out@.len(),
                pos <= n_out,
                forall|j: int| 0 <= j < pos ==> (#[trigger] board_view(out@)[j]).goals >= e_goals,
            decreases n_out - pos,
        {
            proof {
                assert(board_view(out@)[pos as int].goals == out@[pos as int]@.goals);
            }
            pos = pos + 1;
        }
        let ghost prev_out = board_view(out@);
        proof {
            assert((pos as int) < prev_out.len() ==> prev_out[pos as int].goals < e_goals);
        }
        let row = TeamGoals { team: acc[u].team.clone(), goals: acc[u].goals };
        out.insert(pos, row);
        proof {
            assert(board_view(out@) =~= prev_out.insert(pos as int, accv[u as int]));
            lemma_insert_sorted(prev_out, board_view(out@), accv, msv, u as int, pos as int);
            lemma_insert_rows(prev_out, board_view(out@), accv, u as int, pos as int);
        }
    }
    proof {
        let rv = board_view(out@);
        assert forall|t: int| 0 <= t < rv.len() implies appears(msv, #[trigger] rv[t].team) && (
        rv[t].goals) as int == team_total(msv, rv[t].team) by {
            let s = choose|s: int| 0 <= s < accv.len() && accv[s] == rv[t];
            lemma_first_slot(msv, rv[t].team);
        }
        assert forall|team: Seq<char>| appears(msv, team) implies exists|t: int|
            0 <= t < rv.len() && (#[trigger] rv[t]).team == team by {
            lemma_first_slot(msv, team);
            let s = choose|s: int| 0 <= s < accv.len() && accv[s].team == team;
            let i = choose|i: int| 0 <= i < rv.len() && rv[i] == accv[s];
            assert(rv[i].team == team);
        }
    }
    out
}

/// Every team of a finished match gets its board row, carrying its full
/// total — so a team whose finished matches were all goalless still
/// stands on the board, with 0, rather than being left off.
pub proof fn lemma_finished_team_listed(r: Seq<TeamGoalsV>, ms: Seq<MatchV>, i: int)
    requires
        goal_board(r, ms),
        0 <= i < ms.len(),
        ms[i].finished,
    ensures
        exists|t: int|
            0 <= t < r.len() && (#[trigger] r[t]).team == ms[i].team_1 && r[t].goals as int
                == team_total(ms, ms[i].team_1),
        exists|t: int|
            0 <= t < r.len() && (#[trigger] r[t]).team == ms[i].team_2 && r[t].goals as int
                == team_total(ms, ms[i].team_2),
{
    assert(slot_counts(ms, 2 * i, ms[i].team_1));
    assert(slot_counts(ms, 2 * i + 1, ms[i].team_2));
    assert(appears(ms, ms[i].team_1));
    assert(appears(ms, ms[i].team_2));
    let t1 = choose|t: int| 0 <= t < r.len() && (#[trigger] r[t]).team == ms[i].team_1;
    let t2 = choose|t: int| 0 <= t < r.len() && (#[trigger] r[t]).team == ms[i].team_2;
    assert(r[t1].goals as int == team_total(ms, ms[i].team_1));
    assert(r[t2].goals as int == team_total(ms, ms[i].team_2));
}

/// One board line: the team left-aligned to 25 places, a colon, a space,
/// and the total in decimal.
pub open spec fn board_line(t: TeamGoalsV) -> Seq<char> {
    pad_right_spec(t.team, 25) + ": "@ + dec_rep(t.goals as nat)
}

/// Renders the board, one line per row.
pub fn board_lines(r: &Vec<TeamGoals>) -> (lines: Vec<String>)
    ensures
        lines@.len() == r@.len(),
        forall|i: int| 0 <= i < lines@.len() ==> (#[trigger] lines@[i])@ == board_line(r@[i]@),
{
    let mut lines: Vec<String> = Vec::new();
    let n = r.len();
    for i in 0..n
        invariant
            n == r@.len(),
            lines@.len() == i,
            forall|t: int| 0 <= t < i ==> (#[trigger] lines@[t])@ == board_line(r@[t]@),
    {
        let mut line = pad_right(r[i].team.as_str(), 25);
        line.append(": ");
        let total = u64_string(r[i].goals);
        line.append(total.as_str());
        proof {
            assert(line@ =~= board_line(r@[i as int]@));
        }
        lines.push(line);
    }
    lines
}

} // verus!
