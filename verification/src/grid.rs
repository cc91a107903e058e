//! The Tip Matcher: crosses one season's fixtures with the stored tips
//! into a day-by-player grid. Each row names a fixture; each cell shows
//! the player's predicted score under the composite key
//! `"{day}_{player}_{team_1_short}"`, or `"-"` where no tip sits there.

use vstd::prelude::*;
use vstd::string::*;
use crate::season::Match;
use crate::season::MatchV;
use crate::text::{dec_rep, u64_string, pad_right_spec, pad_left_spec, pad_right, pad_left,
    str_eq};
use crate::tips::{TipStore, TipEntryV, TipV, key_of, key_string};

verus! {

/// The players named anywhere in the store, first appearance first.
pub open spec fn players_spec(entries: Seq<TipEntryV>) -> Seq<Seq<char>>
    decreases entries.len(),
{
    if entries.len() == 0 {
        Seq::empty()
    } else {
        let p = players_spec(entries.drop_last());
        if p.contains(entries.last().tip.whom) {
            p
        } else {
            p.push(entries.last().tip.whom)
        }
    }
}

fn vec_contains_str(v: &Vec<String>, s: &String) -> (r: bool)
    ensures
        r == v@.map_values(|x: String| x@).contains(s@),
{
    let ghost views = v@.map_values(|x: String| x@);
    let n = v.len();
    for i in 0..n
        invariant
            n == v@.len(),
            views == v@.map_values(|x: String| x@),
            forall|t: int| 0 <= t < i ==> views[t] != s@,
    {
        if str_eq(v[i].as_str(), s.as_str()) {
            proof {
                assert(views[i as int] == s@);
            }
            return true;
        }
    }
    proof {
        if views.contains(s@) {
            let t = choose|t: int| 0 <= t < views.len() && views[t] == s@;
        }
    }
    false
}

/// Collects the distinct player names, in first-seen store order.
pub fn players(store: &TipStore) -> (r: Vec<String>)
    ensures
        r@.map_values(|s: String| s@) == players_spec(store@),
{
    let mut r: Vec<String> = Vec::new();
    proof {
        assert(r@.map_values(|s: String| s@) =~= players_spec(store@.subrange(0, 0)));
    }
    let n = store.entries.len();
    for i in 0..n
        invariant
            n == store@.len(),
            r@.map_values(|s: String| s@) == players_spec(store@.subrange(0, i as int)),
    {
        let whom = &store.entries[i].tip.whom;
        let ghost prefix = store@.subrange(0, i as int);
        let ghost prefix2 = store@.subrange(0, i + 1);
        proof {
            assert(prefix2.drop_last() =~= prefix);
            assert(prefix2.last() == store@[i as int]);
        }
        if !vec_contains_str(&r, whom) {
            let ghost old_r = r@;
            r.push(whom.clone());
            proof {
                assert(r@.map_values(|s: String| s@) =~= old_r.map_values(
                    |s: String| s@,
                ).push(whom@));
            }
        }
    }
    proof {
        assert(store@.subrange(0, store@.len() as int) =~= store@);
    }
    r
}

/// One grid cell: the predicted score under the composite key, or `"-"`
/// where the mapping holds no tip for this match and player.
pub open spec fn cell_spec(
    m: Map<Seq<char>, TipV>,
    day: u32,
    player: Seq<char>,
    team_1_short: Seq<char>,
) -> Seq<char> {
    let k = key_of(day, player, team_1_short);
    if m.dom().contains(k) {
        dec_rep(m[k].team_1_goals as nat) + seq![':'] + dec_rep(m[k].team_2_goals as nat)
    } else {
        seq!['-']
    }
}

/// Renders one cell.
pub fn tip_cell(store: &TipStore, day: u32, player: &String, team_1_short: &String) -> (r: String)
    requires
        store.wf(),
    ensures
        r@ == cell_spec(store.map_view(), day, player@, team_1_short@),
{
    let key = key_string(day, player, team_1_short);
    match store.get(&key) {
        Some(t) => {
            let mut s = u64_string(t.team_1_goals as u64);
            s.append(":");
            let g2 = u64_string(t.team_2_goals as u64);
            s.append(g2.as_str());
            proof {
                reveal_strlit(":");
                assert((":")@ =~= seq![':']);
                assert(s@ =~= cell_spec(store.map_view(), day, player@, team_1_short@));
            }
            s
        },
        None => {
            let r = "-".to_owned();
            proof {
                reveal_strlit("-");
                assert(("-")@ =~= seq!['-']);
                assert(r@ =~= cell_spec(store.map_view(), day, player@, team_1_short@));
            }
            r
        },
    }
}

/// The player columns of the header: each name left-aligned to 10 places,
/// closed by `" | "`.
pub open spec fn header_cells(players: Seq<Seq<char>>) -> Seq<char>
    decreases players.len(),
{
    if players.len() == 0 {
        Seq::empty()
    } else {
        header_cells(players.drop_last()) + pad_right_spec(players.last(), 10) + " | "@
    }
}

/// The header row: the day and game columns, then one column per player.
pub open spec fn header_spec(players: Seq<Seq<char>>) -> Seq<char> {
    "Day | "@ + pad_right_spec("Game"@, 30) + " | "@ + header_cells(players)
}

/// Renders the header row.
pub fn grid_header(players_list: &Vec<String>) -> (r: String)
    ensures
        r@ == header_spec(players_list@.map_values(|s: String| s@)),
{
    let ghost pv = players_list@.map_values(|s: String| s@);
    let mut r = String::from_str("Day | ");
    let game = pad_right("Game", 30);
    r.append(game.as_str());
    r.append(" | ");
    let n = players_list.len();
    for i in 0..n
        invariant
            n == players_list@.len(),
            pv == players_list@.map_values(|s: String| s@),
            r@ == "Day | "@ + pad_right_spec("Game"@, 30) + " | "@ + header_cells(
                pv.subrange(0, i as int),
            ),
    {
        let cell = pad_right(players_list[i].as_str(), 10);
        r.append(cell.as_str());
        r.append(" | ");
        proof {
            assert(pv.subrange(0, i + 1).drop_last() =~= pv.subrange(0, i as int));
            assert(pv.subrange(0, i + 1).last() == pv[i as int]);
            assert(r@ =~= "Day | "@ + pad_right_spec("Game"@, 30) + " | "@ + header_cells(
                pv.subrange(0, i + 1),
            ));
        }
    }
    proof {
        assert(pv.subrange(0, pv.len() as int) =~= pv);
        assert(header_cells(Seq::<Seq<char>>::empty()) =~= Seq::<char>::empty());
        assert(r@ =~= header_spec(pv));
    }
    r
}

/// The tip columns of one match row.
pub open spec fn row_cells(
    m: Map<Seq<char>, TipV>,
    mv: MatchV,
    players: Seq<Seq<char>>,
) -> Seq<char>
    decreases players.len(),
{
    if players.len() == 0 {
        Seq::empty()
    } else {
        row_cells(m, mv, players.drop_last()) + pad_right_spec(
            cell_spec(m, mv.day, players.last(), mv.team_1_short),
            10,
        ) + " | "@
    }
}

/// One match row: the day right-aligned to 3 places, the game as
/// `"{team_1} vs. {team_2}"` under short names, then one cell per player.
pub open spec fn row_spec(m: Map<Seq<char>, TipV>, mv: MatchV, players: Seq<Seq<char>>) -> Seq<
    char,
> {
    pad_left_spec(dec_rep(mv.day as nat), 3) + " | "@ + pad_right_spec(
        mv.team_1_short + " vs. "@ + mv.team_2_short,
        30,
    ) + " | "@ + row_cells(m, mv, players)
}

/// Renders one match row.
pub fn grid_row(m: &Match, store: &TipStore, players_list: &Vec<String>) -> (r: String)
    requires
        store.wf(),
    ensures
        r@ == row_spec(store.map_view(), m@, players_list@.map_values(|s: String| s@)),
{
    let ghost pv = players_list@.map_values(|s: String| s@);
    let day_text = u64_string(m.day as u64);
    let mut r = pad_left(day_text.as_str(), 3);
    r.append(" | ");
    let mut game = m.team_1_short.clone();
    game.append(" vs. ");
    game.append(m.team_2_short.as_str());
    let game_padded = pad_right(game.as_str(), 30);
    r.append(game_padded.as_str());
    r.append(" | ");
    let ghost head = pad_left_spec(dec_rep(m@.day as nat), 3) + " | "@ + pad_right_spec(
        m@.team_1_short + " vs. "@ + m@.team_2_short,
        30,
    ) + " | "@;
    proof {
        assert(r@ =~= head);
    }
    let n = players_list.len();
    for i in 0..n
        invariant
            n == players_list@.len(),
            pv == players_list@.map_values(|s: String| s@),
            store.wf(),
            r@ == head + row_cells(store.map_view(), m@, pv.subrange(0, i as int)),
        decreases n - i,
    {
        let cell = tip_cell(store, m.day, &players_list[i], &m.team_1_short);
        let padded = pad_right(cell.as_str(), 10);
        r.append(padded.as_str());
        r.append(" | ");
        proof {
            assert(pv.subrange(0, i + 1).drop_last() =~= pv.subrange(0, i as int));
            assert(pv.subrange(0, i + 1).last() == pv[i as int]);
            assert(r@ =~= head + row_cells(store.map_view(), m@, pv.subrange(0, i + 1)));
        }
    }
    proof {
        assert(pv.subrange(0, pv.len() as int) =~= pv);
        assert(row_cells(store.map_view(), m@, Seq::<Seq<char>>::empty())
            =~= Seq::<char>::empty());
        assert(r@ =~= row_spec(store.map_view(), m@, pv));
    }
    r
}

/// Renders the whole grid: the header, then one row per match in store
/// order, every row enumerating the same players the header names.
pub fn tip_grid(matches: &Vec<Match>, store: &TipStore) -> (r: Vec<String>)
    requires
        store.wf(),
    ensures
        r@.len() == 1 + matches@.len(),
        r@[0]@ == header_spec(players_spec(store@)),
        forall|i: int|
            1 <= i < r@.len() ==> (#[trigger] r@[i])@ == row_spec(
                store.map_view(),
                matches@[i - 1]@,
                players_spec(store@),
            ),
{
    let players_list = players(store);
    let mut r: Vec<String> = Vec::new();
    r.push(grid_header(&players_list));
    let n = matches.len();
    for i in 0..n
        invariant
            n == matches@.len(),
            store.wf(),
            players_list@.map_values(|s: String| s@) == players_spec(store@),
            r@.len() == 1 + i,
            r@[0]@ == header_spec(players_spec(store@)),
            forall|t: int|
                1 <= t < r@.len() ==> (#[trigger] r@[t])@ == row_spec(
                    store.map_view(),
                    matches@[t - 1]@,
                    players_spec(store@),
                ),
    {
        let row = grid_row(&matches[i], store, &players_list);
        r.push(row);
    }
    r
}

} // verus!
