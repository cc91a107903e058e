//! The command level: the default season, the `show` dispatch, the file
//! names and fetch address, the prompt steps that fill a submission, and
//! the submission itself. The terminal and the disk stay with the caller;
//! each function here turns plain values into plain values.

use vstd::prelude::*;
use vstd::string::*;
use vstd::pervasive::unreached;
use crate::json_calls::{jv_of, pretty_of};
use crate::text::{dec_rep, u64_string, trimmed, parse_u32_spec, parse_u32_line, trim_str,
    str_eq};
use crate::tips::{Tip, TipV, TipStore, key_of, tips_json, render_tips_document};

verus! {

/// The season shown when none is named.
pub fn get_default_season() -> (r: u32)
    ensures
        r == 2021,
{
    2021
}

/// What the `show` command is asked to print.
#[derive(Clone, Copy, Debug, PartialEq, Eq, Structural)]
pub enum ShowWhat {
    Goals,
    Tips,
}

/// The `show` dispatch: `"goals"` names the goal board, `"tips"` the tip
/// grid, and anything else shows nothing.
pub fn show(what: &str) -> (r: Option<ShowWhat>)
    ensures
        what@ == "goals"@ ==> r == Some(ShowWhat::Goals),
        what@ == "tips"@ ==> r == Some(ShowWhat::Tips),
        what@ != "goals"@ && what@ != "tips"@ ==> r is None,
{
    proof {
        reveal_strlit("goals");
        reveal_strlit("tips");
        assert(("goals")@.len() == 5);
        assert(("tips")@.len() == 4);
        assert(("goals")@ != ("tips")@);
    }
    if str_eq(what, "goals") {
        Some(ShowWhat::Goals)
    } else if str_eq(what, "tips") {
        Some(ShowWhat::Tips)
    } else {
        None
    }
}

/// The season cache path: `"data/season_{season}.json"`.
pub fn season_filename(season: u32) -> (r: String)
    ensures
        r@ == "data/season_"@ + dec_rep(season as nat) + ".json"@,
{
    let mut s = String::from_str("data/season_");
    let num = u64_string(season as u64);
    s.append(num.as_str());
    s.append(".json");
    proof {
        assert(s@ =~= "data/season_"@ + dec_rep(season as nat) + ".json"@);
    }
    s
}

/// The tips file path: `"data/season_{season}_tips.json"`.
pub fn tips_filename(season: u32) -> (r: String)
    ensures
        r@ == "data/season_"@ + dec_rep(season as nat) + "_tips.json"@,
{
    let mut s = String::from_str("data/season_");
    let num = u64_string(season as u64);
    s.append(num.as_str());
    s.append("_tips.json");
    proof {
        assert(s@ =~= "data/season_"@ + dec_rep(season as nat) + "_tips.json"@);
    }
    s
}

/// The fixture API address for a season:
/// `"https://api.openligadb.de/getmatchdata/bl1/{season}"`.
pub fn fetch_url(season: u32) -> (r: String)
    ensures
        r@ == "https://api.openligadb.de/getmatchdata/bl1/"@ + dec_rep(season as nat),
{
    let mut s = String::from_str("https://api.openligadb.de/getmatchdata/bl1/");
    let num = u64_string(season as u64);
    s.append(num.as_str());
    proof {
        assert(s@ =~= "https://api.openligadb.de/getmatchdata/bl1/"@ + dec_rep(season as nat));
    }
    s
}

/// One tip submission, with the fields the flags left open still empty.
pub struct Submit {
    pub season: u32,
    pub whom: Option<String>,
    pub day: Option<u32>,
    pub team_1: Option<String>,
    pub team_1_goals: Option<u32>,
    pub team_2_goals: Option<u32>,
}

impl Submit {
    /// Every field is filled.
    pub open spec fn complete(self) -> bool {
        &&& self.whom is Some
        &&& self.day is Some
        &&& self.team_1 is Some
        &&& self.team_1_goals is Some
        &&& self.team_2_goals is Some
    }

    /// The tip a complete submission describes.
    pub open spec fn tip_view(self) -> TipV {
        TipV {
            whom: self.whom->Some_0@,
            day: self.day->Some_0,
            team_1: self.team_1->Some_0@,
            team_1_goals: self.team_1_goals->Some_0,
            team_2_goals: self.team_2_goals->Some_0,
        }
    }
}

/// One prompt round for a numeric field: a filled field stands; an empty
/// one takes the line exactly when it is a decimal `u32` (the prompt asks
/// again on `None`).
pub fn query_u32(result: &mut Option<u32>, line: &str)
    ensures
        (*old(result)) is Some ==> *final(result) == *old(result),
        (*old(result)) is None ==> *final(result) == parse_u32_spec(line@),
{
    if result.is_none() {
        *result = parse_u32_line(line);
    }
}

/// One prompt round for a text field: a filled field stands; an empty one
/// takes the line trimmed, whatever it holds.
pub fn query_str(result: &mut Option<String>, line: &str)
    ensures
        (*old(result)) is Some ==> *final(result) == *old(result),
        (*old(result)) is None ==> ((*final(result)) matches Some(s) && s@ == trimmed(line@)),
{
    if result.is_none() {
        *result = Some(trim_str(line));
    }
}

/// Applies a completed submission: upserts its tip under the composite
/// key and hands back the tips document to write, pretty-printed.
pub fn do_submit(submit: &Submit, store: &mut TipStore) -> (doc: String)
    requires
        submit.complete(),
        old(store).wf(),
    ensures
        final(store).wf(),
        final(store).map_view() == old(store).map_view().insert(
            key_of(submit.day->Some_0, submit.whom->Some_0@, submit.team_1->Some_0@),
            submit.tip_view(),
        ),
        exists|v: json::JsonValue|
            jv_of(v) == tips_json(final(store).map_view()) && #[trigger] pretty_of(v) == doc@,
{
    let whom = match &submit.whom {
        Some(s) => s.clone(),
        None => unreached(),
    };
    let day = match &submit.day {
        Some(d) => *d,
        None => unreached(),
    };
    let team_1 = match &submit.team_1 {
        Some(s) => s.clone(),
        None => unreached(),
    };
    let team_1_goals = match &submit.team_1_goals {
        Some(g) => *g,
        None => unreached(),
    };
    let team_2_goals = match &submit.team_2_goals {
        Some(g) => *g,
        None => unreached(),
    };
    let tip = Tip { whom, day, team_1, team_1_goals, team_2_goals };
    store.upsert(tip);
    render_tips_document(store)
}

} // verus!
