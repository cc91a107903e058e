//! The Match Store's in-memory half: one season's fixtures, read out of the
//! cached season document. The document text comes in as a plain string;
//! reading the file is the caller's business.

use vstd::prelude::*;
use crate::errors::ToolError;
use crate::jv::{Jv, obj_get, arr_at, arr_len, str_of, u32_of, bool_of};
use crate::json_calls::{jv_of, doc_of, jv_parse, jv_arr_len, jv_at, jv_get, jv_as_str,
    jv_as_u32, jv_as_bool};

verus! {

/// One fixture: the match-day ordinal, both teams under full and short
/// name, the goal counts, and whether the result is final. An unfinished
/// match carries zero goals; the aggregation never reads them.
pub struct Match {
    pub day: u32,
    pub team_1: String,
    pub team_1_short: String,
    pub team_2: String,
    pub team_2_short: String,
    pub team_1_goals: u32,
    pub team_2_goals: u32,
    pub finished: bool,
}

/// The mathematical image of a `Match`.
pub struct MatchV {
    pub day: u32,
    pub team_1: Seq<char>,
    pub team_1_short: Seq<char>,
    pub team_2: Seq<char>,
    pub team_2_short: Seq<char>,
    pub team_1_goals: u32,
    pub team_2_goals: u32,
    pub finished: bool,
}

impl View for Match {
    type V = MatchV;

    open spec fn view(&self) -> MatchV {
        MatchV {
            day: self.day,
            team_1: self.team_1@,
            team_1_short: self.team_1_short@,
            team_2: self.team_2@,
            team_2_short: self.team_2_short@,
            team_1_goals: self.team_1_goals,
            team_2_goals: self.team_2_goals,
            finished: self.finished,
        }
    }
}

/// The views of a loaded match list.
pub open spec fn matches_view(s: Seq<Match>) -> Seq<MatchV> {
    s.map_values(|m: Match| m@)
}

/// The fixture a season-document member describes, if it carries every
/// expected field: `group.groupOrderID`, both teams' `teamName` and
/// `shortName`, `matchIsFinished`, and — only for a finished match — the
/// first result entry's `pointsTeam1` and `pointsTeam2`.
pub open spec fn match_of(j: Jv) -> Option<MatchV> {
    let day = u32_of(obj_get(obj_get(j, "group"@), "groupOrderID"@));
    let t1 = str_of(obj_get(obj_get(j, "team1"@), "teamName"@));
    let t1s = str_of(obj_get(obj_get(j, "team1"@), "shortName"@));
    let t2 = str_of(obj_get(obj_get(j, "team2"@), "teamName"@));
    let t2s = str_of(obj_get(obj_get(j, "team2"@), "shortName"@));
    let fin = bool_of(obj_get(j, "matchIsFinished"@));
    if day is Some && t1 is Some && t1s is Some && t2 is Some && t2s is Some && fin is Some {
        if fin->Some_0 {
            let g1 = u32_of(obj_get(arr_at(obj_get(j, "matchResults"@), 0), "pointsTeam1"@));
            let g2 = u32_of(obj_get(arr_at(obj_get(j, "matchResults"@), 0), "pointsTeam2"@));
            if g1 is Some && g2 is Some {
                Some(MatchV {
                    day: day->Some_0,
                    team_1: t1->Some_0,
                    team_1_short: t1s->Some_0,
                    team_2: t2->Some_0,
                    team_2_short: t2s->Some_0,
                    team_1_goals: g1->Some_0,
                    team_2_goals: g2->Some_0,
                    finished: true,
                })
            } else {
                None
            }
        } else {
            Some(MatchV {
                day: day->Some_0,
                team_1: t1->Some_0,
                team_1_short: t1s->Some_0,
                team_2: t2->Some_0,
                team_2_short: t2s->Some_0,
                team_1_goals: 0,
                team_2_goals: 0,
                finished: false,
            })
        }
    } else {
        None
    }
}

/// The fixtures of the first `n` members of `j`, or nothing once one
/// member is malformed.
pub open spec fn season_prefix(j: Jv, n: int) -> Option<Seq<MatchV>>
    decreases n,
{
    if n <= 0 {
        Some(Seq::empty())
    } else {
        match (season_prefix(j, n - 1), match_of(arr_at(j, n - 1))) {
            (Some(s), Some(m)) => Some(s.push(m)),
            _ => None,
        }
    }
}

/// The fixtures a season document describes. A document that is no array
/// iterates as empty, so it yields the empty season.
pub open spec fn season_of(j: Jv) -> Option<Seq<MatchV>> {
    season_prefix(j, arr_len(j))
}

/// What loading season-document text yields: nothing when the text is no
/// JSON or a member is malformed, else the fixtures in source order.
pub open spec fn parse_season_spec(text: Seq<char>) -> Option<Seq<MatchV>> {
    match doc_of(text) {
        Some(j) => season_of(j),
        None => None,
    }
}

proof fn lemma_season_prefix_none_mono(j: Jv, a: int, b: int)
    requires
        0 <= a <= b,
        season_prefix(j, a) is None,
    ensures
        season_prefix(j, b) is None,
    decreases b,
{
    if b > a {
        lemma_season_prefix_none_mono(j, a, b - 1);
    }
}

/// Reads one member of the season array into a `Match`.
fn parse_match(g: &json::JsonValue) -> (r: Result<Match, ToolError>)
    ensures
        r is Ok <==> match_of(jv_of(*g)) is Some,
        r matches Ok(m) ==> match_of(jv_of(*g)) == Some(m@),
        r matches Err(e) ==> e == ToolError::Parse,
{
    let day = match jv_as_u32(jv_get(jv_get(g, "group"), "groupOrderID")) {
        Some(d) => d,
        None => {
            return Err(ToolError::Parse);
        },
    };
    let team_1 = match jv_as_str(jv_get(jv_get(g, "team1"), "teamName")) {
        Some(s) => s.to_owned(),
        None => {
            return Err(ToolError::Parse);
        },
    };
    let team_1_short = match jv_as_str(jv_get(jv_get(g, "team1"), "shortName")) {
        Some(s) => s.to_owned(),
        None => {
            return Err(ToolError::Parse);
        },
    };
    let team_2 = match jv_as_str(jv_get(jv_get(g, "team2"), "teamName")) {
        Some(s) => s.to_owned(),
        None => {
            return Err(ToolError::Parse);
        },
    };
    let team_2_short = match jv_as_str(jv_get(jv_get(g, "team2"), "shortName")) {
        Some(s) => s.to_owned(),
        None => {
            return Err(ToolError::Parse);
        },
    };
    let finished = match jv_as_bool(jv_get(g, "matchIsFinished")) {
        Some(b) => b,
        None => {
            return Err(ToolError::Parse);
        },
    };
    let mut team_1_goals: u32 = 0;
    let mut team_2_goals: u32 = 0;
    if finished {
        let first_result = jv_at(jv_get(g, "matchResults"), 0);
        team_1_goals = match jv_as_u32(jv_get(first_result, "pointsTeam1")) {
            Some(x) => x,
            None => {
                return Err(ToolError::Parse);
            },
        };
        team_2_goals = match jv_as_u32(jv_get(first_result, "pointsTeam2")) {
            Some(x) => x,
            None => {
                return Err(ToolError::Parse);
            },
        };
    }
    Ok(Match { day, team_1, team_1_short, team_2, team_2_short, team_1_goals, team_2_goals, finished })
}

/// The Match Store's parse step: reads the cached season document's text
/// into the ordered match list, `ToolError::Parse` exactly when the text is
/// no JSON or a member misses an expected field.
pub fn parse_season(text: &str) -> (r: Result<Vec<Match>, ToolError>)
    ensures
        r is Ok <==> parse_season_spec(text@) is Some,
        r matches Ok(ms) ==> parse_season_spec(text@) == Some(matches_view(ms@)),
        r matches Err(e) ==> e == ToolError::Parse,
{
    let doc = match jv_parse(text) {
        Ok(d) => d,
        Err(_) => {
            return Err(ToolError::Parse);
        },
    };
    let n = jv_arr_len(&doc);
    let mut out: Vec<Match> = Vec::new();
    let mut i: usize = 0;
    while i < n
        invariant
            i <= n,
            n as int == arr_len(jv_of(doc)),
            doc_of(text@) == Some(jv_of(doc)),
            season_prefix(jv_of(doc), i as int) == Some(matches_view(out@)),
        decreases n - i,
    {
        let m = match parse_match(jv_at(&doc, i)) {
            Ok(m) => m,
            Err(e) => {
                proof {
                    lemma_season_prefix_none_mono(jv_of(doc), i + 1, arr_len(jv_of(doc)));
                }
                return Err(e);
            },
        };
        let ghost prev = out@;
        out.push(m);
        proof {
            assert(matches_view(out@) =~= matches_view(prev).push(m@));
        }
        i = i + 1;
    }
    Ok(out)
}

} // verus!
