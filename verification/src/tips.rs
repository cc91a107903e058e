//! The Tip Store: user predictions keyed by the composite key
//! `"{day}_{player}_{team_1}"`. The store itself is an ordered list of
//! entries with pairwise distinct keys; its contract speaks of the mapping
//! those entries spell out. Reading and writing the season's tips file is
//! the caller's business; this module parses and renders its text.

use vstd::prelude::*;
use vstd::string::*;
use vstd::pervasive::VecAdditionalExecFns;
use crate::errors::ToolError;
use crate::jv::{Jv, obj_has, obj_get, str_of, u32_of};
use crate::json_calls::{jv_of, doc_of, pretty_of, keys_facts, jv_parse, jv_get, jv_as_str,
    jv_as_u32, jv_obj_keys, jv_new_object, jv_obj_insert, jv_from_u32, jv_from_string,
    jv_pretty4};
use crate::text::{dec_rep, u64_string, str_eq};

verus! {

/// One player's prediction for one fixture.
pub struct Tip {
    pub whom: String,
    pub day: u32,
    pub team_1: String,
    pub team_1_goals: u32,
    pub team_2_goals: u32,
}

/// The mathematical image of a `Tip`.
pub struct TipV {
    pub whom: Seq<char>,
    pub day: u32,
    pub team_1: Seq<char>,
    pub team_1_goals: u32,
    pub team_2_goals: u32,
}

impl View for Tip {
    type V = TipV;

    open spec fn view(&self) -> TipV {
        TipV {
            whom: self.whom@,
            day: self.day,
            team_1: self.team_1@,
            team_1_goals: self.team_1_goals,
            team_2_goals: self.team_2_goals,
        }
    }
}

/// The composite key `"{day}_{player}_{team_1}"` identifying one tip.
pub open spec fn key_of(day: u32, whom: Seq<char>, team_1: Seq<char>) -> Seq<char> {
    dec_rep(day as nat) + seq!['_'] + whom + seq!['_'] + team_1
}

/// Renders the composite key.
pub fn key_string(day: u32, whom: &String, team_1: &String) -> (r: String)
    ensures
        r@ == key_of(day, whom@, team_1@),
{
    let mut s = u64_string(day as u64);
    s.append("_");
    s.append(whom.as_str());
    s.append("_");
    s.append(team_1.as_str());
    proof {
        reveal_strlit("_");
        assert(("_")@ =~= seq!['_']);
        assert(s@ =~= key_of(day, whom@, team_1@));
    }
    s
}

/// One stored entry: the key it sits under, and the tip. The key is kept
/// as it stood in the document, which is authoritative for matching.
pub struct TipEntry {
    pub key: String,
    pub tip: Tip,
}

/// The mathematical image of a `TipEntry`.
pub struct TipEntryV {
    pub key: Seq<char>,
    pub tip: TipV,
}

impl View for TipEntry {
    type V = TipEntryV;

    open spec fn view(&self) -> TipEntryV {
        TipEntryV { key: self.key@, tip: self.tip@ }
    }
}

/// The mapping a list of entries spells out; a later entry under the same
/// key would win, though a well-formed store never holds one.
pub open spec fn map_of(s: Seq<TipEntryV>) -> Map<Seq<char>, TipV>
    decreases s.len(),
{
    if s.len() == 0 {
        Map::empty()
    } else {
        map_of(s.drop_last()).insert(s.last().key, s.last().tip)
    }
}

/// Pairwise distinct keys.
pub open spec fn distinct_keys(s: Seq<TipEntryV>) -> bool {
    forall|i: int, j: int| 0 <= i < j < s.len() ==> s[i].key != s[j].key
}

pub proof fn lemma_map_of_contains(s: Seq<TipEntryV>, k: Seq<char>)
    ensures
        map_of(s).contains_key(k) <==> exists|i: int| 0 <= i < s.len() && s[i].key == k,
    decreases s.len(),
{
    if s.len() > 0 {
        let d = s.drop_last();
        lemma_map_of_contains(d, k);
        if map_of(s).contains_key(k) {
            if s.last().key == k {
                assert(s[s.len() - 1].key == k);
            } else {
                let i = choose|i: int| 0 <= i < d.len() && d[i].key == k;
                assert(s[i].key == k);
            }
        }
        if exists|i: int| 0 <= i < s.len() && s[i].key == k {
            let i = choose|i: int| 0 <= i < s.len() && s[i].key == k;
            if i < s.len() - 1 {
                assert(d[i].key == k);
            }
        }
    }
}

pub proof fn lemma_map_of_index(s: Seq<TipEntryV>, i: int)
    requires
        distinct_keys(s),
        0 <= i < s.len(),
    ensures
        map_of(s).contains_key(s[i].key),
        map_of(s)[s[i].key] == s[i].tip,
    decreases s.len(),
{
    let d = s.drop_last();
    if i == s.len() - 1 {
    } else {
        assert(distinct_keys(d));
        assert(d[i] == s[i]);
        lemma_map_of_index(d, i);
        assert(s[i].key != s.last().key);
    }
}

proof fn lemma_map_of_update(s: Seq<TipEntryV>, i: int, t: TipV)
    requires
        distinct_keys(s),
        0 <= i < s.len(),
    ensures
        map_of(s.update(i, TipEntryV { key: s[i].key, tip: t })) == map_of(s).insert(s[i].key, t),
    decreases s.len(),
{
    let s2 = s.update(i, TipEntryV { key: s[i].key, tip: t });
    let d = s.drop_last();
    if i == s.len() - 1 {
        assert(s2.drop_last() =~= d);
        assert(s2.last() == TipEntryV { key: s[i].key, tip: t });
        assert(map_of(s2) =~= map_of(s).insert(s[i].key, t));
    } else {
        assert(distinct_keys(d));
        assert(d[i] == s[i]);
        lemma_map_of_update(d, i, t);
        assert(s2.drop_last() =~= d.update(i, TipEntryV { key: s[i].key, tip: t }));
        assert(s2.last() == s.last());
        assert(s[i].key != s.last().key);
        assert(map_of(s2) =~= map_of(s).insert(s[i].key, t));
    }
}

/// The stored predictions of one season.
pub struct TipStore {
    pub entries: Vec<TipEntry>,
}

impl View for TipStore {
    type V = Seq<TipEntryV>;

    open spec fn view(&self) -> Seq<TipEntryV> {
        self.entries@.map_values(|e: TipEntry| e@)
    }
}

impl TipStore {
    /// Every key sits in the store once.
    pub open spec fn wf(self) -> bool {
        distinct_keys(self@)
    }

    /// The mapping from composite key to tip this store holds.
    pub open spec fn map_view(self) -> Map<Seq<char>, TipV> {
        map_of(self@)
    }

    /// An empty store.
    pub fn new() -> (r: TipStore)
        ensures
            r.wf(),
            r@.len() == 0,
            r.map_view() == Map::<Seq<char>, TipV>::empty(),
    {
        let r = TipStore { entries: Vec::new() };
        proof {
            assert(r@ =~= Seq::<TipEntryV>::empty());
        }
        r
    }

    fn find_index(&self, key: &String) -> (r: Option<usize>)
        ensures
            r matches Some(i) ==> i < self@.len() && self@[i as int].key == key@,
            r is None ==> forall|i: int| 0 <= i < self@.len() ==> self@[i].key != key@,
    {
        let n = self.entries.len();
        for i in 0..n
            invariant
                n == self@.len(),
                forall|k: int| 0 <= k < i ==> self@[k].key != key@,
        {
            if str_eq(self.entries[i].key.as_str(), key.as_str()) {
                return Some(i);
            }
        }
        None
    }

    /// Looks a tip up under a composite key.
    pub fn get(&self, key: &String) -> (r: Option<&Tip>)
        requires
            self.wf(),
        ensures
            r is Some <==> self.map_view().contains_key(key@),
            r matches Some(t) ==> self.map_view()[key@] == t@,
    {
        proof {
            lemma_map_of_contains(self@, key@);
        }
        match self.find_index(key) {
            Some(i) => {
                proof {
                    lemma_map_of_index(self@, i as int);
                }
                Some(&self.entries[i].tip)
            },
            None => None,
        }
    }

    /// Inserts the tip under its composite key, or overwrites the tip
    /// already there: the mapping gains or replaces exactly this one
    /// entry, and an overwrite leaves the store's size unchanged.
    pub fn upsert(&mut self, tip: Tip)
        requires
            old(self).wf(),
        ensures
            final(self).wf(),
            final(self).map_view() == old(self).map_view().insert(
                key_of(tip.day, tip.whom@, tip.team_1@),
                tip@,
            ),
            old(self).map_view().contains_key(key_of(tip.day, tip.whom@, tip.team_1@))
                ==> final(self)@.len() == old(self)@.len(),
            !old(self).map_view().contains_key(key_of(tip.day, tip.whom@, tip.team_1@))
                ==> final(self)@.len() == old(self)@.len() + 1,
    {
        let key = key_string(tip.day, &tip.whom, &tip.team_1);
        proof {
            lemma_map_of_contains(self@, key@);
        }
        match self.find_index(&key) {
            Some(i) => {
                let ghost prev = self@;
                let ghost kv = prev[i as int].key;
                proof {
                    lemma_map_of_update(prev, i as int, tip@);
                }
                self.entries.set(i, TipEntry { key, tip });
                proof {
                    assert(self@ =~= prev.update(i as int, TipEntryV { key: kv, tip: tip@ }));
                    assert forall|a: int, b: int|
                        0 <= a < b < self@.len() implies self@[a].key != self@[b].key by {
                        assert(prev[a].key != prev[b].key);
                        assert(self@[a].key == if a == i as int {
                            kv
                        } else {
                            prev[a].key
                        });
                        assert(self@[b].key == if b == i as int {
                            kv
                        } else {
                            prev[b].key
                        });
                    }
                    assert(distinct_keys(self@));
                }
            },
            None => {
                let ghost prev = self@;
                self.entries.push(TipEntry { key, tip });
                proof {
                    assert(self@.drop_last() =~= prev);
                    assert(self@.last() == TipEntryV {
                        key: key_of(tip.day, tip.whom@, tip.team_1@),
                        tip: tip@,
                    });
                    assert forall|a: int, b: int|
                        0 <= a < b < self@.len() implies self@[a].key != self@[b].key by {
                        if b < self@.len() - 1 {
                            assert(self@[a] == prev[a]);
                            assert(self@[b] == prev[b]);
                        } else {
                            assert(self@[a] == prev[a]);
                            assert(prev[a].key != key@);
                        }
                    }
                    assert(distinct_keys(self@));
                }
            },
        }
    }
}

/// The tip a tips-document entry describes, if it carries every expected
/// field: `whom`, `day`, `team_1`, `team_1_goals`, `team_2_goals`.
pub open spec fn tip_of(j: Jv) -> Option<TipV> {
    let whom = str_of(obj_get(j, "whom"@));
    let day = u32_of(obj_get(j, "day"@));
    let t1 = str_of(obj_get(j, "team_1"@));
    let g1 = u32_of(obj_get(j, "team_1_goals"@));
    let g2 = u32_of(obj_get(j, "team_2_goals"@));
    if whom is Some && day is Some && t1 is Some && g1 is Some && g2 is Some {
        Some(TipV {
            whom: whom->Some_0,
            day: day->Some_0,
            team_1: t1->Some_0,
            team_1_goals: g1->Some_0,
            team_2_goals: g2->Some_0,
        })
    } else {
        None
    }
}

/// The mapping a tips document describes: each object entry read as a tip,
/// nothing once one entry is malformed. A document that is no object
/// iterates as empty, so it yields the empty mapping.
pub open spec fn tips_of(j: Jv) -> Option<Map<Seq<char>, TipV>> {
    if j is Obj {
        if forall|k: Seq<char>| #[trigger] j->Obj_0.dom().contains(k) ==> tip_of(j->Obj_0[k]) is Some {
            Some(
                Map::new(
                    |k: Seq<char>| j->Obj_0.dom().contains(k),
                    |k: Seq<char>| tip_of(j->Obj_0[k])->Some_0,
                ),
            )
        } else {
            None
        }
    } else {
        Some(Map::empty())
    }
}

/// What loading tips-document text yields.
pub open spec fn parse_tips_spec(text: Seq<char>) -> Option<Map<Seq<char>, TipV>> {
    match doc_of(text) {
        Some(j) => tips_of(j),
        None => None,
    }
}

fn parse_tip_value(v: &json::JsonValue) -> (r: Result<Tip, ToolError>)
    ensures
        r is Ok <==> tip_of(jv_of(*v)) is Some,
        r matches Ok(t) ==> tip_of(jv_of(*v)) == Some(t@),
        r matches Err(e) ==> e == ToolError::Parse,
{
    let whom = match jv_as_str(jv_get(v, "whom")) {
        Some(s) => s.to_owned(),
        None => {
            return Err(ToolError::Parse);
        },
    };
    let day = match jv_as_u32(jv_get(v, "day")) {
        Some(d) => d,
        None => {
            return Err(ToolError::Parse);
        },
    };
    let team_1 = match jv_as_str(jv_get(v, "team_1")) {
        Some(s) => s.to_owned(),
        None => {
            return Err(ToolError::Parse);
        },
    };
    let team_1_goals = match jv_as_u32(jv_get(v, "team_1_goals")) {
        Some(x) => x,
        None => {
            return Err(ToolError::Parse);
        },
    };
    let team_2_goals = match jv_as_u32(jv_get(v, "team_2_goals")) {
        Some(x) => x,
        None => {
            return Err(ToolError::Parse);
        },
    };
    Ok(Tip { whom, day, team_1, team_1_goals, team_2_goals })
}

/// The Tip Store's parse step: reads the tips document's text into a
/// store, `ToolError::Parse` exactly when the text is no JSON or an entry
/// misses an expected field.
pub fn parse_tips(text: &str) -> (r: Result<TipStore, ToolError>)
    ensures
        r is Ok <==> parse_tips_spec(text@) is Some,
        r matches Ok(s) ==> s.wf() && parse_tips_spec(text@) == Some(s.map_view()),
        r matches Err(e) ==> e == ToolError::Parse,
{
    let doc = match jv_parse(text) {
        Ok(d) => d,
        Err(_) => {
            return Err(ToolError::Parse);
        },
    };
    let keys = jv_obj_keys(&doc);
    let n = keys.len();
    let mut store = TipStore::new();
    for i in 0..n
        invariant
            n == keys@.len(),
            doc_of(text@) == Some(jv_of(doc)),
            keys_facts(keys@, jv_of(doc)),
            store@.len() == i,
            forall|t: int| 0 <= t < i ==> store@[t].key == #[trigger] keys@[t]@,
            forall|t: int|
                0 <= t < i ==> tip_of(obj_get(jv_of(doc), #[trigger] store@[t].key)) == Some(
                    store@[t].tip,
                ),
    {
        let kv = jv_get(&doc, keys[i].as_str());
        let tip = match parse_tip_value(kv) {
            Ok(t) => t,
            Err(e) => {
                proof {
                    let ki: Seq<char> = keys@[i as int]@;
                    assert(obj_has(jv_of(doc), ki));
                    assert(tip_of(jv_of(doc)->Obj_0[ki]) is None);
                    assert(tips_of(jv_of(doc)) is None);
                }
                return Err(e);
            },
        };
        let ghost prev = store@;
        store.entries.push(TipEntry { key: keys[i].clone(), tip });
        proof {
            assert(store@ =~= prev.push(TipEntryV { key: keys@[i as int]@, tip: tip@ }));
        }
    }
    proof {
        let j = jv_of(doc);
        let s = store@;
        assert forall|a: int, b: int| 0 <= a < b < s.len() implies s[a].key != s[b].key by {
            assert(s[a].key == keys@[a]@);
            assert(s[b].key == keys@[b]@);
        }
        assert(store.wf());
        if j is Obj {
            assert forall|k: Seq<char>| #[trigger] j->Obj_0.dom().contains(k) implies tip_of(
                j->Obj_0[k],
            ) is Some by {
                assert(obj_has(j, k));
                let a = choose|a: int| 0 <= a < keys@.len() && keys@[a]@ == k;
                assert(tip_of(obj_get(j, s[a].key)) == Some(s[a].tip));
            }
            let m = tips_of(j)->Some_0;
            assert forall|k: Seq<char>| #[trigger] map_of(s).dom().contains(k) implies m.dom().contains(
                k,
            ) && map_of(s)[k] == m[k] by {
                lemma_map_of_contains(s, k);
                let t = choose|t: int| 0 <= t < s.len() && s[t].key == k;
                lemma_map_of_index(s, t);
                assert(obj_has(j, k));
            }
            assert forall|k: Seq<char>| #[trigger] m.dom().contains(k) implies map_of(
                s,
            ).dom().contains(k) by {
                assert(obj_has(j, k));
                let a = choose|a: int| 0 <= a < keys@.len() && keys@[a]@ == k;
                assert(s[a].key == k);
                lemma_map_of_contains(s, k);
            }
            assert(map_of(s) =~= m);
        } else {
            assert(keys@.len() == 0);
            assert(s =~= Seq::<TipEntryV>::empty());
            assert(map_of(s) =~= Map::<Seq<char>, TipV>::empty());
        }
    }
    Ok(store)
}

/// What the Tip Store yields for a season whose tips-file read came back
/// as `contents` (`None`: no file on disk yet). With no file, the store is
/// empty and the second component carries the empty document the caller
/// must create; with a file, its text is parsed and nothing is written.
pub fn load_tips(contents: Option<&str>) -> (r: Result<(TipStore, Option<String>), ToolError>)
    ensures
        contents is None ==> r is Ok && {
            let p = r->Ok_0;
            &&& p.0.wf()
            &&& p.0@.len() == 0
            &&& p.0.map_view() == Map::<Seq<char>, TipV>::empty()
            &&& (p.1 matches Some(d) && d@ == "{}"@)
        },
        contents matches Some(t) ==> {
            &&& r is Ok <==> parse_tips_spec(t@) is Some
            &&& (r matches Ok(p) ==> p.0.wf() && parse_tips_spec(t@) == Some(p.0.map_view())
                && p.1 is None)
            &&& (r matches Err(e) ==> e == ToolError::Parse)
        },
{
    match contents {
        None => {
            let empty_doc = "{}".to_owned();
            Ok((TipStore::new(), Some(empty_doc)))
        },
        Some(t) => {
            match parse_tips(t) {
                Ok(store) => Ok((store, None)),
                Err(e) => Err(e),
            }
        },
    }
}

/// The document value one tip is written as.
pub open spec fn tip_jv(t: TipV) -> Jv {
    Jv::Obj(
        Map::empty().insert("whom"@, Jv::Str(t.whom)).insert("day"@, Jv::Num(t.day as int)).insert(
            "team_1"@,
            Jv::Str(t.team_1),
        ).insert("team_1_goals"@, Jv::Num(t.team_1_goals as int)).insert(
            "team_2_goals"@,
            Jv::Num(t.team_2_goals as int),
        ),
    )
}

/// The document value a whole tip mapping is written as.
pub open spec fn tips_json(m: Map<Seq<char>, TipV>) -> Jv {
    Jv::Obj(Map::new(|k: Seq<char>| m.dom().contains(k), |k: Seq<char>| tip_jv(m[k])))
}

fn tip_to_json(t: &Tip) -> (v: json::JsonValue)
    ensures
        jv_of(v) == tip_jv(t@),
{
    let mut v = jv_new_object();
    jv_obj_insert(&mut v, "whom", jv_from_string(&t.whom));
    jv_obj_insert(&mut v, "day", jv_from_u32(t.day));
    jv_obj_insert(&mut v, "team_1", jv_from_string(&t.team_1));
    jv_obj_insert(&mut v, "team_1_goals", jv_from_u32(t.team_1_goals));
    jv_obj_insert(&mut v, "team_2_goals", jv_from_u32(t.team_2_goals));
    proof {
        assert(jv_of(v)->Obj_0 =~= tip_jv(t@)->Obj_0);
        assert(jv_of(v) == tip_jv(t@));
    }
    v
}

/// Builds the document value for the whole store.
pub fn tips_to_json(store: &TipStore) -> (v: json::JsonValue)
    requires
        store.wf(),
    ensures
        jv_of(v) == tips_json(store.map_view()),
{
    let mut v = jv_new_object();
    proof {
        assert(jv_of(v)->Obj_0 =~= Map::<Seq<char>, Jv>::empty());
    }
    let n = store.entries.len();
    for i in 0..n
        invariant
            n == store@.len(),
            store.wf(),
            jv_of(v) is Obj,
            jv_of(v)->Obj_0 =~= Map::new(
                |k: Seq<char>| map_of(store@.subrange(0, i as int)).dom().contains(k),
                |k: Seq<char>| tip_jv(map_of(store@.subrange(0, i as int))[k]),
            ),
    {
        let entry_value = tip_to_json(&store.entries[i].tip);
        jv_obj_insert(&mut v, store.entries[i].key.as_str(), entry_value);
        proof {
            let p = store@.subrange(0, i as int);
            let p2 = store@.subrange(0, i + 1);
            assert(p2.drop_last() =~= p);
            assert(p2.last() == store@[i as int]);
            assert(map_of(p2) == map_of(p).insert(store@[i as int].key, store@[i as int].tip));
            assert(jv_of(v)->Obj_0 =~= Map::new(
                |k: Seq<char>| map_of(p2).dom().contains(k),
                |k: Seq<char>| tip_jv(map_of(p2)[k]),
            ));
        }
    }
    proof {
        assert(store@.subrange(0, store@.len() as int) =~= store@);
        assert(jv_of(v)->Obj_0 =~= tips_json(store.map_view())->Obj_0);
        assert(jv_of(v) == tips_json(store.map_view()));
    }
    v
}

/// The persisted tips document: the whole mapping, pretty-printed at a
/// four-space indent. The contract pins the written value's content and
/// names the rendered text through `pretty_of`.
pub fn render_tips_document(store: &TipStore) -> (doc: String)
    requires
        store.wf(),
    ensures
        exists|v: json::JsonValue|
            jv_of(v) == tips_json(store.map_view()) && #[trigger] pretty_of(v) == doc@,
{
    let v = tips_to_json(store);
    let ghost gv = v;
    let doc = jv_pretty4(v);
    proof {
        assert(jv_of(gv) == tips_json(store.map_view()) && pretty_of(gv) == doc@);
    }
    doc
}

} // verus!
