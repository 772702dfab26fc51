//! The remembered top pick of each query, so that a repeated run can show
//! whether its best candidate changed.

use vstd::prelude::*;
use crate::text::opt_text;
use crate::json::{json_of_string_pairs, json_string_pairs, keys_distinct_texts, read_string_pairs, text_pairs_map, write_string_pairs};
use crate::types::pair_views;

verus! {

struct Pick {
    query: String,
    top: String,
}

/// The top pick remembered for each query.
pub struct History {
    picks: Vec<Pick>,
}

spec fn queries_distinct(s: Seq<Pick>) -> bool {
    forall|i: int, j: int| 0 <= i < s.len() && 0 <= j < s.len() && i != j ==> s[i].query@ != s[j].query@
}

spec fn has_query(s: Seq<Pick>, q: Seq<char>) -> bool {
    exists|i: int| 0 <= i < s.len() && s[i].query@ == q
}

spec fn query_index(s: Seq<Pick>, q: Seq<char>) -> int {
    choose|i: int| 0 <= i < s.len() && s[i].query@ == q
}

spec fn picks_map(s: Seq<Pick>) -> Map<Seq<char>, Seq<char>> {
    Map::new(|q: Seq<char>| has_query(s, q), |q: Seq<char>| s[query_index(s, q)].top@)
}

proof fn lemma_pick_in_map(s: Seq<Pick>, i: int)
    requires
        queries_distinct(s),
        0 <= i < s.len(),
    ensures
        picks_map(s).contains_key(s[i].query@),
        picks_map(s)[s[i].query@] == s[i].top@,
{
    let q = s[i].query@;
    assert(has_query(s, q));
    let j = query_index(s, q);
    assert(j == i);
}

/// What `record` answers: the previous pick of `query` when there is one
/// and it differs from `top`.
pub open spec fn previous_pick(m: Map<Seq<char>, Seq<char>>, query: Seq<char>, top: Seq<char>) -> Option<Seq<char>> {
    if m.contains_key(query) && m[query] != top {
        Some(m[query])
    } else {
        None
    }
}

impl History {
    #[verifier::type_invariant]
    spec fn well_formed(self) -> bool {
        queries_distinct(self.picks@)
    }

    /// Query to remembered top pick.
    pub closed spec fn view_map(self) -> Map<Seq<char>, Seq<char>> {
        picks_map(self.picks@)
    }

    /// A history with no picks.
    pub fn new() -> (r: Self)
        ensures
            r.view_map() == Map::<Seq<char>, Seq<char>>::empty(),
    {
        let r = History { picks: Vec::new() };
        assert(r.view_map() =~= Map::<Seq<char>, Seq<char>>::empty());
        r
    }

    /// The remembered top pick of `query`.
    pub fn get(&self, query: &str) -> (r: Option<String>)
        ensures
            opt_text(r) == (if self.view_map().contains_key(query@) { Some(self.view_map()[query@]) } else { None::<Seq<char>> }),
    {
        proof { use_type_invariant(self); }
        let q = query.to_owned();
        match find_pick(&self.picks, &q) {
            Some(i) => {
                proof { lemma_pick_in_map(self.picks@, i as int); }
                Some(self.picks[i].top.clone())
            },
            None => None,
        }
    }

    /// Remembers `top` as the pick of `query`, replacing an earlier one.
    pub fn set(&mut self, query: String, top: String)
        ensures
            final(self).view_map() == old(self).view_map().insert(query@, top@),
    {
        proof { use_type_invariant(&*self); }
        let mut picks: Vec<Pick> = Vec::new();
        std::mem::swap(&mut picks, &mut self.picks);
        let ghost before = picks@;
        let ghost want = picks_map(before).insert(query@, top@);
        match find_pick(&picks, &query) {
            Some(i) => {
                picks.set(i, Pick { query, top });
                proof {
                    assert(queries_distinct(picks@)) by {
                        assert forall|a: int, b: int| 0 <= a < picks@.len() && 0 <= b < picks@.len() && a != b
                            implies picks@[a].query@ != picks@[b].query@ by {
                            assert(before[a].query@ != before[b].query@);
                        }
                    }
                    let m = picks_map(picks@);
                    assert forall|k: Seq<char>| m.contains_key(k) <==> want.contains_key(k) by {
                        if m.contains_key(k) {
                            let j = query_index(picks@, k);
                            if j != i { assert(picks@[j] == before[j]); }
                        }
                        if want.contains_key(k) && k != picks@[i as int].query@ {
                            let j = query_index(before, k);
                            assert(picks@[j] == before[j]);
                        }
                    }
                    assert forall|k: Seq<char>| m.contains_key(k) implies m[k] == want[k] by {
                        let j = query_index(picks@, k);
                        lemma_pick_in_map(picks@, j);
                        if j != i {
                            assert(picks@[j] == before[j]);
                            lemma_pick_in_map(before, j);
                        }
                    }
                    assert(m =~= want);
                }
            },
            None => {
                picks.push(Pick { query, top });
                proof {
                    let n = before.len() as int;
                    assert(queries_distinct(picks@)) by {
                        assert forall|a: int, b: int| 0 <= a < picks@.len() && 0 <= b < picks@.len() && a != b
                            implies picks@[a].query@ != picks@[b].query@ by {
                            if a < n && b < n {
                                assert(before[a].query@ != before[b].query@);
                            } else if a == n {
                                assert(picks@[b] == before[b]);
                            } else {
                                assert(picks@[a] == before[a]);
                            }
                        }
                    }
                    let m = picks_map(picks@);
                    assert forall|k: Seq<char>| m.contains_key(k) <==> want.contains_key(k) by {
                        if m.contains_key(k) {
                            let j = query_index(picks@, k);
                            if j < n { assert(picks@[j] == before[j]); }
                        }
                        if want.contains_key(k) && k != picks@[n].query@ {
                            let j = query_index(before, k);
                            assert(picks@[j] == before[j]);
                        }
                        if k == picks@[n].query@ {
                            assert(has_query(picks@, k));
                        }
                    }
                    assert forall|k: Seq<char>| m.contains_key(k) implies m[k] == want[k] by {
                        let j = query_index(picks@, k);
                        lemma_pick_in_map(picks@, j);
                        if j < n {
                            assert(picks@[j] == before[j]);
                            lemma_pick_in_map(before, j);
                        }
                    }
                    assert(m =~= want);
                }
            },
        }
        self.picks = picks;
    }

    /// Records this run's top pick of `query`. Returns the previous top pick,
    /// if a previous run picked a different one.
    pub fn record(&mut self, query: &str, top_id: &str) -> (r: Option<String>)
        ensures
            opt_text(r) == previous_pick(old(self).view_map(), query@, top_id@),
            final(self).view_map() == old(self).view_map().insert(query@, top_id@),
    {
        let prev = self.get(query);
        let result = match prev {
            Some(p) => if crate::text::text_equals(p.as_str(), top_id) { None } else { Some(p) },
            None => None,
        };
        self.set(query.to_owned(), top_id.to_owned());
        result
    }

    /// The remembered (query, pick) texts in the order they are stored,
    /// each query once.
    pub closed spec fn entries(self) -> Seq<(Seq<char>, Seq<char>)> {
        pick_texts(self.picks@)
    }

    /// The remembered picks as (query, pick) pairs, each query once.
    pub fn pairs(&self) -> (r: Vec<(String, String)>)
        ensures
            pair_views(r@) == self.entries(),
            text_pairs_map(self.entries()) == self.view_map(),
            r@.len() == self.view_map().len(),
            forall|i: int| 0 <= i < r@.len() ==> self.view_map().contains_key(#[trigger] r@[i].0@)
                && self.view_map()[r@[i].0@] == r@[i].1@,
            forall|i: int, j: int| 0 <= i < r@.len() && 0 <= j < r@.len() && i != j ==> r@[i].0@ != r@[j].0@,
    {
        proof { use_type_invariant(self); }
        let mut out: Vec<(String, String)> = Vec::new();
        let mut i: usize = 0;
        while i < self.picks.len()
            invariant
                i <= self.picks@.len(),
                queries_distinct(self.picks@),
                out@.len() == i,
                forall|k: int| 0 <= k < i ==> #[trigger] out@[k].0@ == self.picks@[k].query@
                    && out@[k].1@ == self.picks@[k].top@,
            decreases self.picks@.len() - i,
        {
            out.push((self.picks[i].query.clone(), self.picks[i].top.clone()));
            i += 1;
        }
        proof {
            assert forall|k: int| 0 <= k < out@.len() implies self.view_map().contains_key(#[trigger] out@[k].0@)
                && self.view_map()[out@[k].0@] == out@[k].1@ by {
                lemma_pick_in_map(self.picks@, k);
            }
            lemma_map_len(self.picks@);
            lemma_pick_texts_map(self.picks@);
            assert(pair_views(out@) =~= pick_texts(self.picks@));
        }
        out
    }

    /// A history holding `pairs`, a later pair of a query replacing an earlier.
    pub fn from_pairs(pairs: Vec<(String, String)>) -> (r: Self)
        ensures
            r.view_map() == pairs_map(pairs@),
    {
        let mut h = History::new();
        let mut rest = pairs;
        let ghost all = rest@;
        let mut taken: Vec<(String, String)> = Vec::new();
        while rest.len() > 0
            invariant
                all == taken@ + rest@,
                h.view_map() == pairs_map(taken@),
            decreases rest@.len(),
        {
            let (q, t) = rest.remove(0);
            let ghost before = taken@;
            h.set(q.clone(), t.clone());
            taken.push((q, t));
            proof {
                assert(taken@.drop_last() =~= before);
                assert(pair_views(taken@).drop_last() =~= pair_views(before));
                assert(taken@ + rest@ =~= all);
            }
        }
        assert(taken@ =~= all);
        h
    }
}

/// The history kept in a JSON file: an object from query to pick. Text
/// that is no such object gives an empty history.
pub fn history_from_json(text: &str) -> (h: History)
    ensures
        match json_string_pairs(text@) {
            Some(ps) => h.view_map() == text_pairs_map(ps),
            None => h.view_map() == Map::<Seq<char>, Seq<char>>::empty(),
        },
{
    match read_string_pairs(text) {
        Some(v) => History::from_pairs(v),
        None => History::new(),
    }
}

/// The JSON text of a history: an object from query to pick, written from
/// its (query, pick) entries; `None` where writing fails. Read back, the
/// text gives the same history.
pub fn history_to_json(h: &History) -> (r: Option<String>)
    ensures
        text_pairs_map(h.entries()) == h.view_map(),
        match r {
            Some(s) => json_of_string_pairs(h.entries()) == Some(s@),
            None => json_of_string_pairs(h.entries()) is None,
        },
        r matches Some(s) ==> json_string_pairs(s@) matches Some(back) && text_pairs_map(back) == h.view_map(),
{
    let v = h.pairs();
    proof {
        assert forall|i: int, j: int| 0 <= i < pair_views(v@).len() && 0 <= j < pair_views(v@).len() && i != j
            implies pair_views(v@)[i].0 != pair_views(v@)[j].0 by {
            assert(v@[i].0@ != v@[j].0@);
        }
    }
    write_string_pairs(&v)
}

/// The query-to-pick map of a list of pairs, a later pair of a query
/// replacing an earlier.
pub open spec fn pairs_map(s: Seq<(String, String)>) -> Map<Seq<char>, Seq<char>> {
    text_pairs_map(pair_views(s))
}

/// The (query, pick) texts of the stored picks, in their stored order.
spec fn pick_texts(s: Seq<Pick>) -> Seq<(Seq<char>, Seq<char>)> {
    s.map_values(|p: Pick| (p.query@, p.top@))
}

proof fn lemma_pick_texts_map(s: Seq<Pick>)
    requires
        queries_distinct(s),
    ensures
        text_pairs_map(pick_texts(s)) == picks_map(s),
    decreases s.len(),
{
    if s.len() == 0 {
        assert(picks_map(s) =~= Map::<Seq<char>, Seq<char>>::empty());
    } else {
        let t = s.drop_last();
        assert(queries_distinct(t)) by {
            assert forall|a: int, b: int| 0 <= a < t.len() && 0 <= b < t.len() && a != b
                implies t[a].query@ != t[b].query@ by {
                assert(t[a] == s[a] && t[b] == s[b]);
            }
        }
        lemma_pick_texts_map(t);
        assert(pick_texts(s).drop_last() =~= pick_texts(t));
        let n = s.len() - 1;
        let q = s[n].query@;
        lemma_pick_in_map(s, n);
        assert(picks_map(s) =~= picks_map(t).insert(q, s[n].top@)) by {
            assert forall|k: Seq<char>| picks_map(s).contains_key(k) <==> picks_map(t).insert(q, s[n].top@).contains_key(k) by {
                if has_query(s, k) && k != q {
                    let j = choose|j: int| 0 <= j < s.len() && s[j].query@ == k;
                    assert(t[j] == s[j]);
                }
                if has_query(t, k) {
                    let j = choose|j: int| 0 <= j < t.len() && t[j].query@ == k;
                    assert(s[j] == t[j]);
                }
            }
            assert forall|k: Seq<char>| picks_map(s).contains_key(k) && k != q implies picks_map(s)[k] == picks_map(t)[k] by {
                let j = query_index(s, k);
                lemma_pick_in_map(s, j);
                assert(j != n);
                assert(t[j] == s[j]);
                lemma_pick_in_map(t, j);
            }
        }
    }
}

proof fn lemma_map_len(s: Seq<Pick>)
    requires
        queries_distinct(s),
    ensures
        picks_map(s).dom().finite(),
        picks_map(s).len() == s.len(),
    decreases s.len(),
{
    if s.len() == 0 {
        assert(picks_map(s).dom() =~= Set::<Seq<char>>::empty());
    } else {
        let t = s.drop_last();
        assert(queries_distinct(t)) by {
            assert forall|a: int, b: int| 0 <= a < t.len() && 0 <= b < t.len() && a != b
                implies t[a].query@ != t[b].query@ by {
                assert(t[a] == s[a] && t[b] == s[b]);
            }
        }
        lemma_map_len(t);
        let q = s.last().query@;
        assert(!has_query(t, q)) by {
            if has_query(t, q) {
                let j = choose|j: int| 0 <= j < t.len() && t[j].query@ == q;
                assert(s[j].query@ == s[s.len() - 1].query@);
            }
        }
        assert(picks_map(s).dom() =~= picks_map(t).dom().insert(q)) by {
            assert forall|k: Seq<char>| picks_map(s).dom().contains(k) <==> picks_map(t).dom().insert(q).contains(k) by {
                if has_query(s, k) && k != q {
                    let j = choose|j: int| 0 <= j < s.len() && s[j].query@ == k;
                    assert(j < t.len());
                    assert(t[j] == s[j]);
                }
                if has_query(t, k) {
                    let j = choose|j: int| 0 <= j < t.len() && t[j].query@ == k;
                    assert(s[j] == t[j]);
                }
                if k == q {
                    assert(s[s.len() - 1].query@ == q);
                }
            }
        }
    }
}

fn find_pick(v: &Vec<Pick>, query: &String) -> (r: Option<usize>)
    ensures
        match r {
            Some(i) => i < v@.len() && v@[i as int].query@ == query@,
            None => !has_query(v@, query@),
        },
{
    let mut i: usize = 0;
    while i < v.len()
        invariant
            i <= v@.len(),
            forall|j: int| 0 <= j < i ==> v@[j].query@ != query@,
        decreases v@.len() - i,
    {
        if v[i].query == *query {
            return Some(i);
        }
        i += 1;
    }
    None
}

/// Recording the same pick twice: the second time there is no change to
/// report.
pub proof fn lemma_repeat_record_is_quiet(m: Map<Seq<char>, Seq<char>>, query: Seq<char>, top: Seq<char>)
    ensures
        previous_pick(m.insert(query, top), query, top) is None,
{
}

/// After recording `first` for a query, recording `second` reports `first`
/// exactly when the two differ.
pub proof fn lemma_record_reports_change(m: Map<Seq<char>, Seq<char>>, query: Seq<char>, first: Seq<char>, second: Seq<char>)
    ensures
        previous_pick(m.insert(query, first), query, second)
            == (if first != second { Some(first) } else { None::<Seq<char>> }),
{
}

} // verus!
