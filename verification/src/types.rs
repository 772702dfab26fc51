//! The candidate record shared by search, evaluation and output.

use vstd::prelude::*;

verus! {

/// One real repository or crate found by a registry search.
#[derive(Debug)]
pub struct Candidate {
    pub id: String,
    pub name: String,
    pub description: String,
    pub url: String,
    pub stars: u64,
    pub downloads: u64,
    pub license: String,
    pub updated_at: String,
    pub pushed_at: String,
    pub language: String,
    pub topics: Vec<String>,
    pub ecosystem: String,
    pub install_cmd: String,
}

/// The contents of a `Candidate` as mathematical values.
pub struct CandidateModel {
    pub id: Seq<char>,
    pub name: Seq<char>,
    pub description: Seq<char>,
    pub url: Seq<char>,
    pub stars: u64,
    pub downloads: u64,
    pub license: Seq<char>,
    pub updated_at: Seq<char>,
    pub pushed_at: Seq<char>,
    pub language: Seq<char>,
    pub topics: Seq<Seq<char>>,
    pub ecosystem: Seq<char>,
    pub install_cmd: Seq<char>,
}

/// The texts of a list of strings.
pub open spec fn texts(v: Seq<String>) -> Seq<Seq<char>> {
    v.map_values(|s: String| s@)
}

/// The texts of a list of pairs of strings.
pub open spec fn pair_views(v: Seq<(String, String)>) -> Seq<(Seq<char>, Seq<char>)> {
    v.map_values(|p: (String, String)| (p.0@, p.1@))
}

impl View for Candidate {
    type V = CandidateModel;

    open spec fn view(&self) -> CandidateModel {
        CandidateModel {
            id: self.id@,
            name: self.name@,
            description: self.description@,
            url: self.url@,
            stars: self.stars,
            downloads: self.downloads,
            license: self.license@,
            updated_at: self.updated_at@,
            pushed_at: self.pushed_at@,
            language: self.language@,
            topics: texts(self.topics@),
            ecosystem: self.ecosystem@,
            install_cmd: self.install_cmd@,
        }
    }
}

/// The models of a list of candidates.
pub open spec fn models(v: Seq<Candidate>) -> Seq<CandidateModel> {
    v.map_values(|c: Candidate| c@)
}

impl Clone for Candidate {
    fn clone(&self) -> (r: Self)
        ensures
            r@ == self@,
    {
        let topics = self.topics.clone();
        assert(texts(topics@) =~= texts(self.topics@));
        Candidate {
            id: self.id.clone(),
            name: self.name.clone(),
            description: self.description.clone(),
            url: self.url.clone(),
            stars: self.stars,
            downloads: self.downloads,
            license: self.license.clone(),
            updated_at: self.updated_at.clone(),
            pushed_at: self.pushed_at.clone(),
            language: self.language.clone(),
            topics,
            ecosystem: self.ecosystem.clone(),
            install_cmd: self.install_cmd.clone(),
        }
    }
}

/// A copy of a list of candidates, element by element.
pub fn copy_candidates(v: &[Candidate]) -> (r: Vec<Candidate>)
    ensures
        models(r@) == models(v@),
{
    let mut r: Vec<Candidate> = Vec::new();
    let mut i: usize = 0;
    while i < v.len()
        invariant
            i <= v@.len(),
            models(r@) == models(v@.subrange(0, i as int)),
        decreases v@.len() - i,
    {
        let c = v[i].clone();
        let ghost before = r@;
        r.push(c);
        proof {
            let want = models(v@.subrange(0, i + 1));
            assert(models(before) =~= models(v@.subrange(0, i as int)));
            assert(models(before).len() == before.len());
            assert(before.len() == i);
            assert(r@ == before.push(c));
            assert forall|k: int| 0 <= k < i + 1 implies models(r@)[k] == want[k] by {
                if k < i {
                    assert(models(before)[k] == models(v@.subrange(0, i as int))[k]);
                    assert(r@[k] == before[k]);
                }
            }
            assert(models(r@) =~= want);
        }
        i += 1;
    }
    assert(v@.subrange(0, v@.len() as int) =~= v@);
    r
}

} // verus!
