//! Homophily grouping: agents are clustered by the similarity of their
//! profile embeddings.
//!
//! The embeddings and the K-means arithmetic on them are floating point and
//! stay with the caller; this module holds what the grouping decides with
//! integers and text: the text embedded for each agent, how many clusters are
//! formed, which agents seed the centroids, and how the final assignment is
//! recorded on the agents.

use rand::rngs::SmallRng;
use rand::seq::SliceRandom;
use rand::SeedableRng;
use vstd::prelude::*;

use crate::agent::{Agent, ClusterId};
use crate::profile::Profile;
use crate::text::{joined, push_joined, views};

verus! {

/// The upper bound on K-means refinement rounds.
pub const KMEANS_MAX_ITERS: usize = 32;

/// The pieces of a profile that are embedded, in order: profession,
/// interests, bio, historical statements.
pub open spec fn profile_parts(p: Profile) -> Seq<Seq<char>> {
    (match p.profession {
        Some(s) => seq![s@],
        None => Seq::empty(),
    }) + views(p.interests@) + (match p.bio {
        Some(s) => seq![s@],
        None => Seq::empty(),
    }) + views(p.historical_statements@)
}

/// The embedded pieces of a profile, position by position: the profession
/// first when there is one, then every interest, then the bio when there is
/// one, then every historical statement, whether or not a bio is present.
pub proof fn lemma_profile_parts_positions(p: Profile)
    ensures
        ({
            let parts = profile_parts(p);
            let a = if p.profession is Some {
                1int
            } else {
                0int
            };
            let b = a + p.interests@.len() + if p.bio is Some {
                1int
            } else {
                0int
            };
            &&& parts.len() == b + p.historical_statements@.len()
            &&& p.profession matches Some(s) ==> parts[0] == s@
            &&& forall|j: int| 0 <= j < p.interests@.len() ==> #[trigger] parts[a + j] == p.interests@[j]@
            &&& p.bio matches Some(s) ==> parts[a + p.interests@.len()] == s@
            &&& forall|j: int|
                0 <= j < p.historical_statements@.len() ==> #[trigger] parts[b + j]
                    == p.historical_statements@[j]@
        }),
{
}

fn push_all(parts: &mut Vec<String>, more: &Vec<String>)
    ensures
        views(final(parts)@) == views(old(parts)@) + views(more@),
{
    let ghost start = parts@;
    let mut i: usize = 0;
    while i < more.len()
        invariant
            i <= more@.len(),
            views(parts@) == views(start) + views(more@.take(i as int)),
        decreases more@.len() - i,
    {
        let ghost before = parts@;
        let c = more[i].clone();
        parts.push(c);
        assert(views(parts@) =~= views(before).push(more@[i as int]@));
        assert(views(more@.take(i + 1)) =~= views(more@.take(i as int)).push(more@[i as int]@));
        assert(views(parts@) =~= views(start) + views(more@.take(i + 1)));
        i += 1;
    }
    assert(more@.take(more@.len() as int) =~= more@);
}

/// The text embedded for an agent: its whole profile, space-separated.
pub fn profile_text(agent: &Agent) -> (r: String)
    ensures
        r@ == joined(profile_parts(agent.profile), " "@),
{
    let p = &agent.profile;
    let mut parts: Vec<String> = Vec::new();
    if let Some(s) = &p.profession {
        parts.push(s.clone());
    }
    assert(views(parts@) =~= (match p.profession {
        Some(s) => seq![s@],
        None => Seq::<Seq<char>>::empty(),
    }));
    push_all(&mut parts, &p.interests);
    if let Some(s) = &p.bio {
        let ghost before = parts@;
        parts.push(s.clone());
        assert(views(parts@) =~= views(before) + seq![s@]);
    }
    push_all(&mut parts, &p.historical_statements);
    assert(views(parts@) =~= profile_parts(*p));
    let mut r = String::new();
    push_joined(&mut r, parts.as_slice(), " ");
    r
}

/// How many clusters `k` requested clusters become among `n` agents: none
/// when there are no agents or none are requested, otherwise at most one per
/// agent.
pub fn cluster_count(n: usize, k: usize) -> (r: Option<usize>)
    ensures
        r is None <==> (n == 0 || k == 0),
        r matches Some(c) ==> c == if k < n {
            k
        } else {
            n
        },
{
    if n == 0 || k == 0 {
        None
    } else if k < n {
        Some(k)
    } else {
        Some(n)
    }
}

/// `rand`'s `SmallRng`, a seeded pseudo-random generator, carried through
/// opaquely.
#[verifier::external_type_specification]
#[verifier::external_body]
pub struct ExSmallRng(SmallRng);

/// `rand`'s `SmallRng::seed_from_u64`: a generator seeded from `seed`.
/// Nothing is claimed of the generator: its output is documented as not
/// portable across platforms and versions.
#[verifier::external_body]
fn seeded_rng(seed: u64) -> SmallRng {
    SmallRng::seed_from_u64(seed)
}

/// `rand`'s `SliceRandom::shuffle`: permutes the slice in place. Claimed:
/// the length is kept and the result holds the same elements, each as often
/// as before (a permutation); which permutation is left unsaid.
#[verifier::external_body]
fn shuffle_indices(v: &mut Vec<usize>, rng: &mut SmallRng)
    ensures
        final(v)@.len() == old(v)@.len(),
        final(v)@.to_multiset() == old(v)@.to_multiset(),
{
    v.as_mut_slice().shuffle(rng);
}

/// The agents that seed the `k` initial centroids among `n`: `k` distinct
/// positions, drawn by shuffling all positions with a generator seeded from
/// `seed`.
pub fn initial_centroids(n: usize, k: usize, seed: u64) -> (r: Vec<usize>)
    requires
        k <= n,
    ensures
        r@.len() == k,
        forall|i: int| 0 <= i < k ==> #[trigger] r@[i] < n,
        r@.no_duplicates(),
{
    let mut idx: Vec<usize> = Vec::new();
    let mut i: usize = 0;
    while i < n
        invariant
            i <= n,
            idx@ == Seq::new(i as nat, |j: int| j as usize),
        decreases n - i,
    {
        idx.push(i);
        assert(idx@ =~= Seq::new((i + 1) as nat, |j: int| j as usize));
        i += 1;
    }
    let ghost ordered = idx@;
    proof {
        assert(ordered.no_duplicates());
        ordered.lemma_multiset_has_no_duplicates();
    }
    let mut rng = seeded_rng(seed);
    shuffle_indices(&mut idx, &mut rng);
    proof {
        broadcast use vstd::seq_lib::group_to_multiset_ensures;

        let s = idx@;
        assert forall|x: usize| s.to_multiset().contains(x) implies s.to_multiset().count(x) == 1 by {
            assert(ordered.to_multiset().contains(x));
        }
        s.lemma_multiset_has_no_duplicates_conv();
        assert forall|j: int| 0 <= j < s.len() implies #[trigger] s[j] < n by {
            assert(s.contains(s[j]));
            assert(s.to_multiset().count(s[j]) > 0);
            assert(ordered.contains(s[j]));
        }
        assert(s.len() == ordered.len());
    }
    idx.truncate(k);
    idx
}

/// Records a cluster assignment on the agents: the agent at position `i`
/// joins cluster `assignments[i]`, for every position both cover; the other
/// agents, and everything else about all of them, stay as they were.
pub fn apply_assignments(agents: &mut Vec<Agent>, assignments: &Vec<usize>)
    ensures
        final(agents)@.len() == old(agents)@.len(),
        forall|i: int|
            #![trigger final(agents)@[i]]
            0 <= i < old(agents)@.len() ==> {
                &&& final(agents)@[i].id == old(agents)@[i].id
                &&& final(agents)@[i].profile == old(agents)@[i].profile
                &&& final(agents)@[i].goal == old(agents)@[i].goal
                &&& final(agents)@[i].memory == old(agents)@[i].memory
                &&& final(agents)@[i].cluster == if i < assignments@.len() {
                    Some(ClusterId(assignments@[i] as u32))
                } else {
                    old(agents)@[i].cluster
                }
            },
{
    let ghost start = agents@;
    let mut i: usize = 0;
    while i < agents.len() && i < assignments.len()
        invariant
            i <= agents@.len(),
            agents@.len() == start.len(),
            forall|j: int|
                #![trigger agents@[j]]
                0 <= j < start.len() ==> {
                    &&& agents@[j].id == start[j].id
                    &&& agents@[j].profile == start[j].profile
                    &&& agents@[j].goal == start[j].goal
                    &&& agents@[j].memory == start[j].memory
                    &&& agents@[j].cluster == if j < i && j < assignments@.len() {
                        Some(ClusterId(assignments@[j] as u32))
                    } else {
                        start[j].cluster
                    }
                },
        decreases agents@.len() - i,
    {
        agents[i].cluster = Some(ClusterId(assignments[i] as u32));
        i += 1;
    }
}

} // verus!
