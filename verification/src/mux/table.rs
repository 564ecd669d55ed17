//! The table of live streams.
//!
//! The table is a `DashSet` of the `dashmap` crate, and fresh ids are
//! drawn with the `rand` crate. Of both nothing is proved here: the first
//! functions below state what the calls do, and the rest is proved against
//! these statements.

use dashmap::DashSet;
use rand::Rng;
use vstd::prelude::*;
use vstd::set_lib::{lemma_int_range, lemma_len_subset, set_int_range};

verus! {

/// `dashmap::DashSet`, of which nothing but what the functions below
/// state is known here.
#[verifier::external_type_specification]
#[verifier::external_body]
#[verifier::reject_recursive_types(K)]
#[verifier::reject_recursive_types(S)]
pub struct ExDashSet<K, S>(DashSet<K, S>);

/// The ids that the set holds.
pub uninterp spec fn ids_in(set: &DashSet<u16>) -> Set<u16>;

/// `DashSet::new`: a set that holds nothing.
#[verifier::external_body]
fn ids_new() -> (set: DashSet<u16>)
    ensures
        ids_in(&set) == Set::<u16>::empty(),
{
    DashSet::new()
}

/// `DashSet::contains`: whether the set holds `id`.
#[verifier::external_body]
fn ids_contains(set: &DashSet<u16>, id: u16) -> (held: bool)
    ensures
        held == ids_in(set).contains(id),
{
    set.contains(&id)
}

/// `DashSet::insert`: afterwards the set holds `id` besides what it held.
#[verifier::external_body]
fn ids_insert(set: &mut DashSet<u16>, id: u16)
    ensures
        ids_in(final(set)) == ids_in(old(set)).insert(id),
{
    set.insert(id);
}

/// `DashSet::remove`: afterwards the set holds what it held but `id`.
#[verifier::external_body]
fn ids_remove(set: &mut DashSet<u16>, id: u16)
    ensures
        ids_in(final(set)) == ids_in(old(set)).remove(id),
{
    set.remove(&id);
}

/// `DashSet::len`: how many ids the set holds.
#[verifier::external_body]
fn ids_len(set: &DashSet<u16>) -> (len: usize)
    ensures
        len == ids_in(set).len(),
{
    set.len()
}

/// `Rng::gen` on the generator of `rand::thread_rng`: some id, of which
/// nothing is known.
#[verifier::external_body]
fn random_id() -> u16 {
    rand::thread_rng().gen()
}

/// Number of stream ids there are.
pub const ID_SPACE: usize = 65536;

/// Size from which on the table opens no further stream.
pub const EXHAUSTED: usize = 65535;

/// Most draws that one search for a free id makes.
pub const MAX_DRAWS: u64 = u64::MAX;

/// Every set of stream ids is finite and no larger than the id space.
pub proof fn lemma_ids_finite(ids: Set<u16>)
    ensures
        ids.finite(),
        ids.len() <= ID_SPACE,
{
    let all = set_int_range(0, ID_SPACE as int);
    lemma_int_range(0, ID_SPACE as int);
    let every = all.map(|i: int| i as u16);
    all.lemma_map_finite(|i: int| i as u16);
    vstd::set_lib::lemma_map_size_bound(all, every, |i: int| i as u16);
    assert forall|id: u16| ids.contains(id) implies every.contains(id) by {
        assert(all.contains(id as int));
    }
    lemma_len_subset(ids, every);
}

/// The outcome of a search that draws the ids `draws` in turn: the first
/// of them that no live stream has, or none where every one is taken.
pub open spec fn first_free(ids: Set<u16>, draws: Seq<u16>) -> Option<u16>
    decreases draws.len(),
{
    if draws.len() == 0 {
        None
    } else if !ids.contains(draws.first()) {
        Some(draws.first())
    } else {
        first_free(ids, draws.drop_first())
    }
}

/// Whether a search in `ids` that made the draws `draws` ends with `id`:
/// it makes at least one draw and at most [`MAX_DRAWS`], ends with the
/// first draw that is free, and gives up only when it has made all its
/// draws and none was free.
pub open spec fn searched(ids: Set<u16>, draws: Seq<u16>, id: Option<u16>) -> bool {
    &&& 0 < draws.len() <= MAX_DRAWS
    &&& id == first_free(ids, draws)
    &&& id is None ==> draws.len() == MAX_DRAWS
}

/// After draws that were all taken, the search stands where it began: it
/// has found nothing, and one more draw decides alone.
pub proof fn lemma_first_free_after_taken(ids: Set<u16>, taken: Seq<u16>, next: u16)
    requires
        forall|j: int| 0 <= j < taken.len() ==> ids.contains(#[trigger] taken[j]),
    ensures
        first_free(ids, taken) is None,
        first_free(ids, taken.push(next)) == if ids.contains(next) {
            None
        } else {
            Some(next)
        },
    decreases taken.len(),
{
    let drawn = taken.push(next);
    if taken.len() > 0 {
        assert(ids.contains(taken[0]));
        assert(drawn.first() == taken[0]);
        assert(drawn.drop_first() =~= taken.drop_first().push(next));
        assert forall|j: int| 0 <= j < taken.drop_first().len() implies ids.contains(
            #[trigger] taken.drop_first()[j],
        ) by {
            assert(taken.drop_first()[j] == taken[j + 1]);
        }
        lemma_first_free_after_taken(ids, taken.drop_first(), next);
    } else {
        assert(drawn.first() == next);
        assert(drawn.drop_first() =~= Seq::<u16>::empty());
        assert(first_free(ids, Seq::<u16>::empty()) is None);
    }
}

/// The streams that are live, by id.
#[derive(Debug)]
pub struct ConnTable {
    sid_to_stream: DashSet<u16>,
}

impl View for ConnTable {
    type V = Set<u16>;

    closed spec fn view(&self) -> Set<u16> {
        ids_in(&self.sid_to_stream)
    }
}

impl Default for ConnTable {
    /// A table without streams.
    fn default() -> (table: Self)
        ensures
            table@ == Set::<u16>::empty(),
    {
        ConnTable::new()
    }
}

impl ConnTable {
    /// A table without streams.
    pub fn new() -> (table: Self)
        ensures
            table@ == Set::<u16>::empty(),
    {
        ConnTable { sid_to_stream: ids_new() }
    }

    /// Whether the stream `sid` is live.
    pub fn get_stream(&self, sid: u16) -> (live: bool)
        ensures
            live == self@.contains(sid),
    {
        ids_contains(&self.sid_to_stream, sid)
    }

    /// Enters the stream `id`.
    pub fn set_stream(&mut self, id: u16)
        ensures
            final(self)@ == old(self)@.insert(id),
    {
        ids_insert(&mut self.sid_to_stream, id);
    }

    /// Removes the stream `id`.
    pub fn del_stream(&mut self, id: u16)
        ensures
            final(self)@ == old(self)@.remove(id),
    {
        ids_remove(&mut self.sid_to_stream, id);
    }

    /// Number of live streams.
    pub fn len(&self) -> (len: usize)
        ensures
            len == self@.len(),
            self@.finite(),
    {
        proof {
            lemma_ids_finite(self@);
        }
        ids_len(&self.sid_to_stream)
    }

    /// The id `candidate` where no live stream has it.
    pub fn pick_id(&self, candidate: u16) -> (id: Option<u16>)
        ensures
            id == if self@.contains(candidate) {
                None
            } else {
                Some(candidate)
            },
    {
        if self.get_stream(candidate) {
            None
        } else {
            Some(candidate)
        }
    }

    /// An id that no live stream has, found by drawing ids at random until
    /// one is free. None is looked for once the table is exhausted, and
    /// the search ends after [`MAX_DRAWS`] draws.
    ///
    /// What comes back is the outcome of a search over the draws made:
    /// the first draw that was free, and nothing only where all
    /// [`MAX_DRAWS`] draws were taken. So an id is found for sure where no
    /// stream is live.
    pub fn find_id(&self) -> (id: Option<u16>)
        ensures
            id matches Some(sid) ==> !self@.contains(sid),
            self@.len() >= EXHAUSTED ==> id is None,
            self@.len() < EXHAUSTED ==> exists|draws: Seq<u16>| #[trigger]
                searched(self@, draws, id),
            self@.len() == 0 ==> id is Some,
    {
        if self.len() >= EXHAUSTED {
            return None;
        }
        let ghost mut taken: Seq<u16> = Seq::empty();
        let mut draws: u64 = 0;
        while draws < MAX_DRAWS
            invariant
                self@.len() < EXHAUSTED,
                taken.len() == draws,
                draws <= MAX_DRAWS,
                forall|j: int| 0 <= j < taken.len() ==> self@.contains(#[trigger] taken[j]),
            decreases MAX_DRAWS - draws,
        {
            let candidate = random_id();
            let picked = self.pick_id(candidate);
            proof {
                lemma_first_free_after_taken(self@, taken, candidate);
            }
            if picked.is_some() {
                assert(searched(self@, taken.push(candidate), picked));
                return picked;
            }
            proof {
                taken = taken.push(candidate);
            }
            draws += 1;
        }
        proof {
            lemma_first_free_after_taken(self@, taken, 0);
            assert(searched(self@, taken, None));
            assert(self@.contains(taken[0]));
            if self@.len() == 0 {
                lemma_ids_finite(self@);
                self@.lemma_len0_is_empty();
            }
        }
        None
    }
}

} // verus!
