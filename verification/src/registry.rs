//! The entity registry: owns the mapping from entity id to managed in-world
//! entity. All mutation goes through exclusive-access operations; the
//! registry relies on the scheduler's single-logical-thread discipline and
//! therefore needs no lock.

use vstd::prelude::*;
use crate::CoordError;

verus! {

/// The content attached to a managed entity; at most one source at a time.
/// Volumes are in thousandths of full scale (`0..=1000`).
#[derive(Clone, Debug, PartialEq, Eq)]
pub enum ContentSource {
    /// A browser page.
    Browser { url: Vec<char> },
    /// A generic media player.
    Media { volume: u32 },
    /// A Youtube player.
    Youtube { volume: u32 },
    /// A placeholder with nothing attached; must not be drawn with content.
    Nothing,
}

/// One browser- or media-backed in-world object.
#[derive(Clone, Debug, PartialEq, Eq)]
pub struct ManagedEntity {
    /// Unique and stable for the entity's lifetime.
    pub id: usize,
    pub source: ContentSource,
    /// Spatial scale in thousandths (`0` is the invisible zero-scale).
    pub scale_milli: u32,
    /// Frames per second requested from the backing content.
    pub frame_rate: u16,
    /// Backing surface resolution, if constrained.
    pub resolution: Option<(u16, u16)>,
    /// Whether the entity is relayed to other players.
    pub send_to_others: bool,
    /// `true`: ambient volume; `false`: per-viewer positional attenuation.
    pub global_volume: bool,
}

/// The first entity with the given id, scanning left to right.
pub open spec fn find_in(s: Seq<ManagedEntity>, id: usize) -> Option<ManagedEntity>
    decreases s.len(),
{
    if s.len() == 0 {
        None
    } else if s[0].id == id {
        Some(s[0])
    } else {
        find_in(s.skip(1), id)
    }
}

/// No two entities share an id.
pub open spec fn unique_ids(s: Seq<ManagedEntity>) -> bool {
    forall|k1: int, k2: int| 0 <= k1 < k2 < s.len() ==> s[k1].id != s[k2].id
}

/// `find_in` succeeds exactly when some position holds the id, and then
/// returns the entity at the first such position.
pub open spec fn first_match_at(s: Seq<ManagedEntity>, id: usize, k: int) -> bool {
    &&& 0 <= k < s.len()
    &&& s[k].id == id
    &&& forall|j: int| 0 <= j < k ==> s[j].id != id
}

pub proof fn lemma_find_in_index(s: Seq<ManagedEntity>, id: usize)
    ensures
        match find_in(s, id) {
            Some(e) => exists|k: int| first_match_at(s, id, k) && s[k] == e,
            None => forall|k: int| 0 <= k < s.len() ==> s[k].id != id,
        },
    decreases s.len(),
{
    if s.len() > 0 {
        if s[0].id == id {
            assert(first_match_at(s, id, 0));
        } else {
            lemma_find_in_index(s.skip(1), id);
            match find_in(s.skip(1), id) {
                Some(e) => {
                    let k = choose|k: int| first_match_at(s.skip(1), id, k) && s.skip(1)[k] == e;
                    assert(s[k + 1] == e);
                    assert(first_match_at(s, id, k + 1)) by {
                        assert forall|j: int| 0 <= j < k + 1 implies s[j].id != id by {
                            if j > 0 {
                                assert(s.skip(1)[j - 1] == s[j]);
                            }
                        }
                    }
                },
                None => {
                    assert forall|k: int| 0 <= k < s.len() implies s[k].id != id by {
                        if k > 0 {
                            assert(s.skip(1)[k - 1] == s[k]);
                        }
                    }
                },
            }
        }
    }
}

/// Updating the entity at one position changes lookups of that id only.
pub proof fn lemma_find_in_update(s: Seq<ManagedEntity>, k: int, e: ManagedEntity, qid: usize)
    requires
        unique_ids(s),
        0 <= k < s.len(),
        e.id == s[k].id,
    ensures
        find_in(s.update(k, e), qid) == if qid == e.id {
            Some(e)
        } else {
            find_in(s, qid)
        },
    decreases s.len(),
{
    let t = s.update(k, e);
    assert(t.len() == s.len());
    if k == 0 {
        assert(t[0] == e);
        if qid == e.id {
        } else {
            assert(t.skip(1) =~= s.skip(1));
        }
    } else {
        assert(t[0] == s[0]);
        assert(t.skip(1) =~= s.skip(1).update(k - 1, e));
        assert(unique_ids(s.skip(1))) by {
            assert forall|k1: int, k2: int|
                0 <= k1 < k2 < s.skip(1).len() implies s.skip(1)[k1].id != s.skip(1)[k2].id by {
                assert(s.skip(1)[k1] == s[k1 + 1]);
                assert(s.skip(1)[k2] == s[k2 + 1]);
            }
        }
        assert(s.skip(1)[k - 1] == s[k]);
        lemma_find_in_update(s.skip(1), k - 1, e, qid);
        if s[0].id == qid {
            assert(s[0].id != s[k].id);
        }
    }
}

/// Appending an entity with a fresh id changes lookups of that id only.
pub proof fn lemma_find_in_push(s: Seq<ManagedEntity>, e: ManagedEntity, qid: usize)
    requires
        find_in(s, e.id) is None,
    ensures
        find_in(s.push(e), qid) == if qid == e.id {
            Some(e)
        } else {
            find_in(s, qid)
        },
    decreases s.len(),
{
    if s.len() == 0 {
        assert(s.push(e).len() == 1);
        assert(s.push(e)[0] == e);
        if qid == e.id {
            assert(find_in(s.push(e), qid) == Some(e));
        } else {
            assert(s.push(e).skip(1) =~= Seq::<ManagedEntity>::empty());
            assert(find_in(Seq::<ManagedEntity>::empty(), qid) is None);
            assert(find_in(s.push(e), qid) is None);
            assert(find_in(s, qid) is None);
        }
    } else {
        assert(s.push(e)[0] == s[0]);
        assert(s.push(e).skip(1) =~= s.skip(1).push(e));
        assert(s[0].id != e.id);
        lemma_find_in_push(s.skip(1), e, qid);
        if s[0].id == qid {
            assert(find_in(s.push(e), qid) == Some(s[0]));
            assert(find_in(s, qid) == Some(s[0]));
            assert(qid != e.id);
        } else {
            assert(find_in(s.push(e), qid) == find_in(s.skip(1).push(e), qid));
            assert(find_in(s, qid) == find_in(s.skip(1), qid));
        }
    }
}

/// Removing the entity at one position changes lookups of its id only.
pub proof fn lemma_find_in_remove(s: Seq<ManagedEntity>, k: int, qid: usize)
    requires
        unique_ids(s),
        0 <= k < s.len(),
    ensures
        find_in(s.remove(k), qid) == if qid == s[k].id {
            None
        } else {
            find_in(s, qid)
        },
    decreases s.len(),
{
    let t = s.remove(k);
    if k == 0 {
        assert(t =~= s.skip(1));
        if qid == s[0].id {
            lemma_find_in_index(s.skip(1), qid);
        }
    } else {
        assert(t[0] == s[0]);
        assert(t.skip(1) =~= s.skip(1).remove(k - 1));
        assert(unique_ids(s.skip(1))) by {
            assert forall|k1: int, k2: int|
                0 <= k1 < k2 < s.skip(1).len() implies s.skip(1)[k1].id != s.skip(1)[k2].id by {
                assert(s.skip(1)[k1] == s[k1 + 1]);
                assert(s.skip(1)[k2] == s[k2 + 1]);
            }
        }
        assert(s.skip(1)[k - 1] == s[k]);
        lemma_find_in_remove(s.skip(1), k - 1, qid);
        if s[0].id == qid {
            assert(s[0].id != s[k].id);
        }
    }
}

/// The id -> entity registry. Ids are never reused: every id ever handed out
/// stays below `next_id`.
pub struct EntityRegistry {
    next_id: usize,
    entities: Vec<ManagedEntity>,
}

impl EntityRegistry {
    /// All entities currently present, in creation order.
    pub closed spec fn entities_seq(self) -> Seq<ManagedEntity> {
        self.entities@
    }

    /// Lookup of the view.
    pub open spec fn spec_find(self, id: usize) -> Option<ManagedEntity> {
        find_in(self.entities_seq(), id)
    }

    pub open spec fn contains_id(self, id: usize) -> bool {
        self.spec_find(id) is Some
    }

    pub closed spec fn spec_next_id(self) -> usize {
        self.next_id
    }

    /// Well-formed: ids unique and all below the allocation cursor.
    pub closed spec fn wf(self) -> bool {
        &&& unique_ids(self.entities@)
        &&& forall|k: int| 0 <= k < self.entities@.len() ==> (#[trigger] self.entities@[k]).id
            < self.next_id
    }

    pub fn new() -> (r: Self)
        ensures
            r.wf(),
            r.entities_seq() == Seq::<ManagedEntity>::empty(),
            r.spec_next_id() == 0,
    {
        EntityRegistry { next_id: 0, entities: Vec::new() }
    }

    /// How many entities are present.
    pub fn len(&self) -> (n: usize)
        ensures
            n == self.entities_seq().len(),
    {
        self.entities.len()
    }

    /// Position of the entity with this id, if present.
    fn find_index(&self, id: usize) -> (r: Option<usize>)
        ensures
            match r {
                Some(k) => k < self.entities@.len() && self.entities@[k as int].id == id
                    && self.spec_find(id) == Some(self.entities@[k as int]),
                None => self.spec_find(id) is None,
            },
    {
        let ghost s = self.entities@;
        let mut k: usize = 0;
        proof {
            lemma_find_in_index(s, id);
        }
        while k < self.entities.len()
            invariant
                s == self.entities@,
                k <= s.len(),
                forall|j: int| 0 <= j < k ==> s[j].id != id,
                match find_in(s, id) {
                    Some(e) => exists|j: int| first_match_at(s, id, j) && s[j] == e,
                    None => forall|j: int| 0 <= j < s.len() ==> s[j].id != id,
                },
            decreases s.len() - k,
        {
            if self.entities[k].id == id {
                proof {
                    match find_in(s, id) {
                        Some(e) => {
                            let j = choose|j: int| first_match_at(s, id, j) && s[j] == e;
                            assert(!(j < k) && !(k < j));
                            assert(s[k as int] == e);
                        },
                        None => {
                            assert(s[k as int].id != id);
                        },
                    }
                }
                return Some(k);
            }
            k = k + 1;
        }
        proof {
            match find_in(s, id) {
                Some(e) => {
                    let j = choose|j: int| first_match_at(s, id, j) && s[j] == e;
                    assert(s[j].id != id);
                },
                None => {},
            }
        }
        None
    }

    /// Allocates a fresh id (never one still present, nor one ever handed out
    /// before) and attaches the requested content source to a new entity at
    /// full scale, not relayed, with positional volume.
    pub fn create(
        &mut self,
        source: ContentSource,
        frame_rate: u16,
        resolution: Option<(u16, u16)>,
    ) -> (id: usize)
        requires
            old(self).wf(),
            old(self).spec_next_id() < usize::MAX,
        ensures
            final(self).wf(),
            id == old(self).spec_next_id(),
            !old(self).contains_id(id),
            final(self).spec_find(id) == Some(
                ManagedEntity {
                    id,
                    source,
                    scale_milli: 1000,
                    frame_rate,
                    resolution,
                    send_to_others: false,
                    global_volume: false,
                },
            ),
            forall|q: usize| q != id ==> final(self).spec_find(q) == old(self).spec_find(q),
            final(self).entities_seq().len() == old(self).entities_seq().len() + 1,
            final(self).spec_next_id() == id + 1,
    {
        let id = self.next_id;
        self.next_id = self.next_id + 1;
        let e = ManagedEntity {
            id,
            source,
            scale_milli: 1000,
            frame_rate,
            resolution,
            send_to_others: false,
            global_volume: false,
        };
        proof {
            lemma_find_in_index(self.entities@, id);
            match find_in(self.entities@, id) {
                Some(e0) => {
                    let j = choose|j: int| first_match_at(self.entities@, id, j)
                        && self.entities@[j] == e0;
                    assert(self.entities@[j].id < id);
                },
                None => {},
            }
        }
        let ghost s0 = self.entities@;
        self.entities.push(e);
        proof {
            assert forall|q: usize| #[trigger] find_in(s0.push(e), q) == if q == id {
                Some(e)
            } else {
                find_in(s0, q)
            } by {
                lemma_find_in_push(s0, e, q);
            }
            assert forall|k1: int, k2: int|
                0 <= k1 < k2 < self.entities@.len() implies self.entities@[k1].id
                != self.entities@[k2].id by {
                if k2 == s0.len() {
                    assert(self.entities@[k1] == s0[k1]);
                }
            }
        }
        id
    }

    /// Exclusive read access: the entity behind `id`, or `NotFound`.
    pub fn get(&self, id: usize) -> (r: Result<&ManagedEntity, CoordError>)
        ensures
            match r {
                Ok(e) => self.spec_find(id) == Some(*e),
                Err(err) => self.spec_find(id) is None && err is NotFound,
            },
    {
        match self.find_index(id) {
            Some(k) => Ok(&self.entities[k]),
            None => Err(CoordError::NotFound),
        }
    }

    /// Exclusive mutation: replaces the content source of the entity behind
    /// `id` (all other attributes and entities are untouched), or `NotFound`.
    pub fn update_source(&mut self, id: usize, source: ContentSource) -> (r: Result<
        (),
        CoordError,
    >)
        requires
            old(self).wf(),
        ensures
            final(self).wf(),
            final(self).spec_next_id() == old(self).spec_next_id(),
            final(self).entities_seq().len() == old(self).entities_seq().len(),
            match r {
                Ok(()) => old(self).contains_id(id) && final(self).spec_find(id) == Some(
                    ManagedEntity { source, ..old(self).spec_find(id)->Some_0 },
                ),
                Err(err) => err is NotFound && !old(self).contains_id(id) && *final(self)
                    == *old(self),
            },
            forall|q: usize| q != id ==> final(self).spec_find(q) == old(self).spec_find(q),
    {
        match self.find_index(id) {
            Some(k) => {
                let ghost s0 = self.entities@;
                let ent = &mut self.entities[k];
                ent.source = source;
                proof {
                    assert forall|q: usize| #[trigger] find_in(self.entities@, q) == if q == id {
                        Some(ManagedEntity { source, ..s0[k as int] })
                    } else {
                        find_in(s0, q)
                    } by {
                        lemma_find_in_update(s0, k as int, self.entities@[k as int], q);
                    }
                    assert forall|k1: int, k2: int|
                        0 <= k1 < k2 < self.entities@.len() implies self.entities@[k1].id
                        != self.entities@[k2].id by {
                        assert(s0[k1].id != s0[k2].id);
                    }
                }
                Ok(())
            },
            None => Err(CoordError::NotFound),
        }
    }

    /// Exclusive mutation: sets the spatial scale (thousandths), or `NotFound`.
    pub fn set_scale(&mut self, id: usize, scale_milli: u32) -> (r: Result<(), CoordError>)
        requires
            old(self).wf(),
        ensures
            final(self).wf(),
            final(self).spec_next_id() == old(self).spec_next_id(),
            final(self).entities_seq().len() == old(self).entities_seq().len(),
            match r {
                Ok(()) => old(self).contains_id(id) && final(self).spec_find(id) == Some(
                    ManagedEntity { scale_milli, ..old(self).spec_find(id)->Some_0 },
                ),
                Err(err) => err is NotFound && !old(self).contains_id(id) && *final(self)
                    == *old(self),
            },
            forall|q: usize| q != id ==> final(self).spec_find(q) == old(self).spec_find(q),
    {
        match self.find_index(id) {
            Some(k) => {
                let ghost s0 = self.entities@;
                let ent = &mut self.entities[k];
                ent.scale_milli = scale_milli;
                proof {
                    assert forall|q: usize| #[trigger] find_in(self.entities@, q) == if q == id {
                        Some(ManagedEntity { scale_milli, ..s0[k as int] })
                    } else {
                        find_in(s0, q)
                    } by {
                        lemma_find_in_update(s0, k as int, self.entities@[k as int], q);
                    }
                    assert forall|k1: int, k2: int|
                        0 <= k1 < k2 < self.entities@.len() implies self.entities@[k1].id
                        != self.entities@[k2].id by {
                        assert(s0[k1].id != s0[k2].id);
                    }
                }
                Ok(())
            },
            None => Err(CoordError::NotFound),
        }
    }

    /// Exclusive mutation: forces the peer-relay flag and the volume scope.
    /// Theme entities call this with `send_to_others == false` and
    /// `global_volume == true`: never relayed, never positionally attenuated.
    pub fn set_relay_and_volume_scope(
        &mut self,
        id: usize,
        send_to_others: bool,
        global_volume: bool,
    ) -> (r: Result<(), CoordError>)
        requires
            old(self).wf(),
        ensures
            final(self).wf(),
            final(self).spec_next_id() == old(self).spec_next_id(),
            final(self).entities_seq().len() == old(self).entities_seq().len(),
            match r {
                Ok(()) => old(self).contains_id(id) && final(self).spec_find(id) == Some(
                    ManagedEntity {
                        send_to_others,
                        global_volume,
                        ..old(self).spec_find(id)->Some_0
                    },
                ),
                Err(err) => err is NotFound && !old(self).contains_id(id) && *final(self)
                    == *old(self),
            },
            forall|q: usize| q != id ==> final(self).spec_find(q) == old(self).spec_find(q),
    {
        match self.find_index(id) {
            Some(k) => {
                let ghost s0 = self.entities@;
                let ent = &mut self.entities[k];
                ent.send_to_others = send_to_others;
                ent.global_volume = global_volume;
                proof {
                    assert forall|q: usize| #[trigger] find_in(self.entities@, q) == if q == id {
                        Some(ManagedEntity { send_to_others, global_volume, ..s0[k as int] })
                    } else {
                        find_in(s0, q)
                    } by {
                        lemma_find_in_update(s0, k as int, self.entities@[k as int], q);
                    }
                    assert forall|k1: int, k2: int|
                        0 <= k1 < k2 < self.entities@.len() implies self.entities@[k1].id
                        != self.entities@[k2].id by {
                        assert(s0[k1].id != s0[k2].id);
                    }
                }
                Ok(())
            },
            None => Err(CoordError::NotFound),
        }
    }

    /// Detaches and returns the entity behind `id`, or `NotFound`. The id
    /// becomes invalid; every other entity is untouched.
    pub fn remove(&mut self, id: usize) -> (r: Result<ManagedEntity, CoordError>)
        requires
            old(self).wf(),
        ensures
            final(self).wf(),
            final(self).spec_next_id() == old(self).spec_next_id(),
            final(self).spec_find(id) is None,
            match r {
                Ok(e) => old(self).spec_find(id) == Some(e) && final(self).entities_seq().len()
                    == old(self).entities_seq().len() - 1,
                Err(err) => err is NotFound && !old(self).contains_id(id) && *final(self)
                    == *old(self),
            },
            forall|q: usize| q != id ==> final(self).spec_find(q) == old(self).spec_find(q),
    {
        match self.find_index(id) {
            Some(k) => {
                let ghost s0 = self.entities@;
                let e = self.entities.remove(k);
                proof {
                    assert forall|q: usize| #[trigger] find_in(self.entities@, q) == if q == id {
                        None
                    } else {
                        find_in(s0, q)
                    } by {
                        lemma_find_in_remove(s0, k as int, q);
                    }
                    assert forall|k1: int, k2: int|
                        0 <= k1 < k2 < self.entities@.len() implies self.entities@[k1].id
                        != self.entities@[k2].id by {
                        let j1 = if k1 < k as int { k1 } else { k1 + 1 };
                        let j2 = if k2 < k as int { k2 } else { k2 + 1 };
                        assert(self.entities@[k1] == s0[j1]);
                        assert(self.entities@[k2] == s0[j2]);
                    }
                }
                Ok(e)
            },
            None => Err(CoordError::NotFound),
        }
    }

    /// Bulk teardown: detaches and returns every entity, oldest first. The
    /// registry is empty afterwards whatever becomes of the individual
    /// content-source teardowns, which the caller performs on the returned
    /// entities.
    pub fn remove_all(&mut self) -> (all: Vec<ManagedEntity>)
        requires
            old(self).wf(),
        ensures
            final(self).wf(),
            final(self).entities_seq() == Seq::<ManagedEntity>::empty(),
            all@ == old(self).entities_seq(),
            forall|q: usize| final(self).spec_find(q) is None,
            final(self).spec_next_id() == old(self).spec_next_id(),
    {
        let mut all: Vec<ManagedEntity> = Vec::new();
        core::mem::swap(&mut all, &mut self.entities);
        all
    }
}

/// The failures among a sequence of content-source teardown outcomes, in
/// order.
pub open spec fn failures_of(s: Seq<Result<(), CoordError>>) -> Seq<CoordError>
    decreases s.len(),
{
    if s.len() == 0 {
        Seq::empty()
    } else {
        let rest = failures_of(s.skip(1));
        match s[0] {
            Ok(u) => rest,
            Err(e) => seq![e] + rest,
        }
    }
}

/// Folds the outcomes of the individual content-source teardowns performed
/// after `remove_all`: success only when every teardown succeeded, otherwise
/// every failure together, as one aggregate report. The registry is empty
/// either way.
pub fn aggregate_teardown(results: Vec<Result<(), CoordError>>) -> (r: Result<
    (),
    Vec<CoordError>,
>)
    ensures
        match r {
            Ok(()) => failures_of(results@) == Seq::<CoordError>::empty(),
            Err(fs) => fs@ == failures_of(results@) && fs@.len() >= 1,
        },
{
    let ghost orig = results@;
    let mut rest = results;
    let mut fails: Vec<CoordError> = Vec::new();
    proof {
        assert(fails@ + failures_of(rest@) =~= failures_of(orig));
    }
    while rest.len() > 0
        invariant
            failures_of(orig) == fails@ + failures_of(rest@),
        decreases rest@.len(),
    {
        let ghost r0 = rest@;
        let head = rest.remove(0);
        proof {
            assert(rest@ =~= r0.skip(1));
        }
        match head {
            Ok(()) => {},
            Err(e) => {
                let ghost f0 = fails@;
                fails.push(e);
                proof {
                    assert(fails@ =~= f0 + seq![e]);
                    assert(f0 + (seq![e] + failures_of(rest@)) =~= (f0 + seq![e])
                        + failures_of(rest@));
                }
            },
        }
    }
    proof {
        assert(failures_of(rest@) =~= Seq::<CoordError>::empty());
        assert(fails@ + Seq::<CoordError>::empty() =~= fails@);
    }
    if fails.len() == 0 {
        proof {
            assert(failures_of(orig) =~= Seq::<CoordError>::empty());
        }
        Ok(())
    } else {
        Err(fails)
    }
}

} // verus!
