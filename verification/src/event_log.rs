use vstd::prelude::*;

use crate::channel_datum::{
    content_set_model, same_but_content, stamped_model, ChannelDatum, DatumModel, IdGenerator,
};

verus! {

/// Capacity used when the configuration names none.
pub const DEFAULT_STATE_DATA_CAPACITY: usize = 256;

/// Reverse-scan lookup: the most recent entry carrying the id.
pub open spec fn find_spec(s: Seq<DatumModel>, id: u64) -> Option<DatumModel>
    decreases s.len(),
{
    if s.len() == 0 {
        None
    } else if s.last().id == id {
        Some(s.last())
    } else {
        find_spec(s.drop_last(), id)
    }
}

/// Reverse-scan lookup returning the position of the most recent entry
/// carrying the id.
pub open spec fn find_index_spec(s: Seq<DatumModel>, id: u64) -> Option<int>
    decreases s.len(),
{
    if s.len() == 0 {
        None
    } else if s.last().id == id {
        Some(s.len() - 1)
    } else {
        find_index_spec(s.drop_last(), id)
    }
}

/// Append-only bounded ring of datums: the single source of truth for all
/// cross-component communication. Appends stamp a fresh id and the supplied
/// time; once more than `capacity` entries have been appended, the oldest is
/// evicted.
pub struct EventLog {
    data: Vec<ChannelDatum>,
    capacity: usize,
    gen: IdGenerator,
    history: Ghost<Seq<DatumModel>>,
    as_appended: Ghost<Seq<DatumModel>>,
}

impl EventLog {
    /// The entries currently retained, oldest first.
    pub closed spec fn model(&self) -> Seq<DatumModel> {
        self.data@.map_values(|d: ChannelDatum| d@)
    }

    /// Every entry ever appended (or restored), oldest first, including the
    /// evicted ones, as it stands now: an in-place rewrite shows here.
    pub closed spec fn history(&self) -> Seq<DatumModel> {
        self.history@
    }

    /// Every entry ever appended (or restored), oldest first, exactly as it
    /// entered the log: in-place rewrites never touch this record.
    pub closed spec fn appended(&self) -> Seq<DatumModel> {
        self.as_appended@
    }

    pub closed spec fn spec_capacity(&self) -> usize {
        self.capacity
    }

    /// The id the next append will assign.
    pub closed spec fn next_id(&self) -> u64 {
        self.gen.spec_next()
    }

    pub open spec fn wf(&self) -> bool {
        &&& self.spec_capacity() >= 1
        &&& self.next_id() >= 1
        &&& self.model().len() == if self.history().len() <= self.spec_capacity() {
            self.history().len() as int
        } else {
            self.spec_capacity() as int
        }
        &&& self.model() == self.history().skip(self.history().len() - self.model().len())
        &&& forall|i: int, j: int|
            #![trigger self.history()[i], self.history()[j]]
            0 <= i < j < self.history().len() ==> self.history()[i].id < self.history()[j].id
        &&& forall|j: int|
            0 <= j < self.history().len() ==> 1 <= #[trigger] self.history()[j].id
                < self.next_id()
        &&& self.appended().len() == self.history().len()
        &&& forall|j: int|
            0 <= j < self.history().len() ==> same_but_content(
                #[trigger] self.history()[j],
                self.appended()[j],
            )
    }

    pub fn new(capacity: usize) -> (r: Self)
        requires
            capacity >= 1,
        ensures
            r.wf(),
            r.model() == Seq::<DatumModel>::empty(),
            r.history() == Seq::<DatumModel>::empty(),
            r.appended() == Seq::<DatumModel>::empty(),
            r.spec_capacity() == capacity,
            r.next_id() == 1,
    {
        let r = EventLog {
            data: Vec::new(),
            capacity,
            gen: IdGenerator::new(),
            history: Ghost(Seq::empty()),
            as_appended: Ghost(Seq::empty()),
        };
        assert(r.model() =~= Seq::<DatumModel>::empty());
        assert(r.model() =~= r.history@.skip(0));
        r
    }

    pub fn len(&self) -> (r: usize)
        ensures
            r == self.model().len(),
    {
        self.data.len()
    }

    pub fn capacity(&self) -> (r: usize)
        ensures
            r == self.spec_capacity(),
    {
        self.capacity
    }

    pub fn next_id_preview(&self) -> (r: u64)
        ensures
            r == self.next_id(),
    {
        self.gen.next_preview()
    }

    pub fn get(&self, i: usize) -> (r: &ChannelDatum)
        requires
            i < self.model().len(),
        ensures
            r@ == self.model()[i as int],
    {
        &self.data[i]
    }

    /// Allocates the next id, stamps the draft with it and the supplied time,
    /// inserts at the tail and evicts the oldest entry if the log is full.
    /// Always succeeds; there is no backpressure.
    pub fn append(&mut self, cd: ChannelDatum, now: u64) -> (id: u64)
        requires
            old(self).wf(),
            old(self).next_id() < u64::MAX,
        ensures
            final(self).wf(),
            id == old(self).next_id(),
            final(self).next_id() == id + 1,
            final(self).spec_capacity() == old(self).spec_capacity(),
            final(self).history() == old(self).history().push(stamped_model(cd@, id, now)),
            final(self).appended() == old(self).appended().push(stamped_model(cd@, id, now)),
            final(self).model() == if old(self).model().len() < old(self).spec_capacity() {
                old(self).model().push(stamped_model(cd@, id, now))
            } else {
                old(self).model().push(stamped_model(cd@, id, now)).skip(1)
            },
    {
        let id = self.gen.fresh();
        let stamped = cd.stamp(id, now);
        let ghost st = stamped@;
        proof {
            self.history@ = self.history@.push(st);
            self.as_appended@ = self.as_appended@.push(st);
        }
        self.data.push(stamped);
        assert(self.model() =~= old(self).model().push(st));
        if self.data.len() > self.capacity {
            self.data.remove(0);
            assert(self.model() =~= old(self).model().push(st).skip(1));
        }
        assert(self.model() =~= self.history@.skip(self.history@.len() - self.model().len()));
        proof {
            let h0 = old(self).history();
            let h1 = self.history();
            assert forall|a: int, b: int|
                #![trigger h1[a], h1[b]]
                0 <= a < b < h1.len() implies h1[a].id < h1[b].id by {
                if b < h0.len() {
                    assert(h1[a] == h0[a]);
                    assert(h1[b] == h0[b]);
                } else {
                    assert(h1[b] == st);
                    if a < h0.len() {
                        assert(h1[a] == h0[a]);
                        assert(h0[a].id < old(self).next_id());
                    }
                }
            }
            assert forall|b: int| 0 <= b < h1.len() implies 1 <= #[trigger] h1[b].id
                < self.next_id() by {
                if b < h0.len() {
                    assert(h1[b] == h0[b]);
                } else {
                    assert(h1[b] == st);
                }
            }
        }
        id
    }

    /// Most-recent-first scan for the live entry with the given id; a copy of
    /// the entry is returned.
    pub fn rfind_channel_datum(&self, id: u64) -> (r: Option<ChannelDatum>)
        ensures
            match r {
                Some(d) => find_spec(self.model(), id) == Some(d@),
                None => find_spec(self.model(), id) is None,
            },
    {
        let mut i: usize = self.data.len();
        assert(self.model().take(i as int) =~= self.model());
        while i > 0
            invariant
                i <= self.data@.len(),
                self.model().len() == self.data@.len(),
                find_spec(self.model(), id) == find_spec(self.model().take(i as int), id),
            decreases i,
        {
            i -= 1;
            assert(self.model().take(i + 1).drop_last() =~= self.model().take(i as int));
            assert(self.model().take(i + 1).last() == self.model()[i as int]);
            if self.data[i].get_id() == id {
                return Some(self.data[i].duplicate());
            }
        }
        assert(self.model().take(0) =~= Seq::<DatumModel>::empty());
        None
    }

    /// Position of the most recent live entry with the given id.
    pub fn rfind_index(&self, id: u64) -> (r: Option<usize>)
        ensures
            match r {
                Some(i) => find_index_spec(self.model(), id) == Some(i as int)
                    && i < self.model().len() && self.model()[i as int].id == id,
                None => find_index_spec(self.model(), id) is None,
            },
    {
        let mut i: usize = self.data.len();
        assert(self.model().take(i as int) =~= self.model());
        while i > 0
            invariant
                i <= self.data@.len(),
                self.model().len() == self.data@.len(),
                find_index_spec(self.model(), id) == find_index_spec(
                    self.model().take(i as int),
                    id,
                ),
            decreases i,
        {
            i -= 1;
            assert(self.model().take(i + 1).drop_last() =~= self.model().take(i as int));
            assert(self.model().take(i + 1).last() == self.model()[i as int]);
            if self.data[i].get_id() == id {
                return Some(i);
            }
        }
        assert(self.model().take(0) =~= Seq::<DatumModel>::empty());
        None
    }

    /// In-place rewrite of one live entry's content; the only mutation the
    /// log admits besides append and eviction, used by the substitution
    /// processor.
    pub fn set_content(&mut self, i: usize, content: String)
        requires
            old(self).wf(),
            i < old(self).model().len(),
        ensures
            final(self).wf(),
            final(self).spec_capacity() == old(self).spec_capacity(),
            final(self).next_id() == old(self).next_id(),
            final(self).model() == old(self).model().update(
                i as int,
                content_set_model(old(self).model()[i as int], content@),
            ),
            final(self).history() == old(self).history().update(
                old(self).history().len() - old(self).model().len() + i,
                content_set_model(old(self).model()[i as int], content@),
            ),
            final(self).model().len() == old(self).model().len(),
            final(self).history().len() == old(self).history().len(),
            final(self).appended() == old(self).appended(),
    {
        let ghost updated = content_set_model(old(self).model()[i as int], content@);
        self.data[i].set_content(content);
        proof {
            let off = old(self).history@.len() - old(self).model().len();
            self.history@ = self.history@.update(off + i, updated);
            assert(self.model() =~= old(self).model().update(i as int, updated));
            assert(self.model() =~= self.history@.skip(
                self.history@.len() - self.model().len(),
            ));
            assert(old(self).model()[i as int] == old(self).history()[off + i]);
            assert forall|j: int| 0 <= j < self.history().len() implies same_but_content(
                #[trigger] self.history()[j],
                self.appended()[j],
            ) by {
                if j != off + i {
                    assert(self.history()[j] == old(self).history()[j]);
                } else {
                    assert(self.history()[j] == updated);
                    assert(same_but_content(old(self).history()[j], self.appended()[j]));
                }
            }
        }
    }

    /// Rebuilds a log from restored entries: ids must be assigned (nonzero),
    /// strictly increasing and below the largest representable id. Only the
    /// newest `capacity` entries are retained; the id generator is reset just
    /// past the largest restored id so that ids never repeat across restore.
    pub fn restored(entries: Vec<ChannelDatum>, capacity: usize) -> (r: Option<EventLog>)
        requires
            capacity >= 1,
        ensures
            match r {
                Some(log) => {
                    let models = entries@.map_values(|d: ChannelDatum| d@);
                    &&& log.wf()
                    &&& log.spec_capacity() == capacity
                    &&& log.history() == models
                    &&& log.appended() == models
                    &&& log.model() == if models.len() <= capacity {
                        models
                    } else {
                        models.skip(models.len() - capacity)
                    }
                    &&& log.next_id() == if models.len() == 0 {
                        1u64
                    } else {
                        (models.last().id + 1) as u64
                    }
                },
                None => !restorable(entries@.map_values(|d: ChannelDatum| d@)),
            },
            r is Some <==> restorable(entries@.map_values(|d: ChannelDatum| d@)),
    {
        let ghost models = entries@.map_values(|d: ChannelDatum| d@);
        let mut i: usize = 0;
        let mut last: u64 = 0;
        while i < entries.len()
            invariant
                i <= entries@.len(),
                models == entries@.map_values(|d: ChannelDatum| d@),
                forall|a: int, b: int| 0 <= a < b < i ==> models[a].id < models[b].id,
                forall|j: int| 0 <= j < i ==> 1 <= #[trigger] models[j].id < u64::MAX,
                i > 0 ==> last == models[i - 1].id,
                i == 0 ==> last == 0,
            decreases entries@.len() - i,
        {
            let id = entries[i].get_id();
            if id <= last || id == u64::MAX {
                proof {
                    assert(models[i as int].id == id);
                    if id == u64::MAX {
                        assert(!restorable(models));
                    } else if i == 0 {
                        assert(models[0].id < 1);
                        assert(!restorable(models));
                    } else {
                        assert(models[i - 1].id >= models[i as int].id);
                        assert(!restorable(models));
                    }
                }
                return None;
            }
            last = id;
            i += 1;
        }
        let next: u64 = last + 1;
        let mut data = entries;
        assert(data@.map_values(|d: ChannelDatum| d@) == models);
        assert(models.skip(0) =~= models);
        if data.len() > capacity {
            let at = data.len() - capacity;
            let tail = data.split_off(at);
            data = tail;
            assert(data@.map_values(|d: ChannelDatum| d@) =~= models.skip(
                models.len() - capacity,
            ));
        }
        let mut gen = IdGenerator::new();
        gen.reset(next);
        let log = EventLog {
            data,
            capacity,
            gen,
            history: Ghost(models),
            as_appended: Ghost(models),
        };
        proof {
            assert(log.model() =~= log.history@.skip(
                log.history@.len() - log.model().len(),
            ));
            assert forall|j: int| 0 <= j < log.history().len() implies same_but_content(
                #[trigger] log.history()[j],
                log.appended()[j],
            ) by {}
            if models.len() <= capacity {
                assert(log.model() =~= models);
            } else {
                assert(log.model() =~= models.skip(models.len() - capacity));
            }
            if models.len() > 0 {
                assert(models.last().id == last);
            }
        }
        Some(log)
    }

    /// The log retains exactly the most recent appended entries: what it
    /// holds is the suffix of everything ever appended, and once the number
    /// of appends reaches the capacity, exactly the capacity's worth of the
    /// newest entries remain.
    pub proof fn lemma_retains_most_recent(&self)
        requires
            self.wf(),
        ensures
            self.model().len() <= self.spec_capacity(),
            self.model() == self.history().skip(self.history().len() - self.model().len()),
            self.history().len() >= self.spec_capacity() ==> self.model().len()
                == self.spec_capacity(),
    {
    }

    /// Ids strictly increase over everything ever appended and never reach
    /// the next id to be allocated, so no id is ever issued twice.
    pub proof fn lemma_ids_strictly_increase(&self)
        requires
            self.wf(),
        ensures
            forall|i: int, j: int|
                0 <= i < j < self.history().len() ==> self.history()[i].id
                    < self.history()[j].id,
            forall|j: int|
                0 <= j < self.history().len() ==> #[trigger] self.history()[j].id
                    < self.next_id(),
    {
    }

    /// An evicted id is no longer found: whenever an entry left the ring, a
    /// reverse-scan lookup for its id answers nothing.
    pub proof fn lemma_evicted_not_found(&self, j: int)
        requires
            self.wf(),
            0 <= j < self.history().len() - self.model().len(),
        ensures
            find_spec(self.model(), self.history()[j].id) is None,
    {
        let off = self.history().len() - self.model().len();
        assert forall|k: int| 0 <= k < self.model().len() implies self.model()[k].id
            != self.history()[j].id by {
            assert(self.model()[k] == self.history()[off + k]);
        }
        lemma_find_spec_none(self.model(), self.history()[j].id);
    }
}

/// Restored entries are acceptable when their ids are assigned, strictly
/// increasing and below the largest representable id.
pub open spec fn restorable(models: Seq<DatumModel>) -> bool {
    &&& forall|i: int, j: int| 0 <= i < j < models.len() ==> models[i].id < models[j].id
    &&& forall|j: int| 0 <= j < models.len() ==> 1 <= #[trigger] models[j].id < u64::MAX
}

/// If no entry carries the id, the reverse scan answers nothing.
pub proof fn lemma_find_spec_none(s: Seq<DatumModel>, id: u64)
    requires
        forall|k: int| 0 <= k < s.len() ==> s[k].id != id,
    ensures
        find_spec(s, id) is None,
    decreases s.len(),
{
    if s.len() > 0 {
        lemma_find_spec_none(s.drop_last(), id);
    }
}

/// What the reverse scan finds carries the id it was asked for, and some
/// live entry carries it.
pub proof fn lemma_find_spec_some(s: Seq<DatumModel>, id: u64)
    requires
        find_spec(s, id) is Some,
    ensures
        find_spec(s, id)->Some_0.id == id,
        exists|k: int| 0 <= k < s.len() && s[k].id == id,
    decreases s.len(),
{
    if s.len() > 0 {
        if s.last().id == id {
            assert(s[s.len() - 1].id == id);
        } else {
            lemma_find_spec_some(s.drop_last(), id);
            let k = choose|k: int| 0 <= k < s.drop_last().len() && s.drop_last()[k].id == id;
            assert(s[k].id == id);
        }
    }
}

} // verus!
