use vstd::prelude::*;
use crate::cycle::Cycle;
use crate::key::{DatabaseKeyIndex, DependencyIndex};
use crate::revision::Revision;

verus! {

/// One frame of the active query stack.
#[derive(Clone, Debug)]
pub struct ActiveQuery {
    /// The query being computed or validated.
    pub key: DatabaseKeyIndex,
    /// What it has read so far, in the order of the reads.
    pub dependencies: Vec<DependencyIndex>,
    /// Whether it read something that is not tracked; such a result is never
    /// revalidated, only recomputed.
    pub untracked: bool,
    /// The latest `changed_at` among what it has read.
    pub changed_at: Revision,
    /// How many tracked structs it has created so far.
    pub disambiguator: u32,
    /// The value that stands for this query's result where a read of it
    /// closes a cycle; none in the first round.
    pub provisional: Option<u64>,
    /// The participants of a recovered cycle that closed on this query;
    /// empty where none did.
    pub cycle: Vec<DatabaseKeyIndex>,
}

/// The revision clock and the active query stack.
pub struct Runtime {
    pub revision: Revision,
    pub stack: Vec<ActiveQuery>,
}

/// The keys of a stack of frames, bottom first.
pub open spec fn keys_of(s: Seq<ActiveQuery>) -> Seq<DatabaseKeyIndex> {
    s.map_values(|q: ActiveQuery| q.key)
}

pub proof fn lemma_keys_push(s: Seq<ActiveQuery>, q: ActiveQuery)
    ensures
        keys_of(s.push(q)) == keys_of(s).push(q.key),
        keys_of(s.push(q)).contains(q.key),
{
    assert(keys_of(s.push(q)) =~= keys_of(s).push(q.key));
    assert(keys_of(s.push(q))[s.len() as int] == q.key);
}

pub proof fn lemma_keys_drop_last(s: Seq<ActiveQuery>)
    requires
        s.len() > 0,
    ensures
        keys_of(s.drop_last()) == keys_of(s).drop_last(),
        keys_of(s) == keys_of(s.drop_last()).push(s.last().key),
{
    assert(keys_of(s.drop_last()) =~= keys_of(s).drop_last());
    assert(keys_of(s) =~= keys_of(s.drop_last()).push(s.last().key));
}

impl Runtime {
    pub open spec fn current(&self) -> nat {
        self.revision.number as nat
    }

    pub open spec fn stack_keys(&self) -> Seq<DatabaseKeyIndex> {
        keys_of(self.stack@)
    }

    /// Every frame has read nothing newer than the current revision.
    pub open spec fn wf(&self) -> bool {
        &&& self.revision.number >= 1
        &&& forall|i: int| 0 <= i < self.stack@.len() ==>
            #[trigger] self.stack@[i].changed_at.number <= self.revision.number
    }

    /// A runtime at the first revision with no active query.
    pub fn new() -> (r: Runtime)
        ensures
            r.wf(),
            r.current() == 1,
            r.stack@.len() == 0,
    {
        Runtime { revision: Revision::first(), stack: Vec::new() }
    }

    pub fn current_revision(&self) -> (r: Revision)
        ensures
            r == self.revision,
    {
        self.revision
    }

    /// Is a query being computed?
    pub fn is_active(&self) -> (r: bool)
        ensures
            r == (self.stack@.len() > 0),
    {
        self.stack.len() > 0
    }

    /// The position of the first frame for `key`, if any.
    pub fn find_frame(&self, key: DatabaseKeyIndex) -> (r: Option<usize>)
        ensures
            r is None <==> !self.stack_keys().contains(key),
            r matches Some(i) ==> i < self.stack@.len() && self.stack@[i as int].key == key
                && forall|j: int| 0 <= j < i ==> self.stack@[j].key != key,
    {
        let mut i: usize = 0;
        while i < self.stack.len()
            invariant
                i <= self.stack@.len(),
                forall|j: int| 0 <= j < i ==> self.stack@[j].key != key,
            decreases self.stack@.len() - i,
        {
            if self.stack[i].key == key {
                assert(self.stack_keys()[i as int] == key);
                return Some(i);
            }
            i = i + 1;
        }
        proof {
            if self.stack_keys().contains(key) {
                let k = choose|k: int| 0 <= k < self.stack_keys().len() && self.stack_keys()[k] == key;
                assert(self.stack@[k].key == key);
            }
        }
        None
    }

    /// The keys of the frames from position `from` to the top.
    pub fn keys_from(&self, from: usize) -> (r: Vec<DatabaseKeyIndex>)
        requires
            from <= self.stack@.len(),
        ensures
            r@ == self.stack_keys().subrange(from as int, self.stack@.len() as int),
    {
        let mut r: Vec<DatabaseKeyIndex> = Vec::new();
        let mut i: usize = from;
        while i < self.stack.len()
            invariant
                from <= i <= self.stack@.len(),
                r@ == self.stack_keys().subrange(from as int, i as int),
            decreases self.stack@.len() - i,
        {
            r.push(self.stack[i].key);
            i = i + 1;
            assert(r@ =~= self.stack_keys().subrange(from as int, i as int));
        }
        r
    }

    /// Pushes a fresh frame for `key`, or reports the cycle that doing so
    /// would close.
    pub fn push_query(&mut self, key: DatabaseKeyIndex, provisional: Option<u64>) -> (r: Result<(), Cycle>)
        requires
            old(self).wf(),
        ensures
            final(self).wf(),
            final(self).revision == old(self).revision,
            r is Err <==> old(self).stack_keys().contains(key),
            r is Err ==> final(self).stack@ == old(self).stack@,
            r matches Err(c) ==> exists|i: int| 0 <= i < old(self).stack@.len()
                && old(self).stack@[i].key == key
                && c.participants@ == old(self).stack_keys().subrange(i, old(self).stack@.len() as int),
            r is Ok ==> final(self).stack@.len() == old(self).stack@.len() + 1
                && final(self).stack@.drop_last() == old(self).stack@
                && final(self).stack@.last().is_fresh(key)
                && final(self).stack@.last().provisional == provisional,
    {
        match self.find_frame(key) {
            Some(i) => {
                let participants = self.keys_from(i);
                Err(Cycle { participants })
            },
            None => {
                let mut frame = ActiveQuery::new(key);
                frame.provisional = provisional;
                self.stack.push(frame);
                Ok(())
            },
        }
    }

    /// Pops the top frame and hands back what it recorded.
    pub fn pop_query(&mut self) -> (r: ActiveQuery)
        requires
            old(self).wf(),
            old(self).stack@.len() > 0,
        ensures
            final(self).wf(),
            final(self).revision == old(self).revision,
            final(self).stack@ == old(self).stack@.drop_last(),
            r == old(self).stack@.last(),
    {
        self.stack.pop().unwrap()
    }

    /// Records that the top frame read `dep`, whose value last changed at
    /// `changed_at`. Outside any query nothing is recorded.
    pub fn report_read(&mut self, dep: DependencyIndex, changed_at: Revision)
        requires
            old(self).wf(),
            changed_at.number <= old(self).revision.number,
        ensures
            final(self).wf(),
            final(self).revision == old(self).revision,
            final(self).stack_keys() == old(self).stack_keys(),
            final(self).stack@.len() == old(self).stack@.len(),
            old(self).stack@.len() > 0 ==> old(self).stack@.last().then_read(final(self).stack@.last(), dep, changed_at),
            forall|i: int| 0 <= i < old(self).stack@.len() - 1 ==> final(self).stack@[i] == old(self).stack@[i],
    {
        let n = self.stack.len();
        if n > 0 {
            let mut top = self.stack.pop().unwrap();
            top.dependencies.push(dep);
            top.changed_at = top.changed_at.max(changed_at);
            self.stack.push(top);
            assert(self.stack_keys() =~= old(self).stack_keys());
        }
    }

    /// Marks the top frame as having read something untracked.
    pub fn report_untracked_read(&mut self)
        requires
            old(self).wf(),
        ensures
            final(self).wf(),
            final(self).revision == old(self).revision,
            final(self).stack_keys() == old(self).stack_keys(),
            final(self).stack@.len() == old(self).stack@.len(),
            old(self).stack@.len() > 0 ==> {
                let (a, b) = (old(self).stack@.last(), final(self).stack@.last());
                &&& b.key == a.key
                &&& b.dependencies@ == a.dependencies@
                &&& b.untracked
                &&& b.changed_at == old(self).revision
                &&& b.disambiguator == a.disambiguator
                &&& b.provisional == a.provisional
                &&& b.cycle == a.cycle
            },
            forall|i: int| 0 <= i < old(self).stack@.len() - 1 ==> final(self).stack@[i] == old(self).stack@[i],
    {
        let n = self.stack.len();
        if n > 0 {
            let mut top = self.stack.pop().unwrap();
            top.untracked = true;
            top.changed_at = self.revision;
            self.stack.push(top);
            assert(self.stack_keys() =~= old(self).stack_keys());
        }
    }

    /// Records on frame `i` that a recovered cycle with these participants
    /// closed on it, and hands back the frame's provisional value.
    pub fn record_cycle(&mut self, i: usize, participants: Vec<DatabaseKeyIndex>) -> (r: Option<u64>)
        requires
            old(self).wf(),
            i < old(self).stack@.len(),
        ensures
            final(self).wf(),
            final(self).revision == old(self).revision,
            final(self).stack_keys() == old(self).stack_keys(),
            final(self).stack@.len() == old(self).stack@.len(),
            r == old(self).stack@[i as int].provisional,
            final(self).stack@[i as int].cycle == participants,
            final(self).stack@[i as int].provisional == old(self).stack@[i as int].provisional,
            forall|j: int| 0 <= j < old(self).stack@.len() && j != i ==> final(self).stack@[j] == old(self).stack@[j],
    {
        let mut frame = ActiveQuery::new(DatabaseKeyIndex { ingredient_index: 0, key_index: 0 });
        self.stack.set_and_swap(i, &mut frame);
        assert(frame == old(self).stack@[i as int]);
        let r = frame.provisional;
        frame.cycle = participants;
        self.stack.set_and_swap(i, &mut frame);
        proof {
            assert(self.stack_keys() =~= old(self).stack_keys());
            assert forall|j: int| 0 <= j < self.stack@.len() implies #[trigger] self.stack@[j].changed_at.number
                <= self.revision.number by {
                assert(old(self).stack@[j].changed_at.number <= self.revision.number);
            }
        }
        r
    }

    /// Hands out the next disambiguator of the top frame: its key and how
    /// many structs it has created so far, which then grows by one.
    pub fn next_disambiguator(&mut self) -> (r: (DatabaseKeyIndex, u32))
        requires
            old(self).wf(),
            old(self).stack@.len() > 0,
            old(self).stack@.last().disambiguator < u32::MAX,
        ensures
            final(self).wf(),
            final(self).revision == old(self).revision,
            final(self).stack_keys() == old(self).stack_keys(),
            final(self).stack@.len() == old(self).stack@.len(),
            r.0 == old(self).stack@.last().key,
            r.1 == old(self).stack@.last().disambiguator,
            final(self).stack@.last().disambiguator == r.1 + 1,
    {
        let mut top = self.stack.pop().unwrap();
        let r = (top.key, top.disambiguator);
        top.disambiguator = top.disambiguator + 1;
        self.stack.push(top);
        assert(self.stack_keys() =~= old(self).stack_keys());
        r
    }

    /// Starts the next revision.
    pub fn advance_revision(&mut self)
        requires
            old(self).wf(),
            old(self).stack@.len() == 0,
            old(self).revision.number < u32::MAX,
        ensures
            final(self).wf(),
            final(self).current() == old(self).current() + 1,
            final(self).stack@.len() == 0,
    {
        self.revision = self.revision.next();
    }
}

impl ActiveQuery {
    /// A frame for `key` that has read nothing yet.
    pub open spec fn is_fresh(self, key: DatabaseKeyIndex) -> bool {
        &&& self.key == key
        &&& self.dependencies@.len() == 0
        &&& !self.untracked
        &&& self.changed_at.number == 0
        &&& self.disambiguator == 0
        &&& self.cycle@.len() == 0
    }

    /// `after` is this frame once it has read `dep`, whose value last changed
    /// at `changed_at`.
    pub open spec fn then_read(self, after: ActiveQuery, dep: DependencyIndex, changed_at: Revision) -> bool {
        &&& after.key == self.key
        &&& after.dependencies@ == self.dependencies@.push(dep)
        &&& after.untracked == self.untracked
        &&& after.changed_at.number == if self.changed_at.number >= changed_at.number {
            self.changed_at.number
        } else {
            changed_at.number
        }
        &&& after.disambiguator == self.disambiguator
        &&& after.provisional == self.provisional
        &&& after.cycle == self.cycle
    }

    pub fn new(key: DatabaseKeyIndex) -> (r: ActiveQuery)
        ensures
            r.key == key,
            r.dependencies@.len() == 0,
            !r.untracked,
            r.changed_at.number == 0,
            r.disambiguator == 0,
            r.provisional is None,
            r.cycle@.len() == 0,
    {
        ActiveQuery {
            key,
            dependencies: Vec::new(),
            untracked: false,
            changed_at: Revision::start(),
            disambiguator: 0,
            provisional: None,
            cycle: Vec::new(),
        }
    }
}

} // verus!
