use vstd::prelude::*;
use crate::cycle::CycleRecoveryStrategy;
use crate::key::{DependencyIndex, Id};
use crate::revision::Revision;

verus! {

/// The cached result of one function on one key.
pub struct Memo {
    pub key: Id,
    pub value: u64,
    /// What the computation read, in the order of the reads.
    pub dependencies: Vec<DependencyIndex>,
    /// Whether the computation read something untracked; such a memo is
    /// recomputed, never revalidated, in a later revision.
    pub untracked: bool,
    /// The revision in which `value` last changed.
    pub changed_at: Revision,
    /// The latest revision in which `value` was known to be up to date.
    pub verified_at: Revision,
}

impl Memo {
    /// The stamps of a memo: `changed_at <= verified_at <= current`.
    pub open spec fn stamps_ok(&self, current: nat) -> bool {
        self.changed_at.number <= self.verified_at.number && self.verified_at.number <= current
    }
}

/// How a function's results are kept.
#[derive(Clone, Copy, Debug, PartialEq, Eq, Structural)]
pub enum Storage {
    /// Cached, and revalidated or recomputed in later revisions.
    Memoized,
    /// Computed on every call and never cached; a caller that reads it is
    /// recomputed in every later revision.
    Volatile,
    /// Computed on every call and never cached, with no frame of its own:
    /// what it reads counts as read by its caller.
    Transparent,
}

/// A memoized function: how it is computed and the results cached so far,
/// at most one per key.
pub struct FunctionIngredient {
    /// This ingredient's place in the database.
    pub index: u32,
    pub storage: Storage,
    pub strategy: CycleRecoveryStrategy,
    /// The value that stands for this function's result where a cycle is
    /// broken.
    pub fallback: u64,
    pub memos: Vec<Memo>,
}

impl FunctionIngredient {
    pub open spec fn keys_unique(&self) -> bool {
        forall|i: int, j: int| 0 <= i < j < self.memos@.len() ==> self.memos@[i].key != self.memos@[j].key
    }

    /// Every memo has well-ordered stamps, and no key has two memos.
    pub open spec fn wf(&self, current: nat) -> bool {
        &&& self.keys_unique()
        &&& forall|i: int| 0 <= i < self.memos@.len() ==> #[trigger] self.memos@[i].stamps_ok(current)
    }

    pub open spec fn has_memo(&self, key: Id) -> bool {
        exists|i: int| 0 <= i < self.memos@.len() && self.memos@[i].key == key
    }

    /// The memo for `key`, where `has_memo(key)`.
    pub open spec fn memo(&self, key: Id) -> Memo {
        self.memos@[choose|i: int| 0 <= i < self.memos@.len() && self.memos@[i].key == key]
    }

    pub proof fn lemma_memo_at(&self, i: int)
        requires
            self.keys_unique(),
            0 <= i < self.memos@.len(),
        ensures
            self.has_memo(self.memos@[i].key),
            self.memo(self.memos@[i].key) == self.memos@[i],
    {
        let key = self.memos@[i].key;
        assert(self.memos@[i].key == key);
        let j = choose|j: int| 0 <= j < self.memos@.len() && self.memos@[j].key == key;
        if j < i {
            assert(self.memos@[j].key != self.memos@[i].key);
        } else if i < j {
            assert(self.memos@[i].key != self.memos@[j].key);
        }
    }

    pub proof fn lemma_memo_stamps(&self, key: Id, current: nat)
        requires
            self.wf(current),
            self.has_memo(key),
        ensures
            self.memo(key).stamps_ok(current),
    {
        let j = choose|j: int| 0 <= j < self.memos@.len() && self.memos@[j].key == key;
        assert(self.memos@[j].stamps_ok(current));
    }

    pub open spec fn memoizes(&self) -> bool {
        self.storage == Storage::Memoized
    }

    pub fn is_memoized(&self) -> (r: bool)
        ensures
            r == self.memoizes(),
    {
        match self.storage {
            Storage::Memoized => true,
            _ => false,
        }
    }

    pub fn new(index: u32, storage: Storage, strategy: CycleRecoveryStrategy, fallback: u64) -> (r: FunctionIngredient)
        ensures
            r.index == index,
            r.storage == storage,
            r.strategy == strategy,
            r.fallback == fallback,
            r.memos@.len() == 0,
            forall|c: nat| r.wf(c),
    {
        FunctionIngredient { index, storage, strategy, fallback, memos: Vec::new() }
    }

    /// The position of the memo for `key`, if there is one.
    pub fn find(&self, key: Id) -> (r: Option<usize>)
        requires
            self.keys_unique(),
        ensures
            r is None <==> !self.has_memo(key),
            r matches Some(i) ==> i < self.memos@.len() && self.memos@[i as int].key == key
                && self.memo(key) == self.memos@[i as int],
    {
        let mut i: usize = 0;
        while i < self.memos.len()
            invariant
                i <= self.memos@.len(),
                self.keys_unique(),
                forall|j: int| 0 <= j < i ==> self.memos@[j].key != key,
            decreases self.memos@.len() - i,
        {
            if self.memos[i].key == key {
                proof {
                    self.lemma_memo_at(i as int);
                }
                return Some(i);
            }
            i = i + 1;
        }
        None
    }

    /// Caches `memo`, replacing an earlier memo for the same key; the memos
    /// of the other keys stay as they were.
    pub fn store(&mut self, memo: Memo, Ghost(current): Ghost<nat>)
        requires
            old(self).wf(current),
            memo.stamps_ok(current),
        ensures
            final(self).wf(current),
            final(self).index == old(self).index,
            final(self).storage == old(self).storage,
            final(self).strategy == old(self).strategy,
            final(self).fallback == old(self).fallback,
            final(self).has_memo(memo.key),
            final(self).memo(memo.key) == memo,
            forall|k: Id| k != memo.key ==> final(self).has_memo(k) == old(self).has_memo(k),
            forall|k: Id| k != memo.key && old(self).has_memo(k) ==> final(self).memo(k) == old(self).memo(k),
    {
        let key = memo.key;
        match self.find(key) {
            Some(i) => {
                self.memos.set(i, memo);
                proof {
                    assert forall|a: int, b: int| 0 <= a < b < self.memos@.len() implies self.memos@[a].key
                        != self.memos@[b].key by {
                        assert(old(self).memos@[a].key != old(self).memos@[b].key);
                    }
                    self.lemma_memo_at(i as int);
                    assert forall|k: Id| k != key implies self.has_memo(k) == old(self).has_memo(k)
                        && (old(self).has_memo(k) ==> self.memo(k) == old(self).memo(k)) by {
                        if old(self).has_memo(k) {
                            let j = choose|j: int| 0 <= j < old(self).memos@.len() && old(self).memos@[j].key == k;
                            old(self).lemma_memo_at(j);
                            self.lemma_memo_at(j);
                        }
                        if self.has_memo(k) {
                            let j = choose|j: int| 0 <= j < self.memos@.len() && self.memos@[j].key == k;
                            assert(old(self).memos@[j].key == k);
                        }
                    }
                }
            },
            None => {
                self.memos.push(memo);
                proof {
                    let n = old(self).memos@.len() as int;
                    assert forall|a: int, b: int| 0 <= a < b < self.memos@.len() implies self.memos@[a].key
                        != self.memos@[b].key by {
                        if b < n {
                            assert(old(self).memos@[a].key != old(self).memos@[b].key);
                        } else {
                            assert(old(self).memos@[a].key != key);
                        }
                    }
                    self.lemma_memo_at(n);
                    assert forall|k: Id| k != key implies self.has_memo(k) == old(self).has_memo(k)
                        && (old(self).has_memo(k) ==> self.memo(k) == old(self).memo(k)) by {
                        if old(self).has_memo(k) {
                            let j = choose|j: int| 0 <= j < old(self).memos@.len() && old(self).memos@[j].key == k;
                            old(self).lemma_memo_at(j);
                            self.lemma_memo_at(j);
                        }
                        if self.has_memo(k) {
                            let j = choose|j: int| 0 <= j < self.memos@.len() && self.memos@[j].key == k;
                            assert(j < n);
                            assert(old(self).memos@[j].key == k);
                        }
                    }
                }
            },
        }
        proof {
            assert forall|i: int| 0 <= i < self.memos@.len() implies #[trigger] self.memos@[i].stamps_ok(current) by {
                if self.memos@[i] != memo {
                    assert(old(self).memos@[i].stamps_ok(current));
                }
            }
        }
    }

    /// Drops the memo for `key`, if any; the other memos stay as they were.
    pub fn forget(&mut self, key: Id, Ghost(current): Ghost<nat>)
        requires
            old(self).wf(current),
        ensures
            final(self).wf(current),
            final(self).index == old(self).index,
            final(self).storage == old(self).storage,
            final(self).strategy == old(self).strategy,
            final(self).fallback == old(self).fallback,
            !final(self).has_memo(key),
            forall|k: Id| k != key ==> final(self).has_memo(k) == old(self).has_memo(k),
            forall|k: Id| k != key && old(self).has_memo(k) ==> final(self).memo(k) == old(self).memo(k),
    {
        match self.find(key) {
            Some(i) => {
                self.memos.remove(i);
                proof {
                    let o = old(self).memos@;
                    assert(self.memos@ =~= o.subrange(0, i as int) + o.subrange(i as int + 1, o.len() as int));
                    assert forall|a: int| 0 <= a < self.memos@.len() implies self.memos@[a] == (if a < i {
                        o[a]
                    } else {
                        o[a + 1]
                    }) by {}
                    assert forall|a: int, b: int| 0 <= a < b < self.memos@.len() implies self.memos@[a].key
                        != self.memos@[b].key by {
                        let a2 = if a < i { a } else { a + 1 };
                        let b2 = if b < i { b } else { b + 1 };
                        assert(o[a2].key != o[b2].key);
                    }
                    assert forall|j: int| 0 <= j < self.memos@.len() implies #[trigger] self.memos@[j].stamps_ok(current) by {
                        let j2 = if j < i { j } else { j + 1 };
                        assert(o[j2].stamps_ok(current));
                    }
                    if self.has_memo(key) {
                        let j = choose|j: int| 0 <= j < self.memos@.len() && self.memos@[j].key == key;
                        let j2 = if j < i { j } else { j + 1 };
                        assert(o[j2].key == key);
                        assert(o[i as int].key == key);
                    }
                    assert forall|k: Id| k != key implies self.has_memo(k) == old(self).has_memo(k) && (old(self).has_memo(k)
                        ==> self.memo(k) == old(self).memo(k)) by {
                        if old(self).has_memo(k) {
                            let j = choose|j: int| 0 <= j < o.len() && o[j].key == k;
                            assert(j != i);
                            let j3 = if j < i { j } else { j - 1 };
                            assert(self.memos@[j3] == o[j]);
                            old(self).lemma_memo_at(j);
                            self.lemma_memo_at(j3);
                        }
                        if self.has_memo(k) {
                            let j = choose|j: int| 0 <= j < self.memos@.len() && self.memos@[j].key == k;
                            let j2 = if j < i { j } else { j + 1 };
                            assert(o[j2].key == k);
                        }
                    }
                }
            },
            None => {},
        }
    }

    /// Records that the memo at position `i` is up to date at `current`.
    pub fn mark_verified(&mut self, i: usize, current: Revision)
        requires
            old(self).wf(current.number as nat),
            i < old(self).memos@.len(),
        ensures
            final(self).wf(current.number as nat),
            final(self).index == old(self).index,
            final(self).storage == old(self).storage,
            final(self).strategy == old(self).strategy,
            final(self).fallback == old(self).fallback,
            final(self).memos@.len() == old(self).memos@.len(),
            forall|j: int| 0 <= j < old(self).memos@.len() && j != i ==> final(self).memos@[j] == old(self).memos@[j],
            final(self).memos@[i as int] == (Memo { verified_at: current, ..old(self).memos@[i as int] }),
    {
        let mut memo = Memo {
            key: 0,
            value: 0,
            dependencies: Vec::new(),
            untracked: false,
            changed_at: current,
            verified_at: current,
        };
        self.memos.set_and_swap(i, &mut memo);
        assert(old(self).memos@[i as int].stamps_ok(current.number as nat));
        memo.verified_at = current;
        self.memos.set_and_swap(i, &mut memo);
        proof {
            assert forall|a: int, b: int| 0 <= a < b < self.memos@.len() implies self.memos@[a].key
                != self.memos@[b].key by {
                assert(old(self).memos@[a].key != old(self).memos@[b].key);
            }
            assert forall|j: int| 0 <= j < self.memos@.len() implies #[trigger] self.memos@[j].stamps_ok(
                current.number as nat,
            ) by {
                assert(old(self).memos@[j].stamps_ok(current.number as nat));
            }
        }
    }
}

} // verus!
