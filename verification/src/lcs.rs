//! Basic-block vocabulary built from observed address traces: consecutive
//! runs of addresses are grouped into instruction sequences ("words"), split
//! whenever a later trace enters a sequence in its middle.

use vstd::prelude::*;

use std::collections::HashMap;

verus! {

broadcast use vstd::std_specs::hash::group_hash_axioms;

/// The ways a sequence operation can fail.
#[derive(Debug, Clone, Copy, PartialEq, Eq, Structural)]
pub enum SequenceError {
    /// The requested entry is not present in the sequence.
    EntryNotPresent,
}

/// A straight run of instruction addresses, with the addresses of the blocks
/// it has been observed to jump to.
#[derive(Debug)]
pub struct InstructionSequence {
    id: usize,
    addresses: Vec<usize>,
    exits: Vec<usize>,
}

impl InstructionSequence {
    /// The word id this sequence was assigned.
    pub closed spec fn spec_id(self) -> usize {
        self.id
    }

    /// The addresses of the run, in order.
    pub closed spec fn spec_addresses(self) -> Seq<usize> {
        self.addresses@
    }

    /// The observed exit addresses.
    pub closed spec fn spec_exits(self) -> Seq<usize> {
        self.exits@
    }

    /// A fresh one-address sequence starting at `base`, with no exits and no
    /// id assigned yet.
    pub fn new(base: usize) -> (r: Self)
        ensures
            r.spec_id() == 0,
            r.spec_addresses() =~= seq![base],
            r.spec_exits().len() == 0,
    {
        let mut addresses: Vec<usize> = Vec::new();
        addresses.push(base);
        Self { id: 0, addresses, exits: Vec::new() }
    }

    /// Append `entry` to the run.
    pub fn insert(&mut self, entry: usize)
        ensures
            final(self).spec_id() == old(self).spec_id(),
            final(self).spec_addresses() == old(self).spec_addresses().push(entry),
            final(self).spec_exits() == old(self).spec_exits(),
    {
        self.addresses.push(entry);
    }

    /// The first address of the run.
    pub fn base(&self) -> (r: usize)
        requires
            self.spec_addresses().len() > 0,
        ensures
            r == self.spec_addresses()[0],
    {
        self.addresses[0]
    }

    /// Record that the run has been observed to exit to `exit`.
    pub fn insert_exit(&mut self, exit: usize)
        ensures
            final(self).spec_id() == old(self).spec_id(),
            final(self).spec_addresses() == old(self).spec_addresses(),
            final(self).spec_exits() == old(self).spec_exits().push(exit),
    {
        self.exits.push(exit);
    }

    /// The addresses of the run.
    pub fn entries(&self) -> (r: &Vec<usize>)
        ensures
            r@ == self.spec_addresses(),
    {
        &self.addresses
    }

    /// The observed exit addresses.
    pub fn exits(&self) -> (r: &Vec<usize>)
        ensures
            r@ == self.spec_exits(),
    {
        &self.exits
    }

    /// The word id this sequence was assigned.
    pub fn id(&self) -> (r: usize)
        ensures
            r == self.spec_id(),
    {
        self.id
    }

    /// Split the run at the first occurrence of `split_entry`: the child
    /// takes the tail from there together with this run's exits, and this
    /// run keeps the head, now exiting to the child.
    pub fn split_at(&mut self, split_entry: usize) -> (r: Result<Self, SequenceError>)
        ensures
            match r {
                Ok(child) => {
                    let pos = old(self).spec_addresses().index_of_first(split_entry).unwrap();
                    &&& old(self).spec_addresses().contains(split_entry)
                    &&& child.spec_addresses() == old(self).spec_addresses().skip(pos)
                    &&& child.spec_addresses().len() > 0
                    &&& child.spec_addresses()[0] == split_entry
                    &&& child.spec_exits() == old(self).spec_exits()
                    &&& child.spec_id() == 0
                    &&& final(self).spec_addresses() == old(self).spec_addresses().take(pos)
                    &&& final(self).spec_exits() =~= seq![split_entry]
                    &&& final(self).spec_id() == old(self).spec_id()
                },
                Err(e) => {
                    &&& !old(self).spec_addresses().contains(split_entry)
                    &&& e == SequenceError::EntryNotPresent
                    &&& *final(self) == *old(self)
                },
            },
    {
        proof {
            self.addresses@.index_of_first_ensures(split_entry);
        }
        let n = self.addresses.len();
        let mut pos: usize = 0;
        let mut found = false;
        while pos < n && !found
            invariant
                n == self.spec_addresses().len(),
                pos <= n,
                !found ==> forall|j: int| 0 <= j < pos ==> self.spec_addresses()[j] != split_entry,
                found ==> pos < n && self.spec_addresses()[pos as int] == split_entry && forall|
                    j: int,
                |
                    0 <= j < pos ==> self.spec_addresses()[j] != split_entry,
            decreases n - pos + (if found {
                0int
            } else {
                1int
            }),
        {
            if self.addresses[pos] == split_entry {
                found = true;
            } else {
                pos = pos + 1;
            }
        }
        if !found {
            return Err(SequenceError::EntryNotPresent);
        }
        proof {
            assert(self.spec_addresses().index_of_first(split_entry) == Some(pos as int));
        }
        let mut child = Self::new(split_entry);
        // hand the child this run's exits, and point this run at the child
        core::mem::swap(&mut child.exits, &mut self.exits);
        self.exits.push(child.base());
        // hand the child the tail of the run
        child.addresses = self.addresses.split_off(pos);
        Ok(child)
    }
}

/// The vocabulary of observed instruction sequences, indexed by address.
///
/// Every address observed so far maps to the sequence it lies in; sequences
/// are held in one owned arena, so several addresses share one sequence by
/// index.
#[derive(Debug)]
pub struct BlockVocabulary {
    map: HashMap<usize, usize>,
    sequences: Vec<InstructionSequence>,
    /// How many distinct sequences ("words") exist.
    pub num_words: usize,
    next_word_id: usize,
}

impl BlockVocabulary {
    /// Which sequence index each observed address belongs to.
    pub closed spec fn spec_map(self) -> Map<usize, usize> {
        self.map@
    }

    /// The arena of sequences.
    pub closed spec fn spec_sequences(self) -> Seq<InstructionSequence> {
        self.sequences@
    }

    /// The id the next created word would get.
    pub closed spec fn spec_next_word_id(self) -> usize {
        self.next_word_id
    }

    /// The `num_words` field, for use in public contracts.
    pub closed spec fn spec_num_words(self) -> usize {
        self.num_words
    }

    /// Vocabulary sanity: every mapped address points at a real sequence
    /// that contains it, there is one word per sequence, and ids advance in
    /// steps of five, one step per sequence.
    pub open spec fn wf(self) -> bool {
        &&& (forall|a: usize|
            self.spec_map().contains_key(a) ==> (#[trigger] self.spec_map()[a])
                < self.spec_sequences().len()
                && self.spec_sequences()[self.spec_map()[a] as int].spec_addresses().contains(a))
        &&& self.spec_num_words() == self.spec_sequences().len()
        &&& self.spec_next_word_id() == 5 * self.spec_sequences().len()
    }

    fn get_next_word_id(&mut self) -> (r: usize)
        requires
            old(self).spec_next_word_id() + 5 <= usize::MAX,
        ensures
            r == old(self).spec_next_word_id() + 5,
            final(self).spec_next_word_id() == old(self).spec_next_word_id() + 5,
            final(self).spec_map() == old(self).spec_map(),
            final(self).spec_sequences() == old(self).spec_sequences(),
            final(self).spec_num_words() == old(self).spec_num_words(),
    {
        self.next_word_id = self.next_word_id + 5;
        self.next_word_id
    }

    /// Fold one observed run of addresses into the vocabulary.
    ///
    /// New addresses extend the block they follow or open a new one;
    /// re-entering a known block in its middle splits it. Afterwards every
    /// address of the run (and every address known before) belongs to a
    /// block of the vocabulary.
    pub fn add_experience_to_vocabulary(&mut self, input: &Vec<usize>)
        requires
            old(self).wf(),
            input@.len() > 0,
            5 * (old(self).spec_sequences().len() + input@.len() + 1) <= usize::MAX,
        ensures
            final(self).wf(),
            forall|k: int|
                0 <= k < input@.len() ==> final(self).spec_map().contains_key(
                    #[trigger] input@[k],
                ),
            forall|a: usize|
                old(self).spec_map().contains_key(a) ==> final(self).spec_map().contains_key(a),
    {
        let ghost base_len = self.spec_sequences().len();
        if !self.map.contains_key(&input[0]) {
            let ghost pre0 = *self;
            let mut first = InstructionSequence::new(input[0]);
            first.id = self.get_next_word_id();
            let idx = self.sequences.len();
            self.sequences.push(first);
            self.map.insert(input[0], idx);
            self.num_words = self.num_words + 1;
            proof {
                assert(self.spec_sequences()[idx as int].spec_addresses()[0] == input@[0]);
                assert forall|a: usize| self.spec_map().contains_key(a) implies (
                #[trigger] self.spec_map()[a]) < self.spec_sequences().len()
                    && self.spec_sequences()[self.spec_map()[a] as int].spec_addresses().contains(
                    a,
                ) by {
                    if a != input@[0] {
                        let m = self.spec_map()[a];
                        assert(pre0.spec_map().contains_key(a) && pre0.spec_map()[a] == m);
                        let wit = choose|j: int|
                            0 <= j < pre0.spec_sequences()[m as int].spec_addresses().len()
                                && pre0.spec_sequences()[m as int].spec_addresses()[j] == a;
                        assert(self.spec_sequences()[m as int].spec_addresses()[wit] == a);
                    }
                }
            }
        }
        let n = input.len();
        let mut w: usize = 1;
        while w < n
            invariant
                self.wf(),
                n == input@.len(),
                1 <= w <= n,
                self.spec_sequences().len() <= base_len + w,
                5 * (base_len + n + 1) <= usize::MAX,
                forall|k: int| 0 <= k < w ==> self.spec_map().contains_key(#[trigger] input@[k]),
                forall|a: usize|
                    old(self).spec_map().contains_key(a) ==> self.spec_map().contains_key(a),
            decreases n - w,
        {
            let ghost iter0 = *self;
            let last_addr = input[w - 1];
            let addr = input[w];
            if !self.map.contains_key(&addr) {
                let last_idx = match self.map.get(&last_addr) {
                    Some(i) => *i,
                    None => {
                        proof {
                            assert(false);
                        }
                        0
                    },
                };
                if self.sequences[last_idx].exits.len() == 0 {
                    // the block the trace came from has no exits yet:
                    // the new address simply extends it
                    let ghost pre1 = *self;
                    self.sequences[last_idx].addresses.push(addr);
                    self.map.insert(addr, last_idx);
                    proof {
                        assert forall|a: usize| self.spec_map().contains_key(a) implies (
                        #[trigger] self.spec_map()[a]) < self.spec_sequences().len()
                            && self.spec_sequences()[self.spec_map()[a] as int].spec_addresses().contains(a) by {
                            let m = self.spec_map()[a];
                            if a == addr {
                                let ln = self.spec_sequences()[
                                    last_idx as int
                                ].spec_addresses().len();
                                assert(self.spec_sequences()[last_idx as int].spec_addresses()[
                                    ln - 1
                                ] == addr);
                            } else {
                                assert(pre1.spec_map().contains_key(a) && pre1.spec_map()[a] == m);
                                let wit = choose|j: int|
                                    0 <= j < pre1.spec_sequences()[m as int].spec_addresses().len()
                                        && pre1.spec_sequences()[m as int].spec_addresses()[j] == a;
                                assert(self.spec_sequences()[m as int].spec_addresses()[wit] == a);
                            }
                        }
                        assert(self.spec_map().contains_key(input@[w as int]));
                        assert forall|a: usize| iter0.spec_map().contains_key(a) implies self
                            .spec_map().contains_key(a) by {}
                    }
                } else {
                    // the block already branches: open a fresh block for the
                    // new address and point the old block at it
                    let ghost pre2 = *self;
                    self.sequences[last_idx].exits.push(addr);
                    let mut new_child_block = InstructionSequence::new(addr);
                    new_child_block.id = self.get_next_word_id();
                    let idx = self.sequences.len();
                    self.sequences.push(new_child_block);
                    self.map.insert(addr, idx);
                    self.num_words = self.num_words + 1;
                    proof {
                        assert(self.spec_sequences()[idx as int].spec_addresses()[0] == addr);
                        assert forall|a: usize| self.spec_map().contains_key(a) implies (
                        #[trigger] self.spec_map()[a]) < self.spec_sequences().len()
                            && self.spec_sequences()[self.spec_map()[a] as int].spec_addresses().contains(a) by {
                            let m = self.spec_map()[a];
                            if a != addr {
                                assert(pre2.spec_map().contains_key(a) && pre2.spec_map()[a] == m);
                                let wit = choose|j: int|
                                    0 <= j < pre2.spec_sequences()[m as int].spec_addresses().len()
                                        && pre2.spec_sequences()[m as int].spec_addresses()[j] == a;
                                assert(self.spec_sequences()[m as int].spec_addresses()[wit] == a);
                            }
                        }
                        assert forall|a: usize| iter0.spec_map().contains_key(a) implies self
                            .spec_map().contains_key(a) by {}
                    }
                }
            } else {
                let last_idx = match self.map.get(&last_addr) {
                    Some(i) => *i,
                    None => {
                        proof {
                            assert(false);
                        }
                        0
                    },
                };
                if !contains_addr(&self.sequences[last_idx].exits, addr) {
                    let ghost pre3 = *self;
                    self.sequences[last_idx].exits.push(addr);
                    proof {
                        assert forall|a: usize| self.spec_map().contains_key(a) implies (
                        #[trigger] self.spec_map()[a]) < self.spec_sequences().len()
                            && self.spec_sequences()[self.spec_map()[a] as int].spec_addresses().contains(a) by {
                            let m = self.spec_map()[a];
                            let wit = choose|j: int|
                                0 <= j < pre3.spec_sequences()[m as int].spec_addresses().len()
                                    && pre3.spec_sequences()[m as int].spec_addresses()[j] == a;
                            assert(self.spec_sequences()[m as int].spec_addresses()[wit] == a);
                        }
                    }
                }
                let ref_idx = match self.map.get(&addr) {
                    Some(i) => *i,
                    None => {
                        proof {
                            assert(false);
                        }
                        0
                    },
                };
                proof {
                    assert(self.spec_sequences()[ref_idx as int].spec_addresses().contains(addr));
                }
                if self.sequences[ref_idx].addresses[0] != addr {
                    // the trace re-entered a known block in its middle:
                    // split it so block boundaries stay exact
                    let ghost pre = *self;
                    proof {
                        pre.spec_sequences()[ref_idx as int].spec_addresses().index_of_first_ensures(
                            addr,
                        );
                    }
                    let split_result = self.sequences[ref_idx].split_at(addr);
                    let mut child = match split_result {
                        Ok(c) => c,
                        Err(_) => {
                            proof {
                                assert(false);
                            }
                            InstructionSequence::new(addr)
                        },
                    };
                    let ghost pos = pre.spec_sequences()[
                        ref_idx as int
                    ].spec_addresses().index_of_first(addr).unwrap();
                    child.id = self.get_next_word_id();
                    self.num_words = self.num_words + 1;
                    let child_idx = self.sequences.len();
                    let ghost child_entries = child.spec_addresses();
                    self.sequences.push(child);
                    proof {
                        assert(pre.spec_sequences()[ref_idx as int].spec_addresses() =~= self
                            .spec_sequences()[ref_idx as int].spec_addresses() + child_entries);
                        assert forall|a: usize| self.spec_map().contains_key(a) implies {
                            ||| ((#[trigger] self.spec_map()[a]) < self.spec_sequences().len()
                                && self.spec_sequences()[self.spec_map()[a] as int].spec_addresses().contains(a))
                            ||| (self.spec_map()[a] == ref_idx && exists|j: int|
                                0 <= j < child_entries.len() && child_entries[j] == a)
                        } by {
                            let m = self.spec_map()[a];
                            assert(pre.spec_map().contains_key(a) && pre.spec_map()[a] == m);
                            let wit = choose|j: int|
                                0 <= j < pre.spec_sequences()[m as int].spec_addresses().len()
                                    && pre.spec_sequences()[m as int].spec_addresses()[j] == a;
                            if m == ref_idx {
                                if wit < pos {
                                    assert(self.spec_sequences()[m as int].spec_addresses()[wit]
                                        == a);
                                } else {
                                    assert(child_entries[wit - pos] == a);
                                }
                            } else {
                                assert(self.spec_sequences()[m as int].spec_addresses()[wit] == a);
                            }
                        }
                    }
                    // rewrite the mappings of every address the child took
                    let entries_len = self.sequences[child_idx].addresses.len();
                    let mut k: usize = 0;
                    while k < entries_len
                        invariant
                            0 <= ref_idx < child_idx,
                            child_idx + 1 == self.spec_sequences().len(),
                            entries_len == child_entries.len(),
                            k <= entries_len,
                            self.spec_num_words() == self.spec_sequences().len(),
                            self.spec_next_word_id() == 5 * self.spec_sequences().len(),
                            self.spec_sequences()[child_idx as int].spec_addresses()
                                == child_entries,
                            forall|a: usize|
                                pre.spec_map().contains_key(a) ==> self.spec_map().contains_key(
                                    a,
                                ),
                            forall|a: usize|
                                self.spec_map().contains_key(a) ==> {
                                    ||| ((#[trigger] self.spec_map()[a])
                                        < self.spec_sequences().len()
                                        && self.spec_sequences()[self.spec_map()[a] as int].spec_addresses().contains(a))
                                    ||| (self.spec_map()[a] == ref_idx && exists|j: int|
                                        k <= j < child_entries.len() && child_entries[j] == a)
                                },
                        decreases entries_len - k,
                    {
                        let e = self.sequences[child_idx].addresses[k];
                        let ghost prem = *self;
                        self.map.insert(e, child_idx);
                        k = k + 1;
                        proof {
                            assert forall|a: usize| self.spec_map().contains_key(a) implies {
                                ||| ((#[trigger] self.spec_map()[a]) < self.spec_sequences().len()
                                    && self.spec_sequences()[self.spec_map()[a] as int].spec_addresses().contains(a))
                                ||| (self.spec_map()[a] == ref_idx && exists|j: int|
                                    k <= j < child_entries.len() && child_entries[j] == a)
                            } by {
                                if a == e {
                                    assert(self.spec_sequences()[
                                        child_idx as int
                                    ].spec_addresses()[k - 1] == e);
                                } else {
                                    assert(prem.spec_map().contains_key(a) && prem.spec_map()[a]
                                        == self.spec_map()[a]);
                                    if !((prem.spec_map()[a] < prem.spec_sequences().len())
                                        && prem.spec_sequences()[prem.spec_map()[a] as int].spec_addresses().contains(a)) {
                                        let j = choose|j: int|
                                            k - 1 <= j < child_entries.len() && child_entries[j]
                                                == a;
                                        assert(j != k - 1 && k <= j < child_entries.len()
                                            && child_entries[j] == a);
                                    }
                                }
                            }
                        }
                    }
                    proof {
                        assert forall|a: usize| self.spec_map().contains_key(a) implies (
                        #[trigger] self.spec_map()[a]) < self.spec_sequences().len() && self
                            .spec_sequences()[self.spec_map()[a] as int].spec_addresses().contains(
                            a,
                        ) by {}
                        assert forall|a: usize| iter0.spec_map().contains_key(a) implies self
                            .spec_map().contains_key(a) by {
                            assert(pre.spec_map().contains_key(a));
                        }
                    }
                }
            }
            proof {
                assert(self.spec_map().contains_key(input@[w as int]));
                assert forall|a: usize| iter0.spec_map().contains_key(a) implies self
                    .spec_map().contains_key(a) by {}
            }
            w = w + 1;
        }
    }

    /// Rewrite a run of addresses as the word ids of the blocks it passes
    /// through, one word per block, in order.
    pub fn addrs_to_block_vocabulary(&self, addrs: &Vec<usize>) -> (words: Vec<usize>)
        requires
            self.wf(),
            forall|k: int| 0 <= k < addrs@.len() ==> self.spec_map().contains_key(#[trigger] addrs@[k]),
        ensures
            words@ == self.words_of(addrs@, 0),
    {
        let n = addrs.len();
        let mut words: Vec<usize> = Vec::new();
        let mut i: usize = 0;
        while i < n
            invariant
                self.wf(),
                n == addrs@.len(),
                i <= n,
                forall|k: int| 0 <= k < n ==> self.spec_map().contains_key(#[trigger] addrs@[k]),
                self.words_of(addrs@, 0) == words@ + self.words_of(addrs@, i as int),
            decreases n - i,
        {
            let seq_idx = match self.map.get(&addrs[i]) {
                Some(j) => *j,
                None => {
                    proof {
                        assert(false);
                    }
                    0
                },
            };
            let ghost pre_words = words@;
            let ghost pre_i = i as int;
            let block = &self.sequences[seq_idx];
            words.push(block.id());
            proof {
                assert(self.words_of(addrs@, pre_i) == seq![block.spec_id()].add(
                    self.words_of(addrs@, pre_i + block.spec_addresses().len()),
                ));
                assert(pre_words + self.words_of(addrs@, pre_i) =~= words@ + self.words_of(
                    addrs@,
                    pre_i + block.spec_addresses().len(),
                ));
            }
            let step = block.entries().len();
            if step >= n - i {
                proof {
                    assert(self.words_of(addrs@, pre_i + step) =~= self.words_of(
                        addrs@,
                        n as int,
                    ));
                }
                i = n;
            } else {
                i = i + step;
            }
        }
        words
    }

    /// The word ids of the blocks the run `addrs[i..]` passes through,
    /// assuming each visited address is in the vocabulary.
    pub open spec fn words_of(self, addrs: Seq<usize>, i: int) -> Seq<usize>
        decreases addrs.len() - i,
    {
        if i < 0 || i >= addrs.len() {
            Seq::empty()
        } else if !self.spec_map().contains_key(addrs[i]) {
            Seq::empty()
        } else {
            let idx = self.spec_map()[addrs[i]];
            if idx >= self.spec_sequences().len() {
                Seq::empty()
            } else {
                let blk = self.spec_sequences()[idx as int];
                if blk.spec_addresses().len() == 0 {
                    Seq::empty()
                } else if i + blk.spec_addresses().len() < addrs.len() {
                    seq![blk.spec_id()].add(
                        self.words_of(addrs, i + blk.spec_addresses().len()),
                    )
                } else {
                    seq![blk.spec_id()]
                }
            }
        }
    }
}

impl Default for BlockVocabulary {
    /// The empty vocabulary.
    fn default() -> (r: Self)
        ensures
            r.wf(),
            r.spec_map() == Map::<usize, usize>::empty(),
            r.spec_sequences().len() == 0,
            r.spec_num_words() == 0,
    {
        BlockVocabulary {
            map: HashMap::new(),
            sequences: Vec::new(),
            num_words: 0,
            next_word_id: 0,
        }
    }
}

/// Whether `x` occurs in `v`.
fn contains_addr(v: &Vec<usize>, x: usize) -> (r: bool)
    ensures
        r == v@.contains(x),
{
    let n = v.len();
    let mut i: usize = 0;
    while i < n
        invariant
            i <= n == v@.len(),
            forall|k: int| 0 <= k < i ==> v@[k] != x,
        decreases n - i,
    {
        if v[i] == x {
            return true;
        }
        i = i + 1;
    }
    false
}

} // verus!
