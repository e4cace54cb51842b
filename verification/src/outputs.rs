use vstd::prelude::*;

use crate::tx::{OutV, TXOutput, TXOutputs};
use crate::util::str_eq;

verus! {

/// Model of one stored index entry: a transaction id and the outputs of that
/// transaction that are still unspent, in their stored order.
pub type EntryV = (Seq<char>, Seq<OutV>);

/// The position of the first entry with the given key, or -1 when absent.
pub open spec fn key_index(m: Seq<EntryV>, id: Seq<char>) -> int
    decreases m.len(),
{
    if m.len() == 0 {
        -1
    } else if m[0].0 == id {
        0
    } else if key_index(m.drop_first(), id) == -1 {
        -1
    } else {
        1 + key_index(m.drop_first(), id)
    }
}

pub proof fn lemma_key_index(m: Seq<EntryV>, id: Seq<char>)
    ensures
        -1 <= key_index(m, id) < m.len(),
        key_index(m, id) >= 0 ==> m[key_index(m, id)].0 == id,
        forall|j: int| 0 <= j < key_index(m, id) ==> (#[trigger] m[j]).0 != id,
        key_index(m, id) == -1 ==> forall|j: int| 0 <= j < m.len() ==> (#[trigger] m[j]).0 != id,
    decreases m.len(),
{
    if m.len() > 0 && m[0].0 != id {
        let dr = m.drop_first();
        lemma_key_index(dr, id);
        if key_index(dr, id) == -1 {
            assert forall|j: int| 0 <= j < m.len() implies (#[trigger] m[j]).0 != id by {
                if j > 0 {
                    assert(dr[j - 1] == m[j]);
                }
            }
        } else {
            let ki = key_index(m, id);
            assert(m[ki] == dr[ki - 1]);
            assert forall|j: int| 0 <= j < ki implies (#[trigger] m[j]).0 != id by {
                if j > 0 {
                    assert(dr[j - 1] == m[j]);
                }
            }
        }
    }
}

/// The outputs stored under an id, if the id owns an entry.
pub open spec fn lookup(m: Seq<EntryV>, id: Seq<char>) -> Option<Seq<OutV>> {
    let ki = key_index(m, id);
    if ki == -1 {
        None
    } else {
        Some(m[ki].1)
    }
}

/// Pins the key index: a position holding the id with no earlier match is
/// the key index.
pub proof fn lemma_key_index_is(m: Seq<EntryV>, id: Seq<char>, i: int)
    requires
        0 <= i < m.len(),
        m[i].0 == id,
        forall|j: int| 0 <= j < i ==> (#[trigger] m[j]).0 != id,
    ensures
        key_index(m, id) == i,
{
    lemma_key_index(m, id);
}

/// Distinct keys: no transaction id owns two entries.
pub open spec fn map_wf(m: Seq<EntryV>) -> bool {
    forall|i: int, j: int| 0 <= i < j < m.len() ==> (#[trigger] m[i]).0 != (#[trigger] m[j]).0
}

/// Appends one output to the entry of the given id, creating the entry at the
/// end when the id is new.
pub open spec fn upsert(m: Seq<EntryV>, id: Seq<char>, out: OutV) -> Seq<EntryV> {
    let ki = key_index(m, id);
    if ki == -1 {
        m.push((id, seq![out]))
    } else {
        m.update(ki, (id, m[ki].1.push(out)))
    }
}

pub proof fn lemma_upsert_wf(m: Seq<EntryV>, id: Seq<char>, out: OutV)
    requires
        map_wf(m),
    ensures
        map_wf(upsert(m, id, out)),
{
    lemma_key_index(m, id);
}

/// Stores the given outputs under the id, overwriting an existing entry or
/// appending a new one.
pub open spec fn put(m: Seq<EntryV>, id: Seq<char>, outs: Seq<OutV>) -> Seq<EntryV> {
    let ki = key_index(m, id);
    if ki == -1 {
        m.push((id, outs))
    } else {
        m.update(ki, (id, outs))
    }
}

pub proof fn lemma_put_wf(m: Seq<EntryV>, id: Seq<char>, outs: Seq<OutV>)
    requires
        map_wf(m),
    ensures
        map_wf(put(m, id, outs)),
{
    lemma_key_index(m, id);
}

/// After a put, the id owns exactly the stored outputs.
pub proof fn lemma_put_found(m: Seq<EntryV>, id: Seq<char>, outs: Seq<OutV>)
    ensures
        lookup(put(m, id, outs), id) == Some(outs),
{
    lemma_key_index(m, id);
    let ki = key_index(m, id);
    let r = put(m, id, outs);
    if ki == -1 {
        lemma_key_index_is(r, id, m.len() as int);
    } else {
        lemma_key_index_is(r, id, ki);
    }
}

/// A put under one id leaves every other id's entry as it was.
pub proof fn lemma_put_frame(m: Seq<EntryV>, id: Seq<char>, outs: Seq<OutV>, x: Seq<char>)
    requires
        x != id,
    ensures
        lookup(put(m, id, outs), x) == lookup(m, x),
{
    lemma_key_index(m, id);
    lemma_key_index(m, x);
    let ki = key_index(m, id);
    let kx = key_index(m, x);
    let r = put(m, id, outs);
    if kx == -1 {
        if ki == -1 {
            lemma_key_index(r, x);
            if key_index(r, x) >= 0 {
                assert(r[key_index(r, x)].0 == x);
                assert(false);
            }
        } else {
            lemma_key_index(r, x);
            if key_index(r, x) >= 0 {
                assert(r[key_index(r, x)].0 == x);
                assert(false);
            }
        }
    } else {
        assert(m[kx].0 == x);
        assert(r[kx].0 == x && r[kx].1 == m[kx].1);
        lemma_key_index_is(r, x, kx);
    }
}

/// Removing one entry leaves every other id's entry as it was.
pub proof fn lemma_remove_frame(m: Seq<EntryV>, ki: int, x: Seq<char>)
    requires
        0 <= ki < m.len(),
        m[ki].0 != x,
    ensures
        lookup(m.remove(ki), x) == lookup(m, x),
{
    lemma_key_index(m, x);
    let kx = key_index(m, x);
    let r = m.remove(ki);
    if kx == -1 {
        lemma_key_index(r, x);
        if key_index(r, x) >= 0 {
            let j = key_index(r, x);
            assert(r[j].0 == x);
            if j < ki {
                assert(m[j].0 == x);
            } else {
                assert(m[j + 1].0 == x);
            }
            assert(false);
        }
    } else if kx < ki {
        lemma_key_index_is(r, x, kx);
    } else {
        assert(r[kx - 1] == m[kx]);
        assert forall|j: int| 0 <= j < kx - 1 implies (#[trigger] r[j]).0 != x by {
            if j < ki {
                assert(r[j] == m[j]);
            } else {
                assert(r[j] == m[j + 1]);
            }
        }
        lemma_key_index_is(r, x, kx - 1);
    }
}

/// Updating one entry in place leaves every other id's entry as it was.
pub proof fn lemma_update_frame(m: Seq<EntryV>, ki: int, e: EntryV, x: Seq<char>)
    requires
        0 <= ki < m.len(),
        m[ki].0 != x,
        e.0 != x,
    ensures
        lookup(m.update(ki, e), x) == lookup(m, x),
{
    lemma_key_index(m, x);
    let kx = key_index(m, x);
    let r = m.update(ki, e);
    if kx == -1 {
        lemma_key_index(r, x);
        if key_index(r, x) >= 0 {
            let j = key_index(r, x);
            assert(r[j].0 == x);
            if j != ki {
                assert(m[j].0 == x);
            }
            assert(false);
        }
    } else {
        assert(kx != ki);
        assert(r[kx] == m[kx]);
        assert forall|j: int| 0 <= j < kx implies (#[trigger] r[j]).0 != x by {
            if j != ki {
                assert(r[j] == m[j]);
            }
        }
        lemma_key_index_is(r, x, kx);
    }
}

/// The in-memory unspent-output index: insertion-ordered entries from
/// transaction id to its stored unspent outputs.
#[derive(Debug, Clone, PartialEq)]
pub struct OutputsMap {
    pub entries: Vec<(String, TXOutputs)>,
}

impl View for OutputsMap {
    type V = Seq<EntryV>;

    open spec fn view(&self) -> Seq<EntryV> {
        self.entries@.map_values(|e: (String, TXOutputs)| (e.0@, e.1@))
    }
}

impl OutputsMap {
    /// An empty index.
    pub fn new() -> (r: OutputsMap)
        ensures
            r@ == Seq::<EntryV>::empty(),
            map_wf(r@),
    {
        let r = OutputsMap { entries: Vec::new() };
        proof {
            assert(r@ =~= Seq::<EntryV>::empty());
        }
        r
    }

    /// The position of the first entry carrying the given id.
    pub fn key_position(&self, id: &str) -> (r: Option<usize>)
        ensures
            match r {
                Some(i) => i < self@.len() && key_index(self@, id@) == i as int,
                None => key_index(self@, id@) == -1,
            },
    {
        proof {
            lemma_key_index(self@, id@);
        }
        let mut i: usize = 0;
        while i < self.entries.len()
            invariant
                i <= self.entries@.len(),
                forall|j: int| 0 <= j < i ==> (#[trigger] self@[j]).0 != id@,
            decreases self.entries@.len() - i,
        {
            if str_eq(self.entries[i].0.as_str(), id) {
                proof {
                    lemma_key_index(self@, id@);
                    assert(self@[i as int].0 == id@);
                }
                return Some(i);
            }
            i = i + 1;
        }
        proof {
            lemma_key_index(self@, id@);
        }
        None
    }

    /// Appends one output to the entry of the id, creating the entry when new.
    pub fn upsert_output(&mut self, id: &str, out: TXOutput)
        ensures
            final(self)@ == upsert(old(self)@, id@, out@),
    {
        proof {
            lemma_key_index(old(self)@, id@);
        }
        match self.key_position(id) {
            Some(i) => {
                let (key, mut outs) = self.entries.remove(i);
                outs.outputs.push(out);
                self.entries.insert(i, (key, outs));
                proof {
                    assert(self@ =~~= upsert(old(self)@, id@, out@));
                }
            },
            None => {
                let mut outs: Vec<TXOutput> = Vec::new();
                outs.push(out);
                self.entries.push((id.to_owned(), TXOutputs { outputs: outs }));
                proof {
                    assert(self@ =~~= upsert(old(self)@, id@, out@));
                }
            },
        }
    }

    /// Stores the given outputs under the id, overwriting any existing entry.
    pub fn put_outputs(&mut self, id: &str, outs: TXOutputs)
        ensures
            final(self)@ == put(old(self)@, id@, outs@),
    {
        proof {
            lemma_key_index(old(self)@, id@);
        }
        match self.key_position(id) {
            Some(i) => {
                let (key, _) = self.entries.remove(i);
                self.entries.insert(i, (key, outs));
                proof {
                    assert(self@ =~~= put(old(self)@, id@, outs@));
                }
            },
            None => {
                self.entries.push((id.to_owned(), outs));
                proof {
                    assert(self@ =~~= put(old(self)@, id@, outs@));
                }
            },
        }
    }

    /// A deep copy of the index.
    pub fn clone_map(&self) -> (r: OutputsMap)
        ensures
            r@ == self@,
    {
        let mut entries: Vec<(String, TXOutputs)> = Vec::new();
        let mut i: usize = 0;
        while i < self.entries.len()
            invariant
                i <= self.entries@.len(),
                entries@.len() == i,
                forall|k: int|
                    0 <= k < i ==> (#[trigger] entries@[k]).0@ == self@[k].0 && entries@[k].1@
                        == self@[k].1,
            decreases self.entries@.len() - i,
        {
            let mut outs: Vec<TXOutput> = Vec::new();
            let mut j: usize = 0;
            while j < self.entries[i].1.outputs.len()
                invariant
                    i < self.entries@.len(),
                    j <= self.entries@[i as int].1.outputs@.len(),
                    outs@.len() == j,
                    forall|k: int|
                        0 <= k < j ==> (#[trigger] outs@[k])@ == self.entries@[i as int].1@[k],
                decreases self.entries@[i as int].1.outputs@.len() - j,
            {
                outs.push(
                    TXOutput {
                        value: self.entries[i].1.outputs[j].value,
                        pub_key_hash: crate::util::clone_bytes(
                            &self.entries[i].1.outputs[j].pub_key_hash,
                        ),
                    },
                );
                j = j + 1;
            }
            let key = crate::util::clone_string(&self.entries[i].0);
            entries.push((key, TXOutputs { outputs: outs }));
            proof {
                assert(entries@[i as int].1@ =~= self@[i as int].1);
            }
            i = i + 1;
        }
        let r = OutputsMap { entries };
        proof {
            assert(r@ =~~= self@);
        }
        r
    }

    /// The number of entries currently held.
    pub fn len(&self) -> (r: usize)
        ensures
            r == self@.len(),
    {
        self.entries.len()
    }
}

} // verus!
