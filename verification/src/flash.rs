//! Simulated flash devices and the device set handed to an invocation.
//!
//! A `SimFlash` is one byte-addressable device; erased bytes read back as
//! `ERASED_BYTE`.  A `SimMultiFlash` maps device identifiers to devices and is
//! owned by the test scenario for its whole life; a boot invocation only
//! borrows it.

use vstd::prelude::*;

verus! {

/// Value an erased flash byte reads back as.
pub const ERASED_BYTE: u8 = 0xFF;

/// The contents of `mem` after writing `src` at byte offset `off`.
pub open spec fn write_spec(mem: Seq<u8>, off: int, src: Seq<u8>) -> Seq<u8> {
    Seq::new(mem.len(), |i: int| if off <= i < off + src.len() { src[i - off] } else { mem[i] })
}

/// The contents of `mem` after erasing `len` bytes at byte offset `off`.
pub open spec fn erase_spec(mem: Seq<u8>, off: int, len: int) -> Seq<u8> {
    Seq::new(mem.len(), |i: int| if off <= i < off + len { ERASED_BYTE } else { mem[i] })
}

/// One simulated flash device: a flat byte array of fixed size.
pub struct SimFlash {
    data: Vec<u8>,
}

impl View for SimFlash {
    type V = Seq<u8>;

    closed spec fn view(&self) -> Seq<u8> {
        self.data@
    }
}

impl SimFlash {
    /// A fresh device of `size` bytes, fully erased.
    pub fn new(size: usize) -> (r: SimFlash)
        ensures
            r@.len() == size,
            forall|i: int| 0 <= i < size ==> r@[i] == ERASED_BYTE,
    {
        let mut data: Vec<u8> = Vec::new();
        while data.len() < size
            invariant
                data@.len() <= size,
                forall|i: int| 0 <= i < data@.len() ==> data@[i] == ERASED_BYTE,
            decreases size - data@.len(),
        {
            data.push(ERASED_BYTE);
        }
        SimFlash { data }
    }

    /// Size of the device in bytes.
    pub fn len(&self) -> (n: usize)
        ensures
            n == self@.len(),
    {
        self.data.len()
    }

    /// Read one byte.
    pub fn read_byte(&self, off: usize) -> (b: u8)
        requires
            off < self@.len(),
        ensures
            b == self@[off as int],
    {
        self.data[off]
    }

    /// Write `src` at byte offset `off`; the rest of the device is unchanged.
    pub fn write(&mut self, off: usize, src: &Vec<u8>)
        requires
            off + src@.len() <= old(self)@.len(),
        ensures
            final(self)@ == write_spec(old(self)@, off as int, src@),
    {
        let dev_len = self.data.len();
        let mut j: usize = 0;
        while j < src.len()
            invariant
                j <= src@.len(),
                off + src@.len() <= dev_len,
                dev_len == old(self)@.len(),
                self@.len() == old(self)@.len(),
                forall|i: int|
                    0 <= i < self@.len() ==> self@[i] == (if off <= i < off + j {
                        src@[i - off]
                    } else {
                        old(self)@[i]
                    }),
            decreases src@.len() - j,
        {
            self.data[off + j] = src[j];
            j += 1;
        }
        proof {
            assert(self@ =~= write_spec(old(self)@, off as int, src@));
        }
    }

    /// Erase `len` bytes at byte offset `off`; they read back as `ERASED_BYTE`.
    pub fn erase(&mut self, off: usize, len: usize)
        requires
            off + len <= old(self)@.len(),
        ensures
            final(self)@ == erase_spec(old(self)@, off as int, len as int),
    {
        let dev_len = self.data.len();
        let mut j: usize = 0;
        while j < len
            invariant
                j <= len,
                off + len <= dev_len,
                dev_len == old(self)@.len(),
                self@.len() == old(self)@.len(),
                forall|i: int|
                    0 <= i < self@.len() ==> self@[i] == (if off <= i < off + j {
                        ERASED_BYTE
                    } else {
                        old(self)@[i]
                    }),
            decreases len - j,
        {
            self.data[off + j] = ERASED_BYTE;
            j += 1;
        }
        proof {
            assert(self@ =~= erase_spec(old(self)@, off as int, len as int));
        }
    }
}

/// The devices a scenario owns, keyed by device identifier.
pub struct SimMultiFlash {
    devs: Vec<(u8, SimFlash)>,
}

/// The device-id-to-contents map described by a list of pairs; a later pair
/// with the same identifier would win, so `SimMultiFlash` keeps them unique.
spec fn pairs_map(s: Seq<(u8, SimFlash)>) -> Map<u8, Seq<u8>>
    decreases s.len(),
{
    if s.len() == 0 {
        Map::empty()
    } else {
        pairs_map(s.drop_last()).insert(s.last().0, s.last().1@)
    }
}

/// No two pairs carry the same device identifier.
spec fn distinct_ids(s: Seq<(u8, SimFlash)>) -> bool {
    forall|i: int, j: int| 0 <= i < j < s.len() ==> s[i].0 != s[j].0
}

/// Some pair of `s` carries the identifier `id`.
spec fn holds_id(s: Seq<(u8, SimFlash)>, id: u8) -> bool {
    exists|i: int| 0 <= i < s.len() && (#[trigger] s[i]).0 == id
}

proof fn lemma_pairs_map_dom(s: Seq<(u8, SimFlash)>)
    ensures
        forall|id: u8| #[trigger] pairs_map(s).dom().contains(id) <==> holds_id(s, id),
    decreases s.len(),
{
    if s.len() > 0 {
        let d = s.drop_last();
        lemma_pairs_map_dom(d);
        assert forall|id: u8| #[trigger] pairs_map(s).dom().contains(id) implies holds_id(
            s,
            id,
        ) by {
            if id == s.last().0 {
                assert((s[s.len() - 1]).0 == id);
            } else {
                assert(pairs_map(d).dom().contains(id));
                let i = choose|i: int| 0 <= i < d.len() && (#[trigger] d[i]).0 == id;
                assert((s[i]).0 == id);
            }
        }
        assert forall|id: u8| holds_id(s, id) implies #[trigger] pairs_map(s).dom().contains(
            id,
        ) by {
            let i = choose|i: int| 0 <= i < s.len() && (#[trigger] s[i]).0 == id;
            if i < s.len() - 1 {
                assert((d[i]).0 == id);
                assert(holds_id(d, id));
                assert(pairs_map(d).dom().contains(id));
            } else {
                assert(id == s.last().0);
            }
        }
    }
}

proof fn lemma_pairs_map_get(s: Seq<(u8, SimFlash)>, i: int)
    requires
        distinct_ids(s),
        0 <= i < s.len(),
    ensures
        pairs_map(s).dom().contains(s[i].0),
        pairs_map(s)[s[i].0] == s[i].1@,
    decreases s.len(),
{
    lemma_pairs_map_dom(s);
    if i < s.len() - 1 {
        assert(distinct_ids(s.drop_last()));
        assert(s.drop_last()[i] == s[i]);
        lemma_pairs_map_get(s.drop_last(), i);
        assert(s[i].0 != s.last().0);
    }
}

impl View for SimMultiFlash {
    type V = Map<u8, Seq<u8>>;

    closed spec fn view(&self) -> Map<u8, Seq<u8>> {
        pairs_map(self.devs@)
    }
}

impl SimMultiFlash {
    /// Identifiers are unique, so the list and the map agree.
    pub closed spec fn wf(&self) -> bool {
        distinct_ids(self.devs@)
    }

    /// An empty device set.
    pub fn new() -> (r: SimMultiFlash)
        ensures
            r.wf(),
            r@ == Map::<u8, Seq<u8>>::empty(),
    {
        SimMultiFlash { devs: Vec::new() }
    }

    /// Add a device under a fresh identifier.
    pub fn insert(&mut self, dev_id: u8, flash: SimFlash)
        requires
            old(self).wf(),
            !old(self)@.dom().contains(dev_id),
        ensures
            final(self).wf(),
            final(self)@ == old(self)@.insert(dev_id, flash@),
    {
        proof {
            lemma_pairs_map_dom(self.devs@);
        }
        self.devs.push((dev_id, flash));
        proof {
            assert(self.devs@.drop_last() =~= old(self).devs@);
            assert(self.devs@.last() == (dev_id, flash));
        }
    }

    /// Borrow the device bound to `dev_id`, if any.
    pub fn get(&self, dev_id: u8) -> (r: Option<&SimFlash>)
        requires
            self.wf(),
        ensures
            match r {
                Some(f) => self@.dom().contains(dev_id) && f@ == self@[dev_id],
                None => !self@.dom().contains(dev_id),
            },
    {
        let mut i: usize = 0;
        while i < self.devs.len()
            invariant
                self.wf(),
                i <= self.devs@.len(),
                forall|j: int| 0 <= j < i ==> (#[trigger] self.devs@[j]).0 != dev_id,
            decreases self.devs@.len() - i,
        {
            let p = &self.devs[i];
            if p.0 == dev_id {
                proof {
                    lemma_pairs_map_get(self.devs@, i as int);
                }
                return Some(&p.1);
            }
            i += 1;
        }
        proof {
            lemma_pairs_map_dom(self.devs@);
        }
        None
    }

    /// Move every device out, leaving the set empty.  The returned pairs carry
    /// each identifier exactly once, with the contents the set held for it.
    pub fn take_all(&mut self) -> (r: Vec<(u8, SimFlash)>)
        requires
            old(self).wf(),
        ensures
            final(self).wf(),
            final(self)@ == Map::<u8, Seq<u8>>::empty(),
            forall|i: int, j: int| 0 <= i < j < r@.len() ==> r@[i].0 != r@[j].0,
            forall|i: int| #![trigger r@[i]]
                0 <= i < r@.len() ==> old(self)@.dom().contains(r@[i].0) && r@[i].1@ == old(
                    self,
                )@[r@[i].0],
            forall|id: u8|
                old(self)@.dom().contains(id) ==> exists|i: int| 0 <= i < r@.len() && r@[i].0 == id,
    {
        let ghost devs0 = self.devs@;
        let mut r: Vec<(u8, SimFlash)> = Vec::new();
        while self.devs.len() > 0
            invariant
                self.devs@ == devs0.take(self.devs@.len() as int),
                r@.len() + self.devs@.len() == devs0.len(),
                forall|j: int| #![trigger r@[j]]
                    0 <= j < r@.len() ==> r@[j] == devs0[devs0.len() - 1 - j],
            decreases self.devs@.len(),
        {
            proof {
                assert(self.devs@.last() == devs0[self.devs@.len() - 1]);
            }
            let p = self.devs.pop().unwrap();
            r.push(p);
            proof {
                assert(self.devs@ =~= devs0.take(self.devs@.len() as int));
            }
        }
        proof {
            assert(self.devs@ =~= Seq::<(u8, SimFlash)>::empty());
            lemma_pairs_map_dom(devs0);
            assert forall|i: int| #![trigger r@[i]] 0 <= i < r@.len() implies pairs_map(
                devs0,
            ).dom().contains(r@[i].0) && r@[i].1@ == pairs_map(devs0)[r@[i].0] by {
                lemma_pairs_map_get(devs0, devs0.len() - 1 - i);
            }
            assert forall|id: u8| pairs_map(devs0).dom().contains(id) implies exists|i: int|
                0 <= i < r@.len() && r@[i].0 == id by {
                let k = choose|k: int| 0 <= k < devs0.len() && devs0[k].0 == id;
                assert(r@[devs0.len() - 1 - k].0 == id);
            }
        }
        r
    }
}

} // verus!
