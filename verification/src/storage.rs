//! A dense, GPU-backed array of elements addressed by stable ids.
//!
//! Live elements always occupy the first `len` slots of the buffer. Removing
//! an element moves the last live element into the freed slot, and the id of
//! the removed element is kept just past the live range so that the next
//! insertion hands it out again. Every operation returns the buffer work it
//! needs (a write offset, a move, or a reallocation) for the caller to carry
//! out on the device.

use std::marker::PhantomData;
use vstd::prelude::*;

verus! {

/// A handle to an element of a [`Storage`]; it stays valid while the element is live.
pub struct Id<T>(usize, PhantomData<T>);

impl<T> Id<T> {
    /// The number behind the handle.
    pub closed spec fn raw(self) -> usize {
        self.0
    }

    /// The number behind the handle, as shown when the handle is printed.
    pub fn index(&self) -> (r: usize)
        ensures
            r == self.raw(),
    {
        self.0
    }
}

impl<T> Clone for Id<T> {
    fn clone(&self) -> (r: Self)
        ensures
            r == *self,
    {
        *self
    }
}

impl<T> Copy for Id<T> {
}

/// Grow the buffer: create one of `new_size` bytes and copy the first
/// `copy_size` bytes of the old one into it.
pub struct Reallocation {
    pub new_size: usize,
    pub copy_size: usize,
}

/// Copy `size` bytes of the buffer from `source_offset` to `destination_offset`.
pub struct BufferMove {
    pub source_offset: usize,
    pub destination_offset: usize,
    pub size: usize,
}

/// The mathematical state of a [`Storage`].
pub struct StorageView {
    /// `slots[s]` is the id stored in slot `s`; ids `slots[0..len]` are live.
    pub slots: Seq<usize>,
    /// `index_of[i]` is the slot of id `i`.
    pub index_of: Seq<usize>,
    /// The number of live elements.
    pub len: nat,
    /// The size in bytes of one element in the buffer.
    pub element_size: nat,
    /// The size in bytes of the buffer.
    pub buffer_size: nat,
}

impl StorageView {
    /// The number of ids handed out so far.
    pub open spec fn id_count(self) -> nat {
        self.slots.len()
    }

    pub open spec fn wf(self) -> bool {
        &&& self.index_of.len() == self.slots.len()
        &&& self.len <= self.slots.len()
        &&& forall|i: int|
            0 <= i < self.slots.len() ==> {
                &&& (#[trigger] self.index_of[i]) < self.slots.len()
                &&& self.slots[self.index_of[i] as int] == i
            }
        &&& forall|s: int|
            0 <= s < self.slots.len() ==> {
                &&& (#[trigger] self.slots[s]) < self.slots.len()
                &&& self.index_of[self.slots[s] as int] == s
            }
        &&& self.slots.len() * self.element_size <= self.buffer_size
        &&& self.buffer_size <= usize::MAX
        &&& self.slots.len() <= usize::MAX
    }

    /// Id `id` names a live element.
    pub open spec fn is_live(self, id: usize) -> bool {
        &&& id < self.index_of.len()
        &&& self.index_of[id as int] < self.len
    }

    /// The byte offset of id `id` in the buffer.
    pub open spec fn offset_of(self, id: usize) -> nat {
        (self.index_of[id as int] * self.element_size) as nat
    }

    /// The id that the next insertion hands out.
    pub open spec fn next_id(self) -> usize {
        if self.len < self.slots.len() {
            self.slots[self.len as int]
        } else {
            self.slots.len() as usize
        }
    }

    /// The size a buffer grows to when it must hold `count` elements.
    pub open spec fn grown_size(self, count: nat) -> nat {
        ((count + count / 2) * self.element_size) as nat
    }

    /// Whether the next insertion makes the buffer too small.
    pub open spec fn add_reallocates(self) -> bool {
        &&& self.len == self.slots.len()
        &&& (self.len + 1) * self.element_size > self.buffer_size
    }

    /// The state after an insertion.
    pub open spec fn added(self) -> StorageView {
        if self.len < self.slots.len() {
            StorageView { len: self.len + 1, ..self }
        } else {
            StorageView {
                slots: self.slots.push(self.slots.len() as usize),
                index_of: self.index_of.push(self.slots.len() as usize),
                len: self.len + 1,
                element_size: self.element_size,
                buffer_size: if self.add_reallocates() {
                    self.grown_size(self.len + 1)
                } else {
                    self.buffer_size
                },
            }
        }
    }

    /// Whether an insertion stays within the machine's `usize` arithmetic.
    pub open spec fn add_fits(self) -> bool {
        self.len < self.slots.len() || {
            &&& self.slots.len() + 1 + (self.slots.len() + 1) / 2 <= usize::MAX
            &&& ((self.slots.len() + 1 + (self.slots.len() + 1) / 2) * self.element_size)
                <= usize::MAX
        }
    }

    /// The state after removing live id `id`: the last live element takes its
    /// slot and `id` moves just past the live range.
    pub open spec fn removed(self, id: usize) -> StorageView {
        let s = self.index_of[id as int];
        let l = (self.len - 1) as int;
        let last = self.slots[l];
        StorageView {
            slots: self.slots.update(s as int, last).update(l, id),
            index_of: self.index_of.update(id as int, l as usize).update(last as int, s),
            len: (self.len - 1) as nat,
            ..self
        }
    }

    /// The buffer holds, for each live id, its value in `values`: `contents`
    /// gives the value stored in each slot.
    pub open spec fn holds<V>(self, contents: Seq<V>, values: Map<usize, V>) -> bool {
        &&& forall|id: usize| #[trigger] values.dom().contains(id) <==> self.is_live(id)
        &&& forall|id: usize|
            #[trigger] self.is_live(id) ==> {
                &&& self.index_of[id as int] < contents.len()
                &&& contents[self.index_of[id as int] as int] == values[id]
            }
    }
}

/// A dense array of elements addressed by [`Id`]s, of which only the bookkeeping
/// is kept here: the buffer itself lives on the device.
pub struct Storage<T> {
    indices: Vec<usize>,
    ids: Vec<Id<T>>,
    len: usize,
    element_size: usize,
    buffer_size: usize,
}

impl<T> View for Storage<T> {
    type V = StorageView;

    closed spec fn view(&self) -> StorageView {
        StorageView {
            slots: self.ids@.map_values(|id: Id<T>| id.0),
            index_of: self.indices@,
            len: self.len as nat,
            element_size: self.element_size as nat,
            buffer_size: self.buffer_size as nat,
        }
    }
}

impl<T> Storage<T> {
    pub open spec fn wf(&self) -> bool {
        self@.wf()
    }

    /// An empty storage whose buffer is created to hold a single element of
    /// `element_size` bytes.
    pub fn new(element_size: usize) -> (r: Self)
        ensures
            r.wf(),
            r@.slots == Seq::<usize>::empty(),
            r@.index_of == Seq::<usize>::empty(),
            r@.len == 0,
            r@.element_size == element_size,
            r@.buffer_size == element_size,
    {
        let r = Storage {
            indices: Vec::new(),
            ids: Vec::new(),
            len: 0,
            element_size,
            buffer_size: element_size,
        };
        assert(r@.slots =~= Seq::<usize>::empty());
        r
    }

    /// The number of live elements.
    pub fn len(&self) -> (r: usize)
        ensures
            r == self@.len,
    {
        self.len
    }

    /// The size in bytes of the buffer that holds the elements.
    pub fn buffer_size(&self) -> (r: usize)
        ensures
            r == self@.buffer_size,
    {
        self.buffer_size
    }

    /// Whether `id` names a live element of this storage.
    pub fn is_live(&self, id: Id<T>) -> (r: bool)
        requires
            self.wf(),
        ensures
            r == self@.is_live(id.raw()),
    {
        id.0 < self.indices.len() && self.indices[id.0] < self.len
    }

    /// Whether [`Storage::add`] can run without overflowing `usize`.
    pub fn can_add(&self) -> (r: bool)
        requires
            self.wf(),
        ensures
            r == self@.add_fits(),
    {
        if self.len < self.ids.len() {
            true
        } else {
            let n = self.ids.len();
            if n >= usize::MAX - 1 {
                false
            } else {
                let m = n + 1;
                let half = m / 2;
                if m > usize::MAX - half {
                    false
                } else {
                    let count = m + half;
                    count.checked_mul(self.element_size).is_some()
                }
            }
        }
    }

    /// Adds an element: hands out the most recently freed id if there is one,
    /// else a new id, and says whether the buffer must first grow. The value
    /// of the new element is then written at [`Storage::update`]'s offset.
    pub fn add(&mut self) -> (r: (Id<T>, Option<Reallocation>))
        requires
            old(self).wf(),
            old(self)@.add_fits(),
        ensures
            final(self).wf(),
            final(self)@ == old(self)@.added(),
            r.0.raw() == old(self)@.next_id(),
            match r.1 {
                Some(re) => {
                    &&& old(self)@.add_reallocates()
                    &&& re.new_size == final(self)@.buffer_size
                    &&& re.new_size == old(self)@.grown_size(old(self)@.len + 1)
                    &&& re.copy_size == old(self)@.buffer_size
                },
                None => !old(self)@.add_reallocates(),
            },
    {
        let ghost pre = self@;
        if self.len < self.ids.len() {
            let id = self.ids[self.len];
            self.len = self.len + 1;
            proof {
                assert(self@.slots =~= pre.slots);
            }
            (id, None)
        } else {
            let n = self.ids.len();
            self.indices.push(n);
            let id: Id<T> = Id(n, PhantomData);
            self.ids.push(id);
            self.len = self.len + 1;
            let m = self.len;
            assert(self@.slots =~= pre.slots.push(n));
            proof {
                lemma_mul_le(m as int, (m + m / 2) as int, self.element_size as int);
            }
            let needed = m * self.element_size;
            if needed > self.buffer_size {
                let half = m >> 1;
                assert(half == m / 2) by (bit_vector)
                    requires
                        half == m >> 1,
                ;
                let new_size = (m + half) * self.element_size;
                let copy_size = self.buffer_size;
                self.buffer_size = new_size;
                (id, Some(Reallocation { new_size, copy_size }))
            } else {
                (id, None)
            }
        }
    }

    /// The byte offset at which the value of live id `id` is written.
    pub fn update(&self, id: Id<T>) -> (r: usize)
        requires
            self.wf(),
            self@.is_live(id.raw()),
        ensures
            r == self@.offset_of(id.raw()),
            r + self@.element_size <= self@.buffer_size,
    {
        proof {
            lemma_live_write_in_bounds(self@, id.raw());
        }
        self.indices[id.0] * self.element_size
    }

    /// Removes live id `id`: the last live element moves into its slot, which
    /// the returned move copies on the device.
    pub fn remove(&mut self, id: Id<T>) -> (r: BufferMove)
        requires
            old(self).wf(),
            old(self)@.is_live(id.raw()),
        ensures
            final(self).wf(),
            final(self)@ == old(self)@.removed(id.raw()),
            r.source_offset == (old(self)@.len - 1) * old(self)@.element_size,
            r.destination_offset == old(self)@.offset_of(id.raw()),
            r.size == old(self)@.element_size,
    {
        let ghost pre = self@;
        let l = self.len - 1;
        let last_id = self.ids[l];
        let s = self.indices[id.0];
        proof {
            assert(pre.slots[l as int] == last_id.0);
            assert(pre.index_of[last_id.0 as int] == l);
            lemma_live_write_in_bounds(pre, id.raw());
            lemma_live_write_in_bounds(pre, last_id.0);
        }
        let source_offset = l * self.element_size;
        let destination_offset = s * self.element_size;
        self.ids[s] = last_id;
        self.ids[l] = id;
        self.indices[id.0] = l;
        self.indices[last_id.0] = s;
        self.len = l;
        proof {
            assert(self@.slots =~= pre.slots.update(s as int, last_id.0).update(l as int, id.0));
            assert(self@ == pre.removed(id.raw()));
            lemma_removed_wf(pre, id.raw());
        }
        BufferMove { source_offset, destination_offset, size: self.element_size }
    }
}

proof fn lemma_mul_le(a: int, b: int, c: int)
    requires
        0 <= a <= b,
        0 <= c,
    ensures
        a * c <= b * c,
{
    vstd::arithmetic::mul::lemma_mul_inequality(a, b, c);
}

/// The write for a live element lies entirely inside the buffer.
pub proof fn lemma_live_write_in_bounds(st: StorageView, id: usize)
    requires
        st.wf(),
        st.is_live(id),
    ensures
        st.index_of[id as int] < st.len,
        st.offset_of(id) + st.element_size <= st.buffer_size,
        st.offset_of(id) + st.element_size <= usize::MAX,
{
    let s = st.index_of[id as int];
    lemma_mul_le(s + 1, st.slots.len() as int, st.element_size as int);
    assert((s + 1) * st.element_size == s * st.element_size + st.element_size) by (nonlinear_arith);
}

/// Removing a live element keeps the storage well formed.
pub proof fn lemma_removed_wf(st: StorageView, id: usize)
    requires
        st.wf(),
        st.is_live(id),
    ensures
        st.removed(id).wf(),
{
    let s = st.index_of[id as int];
    let l = (st.len - 1) as int;
    let last = st.slots[l];
    let r = st.removed(id);
    assert forall|i: int| 0 <= i < r.slots.len() implies {
        &&& (#[trigger] r.index_of[i]) < r.slots.len()
        &&& r.slots[r.index_of[i] as int] == i
    } by {
        if i == last {
        } else if i == id {
        } else {
            assert(st.index_of[i] != s);
            assert(st.index_of[i] != l);
        }
    }
    assert forall|t: int| 0 <= t < r.slots.len() implies {
        &&& (#[trigger] r.slots[t]) < r.slots.len()
        &&& r.index_of[r.slots[t] as int] == t
    } by {
        if t == l {
        } else if t == s {
        } else {
            assert(st.slots[t] != id);
            assert(st.slots[t] != last);
        }
    }
}

/// An insertion hands out an id that was not live, makes it live, and leaves
/// the liveness and slot of every other id as it was.
pub proof fn lemma_add_liveness(st: StorageView)
    requires
        st.wf(),
        st.add_fits(),
    ensures
        st.added().wf(),
        !st.is_live(st.next_id()),
        st.added().is_live(st.next_id()),
        st.added().index_of[st.next_id() as int] == st.len,
        forall|x: usize| #[trigger]
            st.added().is_live(x) <==> (st.is_live(x) || x == st.next_id()),
        forall|x: usize| #[trigger]
            st.is_live(x) ==> st.added().index_of[x as int] == st.index_of[x as int],
{
    let a = st.added();
    if st.len < st.slots.len() {
        assert(st.index_of[st.slots[st.len as int] as int] == st.len);
    } else {
        let n = st.slots.len();
        assert forall|i: int| 0 <= i < a.slots.len() implies {
            &&& (#[trigger] a.index_of[i]) < a.slots.len()
            &&& a.slots[a.index_of[i] as int] == i
        } by {
            if i < n {
                assert(st.index_of[i] < n);
            }
        }
        assert forall|t: int| 0 <= t < a.slots.len() implies {
            &&& (#[trigger] a.slots[t]) < a.slots.len()
            &&& a.index_of[a.slots[t] as int] == t
        } by {
            if t < n {
                assert(st.slots[t] < n);
            }
        }
        if st.add_reallocates() {
            lemma_mul_le(
                (st.len + 1) as int,
                (st.len + 1 + (st.len + 1) / 2) as int,
                st.element_size as int,
            );
        }
    }
}

/// Removing a live id makes it, and only it, no longer live; every other live
/// id except the last one keeps its slot, and the last one takes the slot of
/// the removed id.
pub proof fn lemma_remove_liveness(st: StorageView, id: usize)
    requires
        st.wf(),
        st.is_live(id),
    ensures
        st.removed(id).wf(),
        forall|x: usize| #[trigger] st.removed(id).is_live(x) <==> (st.is_live(x) && x != id),
        forall|x: usize|
            #[trigger] st.is_live(x) && x != id && st.index_of[x as int] != st.len - 1
                ==> st.removed(id).index_of[x as int] == st.index_of[x as int],
        st.removed(id).index_of[st.slots[st.len - 1] as int] == st.index_of[id as int]
            || st.slots[st.len - 1] == id,
{
    lemma_removed_wf(st, id);
    let l = (st.len - 1) as int;
    let last = st.slots[l];
    assert(st.index_of[last as int] == l);
    assert forall|x: usize| #[trigger]
        st.removed(id).is_live(x) <==> (st.is_live(x) && x != id) by {
        if x < st.index_of.len() && x != id && x != last {
            assert(st.index_of[x as int] != l);
        }
    }
}

/// Removing an id and then inserting hands the same id back, without growing
/// the buffer.
pub proof fn lemma_remove_then_add_reuses(st: StorageView, id: usize)
    requires
        st.wf(),
        st.is_live(id),
    ensures
        st.removed(id).next_id() == id,
        !st.removed(id).add_reallocates(),
{
}

/// Writing a value at a live id's offset makes the buffer hold that value for
/// it, and leaves the values of all other ids as they were.
pub proof fn lemma_update_holds<V>(
    st: StorageView,
    contents: Seq<V>,
    values: Map<usize, V>,
    id: usize,
    v: V,
)
    requires
        st.wf(),
        st.is_live(id),
        st.holds(contents, values),
    ensures
        st.holds(contents.update(st.index_of[id as int] as int, v), values.insert(id, v)),
{
    let c = contents.update(st.index_of[id as int] as int, v);
    let m = values.insert(id, v);
    assert forall|x: usize| #[trigger] st.is_live(x) implies {
        &&& st.index_of[x as int] < c.len()
        &&& c[st.index_of[x as int] as int] == m[x]
    } by {
        if x != id {
            assert(st.index_of[x as int] != st.index_of[id as int]);
        }
    }
}

/// After an insertion, writing its value into the new slot makes the buffer
/// hold the old values together with the new one.
pub proof fn lemma_add_holds<V>(st: StorageView, contents: Seq<V>, values: Map<usize, V>, v: V)
    requires
        st.wf(),
        st.add_fits(),
        st.holds(contents, values),
        st.len < contents.len(),
    ensures
        st.added().holds(contents.update(st.len as int, v), values.insert(st.next_id(), v)),
{
    lemma_add_liveness(st);
    let a = st.added();
    let c = contents.update(st.len as int, v);
    let m = values.insert(st.next_id(), v);
    assert forall|x: usize| #[trigger] m.dom().contains(x) <==> a.is_live(x) by {}
    assert forall|x: usize| #[trigger] a.is_live(x) implies {
        &&& a.index_of[x as int] < c.len()
        &&& c[a.index_of[x as int] as int] == m[x]
    } by {
        if x != st.next_id() {
            assert(st.is_live(x));
        }
    }
}

/// Carrying out a removal's move (the last live slot copied into the removed
/// id's slot) makes the buffer hold the old values without the removed one.
pub proof fn lemma_remove_holds<V>(
    st: StorageView,
    contents: Seq<V>,
    values: Map<usize, V>,
    id: usize,
)
    requires
        st.wf(),
        st.is_live(id),
        st.holds(contents, values),
    ensures
        st.removed(id).holds(
            contents.update(
                st.index_of[id as int] as int,
                contents[st.len - 1],
            ),
            values.remove(id),
        ),
{
    lemma_remove_liveness(st, id);
    let r = st.removed(id);
    let l = (st.len - 1) as int;
    let last = st.slots[l];
    let s = st.index_of[id as int];
    assert(st.index_of[last as int] == l);
    assert(st.is_live(last));
    let c = contents.update(s as int, contents[l]);
    let m = values.remove(id);
    assert forall|x: usize| #[trigger] m.dom().contains(x) <==> r.is_live(x) by {}
    assert forall|x: usize| #[trigger] r.is_live(x) implies {
        &&& r.index_of[x as int] < c.len()
        &&& c[r.index_of[x as int] as int] == m[x]
    } by {
        assert(st.is_live(x));
        if x == last {
        } else {
            assert(st.index_of[x as int] != l);
            assert(st.index_of[x as int] != s);
        }
    }
}

} // verus!
