//! The rules of the game scene: which ground tiles can be selected, and the
//! hyperspheres placed on them, of which only the most recent few are kept.

use crate::ray_tracing::{Placement, RenderPlan, Renderer};
use crate::storage::{BufferMove, Id, StorageView};
use std::collections::VecDeque;
use vstd::math::abs;
use vstd::prelude::*;

verus! {

/// How far from the origin, along each axis, a tile may be selected.
pub const TILE_RANGE: i32 = 16;

/// How many hyperspheres the scene keeps; placing one more removes the oldest.
pub const MAX_SPAWNED: usize = 3;

/// A tile lies within the selectable range.
pub open spec fn tile_in_range(tile: (i32, i32, i32)) -> bool {
    &&& -TILE_RANGE <= tile.0 <= TILE_RANGE
    &&& -TILE_RANGE <= tile.1 <= TILE_RANGE
    &&& -TILE_RANGE <= tile.2 <= TILE_RANGE
}

/// A tile is in range exactly when none of its three coordinates is farther
/// than `TILE_RANGE` from zero.
pub proof fn lemma_tile_in_range(tile: (i32, i32, i32))
    ensures
        tile_in_range(tile) <==> (abs(tile.0 as int) <= TILE_RANGE && abs(tile.1 as int)
            <= TILE_RANGE && abs(tile.2 as int) <= TILE_RANGE),
{
}

/// The tile under the cursor, if it lies within the selectable range.
pub fn selectable_tile(tile: (i32, i32, i32)) -> (r: Option<(i32, i32, i32)>)
    ensures
        r == if tile_in_range(tile) {
            Some(tile)
        } else {
            None::<(i32, i32, i32)>
        },
        r is Some <==> (abs(tile.0 as int) <= TILE_RANGE && abs(tile.1 as int) <= TILE_RANGE
            && abs(tile.2 as int) <= TILE_RANGE),
        r is Some ==> r == Some(tile),
{
    proof {
        lemma_tile_in_range(tile);
    }
    let (x, y, z) = tile;
    if -TILE_RANGE <= x && x <= TILE_RANGE && -TILE_RANGE <= y && y <= TILE_RANGE && -TILE_RANGE
        <= z && z <= TILE_RANGE {
        Some(tile)
    } else {
        None
    }
}

/// Whether the image the ray tracer draws into must be created anew for a
/// frame of `width` by `height` pixels: when both of its sides differ from
/// the frame's.
pub fn main_texture_stale(current: (u32, u32), width: u32, height: u32) -> (r: bool)
    ensures
        r == (current.0 != width && current.1 != height),
{
    current.0 != width && current.1 != height
}

/// The buffer work of placing a new hypersphere: first the placement of the
/// new one, then, when the scene was full, the move that fills the slot of
/// the oldest one, which is removed.
pub struct SpawnWork<T> {
    pub placement: Placement<T>,
    pub removal: Option<BufferMove>,
}

/// What placing a hypersphere on a tile does.
pub enum Placed<T> {
    /// The tile already held hypersphere `id`: its value is overwritten at `offset`.
    Overwrite { id: Id<T>, offset: usize },
    /// A new hypersphere is placed.
    Spawn(SpawnWork<T>),
}

/// Three equal coordinates.
pub open spec fn same_tile(a: (i32, i32, i32), b: (i32, i32, i32)) -> bool {
    a.0 == b.0 && a.1 == b.1 && a.2 == b.2
}

/// The hyperspheres of the scene, each on its tile, in the order they were
/// placed.
pub struct Scene<T> {
    renderer: Renderer<T>,
    placed: VecDeque<((i32, i32, i32), Id<T>)>,
}

/// Carrying out the work of placing a new hypersphere of value `v` when the
/// scene is full (writing `v` into the new slot, then moving the last slot
/// into the slot of the oldest hypersphere, which is removed) leaves the
/// buffer holding the value of every hypersphere still placed, and `v` for
/// the new one.
pub proof fn lemma_spawn_evicting_holds<V>(
    st: StorageView,
    contents: Seq<V>,
    values: Map<usize, V>,
    v: V,
    oldest: usize,
)
    requires
        st.wf(),
        st.add_fits(),
        st.holds(contents, values),
        st.len < contents.len(),
        st.is_live(oldest),
    ensures
        ({
            let added = st.added();
            let written = contents.update(st.len as int, v);
            st.added().removed(oldest).holds(
                written.update(added.index_of[oldest as int] as int, written[st.len as int]),
                values.insert(st.next_id(), v).remove(oldest),
            )
        }),
{
    crate::storage::lemma_add_liveness(st);
    crate::storage::lemma_add_holds(st, contents, values, v);
    let added = st.added();
    assert(added.is_live(oldest));
    assert(added.len - 1 == st.len);
    crate::storage::lemma_remove_holds(
        added,
        contents.update(st.len as int, v),
        values.insert(st.next_id(), v),
        oldest,
    );
}

impl<T> Scene<T> {
    /// The ids of the hyperspheres, oldest first.
    pub closed spec fn spawned(&self) -> Seq<usize> {
        self.placed@.map_values(|e: ((i32, i32, i32), Id<T>)| e.1.raw())
    }

    /// The tiles of the hyperspheres, in the same order.
    pub closed spec fn tiles(&self) -> Seq<(i32, i32, i32)> {
        self.placed@.map_values(|e: ((i32, i32, i32), Id<T>)| e.0)
    }

    /// The state of the hypersphere storage.
    pub open spec fn hyperspheres(&self) -> StorageView {
        self.renderer().hyperspheres()
    }

    pub closed spec fn renderer(&self) -> &Renderer<T> {
        &self.renderer
    }

    /// The placed hyperspheres are exactly the live ones, each once and each
    /// on its own tile, at most [`MAX_SPAWNED`] of them.
    pub open spec fn wf(&self) -> bool {
        let st = self.hyperspheres();
        let s = self.spawned();
        let t = self.tiles();
        &&& self.renderer().wf()
        &&& s.len() <= MAX_SPAWNED
        &&& t.len() == s.len()
        &&& st.len == s.len()
        &&& st.slots.len() <= MAX_SPAWNED + 1
        &&& st.element_size * 6 <= usize::MAX
        &&& forall|i: int| 0 <= i < s.len() ==> st.is_live(#[trigger] s[i])
        &&& forall|i: int, j: int| 0 <= i < j < s.len() ==> s[i] != s[j]
        &&& forall|i: int, j: int| 0 <= i < j < t.len() ==> t[i] != t[j]
        &&& forall|id: usize| #[trigger] st.is_live(id) ==> s.contains(id)
    }

    /// An empty scene whose hyperspheres take `element_size` bytes each.
    pub fn new(element_size: usize) -> (r: Self)
        requires
            element_size * 6 <= usize::MAX,
        ensures
            r.wf(),
            r.spawned() == Seq::<usize>::empty(),
            r.tiles() == Seq::<(i32, i32, i32)>::empty(),
            r.hyperspheres().element_size == element_size,
            r.hyperspheres().buffer_size == element_size,
            !r.renderer().stale_bind_group(),
    {
        let r = Scene { renderer: Renderer::new(element_size), placed: VecDeque::new() };
        assert(r.spawned() =~= Seq::<usize>::empty());
        assert(r.tiles() =~= Seq::<(i32, i32, i32)>::empty());
        r
    }

    /// The renderer of the scene.
    pub fn renderer_ref(&self) -> (r: &Renderer<T>)
        ensures
            r == self.renderer(),
    {
        &self.renderer
    }

    /// The number of hyperspheres in the scene.
    pub fn len(&self) -> (r: usize)
        requires
            self.wf(),
        ensures
            r == self.spawned().len(),
    {
        self.renderer.len()
    }

    /// Where `tile` comes in the order of placement, if a hypersphere is on it.
    fn position(&self, tile: (i32, i32, i32)) -> (r: Option<usize>)
        requires
            self.wf(),
        ensures
            match r {
                Some(i) => i < self.tiles().len() && self.tiles()[i as int] == tile,
                None => !self.tiles().contains(tile),
            },
    {
        let n = self.placed.len();
        let mut i: usize = 0;
        while i < n
            invariant
                i <= n,
                n == self.tiles().len(),
                forall|k: int| 0 <= k < i ==> self.tiles()[k] != tile,
            decreases n - i,
        {
            let (t, _) = self.placed[i];
            assert(self.tiles()[i as int] == t);
            if t.0 == tile.0 && t.1 == tile.1 && t.2 == tile.2 {
                return Some(i);
            }
            i = i + 1;
        }
        None
    }

    /// The hypersphere on `tile`, if any.
    pub fn hypersphere_at(&self, tile: (i32, i32, i32)) -> (r: Option<Id<T>>)
        requires
            self.wf(),
        ensures
            match r {
                Some(id) => exists|i: int|
                    0 <= i < self.tiles().len() && self.tiles()[i] == tile
                        && #[trigger] self.spawned()[i] == id.raw(),
                None => !self.tiles().contains(tile),
            },
    {
        match self.position(tile) {
            Some(i) => {
                let (_, id) = self.placed[i];
                assert(self.spawned()[i as int] == id.raw());
                Some(id)
            },
            None => None,
        }
    }

    /// Places a hypersphere on `tile`: when one is already there its value
    /// is overwritten; otherwise a new one is added, and when the scene
    /// already holds [`MAX_SPAWNED`] the oldest one is removed.
    pub fn place(&mut self, tile: (i32, i32, i32)) -> (r: Placed<T>)
        requires
            old(self).wf(),
        ensures
            final(self).wf(),
            final(self).tiles().contains(tile),
            match r {
                Placed::Overwrite { id, offset } => {
                    &&& exists|i: int|
                        0 <= i < old(self).tiles().len() && old(self).tiles()[i] == tile
                            && #[trigger] old(self).spawned()[i] == id.raw()
                    &&& offset == old(self).hyperspheres().offset_of(id.raw())
                    &&& offset + old(self).hyperspheres().element_size <= old(
                        self,
                    ).hyperspheres().buffer_size
                    &&& final(self).spawned() == old(self).spawned()
                    &&& final(self).tiles() == old(self).tiles()
                    &&& final(self).hyperspheres() == old(self).hyperspheres()
                    &&& final(self).renderer().stale_bind_group() == old(
                        self,
                    ).renderer().stale_bind_group()
                },
                Placed::Spawn(w) => {
                    &&& !old(self).tiles().contains(tile)
                    &&& w.placement.id.raw() == old(self).hyperspheres().next_id()
                    &&& !old(self).hyperspheres().is_live(w.placement.id.raw())
                    &&& final(self).hyperspheres().is_live(w.placement.id.raw())
                    &&& w.placement.offset == old(self).hyperspheres().added().offset_of(
                        w.placement.id.raw(),
                    )
                    &&& w.placement.reallocation is Some == old(
                        self,
                    ).hyperspheres().add_reallocates()
                    &&& w.placement.reallocation matches Some(re) ==> re.new_size == old(
                        self,
                    ).hyperspheres().added().buffer_size && re.copy_size == old(
                        self,
                    ).hyperspheres().buffer_size
                    &&& w.removal matches Some(mv) ==> mv.source_offset == old(
                        self,
                    ).hyperspheres().len * old(self).hyperspheres().element_size
                        && mv.destination_offset == old(self).hyperspheres().added().offset_of(
                        old(self).spawned()[0],
                    ) && mv.size == old(self).hyperspheres().element_size
                    &&& old(self).spawned().len() < MAX_SPAWNED ==> {
                        &&& final(self).spawned() == old(self).spawned().push(
                            w.placement.id.raw(),
                        )
                        &&& final(self).tiles() == old(self).tiles().push(tile)
                        &&& w.removal is None
                        &&& final(self).hyperspheres() == old(self).hyperspheres().added()
                    }
                    &&& old(self).spawned().len() == MAX_SPAWNED ==> {
                        &&& final(self).spawned() == old(self).spawned().drop_first().push(
                            w.placement.id.raw(),
                        )
                        &&& final(self).tiles() == old(self).tiles().drop_first().push(tile)
                        &&& w.removal is Some
                        &&& final(self).hyperspheres() == old(
                            self,
                        ).hyperspheres().added().removed(old(self).spawned()[0])
                    }
                },
            },
    {
        match self.position(tile) {
            Some(i) => {
                let (_, id) = self.placed[i];
                assert(self.spawned()[i as int] == id.raw());
                let offset = self.renderer.update_hypersphere(id);
                Placed::Overwrite { id, offset }
            },
            None => {
                let w = self.spawn(tile);
                assert(self.tiles()[self.tiles().len() - 1] == tile);
                Placed::Spawn(w)
            },
        }
    }

    fn spawn(&mut self, tile: (i32, i32, i32)) -> (r: SpawnWork<T>)
        requires
            old(self).wf(),
            !old(self).tiles().contains(tile),
        ensures
            final(self).wf(),
            r.placement.id.raw() == old(self).hyperspheres().next_id(),
            !old(self).hyperspheres().is_live(r.placement.id.raw()),
            final(self).hyperspheres().is_live(r.placement.id.raw()),
            old(self).spawned().len() < MAX_SPAWNED ==> {
                &&& final(self).spawned() == old(self).spawned().push(r.placement.id.raw())
                &&& final(self).tiles() == old(self).tiles().push(tile)
                &&& r.removal is None
                &&& final(self).hyperspheres() == old(self).hyperspheres().added()
            },
            old(self).spawned().len() == MAX_SPAWNED ==> {
                &&& final(self).spawned() == old(self).spawned().drop_first().push(
                    r.placement.id.raw(),
                )
                &&& final(self).tiles() == old(self).tiles().drop_first().push(tile)
                &&& r.removal is Some
                &&& final(self).hyperspheres() == old(self).hyperspheres().added().removed(
                    old(self).spawned()[0],
                )
            },
            r.placement.offset == old(self).hyperspheres().added().offset_of(
                r.placement.id.raw(),
            ),
            r.placement.reallocation is Some == old(self).hyperspheres().add_reallocates(),
            r.placement.reallocation matches Some(re) ==> re.new_size == old(
                self,
            ).hyperspheres().added().buffer_size && re.copy_size == old(
                self,
            ).hyperspheres().buffer_size,
            r.removal matches Some(mv) ==> mv.source_offset == old(self).hyperspheres().len * old(
                self,
            ).hyperspheres().element_size && mv.destination_offset == old(
                self,
            ).hyperspheres().added().offset_of(old(self).spawned()[0]) && mv.size == old(
                self,
            ).hyperspheres().element_size,
    {
        let ghost st0 = self.hyperspheres();
        let ghost s0 = self.spawned();
        let ghost t0 = self.tiles();
        proof {
            let n = st0.slots.len();
            if st0.len == n {
                vstd::arithmetic::mul::lemma_mul_inequality(
                    (n + 1 + (n + 1) / 2) as int,
                    6,
                    st0.element_size as int,
                );
            }
            crate::storage::lemma_add_liveness(st0);
        }
        let placement = self.renderer.add_hypersphere();
        self.placed.push_back((tile, placement.id));
        let ghost st1 = self.hyperspheres();
        let ghost s1 = self.spawned();
        let ghost t1 = self.tiles();
        assert(s1 =~= s0.push(placement.id.raw()));
        assert(t1 =~= t0.push(tile));
        assert forall|i: int, j: int| 0 <= i < j < s1.len() implies s1[i] != s1[j] by {
            if j == s0.len() {
                assert(st0.is_live(s0[i]));
            }
        }
        assert forall|i: int, j: int| 0 <= i < j < t1.len() implies t1[i] != t1[j] by {
            if j == t0.len() {
                assert(t0.contains(t0[i]));
            }
        }
        assert forall|id: usize| #[trigger] st1.is_live(id) implies s1.contains(id) by {
            if id == placement.id.raw() {
                assert(s1[s0.len() as int] == id);
            } else {
                assert(st0.is_live(id));
                let k = choose|k: int| 0 <= k < s0.len() && s0[k] == id;
                assert(s1[k] == id);
            }
        }
        if self.placed.len() > MAX_SPAWNED {
            match self.placed.pop_front() {
                Some((_, oldest)) => {
                    assert(s1[0] == oldest.raw());
                    proof {
                        crate::storage::lemma_remove_liveness(st1, oldest.raw());
                    }
                    let mv = self.renderer.remove_hypersphere(oldest);
                    let ghost st2 = self.hyperspheres();
                    let ghost s2 = self.spawned();
                    let ghost t2 = self.tiles();
                    assert(s2 =~= s1.drop_first());
                    assert(t2 =~= t1.drop_first());
                    assert(s2 =~= s0.drop_first().push(placement.id.raw()));
                    assert(t2 =~= t0.drop_first().push(tile));
                    assert forall|i: int| 0 <= i < s2.len() implies st2.is_live(
                        #[trigger] s2[i],
                    ) by {
                        assert(s2[i] == s1[i + 1]);
                        assert(s1[i + 1] != s1[0]);
                    }
                    assert forall|i: int, j: int| 0 <= i < j < t2.len() implies t2[i] != t2[j] by {
                        assert(t2[i] == t1[i + 1]);
                        assert(t2[j] == t1[j + 1]);
                    }
                    assert forall|id: usize| #[trigger] st2.is_live(id) implies s2.contains(
                        id,
                    ) by {
                        assert(st1.is_live(id));
                        let k = choose|k: int| 0 <= k < s1.len() && s1[k] == id;
                        assert(k != 0);
                        assert(s2[k - 1] == id);
                    }
                    SpawnWork { placement, removal: Some(mv) }
                },
                None => SpawnWork { placement, removal: None },
            }
        } else {
            SpawnWork { placement, removal: None }
        }
    }

    /// Deletes the hypersphere on `tile`, if there is one; the returned move
    /// fills its slot.
    pub fn delete(&mut self, tile: (i32, i32, i32)) -> (r: Option<BufferMove>)
        requires
            old(self).wf(),
        ensures
            final(self).wf(),
            !final(self).tiles().contains(tile),
            r is Some == old(self).tiles().contains(tile),
            r is None ==> {
                &&& final(self).spawned() == old(self).spawned()
                &&& final(self).tiles() == old(self).tiles()
                &&& final(self).hyperspheres() == old(self).hyperspheres()
            },
            r matches Some(mv) ==> exists|i: int|
                0 <= i < old(self).tiles().len() && old(self).tiles()[i] == tile && {
                    &&& final(self).spawned() == old(self).spawned().remove(i)
                    &&& final(self).tiles() == old(self).tiles().remove(i)
                    &&& final(self).hyperspheres() == old(self).hyperspheres().removed(
                        #[trigger] old(self).spawned()[i],
                    )
                    &&& mv.source_offset == (old(self).hyperspheres().len - 1) * old(
                        self,
                    ).hyperspheres().element_size
                    &&& mv.destination_offset == old(self).hyperspheres().offset_of(
                        old(self).spawned()[i],
                    )
                    &&& mv.size == old(self).hyperspheres().element_size
                },
            final(self).renderer().stale_bind_group() == old(self).renderer().stale_bind_group(),
    {
        let ghost st0 = self.hyperspheres();
        let ghost s0 = self.spawned();
        let ghost t0 = self.tiles();
        match self.position(tile) {
            None => None,
            Some(i) => {
                match self.placed.remove(i) {
                    Some((_, id)) => {
                        assert(s0[i as int] == id.raw());
                        proof {
                            crate::storage::lemma_remove_liveness(st0, id.raw());
                        }
                        let mv = self.renderer.remove_hypersphere(id);
                        let ghost st1 = self.hyperspheres();
                        let ghost s1 = self.spawned();
                        let ghost t1 = self.tiles();
                        assert(s1 =~= s0.remove(i as int));
                        assert(t1 =~= t0.remove(i as int));
                        assert forall|k: int| 0 <= k < t1.len() implies t1[k] != tile by {
                            if k < i {
                                assert(t1[k] == t0[k]);
                            } else {
                                assert(t1[k] == t0[k + 1]);
                            }
                        }
                        assert forall|k: int| 0 <= k < s1.len() implies st1.is_live(
                            #[trigger] s1[k],
                        ) by {
                            if k < i {
                                assert(s1[k] == s0[k]);
                                assert(s0[k] != s0[i as int]);
                            } else {
                                assert(s1[k] == s0[k + 1]);
                                assert(s0[k + 1] != s0[i as int]);
                            }
                        }
                        assert forall|a: int, b: int| 0 <= a < b < s1.len() implies s1[a]
                            != s1[b] by {
                            let a0 = if a < i {
                                a
                            } else {
                                a + 1
                            };
                            let b0 = if b < i {
                                b
                            } else {
                                b + 1
                            };
                            assert(s1[a] == s0[a0]);
                            assert(s1[b] == s0[b0]);
                        }
                        assert forall|a: int, b: int| 0 <= a < b < t1.len() implies t1[a]
                            != t1[b] by {
                            let a0 = if a < i {
                                a
                            } else {
                                a + 1
                            };
                            let b0 = if b < i {
                                b
                            } else {
                                b + 1
                            };
                            assert(t1[a] == t0[a0]);
                            assert(t1[b] == t0[b0]);
                        }
                        assert forall|x: usize| #[trigger] st1.is_live(x) implies s1.contains(
                            x,
                        ) by {
                            assert(st0.is_live(x));
                            let k = choose|k: int| 0 <= k < s0.len() && s0[k] == x;
                            assert(k != i);
                            if k < i {
                                assert(s1[k] == x);
                            } else {
                                assert(s1[k - 1] == x);
                            }
                        }
                        Some(mv)
                    },
                    None => None,
                }
            },
        }
    }

    /// The byte offset a new value of hypersphere `id` is written at.
    pub fn update(&self, id: Id<T>) -> (r: usize)
        requires
            self.wf(),
            self.hyperspheres().is_live(id.raw()),
        ensures
            r == self.hyperspheres().offset_of(id.raw()),
            r + self.hyperspheres().element_size <= self.hyperspheres().buffer_size,
    {
        self.renderer.update_hypersphere(id)
    }

    /// Plans a ray-tracing pass over an image of `width` by `height` pixels.
    pub fn render(&mut self, width: u32, height: u32) -> (r: RenderPlan)
        requires
            old(self).wf(),
        ensures
            final(self).wf(),
            final(self).spawned() == old(self).spawned(),
            final(self).tiles() == old(self).tiles(),
            final(self).hyperspheres() == old(self).hyperspheres(),
            r.recreate_objects_bind_group == old(self).renderer().stale_bind_group(),
            !final(self).renderer().stale_bind_group(),
            r.hyperspheres_count == old(self).spawned().len(),
            r.workgroups_x == crate::ray_tracing::spec_workgroup_count(width as nat),
            r.workgroups_y == crate::ray_tracing::spec_workgroup_count(height as nat),
    {
        self.renderer.render(width, height)
    }
}

} // verus!
