//! The bookkeeping of the ray-tracing pass: which hyperspheres exist, where
//! they sit in the object buffer, when the bind group over that buffer must
//! be rebuilt, and how many workgroups trace the image.

use crate::storage::{lemma_live_write_in_bounds, BufferMove, Id, Reallocation, Storage, StorageView};
use vstd::prelude::*;

verus! {

/// The side of the square tile of pixels that one workgroup traces.
pub const WORKGROUP_SIZE: u32 = 16;

/// The number of workgroups that cover `size` pixels.
pub open spec fn spec_workgroup_count(size: nat) -> nat {
    (size + WORKGROUP_SIZE - 1) as nat / WORKGROUP_SIZE as nat
}

/// The number of workgroups that cover `size` pixels: `size` divided by the
/// workgroup size, rounded up.
pub fn workgroup_count(size: u32) -> (r: u32)
    ensures
        r == spec_workgroup_count(size as nat),
        r * WORKGROUP_SIZE >= size,
        r * WORKGROUP_SIZE < size + WORKGROUP_SIZE,
{
    let whole = size / WORKGROUP_SIZE;
    if size % WORKGROUP_SIZE == 0 {
        whole
    } else {
        whole + 1
    }
}

/// The hovered tile as the shader reads it: the tile (zero when there is
/// none) and a flag that is 1 exactly when there is one.
pub fn hovered_tile_uniform(hovered_tile: Option<(i32, i32, i32)>) -> (r: ((i32, i32, i32), u32))
    ensures
        r == match hovered_tile {
            Some(t) => (t, 1u32),
            None => ((0i32, 0i32, 0i32), 0u32),
        },
{
    match hovered_tile {
        Some(t) => (t, 1),
        None => ((0, 0, 0), 0),
    }
}

/// The work of one ray-tracing pass.
pub struct RenderPlan {
    /// Rebuild the bind group over the object buffer, which was created anew.
    pub recreate_objects_bind_group: bool,
    /// The number of hyperspheres the shader reads.
    pub hyperspheres_count: u32,
    /// Workgroups across the image.
    pub workgroups_x: u32,
    /// Workgroups down the image.
    pub workgroups_y: u32,
}

/// Where a new hypersphere goes: its id, the growth of the buffer that must
/// come first, and the byte offset its value is written at.
pub struct Placement<T> {
    pub id: Id<T>,
    pub reallocation: Option<Reallocation>,
    pub offset: usize,
}

/// The hyperspheres of the scene, by id, and whether the object buffer was
/// created anew since the bind group over it was last built.
pub struct Renderer<T> {
    hyperspheres: Storage<T>,
    should_recreate_objects_bind_group: bool,
}

impl<T> Renderer<T> {
    /// The state of the hypersphere storage.
    pub closed spec fn hyperspheres(&self) -> StorageView {
        self.hyperspheres@
    }

    /// Whether the bind group must be rebuilt before the next pass.
    pub closed spec fn stale_bind_group(&self) -> bool {
        self.should_recreate_objects_bind_group
    }

    pub open spec fn wf(&self) -> bool {
        self.hyperspheres().wf()
    }

    /// A renderer without hyperspheres; a hypersphere takes `element_size`
    /// bytes in the object buffer.
    pub fn new(element_size: usize) -> (r: Self)
        ensures
            r.wf(),
            r.hyperspheres().slots.len() == 0,
            r.hyperspheres().len == 0,
            r.hyperspheres().element_size == element_size,
            r.hyperspheres().buffer_size == element_size,
            !r.stale_bind_group(),
    {
        Renderer { hyperspheres: Storage::new(element_size), should_recreate_objects_bind_group: false }
    }

    /// The number of hyperspheres.
    pub fn len(&self) -> (r: usize)
        ensures
            r == self.hyperspheres().len,
    {
        self.hyperspheres.len()
    }

    /// Whether `id` names a hypersphere of the scene.
    pub fn contains(&self, id: Id<T>) -> (r: bool)
        requires
            self.wf(),
        ensures
            r == self.hyperspheres().is_live(id.raw()),
    {
        self.hyperspheres.is_live(id)
    }

    /// Whether [`Renderer::add_hypersphere`] can run without overflowing `usize`.
    pub fn can_add(&self) -> (r: bool)
        requires
            self.wf(),
        ensures
            r == self.hyperspheres().add_fits(),
    {
        self.hyperspheres.can_add()
    }

    /// Adds a hypersphere; a growth of the object buffer marks the bind
    /// group for rebuilding.
    pub fn add_hypersphere(&mut self) -> (r: Placement<T>)
        requires
            old(self).wf(),
            old(self).hyperspheres().add_fits(),
        ensures
            final(self).wf(),
            final(self).hyperspheres() == old(self).hyperspheres().added(),
            r.id.raw() == old(self).hyperspheres().next_id(),
            r.reallocation is Some == old(self).hyperspheres().add_reallocates(),
            r.reallocation matches Some(re) ==> re.new_size == final(self).hyperspheres().buffer_size
                && re.copy_size == old(self).hyperspheres().buffer_size,
            r.offset == final(self).hyperspheres().offset_of(r.id.raw()),
            r.offset == old(self).hyperspheres().len * old(self).hyperspheres().element_size,
            r.offset + final(self).hyperspheres().element_size <= final(self).hyperspheres().buffer_size,
            final(self).stale_bind_group() == (old(self).stale_bind_group()
                || r.reallocation is Some),
    {
        proof {
            crate::storage::lemma_add_liveness(self.hyperspheres@);
        }
        let (id, reallocation) = self.hyperspheres.add();
        if reallocation.is_some() {
            self.should_recreate_objects_bind_group = true;
        }
        let offset = self.hyperspheres.update(id);
        Placement { id, reallocation, offset }
    }

    /// The byte offset a new value of hypersphere `id` is written at.
    pub fn update_hypersphere(&self, id: Id<T>) -> (r: usize)
        requires
            self.wf(),
            self.hyperspheres().is_live(id.raw()),
        ensures
            r == self.hyperspheres().offset_of(id.raw()),
            r + self.hyperspheres().element_size <= self.hyperspheres().buffer_size,
    {
        self.hyperspheres.update(id)
    }

    /// Removes hypersphere `id`; the returned move fills its slot.
    pub fn remove_hypersphere(&mut self, id: Id<T>) -> (r: BufferMove)
        requires
            old(self).wf(),
            old(self).hyperspheres().is_live(id.raw()),
        ensures
            final(self).wf(),
            final(self).hyperspheres() == old(self).hyperspheres().removed(id.raw()),
            r.source_offset == (old(self).hyperspheres().len - 1) * old(self).hyperspheres().element_size,
            r.destination_offset == old(self).hyperspheres().offset_of(id.raw()),
            r.size == old(self).hyperspheres().element_size,
            final(self).stale_bind_group() == old(self).stale_bind_group(),
    {
        self.hyperspheres.remove(id)
    }

    /// Plans a pass over an image of `width` by `height` pixels: the bind
    /// group is rebuilt if the buffer grew since the last pass, the shader
    /// is told the number of hyperspheres (as a `u32`), and workgroups cover
    /// the image.
    pub fn render(&mut self, width: u32, height: u32) -> (r: RenderPlan)
        ensures
            r.recreate_objects_bind_group == old(self).stale_bind_group(),
            !final(self).stale_bind_group(),
            final(self).hyperspheres() == old(self).hyperspheres(),
            r.hyperspheres_count == old(self).hyperspheres().len as u32,
            r.workgroups_x == spec_workgroup_count(width as nat),
            r.workgroups_y == spec_workgroup_count(height as nat),
    {
        let recreate = self.should_recreate_objects_bind_group;
        self.should_recreate_objects_bind_group = false;
        let count = self.hyperspheres.len();
        RenderPlan {
            recreate_objects_bind_group: recreate,
            hyperspheres_count: count as u32,
            workgroups_x: workgroup_count(width),
            workgroups_y: workgroup_count(height),
        }
    }
}

} // verus!
