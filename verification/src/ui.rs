//! Batching of 2d overlay draws into layers.
//!
//! A frame collects quads, circles and lines in the order they are pushed.
//! Consecutive pushes of the same kind (and, for quads, the same texture) are
//! drawn with one instanced draw call: a layer holds the range of instance
//! indices it draws. At the end of the frame the instance buffers grow where
//! they are too small and the layers are drawn in order.

use vstd::prelude::*;

verus! {

/// One draw call: a run of consecutive instances of one kind.
#[derive(Clone, Copy, Debug)]
pub enum Layer {
    /// Quads `start_index..end_index`, sampled from texture `texture`.
    Quad { start_index: u32, end_index: u32, texture: u64 },
    /// Circles `start_index..end_index`.
    Circle { start_index: u32, end_index: u32 },
    /// Lines `start_index..end_index`.
    Line { start_index: u32, end_index: u32 },
}

/// The three kinds of overlay primitive.
pub open spec fn kind_of(layer: Layer) -> int {
    match layer {
        Layer::Quad { .. } => 0,
        Layer::Circle { .. } => 1,
        Layer::Line { .. } => 2,
    }
}

pub open spec fn start_of(layer: Layer) -> nat {
    match layer {
        Layer::Quad { start_index, .. } => start_index as nat,
        Layer::Circle { start_index, .. } => start_index as nat,
        Layer::Line { start_index, .. } => start_index as nat,
    }
}

pub open spec fn end_of(layer: Layer) -> nat {
    match layer {
        Layer::Quad { end_index, .. } => end_index as nat,
        Layer::Circle { end_index, .. } => end_index as nat,
        Layer::Line { end_index, .. } => end_index as nat,
    }
}

/// Two layers that a single draw call could cover, were they adjacent.
pub open spec fn mergeable(a: Layer, b: Layer) -> bool {
    match (a, b) {
        (Layer::Quad { texture: ta, .. }, Layer::Quad { texture: tb, .. }) => ta == tb,
        (Layer::Circle { .. }, Layer::Circle { .. }) => true,
        (Layer::Line { .. }, Layer::Line { .. }) => true,
        _ => false,
    }
}

/// The end of the last layer of kind `k` in `layers`, or 0 when there is none:
/// the number of instances of that kind that `layers` draws.
pub open spec fn kind_end(layers: Seq<Layer>, k: int) -> nat
    decreases layers.len(),
{
    if layers.len() == 0 {
        0
    } else if kind_of(layers.last()) == k {
        end_of(layers.last())
    } else {
        kind_end(layers.drop_last(), k)
    }
}

/// Each layer is non-empty and starts where the previous layer of its kind
/// ended (the first at 0), and no two neighbouring layers could be one.
pub open spec fn layers_wf(layers: Seq<Layer>) -> bool {
    &&& forall|i: int|
        0 <= i < layers.len() ==> {
            &&& start_of(#[trigger] layers[i]) == kind_end(layers.take(i), kind_of(layers[i]))
            &&& start_of(layers[i]) < end_of(layers[i])
        }
    &&& forall|i: int|
        0 <= i < layers.len() - 1 ==> !mergeable(#[trigger] layers[i], layers[i + 1])
}

/// The instance buffers of the overlay and the sizes of their elements.
pub struct Renderer {
    white_texture: u64,
    quad_size: usize,
    circle_size: usize,
    line_size: usize,
    quads_buffer_size: usize,
    circles_buffer_size: usize,
    lines_buffer_size: usize,
}

/// The mathematical state of a [`Renderer`].
pub struct RendererView {
    pub white_texture: u64,
    pub quad_size: nat,
    pub circle_size: nat,
    pub line_size: nat,
    pub quads_buffer_size: nat,
    pub circles_buffer_size: nat,
    pub lines_buffer_size: nat,
}

impl View for Renderer {
    type V = RendererView;

    closed spec fn view(&self) -> RendererView {
        RendererView {
            white_texture: self.white_texture,
            quad_size: self.quad_size as nat,
            circle_size: self.circle_size as nat,
            line_size: self.line_size as nat,
            quads_buffer_size: self.quads_buffer_size as nat,
            circles_buffer_size: self.circles_buffer_size as nat,
            lines_buffer_size: self.lines_buffer_size as nat,
        }
    }
}

/// The size in bytes of an instance buffer created for `length` elements of
/// `element_size` bytes: room for at least one element.
pub open spec fn spec_buffer_size(length: nat, element_size: nat) -> nat {
    if length == 0 {
        element_size
    } else {
        length * element_size
    }
}

/// The size in bytes of an instance buffer created for `length` elements.
pub fn buffer_size(length: usize, element_size: usize) -> (r: usize)
    requires
        spec_buffer_size(length as nat, element_size as nat) <= usize::MAX,
    ensures
        r == spec_buffer_size(length as nat, element_size as nat),
{
    let count = if length > 1 {
        length
    } else {
        1
    };
    count * element_size
}

/// The work of drawing a frame: which buffers to create anew and with what
/// size, whether the bind group over them must be rebuilt, and the draw
/// calls in order.
pub struct RenderPlan {
    pub quads_buffer: Option<usize>,
    pub circles_buffer: Option<usize>,
    pub lines_buffer: Option<usize>,
    pub recreate_bind_group: bool,
    pub layers: Vec<Layer>,
}

/// An optional size, as a number.
pub open spec fn as_nat_option(o: Option<usize>) -> Option<nat> {
    match o {
        Some(s) => Some(s as nat),
        None => None,
    }
}

/// The size a buffer holding `count` elements of `element_size` bytes is
/// recreated with, if `buffer_size` is too small for them.
pub open spec fn spec_grow(count: nat, element_size: nat, buffer_size: nat) -> Option<nat> {
    if count * element_size > buffer_size {
        Some(spec_buffer_size(count, element_size))
    } else {
        None
    }
}

/// An instance buffer is created anew exactly when the frame's instances do
/// not fit in it, and then with room for all of them: after the frame, the
/// buffer always holds them.
pub proof fn lemma_grow_fits(count: nat, element_size: nat, buffer_size: nat)
    ensures
        spec_grow(count, element_size, buffer_size) is Some <==> count * element_size
            > buffer_size,
        match spec_grow(count, element_size, buffer_size) {
            Some(n) => n >= count * element_size,
            None => count * element_size <= buffer_size,
        },
{
    if count > 0 {
        assert(count * element_size >= element_size) by (nonlinear_arith)
            requires
                count > 0,
        ;
    }
}

impl Renderer {
    /// A renderer whose instance buffers hold one element each; quads drawn
    /// without a texture sample texture `white_texture`.
    pub fn new(white_texture: u64, quad_size: usize, circle_size: usize, line_size: usize) -> (r:
        Self)
        ensures
            r@ == (RendererView {
                white_texture,
                quad_size: quad_size as nat,
                circle_size: circle_size as nat,
                line_size: line_size as nat,
                quads_buffer_size: quad_size as nat,
                circles_buffer_size: circle_size as nat,
                lines_buffer_size: line_size as nat,
            }),
    {
        Renderer {
            white_texture,
            quad_size,
            circle_size,
            line_size,
            quads_buffer_size: buffer_size(0, quad_size),
            circles_buffer_size: buffer_size(0, circle_size),
            lines_buffer_size: buffer_size(0, line_size),
        }
    }

    /// An empty frame.
    pub fn begin_frame(&self) -> (r: Frame)
        ensures
            r@ == (FrameView {
                white_texture: self@.white_texture,
                quads: 0,
                circles: 0,
                lines: 0,
                layers: Seq::empty(),
            }),
            r.wf(),
    {
        let r = Frame {
            white_texture: self.white_texture,
            quads: 0,
            circles: 0,
            lines: 0,
            layers: Vec::new(),
        };
        assert(r@.layers =~= Seq::<Layer>::empty());
        r
    }
}

/// The draws of one frame: how many quads, circles and lines were pushed, and
/// the layers that draw them.
pub struct Frame {
    white_texture: u64,
    quads: u32,
    circles: u32,
    lines: u32,
    layers: Vec<Layer>,
}

/// The mathematical state of a [`Frame`].
pub struct FrameView {
    pub white_texture: u64,
    pub quads: nat,
    pub circles: nat,
    pub lines: nat,
    pub layers: Seq<Layer>,
}

impl FrameView {
    pub open spec fn count(self, k: int) -> nat {
        if k == 0 {
            self.quads
        } else if k == 1 {
            self.circles
        } else {
            self.lines
        }
    }

    pub open spec fn wf(self) -> bool {
        &&& layers_wf(self.layers)
        &&& forall|k: int| 0 <= k < 3 ==> #[trigger] kind_end(self.layers, k) == self.count(k)
    }

    /// The state after pushing an instance that `layer` would draw alone:
    /// it extends the last layer when the two could be one, else it starts a
    /// new layer.
    pub open spec fn pushed(self, layer: Layer) -> Seq<Layer> {
        if self.layers.len() > 0 && mergeable(self.layers.last(), layer) {
            self.layers.update(self.layers.len() - 1, extend_to(self.layers.last(), end_of(layer)))
        } else {
            self.layers.push(layer)
        }
    }
}

/// `layer` with its end moved to `end`.
pub open spec fn extend_to(layer: Layer, end: nat) -> Layer {
    match layer {
        Layer::Quad { start_index, texture, .. } => Layer::Quad {
            start_index,
            end_index: end as u32,
            texture,
        },
        Layer::Circle { start_index, .. } => Layer::Circle { start_index, end_index: end as u32 },
        Layer::Line { start_index, .. } => Layer::Line { start_index, end_index: end as u32 },
    }
}

impl View for Frame {
    type V = FrameView;

    closed spec fn view(&self) -> FrameView {
        FrameView {
            white_texture: self.white_texture,
            quads: self.quads as nat,
            circles: self.circles as nat,
            lines: self.lines as nat,
            layers: self.layers@,
        }
    }
}

proof fn lemma_kind_end_push(layers: Seq<Layer>, layer: Layer, k: int)
    ensures
        kind_end(layers.push(layer), k) == if kind_of(layer) == k {
            end_of(layer)
        } else {
            kind_end(layers, k)
        },
{
    assert(layers.push(layer).drop_last() =~= layers);
}

proof fn lemma_kind_end_extend(layers: Seq<Layer>, end: nat, k: int)
    requires
        layers.len() > 0,
        end <= u32::MAX,
    ensures
        kind_end(
            layers.update(layers.len() - 1, extend_to(layers.last(), end)),
            k,
        ) == if kind_of(layers.last()) == k {
            end
        } else {
            kind_end(layers, k)
        },
{
    let u = layers.update(layers.len() - 1, extend_to(layers.last(), end));
    assert(u.drop_last() =~= layers.drop_last());
}

/// Pushing one instance keeps the layers well formed and makes them draw one
/// more instance of its kind.
proof fn lemma_push_wf(f: FrameView, layer: Layer)
    requires
        f.wf(),
        start_of(layer) == f.count(kind_of(layer)),
        end_of(layer) == start_of(layer) + 1,
        end_of(layer) <= u32::MAX,
    ensures
        layers_wf(f.pushed(layer)),
        forall|k: int|
            #[trigger] kind_end(f.pushed(layer), k) == if k == kind_of(layer) {
                end_of(layer)
            } else {
                kind_end(f.layers, k)
            },
{
    let ls = f.layers;
    let p = f.pushed(layer);
    assert(kind_end(ls, kind_of(layer)) == f.count(kind_of(layer)));
    if ls.len() > 0 && mergeable(ls.last(), layer) {
        let n = ls.len() - 1;
        assert forall|k: int| #[trigger] kind_end(p, k) == if k == kind_of(layer) {
            end_of(layer)
        } else {
            kind_end(ls, k)
        } by {
            lemma_kind_end_extend(ls, end_of(layer), k);
        }
        assert forall|i: int| 0 <= i < p.len() implies {
            &&& start_of(#[trigger] p[i]) == kind_end(p.take(i), kind_of(p[i]))
            &&& start_of(p[i]) < end_of(p[i])
        } by {
            assert(p.take(i) =~= ls.take(i));
            if i == n {
                assert(ls.take(n) =~= ls.drop_last());
                assert(kind_end(ls, kind_of(ls.last())) == end_of(ls.last()));
            }
        }
        assert forall|i: int| 0 <= i < p.len() - 1 implies !mergeable(#[trigger] p[i], p[i + 1]) by {
            if i + 1 == n {
                assert(!mergeable(ls[i], ls[i + 1]));
            }
        }
    } else {
        let n = ls.len();
        assert forall|k: int| #[trigger] kind_end(p, k) == if k == kind_of(layer) {
            end_of(layer)
        } else {
            kind_end(ls, k)
        } by {
            lemma_kind_end_push(ls, layer, k);
        }
        assert forall|i: int| 0 <= i < p.len() implies {
            &&& start_of(#[trigger] p[i]) == kind_end(p.take(i), kind_of(p[i]))
            &&& start_of(p[i]) < end_of(p[i])
        } by {
            if i == n {
                assert(p.take(i) =~= ls);
            } else {
                assert(p.take(i) =~= ls.take(i));
            }
        }
    }
}

proof fn lemma_prefix_cover(layers: Seq<Layer>, m: int, k: int, j: nat)
    requires
        layers_wf(layers),
        0 <= m <= layers.len(),
    ensures
        forall|i: int|
            0 <= i < m && kind_of(#[trigger] layers[i]) == k ==> end_of(layers[i]) <= kind_end(
                layers.take(m),
                k,
            ),
        j < kind_end(layers.take(m), k) ==> exists|i: int|
            0 <= i < m && kind_of(#[trigger] layers[i]) == k && start_of(layers[i]) <= j < end_of(
                layers[i],
            ),
    decreases m,
{
    if m == 0 {
        assert(layers.take(0) =~= Seq::<Layer>::empty());
    } else {
        lemma_prefix_cover(layers, m - 1, k, j);
        let prev = layers.take(m - 1);
        let l = layers[m - 1];
        let cur = layers.take(m);
        assert(cur =~= prev.push(l));
        lemma_kind_end_push(prev, l, k);
        assert(start_of(l) == kind_end(prev, kind_of(l)) && start_of(l) < end_of(l));
        assert forall|i: int|
            0 <= i < m && kind_of(#[trigger] layers[i]) == k implies end_of(layers[i]) <= kind_end(
                cur,
                k,
            ) by {
            if i < m - 1 {
                assert(end_of(layers[i]) <= kind_end(prev, k));
            }
        }
        if j < kind_end(cur, k) {
            if kind_of(l) == k && j >= start_of(l) {
                assert(kind_of(layers[m - 1]) == k);
            } else {
                assert(j < kind_end(prev, k));
                let i = choose|i: int|
                    0 <= i < m - 1 && kind_of(#[trigger] layers[i]) == k && start_of(layers[i]) <= j
                        < end_of(layers[i]);
                assert(kind_of(layers[i]) == k);
            }
        }
    }
}

/// The layers of a frame draw each pushed instance exactly once: for every
/// kind, instance `j` below the number pushed lies in the range of exactly
/// one layer of that kind, and the layers of a kind come in increasing order.
pub proof fn lemma_layers_draw_each_once(f: FrameView, k: int, j: nat)
    requires
        f.wf(),
        0 <= k < 3,
        j < f.count(k),
    ensures
        exists|i: int|
            0 <= i < f.layers.len() && kind_of(#[trigger] f.layers[i]) == k && start_of(f.layers[i])
                <= j < end_of(f.layers[i]),
        forall|a: int, b: int|
            0 <= a < b < f.layers.len() && kind_of(#[trigger] f.layers[a]) == k && kind_of(
                #[trigger] f.layers[b],
            ) == k ==> end_of(f.layers[a]) <= start_of(f.layers[b]),
        forall|a: int, b: int|
            0 <= a < f.layers.len() && 0 <= b < f.layers.len() && kind_of(#[trigger] f.layers[a])
                == k && kind_of(#[trigger] f.layers[b]) == k && start_of(f.layers[a]) <= j < end_of(
                f.layers[a],
            ) && start_of(f.layers[b]) <= j < end_of(f.layers[b]) ==> a == b,
{
    let ls = f.layers;
    assert(ls.take(ls.len() as int) =~= ls);
    assert(kind_end(ls, k) == f.count(k));
    lemma_prefix_cover(ls, ls.len() as int, k, j);
    assert forall|a: int, b: int|
        0 <= a < b < ls.len() && kind_of(#[trigger] ls[a]) == k && kind_of(#[trigger] ls[b]) == k
            implies end_of(ls[a]) <= start_of(ls[b]) by {
        lemma_prefix_cover(ls, b, k, j);
    }
}

/// The texture a quad layer samples (0 for the other kinds).
pub open spec fn texture_of(layer: Layer) -> u64 {
    match layer {
        Layer::Quad { texture, .. } => texture,
        _ => 0,
    }
}

/// Pushing one instance: when the last layer draws the same kind (and, for
/// quads, samples the same texture), that layer grows by the one instance
/// and no layer is added; otherwise a new layer of just that instance is
/// started after the others.
pub proof fn lemma_push_batches(f: FrameView, layer: Layer)
    requires
        f.wf(),
        start_of(layer) == f.count(kind_of(layer)),
        end_of(layer) == start_of(layer) + 1,
        end_of(layer) <= u32::MAX,
    ensures
        ({
            let same_run = f.layers.len() > 0 && kind_of(f.layers.last()) == kind_of(layer) && (
            kind_of(layer) == 0 ==> texture_of(f.layers.last()) == texture_of(layer));
            let p = f.pushed(layer);
            &&& same_run ==> {
                &&& p.len() == f.layers.len()
                &&& p.subrange(0, p.len() - 1) == f.layers.subrange(0, f.layers.len() - 1)
                &&& kind_of(p.last()) == kind_of(layer)
                &&& texture_of(p.last()) == texture_of(f.layers.last())
                &&& start_of(p.last()) == start_of(f.layers.last())
                &&& end_of(p.last()) == end_of(f.layers.last()) + 1
            }
            &&& !same_run ==> p == f.layers.push(layer)
        }),
{
    if f.layers.len() > 0 {
        let last = f.layers.last();
        let l = f.layers.take(f.layers.len() - 1);
        assert(f.layers.take(f.layers.len() as int) =~= f.layers);
        if kind_of(last) == kind_of(layer) {
            assert(kind_end(f.layers, kind_of(layer)) == end_of(last));
            assert(f.wf());
            assert(kind_end(f.layers, kind_of(layer)) == f.count(kind_of(layer)));
        }
        let p = f.pushed(layer);
        if mergeable(last, layer) {
            assert(p.subrange(0, p.len() - 1) =~= f.layers.subrange(0, f.layers.len() - 1));
        }
    }
}

/// Neighbouring layers of a well-formed frame are never of one kind, unless
/// both are quad layers sampling different textures: each layer is as long
/// as batching allows.
pub proof fn lemma_neighbours_differ(f: FrameView, i: int)
    requires
        f.wf(),
        0 <= i < f.layers.len() - 1,
    ensures
        kind_of(f.layers[i]) != kind_of(f.layers[i + 1]) || (kind_of(f.layers[i]) == 0
            && texture_of(f.layers[i]) != texture_of(f.layers[i + 1])),
{
    assert(!mergeable(f.layers[i], f.layers[i + 1]));
}

impl Frame {
    pub open spec fn wf(&self) -> bool {
        self@.wf()
    }

    fn push_layer(&mut self, layer: Layer)
        requires
            old(self).wf(),
            start_of(layer) == old(self)@.count(kind_of(layer)),
            end_of(layer) == start_of(layer) + 1,
        ensures
            final(self)@.layers == old(self)@.pushed(layer),
            final(self)@.white_texture == old(self)@.white_texture,
            final(self)@.quads == old(self)@.quads,
            final(self)@.circles == old(self)@.circles,
            final(self)@.lines == old(self)@.lines,
            layers_wf(final(self)@.layers),
            forall|k: int|
                #[trigger] kind_end(final(self)@.layers, k) == if k == kind_of(layer) {
                    end_of(layer)
                } else {
                    kind_end(old(self)@.layers, k)
                },
    {
        proof {
            lemma_push_wf(self@, layer);
        }
        let n = self.layers.len();
        if n > 0 {
            let last = self.layers[n - 1];
            let merged = match (last, layer) {
                (
                    Layer::Quad { start_index, texture: ta, .. },
                    Layer::Quad { end_index, texture: tb, .. },
                ) => if ta == tb {
                    Some(Layer::Quad { start_index, end_index, texture: ta })
                } else {
                    None
                },
                (Layer::Circle { start_index, .. }, Layer::Circle { end_index, .. }) => Some(
                    Layer::Circle { start_index, end_index },
                ),
                (Layer::Line { start_index, .. }, Layer::Line { end_index, .. }) => Some(
                    Layer::Line { start_index, end_index },
                ),
                _ => None,
            };
            match merged {
                Some(m) => {
                    self.layers[n - 1] = m;
                },
                None => {
                    self.layers.push(layer);
                },
            }
        } else {
            self.layers.push(layer);
        }
    }

    /// Pushes a quad sampled from `texture`, or from the white texture when
    /// there is none.
    pub fn push_quad(&mut self, texture: Option<u64>)
        requires
            old(self).wf(),
            old(self)@.quads < u32::MAX,
        ensures
            final(self).wf(),
            final(self)@.quads == old(self)@.quads + 1,
            final(self)@.circles == old(self)@.circles,
            final(self)@.lines == old(self)@.lines,
            final(self)@.white_texture == old(self)@.white_texture,
            final(self)@.layers == old(self)@.pushed(
                Layer::Quad {
                    start_index: old(self)@.quads as u32,
                    end_index: (old(self)@.quads + 1) as u32,
                    texture: match texture {
                        Some(t) => t,
                        None => old(self)@.white_texture,
                    },
                },
            ),
    {
        let texture = match texture {
            Some(t) => t,
            None => self.white_texture,
        };
        let start_index = self.quads;
        self.push_layer(Layer::Quad { start_index, end_index: start_index + 1, texture });
        self.quads = start_index + 1;
    }

    /// Pushes a circle.
    pub fn push_circle(&mut self)
        requires
            old(self).wf(),
            old(self)@.circles < u32::MAX,
        ensures
            final(self).wf(),
            final(self)@.circles == old(self)@.circles + 1,
            final(self)@.quads == old(self)@.quads,
            final(self)@.lines == old(self)@.lines,
            final(self)@.white_texture == old(self)@.white_texture,
            final(self)@.layers == old(self)@.pushed(
                Layer::Circle {
                    start_index: old(self)@.circles as u32,
                    end_index: (old(self)@.circles + 1) as u32,
                },
            ),
    {
        let start_index = self.circles;
        self.push_layer(Layer::Circle { start_index, end_index: start_index + 1 });
        self.circles = start_index + 1;
    }

    /// Pushes a line.
    pub fn push_line(&mut self)
        requires
            old(self).wf(),
            old(self)@.lines < u32::MAX,
        ensures
            final(self).wf(),
            final(self)@.lines == old(self)@.lines + 1,
            final(self)@.quads == old(self)@.quads,
            final(self)@.circles == old(self)@.circles,
            final(self)@.white_texture == old(self)@.white_texture,
            final(self)@.layers == old(self)@.pushed(
                Layer::Line {
                    start_index: old(self)@.lines as u32,
                    end_index: (old(self)@.lines + 1) as u32,
                },
            ),
    {
        let start_index = self.lines;
        self.push_layer(Layer::Line { start_index, end_index: start_index + 1 });
        self.lines = start_index + 1;
    }

    /// The number of quads pushed so far.
    pub fn quad_count(&self) -> (r: u32)
        ensures
            r == self@.quads,
    {
        self.quads
    }

    /// The number of circles pushed so far.
    pub fn circle_count(&self) -> (r: u32)
        ensures
            r == self@.circles,
    {
        self.circles
    }

    /// The number of lines pushed so far.
    pub fn line_count(&self) -> (r: u32)
        ensures
            r == self@.lines,
    {
        self.lines
    }

    /// Ends the frame: every instance buffer too small for this frame's
    /// instances is created anew, the bind group is rebuilt when any was,
    /// and the layers are drawn in order.
    pub fn render(self, ui: &mut Renderer) -> (r: RenderPlan)
        requires
            self@.quads * old(ui)@.quad_size <= usize::MAX,
            self@.circles * old(ui)@.circle_size <= usize::MAX,
            self@.lines * old(ui)@.line_size <= usize::MAX,
        ensures
            as_nat_option(r.quads_buffer) == spec_grow(
                self@.quads,
                old(ui)@.quad_size,
                old(ui)@.quads_buffer_size,
            ),
            as_nat_option(r.circles_buffer) == spec_grow(
                self@.circles,
                old(ui)@.circle_size,
                old(ui)@.circles_buffer_size,
            ),
            as_nat_option(r.lines_buffer) == spec_grow(
                self@.lines,
                old(ui)@.line_size,
                old(ui)@.lines_buffer_size,
            ),
            r.recreate_bind_group == (r.quads_buffer is Some || r.circles_buffer is Some
                || r.lines_buffer is Some),
            r.layers@ == self@.layers,
            r.quads_buffer is Some <==> self@.quads * old(ui)@.quad_size
                > old(ui)@.quads_buffer_size,
            r.circles_buffer is Some <==> self@.circles * old(ui)@.circle_size
                > old(ui)@.circles_buffer_size,
            r.lines_buffer is Some <==> self@.lines * old(ui)@.line_size
                > old(ui)@.lines_buffer_size,
            final(ui)@.quads_buffer_size >= self@.quads * old(ui)@.quad_size,
            final(ui)@.circles_buffer_size >= self@.circles * old(ui)@.circle_size,
            final(ui)@.lines_buffer_size >= self@.lines * old(ui)@.line_size,
            final(ui)@ == (RendererView {
                quads_buffer_size: match r.quads_buffer {
                    Some(s) => s as nat,
                    None => old(ui)@.quads_buffer_size,
                },
                circles_buffer_size: match r.circles_buffer {
                    Some(s) => s as nat,
                    None => old(ui)@.circles_buffer_size,
                },
                lines_buffer_size: match r.lines_buffer {
                    Some(s) => s as nat,
                    None => old(ui)@.lines_buffer_size,
                },
                ..old(ui)@
            }),
    {
        proof {
            lemma_grow_fits(self@.quads, ui@.quad_size, ui@.quads_buffer_size);
            lemma_grow_fits(self@.circles, ui@.circle_size, ui@.circles_buffer_size);
            lemma_grow_fits(self@.lines, ui@.line_size, ui@.lines_buffer_size);
        }
        let quads_buffer = grow(self.quads as usize, ui.quad_size, ui.quads_buffer_size);
        if let Some(s) = quads_buffer {
            ui.quads_buffer_size = s;
        }
        let circles_buffer = grow(self.circles as usize, ui.circle_size, ui.circles_buffer_size);
        if let Some(s) = circles_buffer {
            ui.circles_buffer_size = s;
        }
        let lines_buffer = grow(self.lines as usize, ui.line_size, ui.lines_buffer_size);
        if let Some(s) = lines_buffer {
            ui.lines_buffer_size = s;
        }
        let recreate_bind_group = quads_buffer.is_some() || circles_buffer.is_some()
            || lines_buffer.is_some();
        RenderPlan {
            quads_buffer,
            circles_buffer,
            lines_buffer,
            recreate_bind_group,
            layers: self.layers,
        }
    }
}

/// The size to recreate a buffer of `buffer_size` bytes with, when `count`
/// elements of `element_size` bytes do not fit in it.
fn grow(count: usize, element_size: usize, current_size: usize) -> (r: Option<usize>)
    requires
        count * element_size <= usize::MAX,
    ensures
        as_nat_option(r) == spec_grow(count as nat, element_size as nat, current_size as nat),
{
    let needed = count * element_size;
    if needed > current_size {
        Some(buffer_size(count, element_size))
    } else {
        None
    }
}

} // verus!
