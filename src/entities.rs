//! Elements of the render tree: buttons that draw a resource, containers
//! that draw their children into a private buffer and copy it into the
//! parent, and a pass-through wrapper.
use vstd::prelude::*;
use crate::renderer::{blit_at, Position, Render, RenderContext, RenderError, Renderable, Size};

verus! {

/// An element that reacts to clicks.
pub trait Interactive {
    fn on_click(&mut self) {
    }

    /// Whether clicks on this element are handled.
    spec fn clickable(&self) -> bool;

    fn is_clickable(&self) -> (r: bool)
        ensures
            r == self.clickable(),
    ;
}

pub struct Button<R: Renderable> {
    inner: R,
    position: Position,
    text: String,
    size: Size,
}

impl<R: Renderable> Button<R> {
    pub closed spec fn spec_inner(&self) -> R {
        self.inner
    }

    pub closed spec fn spec_position(&self) -> Position {
        self.position
    }

    /// The button's label.
    pub closed spec fn spec_text(&self) -> Seq<char> {
        self.text@
    }

    /// The button's size, in pixels.
    pub closed spec fn spec_size(&self) -> Size {
        self.size
    }

    /// A button labelled `Test`, five by five pixels, drawing `inner` at
    /// `position`.
    pub fn new(inner: R, position: Position) -> (r: Self)
        ensures
            r.spec_inner() == inner,
            r.spec_position() == position,
            r.spec_text() == "Test"@,
            r.spec_size() == (5usize, 5usize),
    {
        Self { inner, position, text: "Test".to_owned(), size: (5, 5) }
    }
}

impl<R: Renderable> Render for Button<R> {
    /// The inner resource's decoding error, with the surface untouched; or
    /// the rows of its decoded buffer copied from this button's position on.
    open spec fn rendered(&self, before: Seq<u8>, width: usize, height: usize) -> (
        Seq<u8>,
        Result<(), RenderError>,
    ) {
        match self.spec_inner().decoded() {
            Err(e) => (before, Err(e)),
            Ok(px) => blit_at(
                before,
                px,
                self.spec_inner().view_render_width() as int,
                self.spec_position().offset_spec(width as int),
                width as int,
            ),
        }
    }

    fn render(&self, ctx: &mut RenderContext) -> (r: Result<(), RenderError>) {
        let pixels = match self.inner.get_pixels() {
            Ok(p) => p,
            Err(e) => return Err(e),
        };
        let offset = self.position.checked_offset(ctx.width);
        let row_width = self.inner.get_render_width() as usize;
        ctx.blit_checked(
            pixels.as_slice(),
            row_width,
            offset,
            Ghost(self.position.offset_spec(ctx.width as int)),
        )
    }

    open spec fn interactive(&self) -> bool {
        false
    }

    fn is_interactive(&self) -> (r: bool) {
        false
    }
}

impl<R: Renderable> Interactive for Button<R> {
    open spec fn clickable(&self) -> bool {
        true
    }

    fn is_clickable(&self) -> (r: bool) {
        true
    }
}

/// A wrapper that draws its inner element and forwards its capabilities.
pub struct SimpleObject<R: Render> {
    inner: R,
}

impl<R: Render> SimpleObject<R> {
    pub closed spec fn spec_inner(&self) -> R {
        self.inner
    }

    pub fn new(inner: R) -> (r: Self)
        ensures
            r.spec_inner() == inner,
    {
        Self { inner }
    }
}

impl<R: Render> Render for SimpleObject<R> {
    open spec fn rendered(&self, before: Seq<u8>, width: usize, height: usize) -> (
        Seq<u8>,
        Result<(), RenderError>,
    ) {
        self.spec_inner().rendered(before, width, height)
    }

    fn render(&self, ctx: &mut RenderContext) -> (r: Result<(), RenderError>) {
        self.inner.render(ctx)
    }

    open spec fn interactive(&self) -> bool {
        self.spec_inner().interactive()
    }

    fn is_interactive(&self) -> (r: bool) {
        self.inner.is_interactive()
    }
}

/// `n` zero bytes.
pub open spec fn zeroed(n: nat) -> Seq<u8> {
    Seq::new(n, |k: int| 0u8)
}

/// The buffer and outcome after the first `k` children draw in order into
/// a surface of `w` by `h` pixels that held `start`; the first child that
/// fails stops the drawing.
pub open spec fn children_rendered<R: Render>(
    children: Seq<R>,
    k: nat,
    start: Seq<u8>,
    w: usize,
    h: usize,
) -> (Seq<u8>, Result<(), RenderError>)
    decreases k,
{
    if k == 0 {
        (start, Ok(()))
    } else {
        let prev = children_rendered(children, (k - 1) as nat, start, w, h);
        if prev.1 is Err {
            prev
        } else {
            children[k - 1].rendered(prev.0, w, h)
        }
    }
}

/// A fixed-size element whose children draw into a private buffer, which is
/// then copied into the parent at the container's position.
pub struct Container<R: Render> {
    inner: Vec<R>,
    width: u16,
    height: u16,
    position: Position,
}

impl<R: Render> Container<R> {
    pub closed spec fn spec_children(&self) -> Seq<R> {
        self.inner@
    }

    pub closed spec fn spec_width(&self) -> u16 {
        self.width
    }

    pub closed spec fn spec_height(&self) -> u16 {
        self.height
    }

    pub closed spec fn spec_position(&self) -> Position {
        self.position
    }

    /// A container of the given size and position holding `inner`.
    pub fn new(inner: R, width: u16, height: u16, position: Position) -> (r: Self)
        ensures
            r.spec_children() == seq![inner],
            r.spec_width() == width,
            r.spec_height() == height,
            r.spec_position() == position,
    {
        let mut children: Vec<R> = Vec::new();
        children.push(inner);
        Self { inner: children, width, height, position }
    }

    /// Draws every child in order into `sub`; the first failure stops.
    fn render_children(&self, sub: &mut RenderContext) -> (r: Result<(), RenderError>)
        ensures
            final(sub).width == old(sub).width,
            final(sub).height == old(sub).height,
            final(final(sub).buffer)@ == final(old(sub).buffer)@,
            final(sub).buffer@.len() == old(sub).buffer@.len(),
            (final(sub).buffer@, r) == children_rendered(
                self.inner@,
                self.inner@.len(),
                old(sub).buffer@,
                old(sub).width,
                old(sub).height,
            ),
    {
        let ghost start = sub.buffer@;
        let mut i: usize = 0;
        while i < self.inner.len()
            invariant
                0 <= i <= self.inner@.len(),
                sub.width == old(sub).width,
                sub.height == old(sub).height,
                final(sub.buffer)@ == final(old(sub).buffer)@,
                sub.buffer@.len() == old(sub).buffer@.len(),
                start == old(sub).buffer@,
                (sub.buffer@, Ok::<(), RenderError>(())) == children_rendered(
                    self.inner@,
                    i as nat,
                    start,
                    sub.width,
                    sub.height,
                ),
            decreases self.inner@.len() - i,
        {
            let ghost mid = sub.buffer@;
            let res = self.inner[i].render(sub);
            proof {
                let k = (i + 1) as nat;
                assert((k - 1) as nat == i as nat);
                if res is Ok {
                    let u = res->Ok_0;
                    assert(u == ());
                }
            }
            match res {
                Ok(()) => {},
                Err(e) => {
                    proof {
                        lemma_children_stop(self.inner@, (i + 1) as nat, self.inner@.len(), start, sub.width, sub.height);
                    }
                    return Err(e);
                },
            }
            i = i + 1;
        }
        Ok(())
    }
}

/// Once a child has failed, later children change neither buffer nor outcome.
pub proof fn lemma_children_stop<R: Render>(
    children: Seq<R>,
    n: nat,
    m: nat,
    start: Seq<u8>,
    w: usize,
    h: usize,
)
    requires
        n <= m,
        children_rendered(children, n, start, w, h).1 is Err,
    ensures
        children_rendered(children, m, start, w, h) == children_rendered(children, n, start, w, h),
    decreases m,
{
    if m > n {
        lemma_children_stop(children, n, (m - 1) as nat, start, w, h);
    }
}

impl<R: Render> Render for Container<R> {
    /// `InvalidScale` where the private buffer's size is past `usize`; else
    /// the children draw in order into a zeroed private buffer, and the first
    /// failure among them is returned with the parent untouched; else the
    /// private buffer's rows are copied into the parent from the container's
    /// position on.
    open spec fn rendered(&self, before: Seq<u8>, width: usize, height: usize) -> (
        Seq<u8>,
        Result<(), RenderError>,
    ) {
        let w = self.spec_width() as int;
        let h = self.spec_height() as int;
        if w * h * 4 > usize::MAX {
            (before, Err(RenderError::InvalidScale))
        } else {
            let sub = children_rendered(
                self.spec_children(),
                self.spec_children().len(),
                zeroed((w * h * 4) as nat),
                w as usize,
                h as usize,
            );
            if sub.1 is Err {
                (before, sub.1)
            } else {
                blit_at(before, sub.0, w, self.spec_position().offset_spec(width as int), width as int)
            }
        }
    }

    fn render(&self, ctx: &mut RenderContext) -> (r: Result<(), RenderError>) {
        let w = self.width as usize;
        let h = self.height as usize;
        let size = match w.checked_mul(h) {
            Some(a) => match a.checked_mul(4) {
                Some(b) => b,
                None => return Err(RenderError::InvalidScale),
            },
            None => {
                assert(w * h * 4 > usize::MAX) by (nonlinear_arith)
                    requires
                        w * h > usize::MAX,
                ;
                return Err(RenderError::InvalidScale);
            },
        };
        let mut buf: Vec<u8> = vec![0u8; size];
        assert(buf@ =~= zeroed((w * h * 4) as nat));
        let res;
        {
            let mut sub = RenderContext::new(buf.as_mut_slice(), w, h);
            res = self.render_children(&mut sub);
        }
        match res {
            Ok(()) => {},
            Err(e) => {
                return Err(e);
            },
        }
        let offset = self.position.checked_offset(ctx.width);
        ctx.blit_checked(
            buf.as_slice(),
            w,
            offset,
            Ghost(self.position.offset_spec(ctx.width as int)),
        )
    }

    open spec fn interactive(&self) -> bool {
        false
    }

    fn is_interactive(&self) -> (r: bool) {
        false
    }
}

} // verus!
