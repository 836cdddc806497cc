use crate::pos::Pos;
use vstd::arithmetic::div_mod::lemma_fundamental_div_mod_converse;
use vstd::prelude::*;

verus! {

/// An inclusive rectangle `[min_x, max_x] × [min_y, max_y]` of grid positions.
#[derive(Clone, Copy, Debug)]
pub struct Rect {
    pub min_x: usize,
    pub min_y: usize,
    pub max_x: usize,
    pub max_y: usize,
}

impl Rect {
    /// One past the right edge is still a `usize`, so the rectangle can be walked.
    pub open spec fn wf(self) -> bool {
        self.max_x < usize::MAX
    }

    /// The rectangle holds no position.
    pub open spec fn is_empty(self) -> bool {
        self.min_x > self.max_x || self.min_y > self.max_y
    }

    pub open spec fn width(self) -> int {
        self.max_x - self.min_x + 1
    }

    pub open spec fn height(self) -> int {
        self.max_y - self.min_y + 1
    }

    /// The `k`-th position in row-major order: rows from `min_y` upwards,
    /// each row from `min_x` to `max_x`.
    pub open spec fn point(self, k: int) -> Pos {
        Pos { x: (self.min_x + k % self.width()) as usize, y: (self.min_y + k / self.width()) as usize }
    }

    /// Every position of the rectangle, each once, in row-major order.
    pub open spec fn points(self) -> Seq<Pos> {
        Seq::new(
            if self.is_empty() {
                0
            } else {
                (self.width() * self.height()) as nat
            },
            |k: int| self.point(k),
        )
    }

    pub open spec fn contains_spec(self, p: Pos) -> bool {
        self.min_x <= p.x <= self.max_x && self.min_y <= p.y <= self.max_y
    }

    /// The rectangle spanned by two x bounds and two y bounds, in either order.
    pub fn new(x1: usize, x2: usize, y1: usize, y2: usize) -> (r: Rect)
        ensures
            r.min_x == if x1 <= x2 { x1 } else { x2 },
            r.max_x == if x1 <= x2 { x2 } else { x1 },
            r.min_y == if y1 <= y2 { y1 } else { y2 },
            r.max_y == if y1 <= y2 { y2 } else { y1 },
    {
        let (min_x, max_x) = if x1 <= x2 { (x1, x2) } else { (x2, x1) };
        let (min_y, max_y) = if y1 <= y2 { (y1, y2) } else { (y2, y1) };
        Rect { min_x, max_x, min_y, max_y }
    }

    pub fn contains(self, p: Pos) -> (r: bool)
        ensures
            r == self.contains_spec(p),
    {
        self.min_x <= p.x && p.x <= self.max_x && self.min_y <= p.y && p.y <= self.max_y
    }

    /// A walk over the rectangle's positions.
    pub fn into_iter(self) -> (r: RectIterator)
        requires
            self.wf(),
        ensures
            r.wf(),
            r.rect() == self,
            r.index() == 0,
    {
        RectIterator::new(self)
    }
}

/// A walk over a rectangle in row-major order.
pub struct RectIterator {
    i: Pos,
    r: Rect,
}

impl RectIterator {
    pub closed spec fn rect(&self) -> Rect {
        self.r
    }

    /// How many positions the walk has handed out so far.
    pub closed spec fn index(&self) -> int {
        (self.i.y - self.r.min_y) * self.r.width() + (self.i.x - self.r.min_x)
    }

    pub closed spec fn wf(&self) -> bool {
        &&& self.r.wf()
        &&& self.r.is_empty() ==> self.i == Pos { x: self.r.min_x, y: self.r.min_y }
        &&& !self.r.is_empty() ==> {
            &&& self.r.min_x <= self.i.x <= self.r.max_x + 1
            &&& self.r.min_y <= self.i.y <= self.r.max_y
        }
    }

    pub fn new(r: Rect) -> (it: RectIterator)
        requires
            r.wf(),
        ensures
            it.wf(),
            it.rect() == r,
            it.index() == 0,
    {
        let it = RectIterator { i: Pos { x: r.min_x, y: r.min_y }, r };
        assert(0 * r.width() == 0);
        it
    }

    /// The next position of the walk, or `None` once all were handed out.
    pub fn next(&mut self) -> (res: Option<Pos>)
        requires
            old(self).wf(),
        ensures
            final(self).wf(),
            final(self).rect() == old(self).rect(),
            0 <= old(self).index(),
            old(self).index() < old(self).rect().points().len() ==> {
                &&& res == Some(old(self).rect().points()[old(self).index()])
                &&& final(self).index() == old(self).index() + 1
            },
            old(self).index() >= old(self).rect().points().len() ==> {
                &&& res is None
                &&& final(self).index() == old(self).index()
            },
    {
        if self.r.min_x > self.r.max_x || self.r.min_y > self.r.max_y {
            return None;
        }
        let ghost w = self.r.width();
        let ghost h = self.r.height();
        let ghost k = self.index();
        let ghost q = self.i.y - self.r.min_y;
        let ghost c = self.i.x - self.r.min_x;
        assert(0 <= k) by (nonlinear_arith)
            requires k == q * w + c, q >= 0, c >= 0, w >= 0;
        if self.i.x <= self.r.max_x {
            proof {
                lemma_fundamental_div_mod_converse(k, w, q, c);
                assert(q < h);
                assert(q * w + c < h * w) by (nonlinear_arith)
                    requires q + 1 <= h, 0 <= c < w, q >= 0;
            }
            let t = Some(self.i);
            self.i.x = self.i.x + 1;
            return t;
        }
        if self.i.y < self.r.max_y {
            self.i.y = self.i.y + 1;
            self.i.x = self.r.min_x;
            proof {
                assert(k == (q + 1) * w + 0) by (nonlinear_arith)
                    requires k == q * w + c, c == w;
                lemma_fundamental_div_mod_converse(k, w, q + 1, 0);
                assert(k < h * w) by (nonlinear_arith)
                    requires k == (q + 1) * w, q + 1 < h, w > 0;
            }
            let t = Some(self.i);
            self.i.x = self.i.x + 1;
            return t;
        }
        proof {
            assert(k >= h * w) by (nonlinear_arith)
                requires k == q * w + c, c == w, q + 1 == h;
        }
        None
    }
}

} // verus!
