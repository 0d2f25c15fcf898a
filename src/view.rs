use vstd::prelude::*;

verus! {

/// One operation on the view transform. The transform maps image
/// coordinates to view coordinates, where the view spans -1 to 1 on each
/// axis; every operation except `Reset` is composed into the current
/// transform by multiplying it on the right, so it acts in the image's own
/// coordinates, before everything composed earlier.
#[derive(Copy, Clone, Debug, PartialEq, Eq, Structural)]
pub enum MatrixOp {
    /// Moves the image by `x` and `y` steps of one half, in the image's own
    /// coordinates (which span -1 to 1).
    Translate { x: i32, y: i32 },
    /// Scales both axes by `numer / denom`.
    Scale { numer: u32, denom: u32 },
    /// Turns the image by `quarter_turns` times 90 degrees counter-clockwise.
    Rotate { quarter_turns: i32 },
    /// Discards everything composed so far: the transform becomes identity.
    Reset,
}

/// A 2D affine map with rational coefficients, all over the common
/// denominator `den`: `(x, y) -> ((a x + b y + tx) / den, (c x + d y + ty) / den)`.
pub struct Affine {
    pub a: int,
    pub b: int,
    pub c: int,
    pub d: int,
    pub tx: int,
    pub ty: int,
    pub den: int,
}

pub open spec fn identity() -> Affine {
    Affine { a: 1, b: 0, c: 0, d: 1, tx: 0, ty: 0, den: 1 }
}

pub open spec fn well_formed(m: Affine) -> bool {
    m.den > 0
}

/// The two maps are the same map (their coefficients are equal as rationals).
pub open spec fn same_map(m: Affine, n: Affine) -> bool {
    &&& m.a * n.den == n.a * m.den
    &&& m.b * n.den == n.b * m.den
    &&& m.c * n.den == n.c * m.den
    &&& m.d * n.den == n.d * m.den
    &&& m.tx * n.den == n.tx * m.den
    &&& m.ty * n.den == n.ty * m.den
}

/// `o` applied after `m`.
pub open spec fn compose(o: Affine, m: Affine) -> Affine {
    Affine {
        a: o.a * m.a + o.b * m.c,
        b: o.a * m.b + o.b * m.d,
        c: o.c * m.a + o.d * m.c,
        d: o.c * m.b + o.d * m.d,
        tx: o.a * m.tx + o.b * m.ty + o.tx * m.den,
        ty: o.c * m.tx + o.d * m.ty + o.ty * m.den,
        den: o.den * m.den,
    }
}

/// The rotation by a whole number of quarter turns, counter-clockwise.
pub open spec fn quarter_rotation(q: int) -> Affine {
    let r = q % 4;
    if r == 0 {
        identity()
    } else if r == 1 {
        Affine { a: 0, b: -1, c: 1, d: 0, tx: 0, ty: 0, den: 1 }
    } else if r == 2 {
        Affine { a: -1, b: 0, c: 0, d: -1, tx: 0, ty: 0, den: 1 }
    } else {
        Affine { a: 0, b: 1, c: -1, d: 0, tx: 0, ty: 0, den: 1 }
    }
}

/// The map that a composing operation stands for.
pub open spec fn op_matrix(op: MatrixOp) -> Affine {
    match op {
        MatrixOp::Translate { x, y } => Affine { a: 2, b: 0, c: 0, d: 2, tx: x as int, ty: y as int, den: 2 },
        MatrixOp::Scale { numer, denom } => Affine {
            a: numer as int,
            b: 0,
            c: 0,
            d: numer as int,
            tx: 0,
            ty: 0,
            den: denom as int,
        },
        MatrixOp::Rotate { quarter_turns } => quarter_rotation(quarter_turns as int),
        MatrixOp::Reset => identity(),
    }
}

/// The transform after applying `op` to `m`: `m` times the operation's
/// matrix.
pub open spec fn apply_op(m: Affine, op: MatrixOp) -> Affine {
    match op {
        MatrixOp::Reset => identity(),
        _ => compose(m, op_matrix(op)),
    }
}

/// Scaling by `n / d` and then by `d / n` gives back the map one started
/// from; in particular zooming in by two and out by two restores the view.
pub proof fn lemma_scale_inverse(m: Affine, n: u32, d: u32)
    requires
        well_formed(m),
        n > 0,
        d > 0,
    ensures
        well_formed(apply_op(apply_op(m, MatrixOp::Scale { numer: n, denom: d }), MatrixOp::Scale { numer: d, denom: n })),
        same_map(
            apply_op(apply_op(m, MatrixOp::Scale { numer: n, denom: d }), MatrixOp::Scale { numer: d, denom: n }),
            m,
        ),
{
    let (ni, di) = (n as int, d as int);
    let k = di * ni;
    let s1 = apply_op(m, MatrixOp::Scale { numer: n, denom: d });
    let r = apply_op(s1, MatrixOp::Scale { numer: d, denom: n });
    assert(s1.a == m.a * ni && s1.b == m.b * ni && s1.c == m.c * ni && s1.d == m.d * ni) by (nonlinear_arith)
        requires
            s1.a == m.a * ni + m.b * 0,
            s1.b == m.a * 0 + m.b * ni,
            s1.c == m.c * ni + m.d * 0,
            s1.d == m.c * 0 + m.d * ni;
    assert(s1.tx == m.tx * di && s1.ty == m.ty * di && s1.den == m.den * di) by (nonlinear_arith)
        requires
            s1.tx == m.a * 0 + m.b * 0 + m.tx * di,
            s1.ty == m.c * 0 + m.d * 0 + m.ty * di,
            s1.den == m.den * di;
    assert(r.a == s1.a * di && r.b == s1.b * di && r.c == s1.c * di && r.d == s1.d * di) by (nonlinear_arith)
        requires
            r.a == s1.a * di + s1.b * 0,
            r.b == s1.a * 0 + s1.b * di,
            r.c == s1.c * di + s1.d * 0,
            r.d == s1.c * 0 + s1.d * di;
    assert(r.tx == s1.tx * ni && r.ty == s1.ty * ni && r.den == s1.den * ni) by (nonlinear_arith)
        requires
            r.tx == s1.a * 0 + s1.b * 0 + s1.tx * ni,
            r.ty == s1.c * 0 + s1.d * 0 + s1.ty * ni,
            r.den == s1.den * ni;
    lemma_twice_scaled(r.a, m.a, ni, di);
    lemma_twice_scaled(r.b, m.b, ni, di);
    lemma_twice_scaled(r.c, m.c, ni, di);
    lemma_twice_scaled(r.d, m.d, ni, di);
    lemma_twice_scaled(r.tx, m.tx, di, ni);
    lemma_twice_scaled(r.ty, m.ty, di, ni);
    lemma_twice_scaled(r.den, m.den, di, ni);
    assert(k > 0) by (nonlinear_arith)
        requires di > 0, ni > 0, k == di * ni;
    assert(r.den > 0) by (nonlinear_arith)
        requires r.den == k * m.den, k > 0, m.den > 0;
    lemma_scaled_cross(r.a, m.a, k, m.den);
    lemma_scaled_cross(r.b, m.b, k, m.den);
    lemma_scaled_cross(r.c, m.c, k, m.den);
    lemma_scaled_cross(r.d, m.d, k, m.den);
    lemma_scaled_cross(r.tx, m.tx, k, m.den);
    lemma_scaled_cross(r.ty, m.ty, k, m.den);
}

proof fn lemma_twice_scaled(x: int, y: int, p: int, q: int)
    requires
        x == (y * p) * q,
    ensures
        x == (q * p) * y,
        x == (p * q) * y,
{
    assert(x == (q * p) * y && x == (p * q) * y) by (nonlinear_arith)
        requires x == (y * p) * q;
}

proof fn lemma_scaled_cross(x: int, y: int, k: int, den: int)
    requires
        x == k * y,
    ensures
        x * den == y * (k * den),
{
    assert(x * den == y * (k * den)) by (nonlinear_arith)
        requires x == k * y;
}

/// Whatever was composed before, a reset leaves the identity.
pub proof fn lemma_reset_is_identity(m: Affine)
    ensures
        apply_op(m, MatrixOp::Reset) == identity(),
{
}

/// An operation that keeps the map well formed: a scale divides by a
/// positive number.
pub open spec fn valid_op(op: MatrixOp) -> bool {
    op matches MatrixOp::Scale { denom, .. } ==> denom > 0
}

/// The map reached from identity by the operations `ops`, in order.
pub open spec fn matrix_of(ops: Seq<MatrixOp>) -> Affine
    decreases ops.len(),
{
    if ops.len() == 0 {
        identity()
    } else {
        apply_op(matrix_of(ops.drop_last()), ops.last())
    }
}

/// The view transform of the image on display, kept as the operations
/// composed since it was last reset; its map is `matrix_of` of them. A
/// reset empties the list, so it never holds a `Reset`.
pub struct ViewTransform {
    ops: Vec<MatrixOp>,
}

impl ViewTransform {
    pub closed spec fn ops(&self) -> Seq<MatrixOp> {
        self.ops@
    }

    pub open spec fn matrix(&self) -> Affine {
        matrix_of(self.ops())
    }

    pub open spec fn well_formed(&self) -> bool {
        forall|i: int| 0 <= i < self.ops().len() ==> valid_op(#[trigger] self.ops()[i]) && !(self.ops()[i] is Reset)
    }

    /// The identity transform.
    pub fn new() -> (r: ViewTransform)
        ensures
            r.well_formed(),
            r.ops().len() == 0,
            r.matrix() == identity(),
    {
        ViewTransform { ops: Vec::new() }
    }

    /// Composes `op` after the current transform; a `Reset` instead
    /// discards everything composed so far.
    pub fn apply(&mut self, op: MatrixOp)
        requires
            old(self).well_formed(),
            valid_op(op),
        ensures
            final(self).well_formed(),
            final(self).ops() == if op is Reset {
                Seq::<MatrixOp>::empty()
            } else {
                old(self).ops().push(op)
            },
            final(self).matrix() == apply_op(old(self).matrix(), op),
    {
        if op == MatrixOp::Reset {
            self.ops = Vec::new();
        } else {
            let ghost before = self.ops@;
            self.ops.push(op);
            proof {
                assert(self.ops@.drop_last() =~= before);
            }
        }
    }

    /// Moves by `x` and `y` half-view steps.
    pub fn translate(&mut self, x: i32, y: i32)
        requires
            old(self).well_formed(),
        ensures
            final(self).well_formed(),
            final(self).ops() == old(self).ops().push(MatrixOp::Translate { x, y }),
            final(self).matrix() == compose(old(self).matrix(), op_matrix(MatrixOp::Translate { x, y })),
    {
        self.apply(MatrixOp::Translate { x, y });
    }

    /// Scales both axes by `numer / denom`.
    pub fn scale(&mut self, numer: u32, denom: u32)
        requires
            old(self).well_formed(),
            denom > 0,
        ensures
            final(self).well_formed(),
            final(self).ops() == old(self).ops().push(MatrixOp::Scale { numer, denom }),
            final(self).matrix() == compose(old(self).matrix(), op_matrix(MatrixOp::Scale { numer, denom })),
    {
        self.apply(MatrixOp::Scale { numer, denom });
    }

    /// Turns by `quarter_turns` quarter turns, counter-clockwise.
    pub fn rotate(&mut self, quarter_turns: i32)
        requires
            old(self).well_formed(),
        ensures
            final(self).well_formed(),
            final(self).ops() == old(self).ops().push(MatrixOp::Rotate { quarter_turns }),
            final(self).matrix() == compose(old(self).matrix(), op_matrix(MatrixOp::Rotate { quarter_turns })),
    {
        self.apply(MatrixOp::Rotate { quarter_turns });
    }

    /// Back to the identity transform.
    pub fn reset_to_identity(&mut self)
        requires
            old(self).well_formed(),
        ensures
            final(self).well_formed(),
            final(self).ops().len() == 0,
            final(self).matrix() == identity(),
    {
        self.apply(MatrixOp::Reset);
    }

    /// The operations composed since the last reset, oldest first.
    pub fn operations(&self) -> (r: &Vec<MatrixOp>)
        ensures
            r@ == self.ops(),
    {
        &self.ops
    }
}

/// The map of a well-formed transform divides by a positive number.
pub proof fn lemma_matrix_well_formed(ops: Seq<MatrixOp>)
    requires
        forall|i: int| 0 <= i < ops.len() ==> valid_op(#[trigger] ops[i]),
    ensures
        well_formed(matrix_of(ops)),
    decreases ops.len(),
{
    if ops.len() > 0 {
        let init = ops.drop_last();
        assert forall|i: int| 0 <= i < init.len() implies valid_op(#[trigger] init[i]) by {
            assert(init[i] == ops[i]);
        }
        lemma_matrix_well_formed(init);
        let m = matrix_of(init);
        let o = op_matrix(ops.last());
        assert(valid_op(ops[ops.len() - 1]));
        if !(ops.last() is Reset) {
            assert(o.den > 0) by {
                if let MatrixOp::Rotate { quarter_turns } = ops.last() {
                    let r = (quarter_turns as int) % 4;
                    assert(0 <= r < 4);
                }
            }
            assert(m.den * o.den > 0) by (nonlinear_arith)
                requires o.den > 0, m.den > 0;
        }
    }
}

/// On a view transform, scaling by two and then by one half gives back the
/// map one started from, and a reset always gives the identity.
pub proof fn lemma_view_scale_round_trip(t: ViewTransform, n: u32, d: u32)
    requires
        t.well_formed(),
        n > 0,
        d > 0,
    ensures
        same_map(
            matrix_of(t.ops().push(MatrixOp::Scale { numer: n, denom: d }).push(MatrixOp::Scale { numer: d, denom: n })),
            t.matrix(),
        ),
        apply_op(t.matrix(), MatrixOp::Reset) == identity(),
{
    let once = t.ops().push(MatrixOp::Scale { numer: n, denom: d });
    let twice = once.push(MatrixOp::Scale { numer: d, denom: n });
    assert(twice.drop_last() =~= once);
    assert(once.drop_last() =~= t.ops());
    assert(twice.last() == MatrixOp::Scale { numer: d, denom: n });
    assert(once.last() == MatrixOp::Scale { numer: n, denom: d });
    assert(matrix_of(once) == apply_op(t.matrix(), MatrixOp::Scale { numer: n, denom: d }));
    assert(matrix_of(twice) == apply_op(matrix_of(once), MatrixOp::Scale { numer: d, denom: n }));
    lemma_matrix_well_formed(t.ops());
    lemma_scale_inverse(t.matrix(), n, d);
}

/// A shrink-only scale factor `numer / denom` that makes content fit a
/// container.
#[derive(Copy, Clone, Debug, PartialEq, Eq, Structural)]
pub struct FitScale {
    pub numer: u64,
    pub denom: u64,
}

/// The largest factor, at most one, under which content of
/// `tw` by `th` pixels fits in a container of `cw` by `ch` pixels:
/// `min(1, cw / tw, ch / th)`.
pub open spec fn fit_scale(cw: int, ch: int, tw: int, th: int) -> (int, int) {
    if tw <= cw && th <= ch {
        (1, 1)
    } else if cw * th <= ch * tw {
        (cw, tw)
    } else {
        (ch, th)
    }
}

/// The scale that fits content of `content_width` by `content_height`
/// pixels into a container of `container_width` by `container_height`
/// pixels, keeping its aspect: content larger than the container on
/// either axis is shrunk by the tighter of the two axes, and smaller
/// content is never enlarged.
pub fn fit_to(container_width: u32, container_height: u32, content_width: u32, content_height: u32) -> (r: FitScale)
    requires
        container_width >= 1,
        container_height >= 1,
        content_width >= 1,
        content_height >= 1,
    ensures
        (r.numer as int, r.denom as int) == fit_scale(
            container_width as int,
            container_height as int,
            content_width as int,
            content_height as int,
        ),
        r.denom > 0,
        r.numer <= r.denom,
        r.numer * content_width <= container_width * r.denom,
        r.numer * content_height <= container_height * r.denom,
{
    let (cw, ch, tw, th) = (container_width as u64, container_height as u64, content_width as u64, content_height as u64);
    proof {
        assert(cw * th <= 0xffff_ffff * 0xffff_ffff) by (nonlinear_arith)
            requires cw <= 0xffff_ffff, th <= 0xffff_ffff;
        assert(ch * tw <= 0xffff_ffff * 0xffff_ffff) by (nonlinear_arith)
            requires ch <= 0xffff_ffff, tw <= 0xffff_ffff;
    }
    if tw <= cw && th <= ch {
        FitScale { numer: 1, denom: 1 }
    } else if cw * th <= ch * tw {
        proof {
            assert(cw * th <= cw * tw ==> th <= tw) by (nonlinear_arith)
                requires cw >= 1;
            assert(cw * th <= ch * tw && !(tw <= cw && th <= ch) ==> cw < tw) by (nonlinear_arith)
                requires cw >= 1, ch >= 1, tw >= 1, th >= 1;
            assert(cw * th <= ch * tw) by (nonlinear_arith)
                requires cw * th <= ch * tw;
        }
        FitScale { numer: cw, denom: tw }
    } else {
        proof {
            assert(!(cw * th <= ch * tw) && !(tw <= cw && th <= ch) ==> ch < th) by (nonlinear_arith)
                requires cw >= 1, ch >= 1, tw >= 1, th >= 1;
        }
        FitScale { numer: ch, denom: th }
    }
}

} // verus!
