use vstd::prelude::*;

verus! {

/// A UV sphere made of `stacks` horizontal bands, each split into `sectors` slices.
pub struct Sphere {
    pub sectors: u16,
    pub stacks: u16,
}

/// Index of the vertex at stack `y`, sector `x`: vertices are laid out row by row,
/// `sectors + 1` per row.
pub open spec fn vertex_index(sectors: int, y: int, x: int) -> int {
    y * (sectors + 1) + x
}

/// The indices emitted for the quad whose top-left corner is stack `y`, sector `x`:
/// the upper triangle is left out on the first stack and the lower one on the last.
pub open spec fn quad_indices(sectors: int, stacks: int, y: int, x: int) -> Seq<int> {
    let k1 = vertex_index(sectors, y, x);
    let k2 = vertex_index(sectors, y + 1, x);
    (if y != 0 { seq![k1, k2, k1 + 1] } else { Seq::empty() })
        + (if y != stacks - 1 { seq![k1 + 1, k2, k2 + 1] } else { Seq::empty() })
}

/// The indices of the first `n` quads of stack `y`.
pub open spec fn row_indices(sectors: int, stacks: int, y: int, n: nat) -> Seq<int>
    decreases n,
{
    if n == 0 {
        Seq::empty()
    } else {
        row_indices(sectors, stacks, y, (n - 1) as nat) + quad_indices(sectors, stacks, y, n - 1)
    }
}

/// The indices of the first `m` stacks.
pub open spec fn rows_indices(sectors: int, stacks: int, m: nat) -> Seq<int>
    decreases m,
{
    if m == 0 {
        Seq::empty()
    } else {
        rows_indices(sectors, stacks, (m - 1) as nat) + row_indices(
            sectors,
            stacks,
            m - 1,
            sectors as nat,
        )
    }
}

/// The whole index list of a sphere with these dimensions.
pub open spec fn sphere_indices(sectors: int, stacks: int) -> Seq<int> {
    rows_indices(sectors, stacks, stacks as nat)
}

/// Number of vertices of a sphere with these dimensions.
pub open spec fn vertex_count(sectors: int, stacks: int) -> int {
    (stacks + 1) * (sectors + 1)
}

/// Whether every index that generation computes fits in a `u16`.
pub open spec fn indices_fit(sectors: int, stacks: int) -> bool {
    stacks == 0 || sectors == 0 || stacks * (sectors + 1) + sectors <= u16::MAX
}

impl Sphere {
    pub fn new(sectors: u16, stacks: u16) -> (res: Self)
        ensures
            res.sectors == sectors,
            res.stacks == stacks,
    {
        Self { sectors, stacks }
    }

    /// Triangle-list indices into the vertices of this sphere.
    pub fn indices(&self) -> (res: Vec<u16>)
        requires
            indices_fit(self.sectors as int, self.stacks as int),
        ensures
            res@.len() == sphere_indices(self.sectors as int, self.stacks as int).len(),
            forall|i: int|
                0 <= i < res@.len() ==> res@[i] as int == #[trigger] sphere_indices(
                    self.sectors as int,
                    self.stacks as int,
                )[i],
            forall|i: int|
                0 <= i < res@.len() ==> (#[trigger] res@[i] as int) < vertex_count(
                    self.sectors as int,
                    self.stacks as int,
                ),
            res@.len() == (if self.stacks == 0 {
                0
            } else {
                6 * self.sectors * (self.stacks - 1)
            }),
    {
        let sectors = self.sectors;
        let stacks = self.stacks;
        let ghost s = sectors as int;
        let ghost st = stacks as int;
        let mut res: Vec<u16> = Vec::new();
        let mut y: u16 = 0;
        while y < stacks
            invariant
                sectors == self.sectors,
                stacks == self.stacks,
                s == sectors,
                st == stacks,
                indices_fit(s, st),
                y <= stacks,
                res@.len() == rows_indices(s, st, y as nat).len(),
                forall|i: int|
                    0 <= i < res@.len() ==> res@[i] as int == #[trigger] rows_indices(
                        s,
                        st,
                        y as nat,
                    )[i],
            decreases stacks - y,
        {
            let mut x: u16 = 0;
            while x < sectors
                invariant
                    sectors == self.sectors,
                    stacks == self.stacks,
                    s == sectors,
                    st == stacks,
                    indices_fit(s, st),
                    y < stacks,
                    x <= sectors,
                    res@.len() == rows_indices(s, st, y as nat).len() + row_indices(
                        s,
                        st,
                        y as int,
                        x as nat,
                    ).len(),
                    forall|i: int|
                        0 <= i < res@.len() ==> res@[i] as int == #[trigger] (rows_indices(
                            s,
                            st,
                            y as nat,
                        ) + row_indices(s, st, y as int, x as nat))[i],
                decreases sectors - x,
            {
                proof {
                    assert(s + 1 <= st * (s + 1)) by (nonlinear_arith)
                        requires
                            1 <= st,
                            s >= 0,
                    ;
                    assert((y as int + 1) * (s + 1) <= st * (s + 1)) by (nonlinear_arith)
                        requires
                            y < st,
                            s >= 0,
                    ;
                    assert(y as int * (s + 1) <= (y as int + 1) * (s + 1)) by (nonlinear_arith)
                        requires
                            s >= 0,
                            y >= 0,
                    ;
                }
                let k1: u16 = y * (sectors + 1) + x;
                let k2: u16 = (y + 1) * (sectors + 1) + x;
                let ghost prev = res@;
                let ghost prefix = rows_indices(s, st, y as nat) + row_indices(
                    s,
                    st,
                    y as int,
                    x as nat,
                );
                if y != 0 {
                    res.push(k1);
                    res.push(k2);
                    res.push(k1 + 1);
                }
                if y != stacks - 1 {
                    res.push(k1 + 1);
                    res.push(k2);
                    res.push(k2 + 1);
                }
                proof {
                    let q = quad_indices(s, st, y as int, x as int);
                    assert(row_indices(s, st, y as int, (x + 1) as nat) == row_indices(
                        s,
                        st,
                        y as int,
                        x as nat,
                    ) + q);
                    assert(rows_indices(s, st, y as nat) + row_indices(
                        s,
                        st,
                        y as int,
                        (x + 1) as nat,
                    ) =~= prefix + q);
                    assert(res@.len() == prefix.len() + q.len());
                    assert forall|i: int| 0 <= i < res@.len() implies res@[i] as int == #[trigger] (
                    prefix + q)[i] by {
                        if i < prefix.len() {
                            assert(res@[i] == prev[i]);
                        }
                    }
                }
                x = x + 1;
            }
            proof {
                assert(rows_indices(s, st, (y + 1) as nat) == rows_indices(s, st, y as nat)
                    + row_indices(s, st, y as int, s as nat));
            }
            y = y + 1;
        }
        proof {
            lemma_sphere_indices_in_range(s, st);
            lemma_sphere_indices_len(s, st);
            assert forall|i: int| 0 <= i < res@.len() implies (#[trigger] res@[i] as int)
                < vertex_count(s, st) by {
                assert(res@[i] as int == sphere_indices(s, st)[i]);
            }
        }
        res
    }
}

/// Length of the first `n` quads of a stack.
proof fn lemma_row_len(sectors: int, stacks: int, y: int, n: nat)
    requires
        0 <= y < stacks,
    ensures
        row_indices(sectors, stacks, y, n).len() == n * ((if y != 0 { 3int } else { 0 }) + (
        if y != stacks - 1 { 3int } else { 0 })),
    decreases n,
{
    let w = (if y != 0 { 3int } else { 0 }) + (if y != stacks - 1 { 3int } else { 0 });
    if n > 0 {
        lemma_row_len(sectors, stacks, y, (n - 1) as nat);
        assert(quad_indices(sectors, stacks, y, n - 1).len() == w);
        assert(row_indices(sectors, stacks, y, n).len() == row_indices(
            sectors,
            stacks,
            y,
            (n - 1) as nat,
        ).len() + w);
        assert((n - 1) * w + w == n * w) by (nonlinear_arith);
    } else {
        assert(n * w == 0) by (nonlinear_arith)
            requires
                n == 0,
        ;
    }
}

/// Length of the first `m` stacks: every stack but the first and the last holds six
/// indices per quad, the first and the last three each.
proof fn lemma_rows_len(sectors: nat, stacks: nat, m: nat)
    requires
        1 <= m <= stacks,
    ensures
        rows_indices(sectors as int, stacks as int, m).len() == 6 * sectors * (m - 1) + 3 * sectors
            - (if m == stacks { 3 * sectors } else { 0 }),
    decreases m,
{
    lemma_row_len(sectors as int, stacks as int, m - 1, sectors);
    if m == 1 {
        assert(rows_indices(sectors as int, stacks as int, 0) =~= Seq::empty());
        if stacks == 1 {
            assert(sectors * 0 == 0) by (nonlinear_arith);
        } else {
            assert(sectors * 3 == 3 * sectors) by (nonlinear_arith);
        }
    } else {
        lemma_rows_len(sectors, stacks, (m - 1) as nat);
        if m == stacks {
            assert(sectors * 3 == 3 * sectors) by (nonlinear_arith);
        } else {
            assert(sectors * 6 == 6 * sectors) by (nonlinear_arith);
        }
        assert(6 * sectors * (m - 2) + 6 * sectors == 6 * sectors * (m - 1)) by (nonlinear_arith);
    }
}

/// The index list holds six indices per quad, except on the two polar stacks,
/// which hold three.
pub proof fn lemma_sphere_indices_len(sectors: int, stacks: int)
    requires
        sectors >= 0,
        stacks >= 0,
    ensures
        sphere_indices(sectors, stacks).len() == (if stacks == 0 {
            0
        } else {
            6 * sectors * (stacks - 1)
        }),
{
    if stacks > 0 {
        lemma_rows_len(sectors as nat, stacks as nat, stacks as nat);
    }
}

/// Every index of the first `n` quads of stack `y` refers to an existing vertex.
proof fn lemma_row_in_range(sectors: int, stacks: int, y: int, n: nat)
    requires
        sectors >= 0,
        0 <= y < stacks,
        n <= sectors,
    ensures
        forall|i: int|
            0 <= i < row_indices(sectors, stacks, y, n).len() ==> 0 <= #[trigger] row_indices(
                sectors,
                stacks,
                y,
                n,
            )[i] < vertex_count(sectors, stacks),
    decreases n,
{
    if n > 0 {
        lemma_row_in_range(sectors, stacks, y, (n - 1) as nat);
        let x = n - 1;
        assert((y + 1) * (sectors + 1) + x + 1 < (stacks + 1) * (sectors + 1)) by (nonlinear_arith)
            requires
                0 <= y < stacks,
                0 <= x < sectors,
        ;
        assert(0 <= y * (sectors + 1)) by (nonlinear_arith)
            requires
                y >= 0,
                sectors >= 0,
        ;
        assert(y * (sectors + 1) + sectors + 1 == (y + 1) * (sectors + 1)) by (nonlinear_arith);
        let prev = row_indices(sectors, stacks, y, (n - 1) as nat);
        let q = quad_indices(sectors, stacks, y, x);
        assert forall|i: int|
            0 <= i < row_indices(sectors, stacks, y, n).len() implies 0 <= #[trigger] row_indices(
            sectors,
            stacks,
            y,
            n,
        )[i] < vertex_count(sectors, stacks) by {
            if i >= prev.len() {
                assert(row_indices(sectors, stacks, y, n)[i] == q[i - prev.len()]);
            } else {
                assert(row_indices(sectors, stacks, y, n)[i] == prev[i]);
            }
        }
    }
}

proof fn lemma_rows_in_range(sectors: int, stacks: int, m: nat)
    requires
        sectors >= 0,
        m <= stacks,
    ensures
        forall|i: int|
            0 <= i < rows_indices(sectors, stacks, m).len() ==> 0 <= #[trigger] rows_indices(
                sectors,
                stacks,
                m,
            )[i] < vertex_count(sectors, stacks),
    decreases m,
{
    if m > 0 {
        lemma_rows_in_range(sectors, stacks, (m - 1) as nat);
        lemma_row_in_range(sectors, stacks, m - 1, sectors as nat);
        let prev = rows_indices(sectors, stacks, (m - 1) as nat);
        let r = row_indices(sectors, stacks, m - 1, sectors as nat);
        assert forall|i: int|
            0 <= i < rows_indices(sectors, stacks, m).len() implies 0 <= #[trigger] rows_indices(
            sectors,
            stacks,
            m,
        )[i] < vertex_count(sectors, stacks) by {
            if i >= prev.len() {
                assert(rows_indices(sectors, stacks, m)[i] == r[i - prev.len()]);
            } else {
                assert(rows_indices(sectors, stacks, m)[i] == prev[i]);
            }
        }
    }
}

/// Every index of a sphere's index list refers to one of its
/// `(stacks + 1) * (sectors + 1)` vertices.
pub proof fn lemma_sphere_indices_in_range(sectors: int, stacks: int)
    requires
        sectors >= 0,
        stacks >= 0,
    ensures
        forall|i: int|
            0 <= i < sphere_indices(sectors, stacks).len() ==> 0 <= #[trigger] sphere_indices(
                sectors,
                stacks,
            )[i] < vertex_count(sectors, stacks),
{
    lemma_rows_in_range(sectors, stacks, stacks as nat);
}

/// Whether the `t`-th triangle of an index list joins three distinct vertices.
pub open spec fn triangle_at(s: Seq<int>, t: int) -> bool {
    &&& s[3 * t] != s[3 * t + 1]
    &&& s[3 * t + 1] != s[3 * t + 2]
    &&& s[3 * t] != s[3 * t + 2]
}

/// Whether an index list is a list of whole triangles, each of three distinct vertices.
pub open spec fn whole_triangles(s: Seq<int>) -> bool {
    &&& s.len() % 3 == 0
    &&& forall|t: int| 0 <= t < s.len() / 3 ==> #[trigger] triangle_at(s, t)
}

proof fn lemma_whole_triangles_concat(a: Seq<int>, b: Seq<int>)
    requires
        whole_triangles(a),
        whole_triangles(b),
    ensures
        whole_triangles(a + b),
{
    let n = a.len() / 3;
    assert(a.len() == 3 * n);
    assert((a + b).len() / 3 == n + b.len() / 3);
    assert forall|t: int| 0 <= t < (a + b).len() / 3 implies #[trigger] triangle_at(a + b, t) by {
        if t < n {
            assert(triangle_at(a, t));
            assert((a + b)[3 * t] == a[3 * t]);
            assert((a + b)[3 * t + 1] == a[3 * t + 1]);
            assert((a + b)[3 * t + 2] == a[3 * t + 2]);
        } else {
            let u = t - n;
            assert(triangle_at(b, u));
            assert((a + b)[3 * t] == b[3 * u]);
            assert((a + b)[3 * t + 1] == b[3 * u + 1]);
            assert((a + b)[3 * t + 2] == b[3 * u + 2]);
        }
    }
}

proof fn lemma_quad_triangles(sectors: int, stacks: int, y: int, x: int)
    requires
        0 <= x < sectors,
    ensures
        whole_triangles(quad_indices(sectors, stacks, y, x)),
{
    let k1 = vertex_index(sectors, y, x);
    let k2 = vertex_index(sectors, y + 1, x);
    assert(k2 == k1 + sectors + 1) by (nonlinear_arith)
        requires
            k1 == y * (sectors + 1) + x,
            k2 == (y + 1) * (sectors + 1) + x,
    ;
    let first: Seq<int> = seq![k1, k2, k1 + 1];
    let second: Seq<int> = seq![k1 + 1, k2, k2 + 1];
    assert(first[0] == k1 && first[1] == k2 && first[2] == k1 + 1);
    assert(second[0] == k1 + 1 && second[1] == k2 && second[2] == k2 + 1);
    assert(triangle_at(first, 0));
    assert(triangle_at(second, 0));
    let upper: Seq<int> = if y != 0 { first } else { Seq::empty() };
    let lower: Seq<int> = if y != stacks - 1 { second } else { Seq::empty() };
    assert(whole_triangles(upper));
    assert(whole_triangles(lower));
    lemma_whole_triangles_concat(upper, lower);
    assert(quad_indices(sectors, stacks, y, x) == upper + lower);
}

proof fn lemma_row_triangles(sectors: int, stacks: int, y: int, n: nat)
    requires
        n <= sectors,
    ensures
        whole_triangles(row_indices(sectors, stacks, y, n)),
    decreases n,
{
    if n == 0 {
        assert(whole_triangles(Seq::<int>::empty()));
    } else {
        lemma_row_triangles(sectors, stacks, y, (n - 1) as nat);
        lemma_quad_triangles(sectors, stacks, y, n - 1);
        lemma_whole_triangles_concat(
            row_indices(sectors, stacks, y, (n - 1) as nat),
            quad_indices(sectors, stacks, y, n - 1),
        );
    }
}

proof fn lemma_rows_triangles(sectors: int, stacks: int, m: nat)
    requires
        sectors >= 0,
    ensures
        whole_triangles(rows_indices(sectors, stacks, m)),
    decreases m,
{
    if m == 0 {
        assert(whole_triangles(Seq::<int>::empty()));
    } else {
        lemma_rows_triangles(sectors, stacks, (m - 1) as nat);
        lemma_row_triangles(sectors, stacks, m - 1, sectors as nat);
        lemma_whole_triangles_concat(
            rows_indices(sectors, stacks, (m - 1) as nat),
            row_indices(sectors, stacks, m - 1, sectors as nat),
        );
    }
}

/// A sphere's index list is a list of whole triangles, and no triangle repeats a
/// vertex: none of them is degenerate.
pub proof fn lemma_sphere_triangles(sectors: int, stacks: int)
    requires
        sectors >= 0,
        stacks >= 0,
    ensures
        whole_triangles(sphere_indices(sectors, stacks)),
{
    lemma_rows_triangles(sectors, stacks, stacks as nat);
}

} // verus!
