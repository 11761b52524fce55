use vstd::prelude::*;

verus! {

/// Whether the cloud at offset `(dx, dz)` (in cloud widths) lies within `radius`.
pub open spec fn in_disk(radius: int, dx: int, dz: int) -> bool {
    dx * dx + dz * dz <= radius * radius
}

/// The clouds of row `dx` among the first `n` columns, from `dz = -radius` on.
pub open spec fn disk_row(radius: int, dx: int, n: nat) -> Seq<(i32, i32)>
    decreases n,
{
    if n == 0 {
        Seq::empty()
    } else {
        let dz = -radius + n - 1;
        disk_row(radius, dx, (n - 1) as nat) + if in_disk(radius, dx, dz) {
            seq![(dx as i32, dz as i32)]
        } else {
            Seq::empty()
        }
    }
}

/// The clouds of the first `m` rows, from `dx = -radius` on.
pub open spec fn disk_rows(radius: int, m: nat) -> Seq<(i32, i32)>
    decreases m,
{
    if m == 0 {
        Seq::empty()
    } else {
        disk_rows(radius, (m - 1) as nat) + disk_row(
            radius,
            -radius + m - 1,
            (2 * radius + 1) as nat,
        )
    }
}

/// The cloud offsets around the player: every `(dx, dz)` with both coordinates in
/// `-radius..=radius` and within the circle of that radius, row by row.
pub open spec fn cloud_offsets(radius: int) -> Seq<(i32, i32)> {
    if radius < 0 {
        Seq::empty()
    } else {
        disk_rows(radius, (2 * radius + 1) as nat)
    }
}

/// How many cloud widths the clouds reach: the render distance in blocks divided by the
/// width of a cloud, cut to an `i32`.
pub fn cloud_radius(render_distance: u64, cloud_width: u64) -> (res: i32)
    requires
        cloud_width > 0,
    ensures
        res == (render_distance / cloud_width) as i32,
{
    (render_distance / cloud_width) as i32
}

proof fn lemma_row_in_disk(radius: int, dx: int, n: nat)
    requires
        0 <= radius <= 32767,
        -radius <= dx <= radius,
        n <= 2 * radius + 1,
    ensures
        forall|i: int|
            0 <= i < disk_row(radius, dx, n).len() ==> in_disk(
                radius,
                #[trigger] disk_row(radius, dx, n)[i].0 as int,
                disk_row(radius, dx, n)[i].1 as int,
            ),
    decreases n,
{
    if n > 0 {
        lemma_row_in_disk(radius, dx, (n - 1) as nat);
        let prev = disk_row(radius, dx, (n - 1) as nat);
        assert forall|i: int| 0 <= i < disk_row(radius, dx, n).len() implies in_disk(
            radius,
            #[trigger] disk_row(radius, dx, n)[i].0 as int,
            disk_row(radius, dx, n)[i].1 as int,
        ) by {
            if i < prev.len() {
                assert(disk_row(radius, dx, n)[i] == prev[i]);
            } else {
                let dz = -radius + n - 1;
                assert(disk_row(radius, dx, n)[i] == (dx as i32, dz as i32));
            }
        }
    }
}

/// The offsets of each cloud, placed on a square grid and kept where they fall within
/// the circle of `radius`.
pub fn instances(radius: i32) -> (res: Vec<(i32, i32)>)
    requires
        radius > i32::MIN,
        radius <= 32767,
    ensures
        res@ == cloud_offsets(radius as int),
        forall|i: int|
            0 <= i < res@.len() ==> in_disk(
                radius as int,
                #[trigger] res@[i].0 as int,
                res@[i].1 as int,
            ),
{
    proof {
        lemma_cloud_offsets_in_disk(radius as int);
    }
    let mut res: Vec<(i32, i32)> = Vec::new();
    if radius < 0 {
        return res;
    }
    let ghost r = radius as int;
    proof {
        assert(r * r <= 32767 * 32767) by (nonlinear_arith)
            requires
                0 <= r <= 32767,
        ;
    }
    let r2: i32 = radius * radius;
    let mut dx: i32 = -radius;
    while dx <= radius
        invariant
            r == radius,
            0 <= r <= 32767,
            r2 == r * r,
            -r <= dx <= r + 1,
            res@ == disk_rows(r, (dx + r) as nat),
        decreases r + 1 - dx,
    {
        let mut dz: i32 = -radius;
        while dz <= radius
            invariant
                r == radius,
                0 <= r <= 32767,
                r2 == r * r,
                -r <= dx <= r,
                -r <= dz <= r + 1,
                res@ == disk_rows(r, (dx + r) as nat) + disk_row(r, dx as int, (dz + r) as nat),
            decreases r + 1 - dz,
        {
            proof {
                assert(dx * dx <= 32767 * 32767) by (nonlinear_arith)
                    requires
                        -32767 <= dx <= 32767,
                ;
                assert(dz * dz <= 32767 * 32767) by (nonlinear_arith)
                    requires
                        -32767 <= dz <= 32767,
                ;
                assert(0 <= dx * dx) by (nonlinear_arith);
                assert(0 <= dz * dz) by (nonlinear_arith);
            }
            let ghost before = res@;
            if dx * dx + dz * dz <= r2 {
                res.push((dx, dz));
            }
            proof {
                let n = (dz + r + 1) as nat;
                assert(disk_row(r, dx as int, n) == disk_row(r, dx as int, (n - 1) as nat) + if in_disk(
                    r,
                    dx as int,
                    dz as int,
                ) {
                    seq![(dx as i32, dz as i32)]
                } else {
                    Seq::empty()
                });
                assert(res@ =~= disk_rows(r, (dx + r) as nat) + disk_row(r, dx as int, n));
            }
            dz = dz + 1;
        }
        proof {
            assert(disk_rows(r, (dx + r + 1) as nat) == disk_rows(r, (dx + r) as nat) + disk_row(
                r,
                dx as int,
                (2 * r + 1) as nat,
            ));
        }
        dx = dx + 1;
    }
    res
}

/// Every cloud offset lies within the circle of the radius.
pub proof fn lemma_cloud_offsets_in_disk(radius: int)
    requires
        radius <= 32767,
    ensures
        forall|i: int|
            0 <= i < cloud_offsets(radius).len() ==> in_disk(
                radius,
                #[trigger] cloud_offsets(radius)[i].0 as int,
                cloud_offsets(radius)[i].1 as int,
            ),
{
    if radius >= 0 {
        lemma_rows_in_disk(radius, (2 * radius + 1) as nat);
    }
}

proof fn lemma_rows_in_disk(radius: int, m: nat)
    requires
        0 <= radius <= 32767,
        m <= 2 * radius + 1,
    ensures
        forall|i: int|
            0 <= i < disk_rows(radius, m).len() ==> in_disk(
                radius,
                #[trigger] disk_rows(radius, m)[i].0 as int,
                disk_rows(radius, m)[i].1 as int,
            ),
    decreases m,
{
    if m > 0 {
        lemma_rows_in_disk(radius, (m - 1) as nat);
        let dx = -radius + m - 1;
        lemma_row_in_disk(radius, dx, (2 * radius + 1) as nat);
        let prev = disk_rows(radius, (m - 1) as nat);
        let row = disk_row(radius, dx, (2 * radius + 1) as nat);
        assert forall|i: int| 0 <= i < disk_rows(radius, m).len() implies in_disk(
            radius,
            #[trigger] disk_rows(radius, m)[i].0 as int,
            disk_rows(radius, m)[i].1 as int,
        ) by {
            if i < prev.len() {
                assert(disk_rows(radius, m)[i] == prev[i]);
            } else {
                assert(disk_rows(radius, m)[i] == row[i - prev.len()]);
            }
        }
    }
}

} // verus!
