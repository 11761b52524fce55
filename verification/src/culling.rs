use crate::fx::{fx_map_get, fx_map_insert, fx_map_new};
use crate::world::{chunk_key, lemma_chunk_key_injective, spec_chunk_key, ChunkCoords};
use rustc_hash::FxHashMap;
use vstd::prelude::*;

verus! {

/// The distance between two integers.
pub open spec fn gap(a: i32, b: i32) -> int {
    if a >= b {
        a - b
    } else {
        b - a
    }
}

/// The number of chunk steps from `o` to `c` along the axes.
pub open spec fn steps(c: ChunkCoords, o: ChunkCoords) -> int {
    gap(c.0, o.0) + gap(c.1, o.1) + gap(c.2, o.2)
}

/// Whether `d` is the offset of a face neighbour: one step along one axis.
pub open spec fn is_side_delta(d: ChunkCoords) -> bool {
    ||| d == (1i32, 0i32, 0i32)
    ||| d == (-1i32, 0i32, 0i32)
    ||| d == (0i32, 1i32, 0i32)
    ||| d == (0i32, -1i32, 0i32)
    ||| d == (0i32, 0i32, 1i32)
    ||| d == (0i32, 0i32, -1i32)
}

/// One term of the dot product of a face offset with a displacement: the displacement
/// `x` itself, its negation, or nothing, as the offset's component `d` is 1, -1 or 0.
pub open spec fn signed(d: i32, x: int) -> int {
    if d > 0 {
        x
    } else if d < 0 {
        -x
    } else {
        0
    }
}

/// Whether stepping from `c` by the face offset `d` leads away from `o` or across it:
/// the dot product of `d` with `c - o` is not negative.
pub open spec fn outward(d: ChunkCoords, c: ChunkCoords, o: ChunkCoords) -> bool {
    signed(d.0, c.0 - o.0) + signed(d.1, c.1 - o.1) + signed(d.2, c.2 - o.2) >= 0
}

/// The chunk next to `c` across the face with offset `d`.
pub open spec fn beside(c: ChunkCoords, d: ChunkCoords) -> ChunkCoords {
    ((c.0 + d.0) as i32, (c.1 + d.1) as i32, (c.2 + d.2) as i32)
}

/// Whether `c` lies within `r` chunks of `o` along each axis, and off the edge of the
/// coordinate range, so that its neighbours have coordinates too.
pub open spec fn near(c: ChunkCoords, o: ChunkCoords, r: nat) -> bool {
    &&& gap(c.0, o.0) <= r
    &&& gap(c.1, o.1) <= r
    &&& gap(c.2, o.2) <= r
    &&& i32::MIN < c.0 < i32::MAX
    &&& i32::MIN < c.1 < i32::MAX
    &&& i32::MIN < c.2 < i32::MAX
}

/// Whether face `e` of the `j`-th chunk of `seen` borders an earlier chunk of `seen`
/// that lies inward of it: the walk could enter the `j`-th chunk through face `e`
/// (`opposite[t]` is the face entered by a step across face `t`).
pub open spec fn entered(
    seen: Seq<ChunkCoords>,
    j: int,
    e: usize,
    origin: ChunkCoords,
    deltas: Seq<ChunkCoords>,
    opposite: Seq<usize>,
) -> bool {
    exists|k: int, t: int|
        #![trigger seen[k], deltas[t]]
        {
            &&& 0 <= k < j
            &&& 0 <= t < deltas.len()
            &&& seen[j] == beside(seen[k], deltas[t])
            &&& outward(deltas[t], seen[k], origin)
            &&& opposite[t] == e
        }
}

/// Whether the `i`-th chunk of `seen` was reached from an earlier one: it passes the view
/// test, and it lies across face `s` of an earlier chunk, outward from `origin`, where
/// light can leave that earlier chunk through face `s` from a face through which that
/// chunk was entered (the start chunk lets light out through every face).
pub open spec fn reached<V: Fn(ChunkCoords) -> bool, C: Fn(ChunkCoords, usize, usize) -> bool>(
    seen: Seq<ChunkCoords>,
    i: int,
    origin: ChunkCoords,
    deltas: Seq<ChunkCoords>,
    opposite: Seq<usize>,
    in_view: V,
    connected: C,
) -> bool {
    &&& call_ensures(in_view, (seen[i],), true)
    &&& exists|j: int, s: int|
        #![trigger seen[j], deltas[s]]
        {
            &&& 0 <= j < i
            &&& 0 <= s < deltas.len()
            &&& seen[i] == beside(seen[j], deltas[s])
            &&& outward(deltas[s], seen[j], origin)
            &&& (seen[j] == origin || exists|e: usize|
                e < deltas.len() && entered(seen, j, e, origin, deltas, opposite)
                    && #[trigger] call_ensures(connected, (seen[j], e, s as usize), true))
        }
}

/// Whether the view test accepts `c` whatever it answers with: every answer it can give
/// is yes.
pub open spec fn surely_in_view<V: Fn(ChunkCoords) -> bool>(in_view: V, c: ChunkCoords) -> bool {
    forall|r: bool| #[trigger] call_ensures(in_view, (c,), r) ==> r
}

/// Whether light surely passes chunk `c` from face `e` to face `s`.
pub open spec fn surely_connected<C: Fn(ChunkCoords, usize, usize) -> bool>(
    connected: C,
    c: ChunkCoords,
    e: usize,
    s: usize,
) -> bool {
    forall|r: bool| #[trigger] call_ensures(connected, (c, e, s), r) ==> r
}

/// Whether light surely reaches the `j`-th chunk of `seen` through its face `e`: the
/// chunk surely passes the view test, and lies across face `t` of an earlier chunk,
/// outward from `origin`, with `opposite[t] == e`, where that earlier chunk is `origin` or
/// light surely reaches it through a face from which it surely passes to face `t`.
pub open spec fn lit_through<V: Fn(ChunkCoords) -> bool, C: Fn(ChunkCoords, usize, usize) -> bool>(
    seen: Seq<ChunkCoords>,
    j: int,
    e: usize,
    origin: ChunkCoords,
    deltas: Seq<ChunkCoords>,
    opposite: Seq<usize>,
    in_view: V,
    connected: C,
) -> bool
    decreases j,
{
    &&& 0 <= j < seen.len()
    &&& surely_in_view(in_view, seen[j])
    &&& exists|k: int, t: int|
        #![trigger seen[k], deltas[t]]
        {
            &&& 0 <= k < j
            &&& 0 <= t < deltas.len()
            &&& seen[j] == beside(seen[k], deltas[t])
            &&& outward(deltas[t], seen[k], origin)
            &&& opposite[t] == e
            &&& (seen[k] == origin || exists|f: usize|
                f < deltas.len() && lit_through(
                    seen,
                    k,
                    f,
                    origin,
                    deltas,
                    opposite,
                    in_view,
                    connected,
                ) && #[trigger] surely_connected(connected, seen[k], f, t as usize))
        }
}

/// Whether light surely leaves the `j`-th chunk of `seen` across its face `s` into a
/// chunk the view test surely accepts: the face leads outward, and the chunk is `origin`
/// or light surely reaches it through a face from which it surely passes to face `s`.
pub open spec fn lights_next<V: Fn(ChunkCoords) -> bool, C: Fn(ChunkCoords, usize, usize) -> bool>(
    seen: Seq<ChunkCoords>,
    j: int,
    s: int,
    origin: ChunkCoords,
    deltas: Seq<ChunkCoords>,
    opposite: Seq<usize>,
    in_view: V,
    connected: C,
) -> bool {
    &&& outward(deltas[s], seen[j], origin)
    &&& surely_in_view(in_view, beside(seen[j], deltas[s]))
    &&& (seen[j] == origin || exists|e: usize|
        e < deltas.len() && lit_through(seen, j, e, origin, deltas, opposite, in_view, connected)
            && #[trigger] surely_connected(connected, seen[j], e, s as usize))
}

/// Whether face `e` is marked in the face set `m`.
pub open spec fn has_face(m: u8, e: usize) -> bool {
    (m >> (e as u8)) & 1u8 == 1u8
}

proof fn lemma_face_sets(m: u8, e: u8, f: u8)
    by (bit_vector)
    requires
        e < 8,
        f < 8,
    ensures
        ((m | (1u8 << e)) >> f) & 1u8 == 1u8 <==> ((m >> f) & 1u8 == 1u8 || f == e),
        ((1u8 << e) >> f) & 1u8 == 1u8 <==> f == e,
        (0u8 >> f) & 1u8 != 1u8,
{
}

/// Appending a chunk keeps what held of the earlier ones.
proof fn lemma_walk_push<V: Fn(ChunkCoords) -> bool, C: Fn(ChunkCoords, usize, usize) -> bool>(
    seen: Seq<ChunkCoords>,
    x: ChunkCoords,
    origin: ChunkCoords,
    deltas: Seq<ChunkCoords>,
    opposite: Seq<usize>,
    in_view: V,
    connected: C,
)
    ensures
        forall|j: int, e: usize|
            0 <= j < seen.len() && #[trigger] entered(seen, j, e, origin, deltas, opposite)
                ==> entered(seen.push(x), j, e, origin, deltas, opposite),
        forall|i: int|
            0 <= i < seen.len() && #[trigger] reached(
                seen,
                i,
                origin,
                deltas,
                opposite,
                in_view,
                connected,
            ) ==> reached(seen.push(x), i, origin, deltas, opposite, in_view, connected),
{
    let longer = seen.push(x);
    assert forall|j: int, e: usize|
        0 <= j < seen.len() && #[trigger] entered(
            seen,
            j,
            e,
            origin,
            deltas,
            opposite,
        ) implies entered(longer, j, e, origin, deltas, opposite) by {
        let (k, t) = choose|k: int, t: int|
            #![trigger seen[k], deltas[t]]
            {
                &&& 0 <= k < j
                &&& 0 <= t < deltas.len()
                &&& seen[j] == beside(seen[k], deltas[t])
                &&& outward(deltas[t], seen[k], origin)
                &&& opposite[t] == e
            };
        assert(longer[k] == seen[k]);
        assert(longer[j] == seen[j]);
    }
    assert forall|i: int|
        0 <= i < seen.len() && #[trigger] reached(
            seen,
            i,
            origin,
            deltas,
            opposite,
            in_view,
            connected,
        ) implies reached(longer, i, origin, deltas, opposite, in_view, connected) by {
        let (j, s) = choose|j: int, s: int|
            #![trigger seen[j], deltas[s]]
            {
                &&& 0 <= j < i
                &&& 0 <= s < deltas.len()
                &&& seen[i] == beside(seen[j], deltas[s])
                &&& outward(deltas[s], seen[j], origin)
                &&& (seen[j] == origin || exists|e: usize|
                    e < deltas.len() && entered(seen, j, e, origin, deltas, opposite)
                        && #[trigger] call_ensures(connected, (seen[j], e, s as usize), true))
            };
        assert(longer[j] == seen[j]);
        assert(longer[i] == seen[i]);
        if seen[j] != origin {
            let e = choose|e: usize|
                e < deltas.len() && entered(seen, j, e, origin, deltas, opposite)
                    && #[trigger] call_ensures(connected, (seen[j], e, s as usize), true);
            assert(entered(longer, j, e, origin, deltas, opposite));
        }
    }
}

/// Whether the view test accepts only chunks near `origin`, within `r` chunks along each
/// axis: the drawn area is bounded.
pub open spec fn view_within<V: Fn(ChunkCoords) -> bool>(
    in_view: V,
    origin: ChunkCoords,
    r: nat,
) -> bool {
    forall|c: ChunkCoords| #[trigger] call_ensures(in_view, (c,), true) ==> near(c, origin, r)
}

proof fn lemma_step_away(d: ChunkCoords, c: ChunkCoords, o: ChunkCoords)
    requires
        is_side_delta(d),
        outward(d, c, o),
        i32::MIN < c.0 < i32::MAX,
        i32::MIN < c.1 < i32::MAX,
        i32::MIN < c.2 < i32::MAX,
    ensures
        steps(beside(c, d), o) == steps(c, o) + 1,
{
}

/// Whether the face offset `d` leads outward from `o` at `c`.
fn is_outward(d: ChunkCoords, c: ChunkCoords, o: ChunkCoords) -> (res: bool)
    requires
        is_side_delta(d),
    ensures
        res == outward(d, c, o),
{
    if d.0 != 0 {
        if d.0 > 0 {
            c.0 >= o.0
        } else {
            c.0 <= o.0
        }
    } else if d.1 != 0 {
        if d.1 > 0 {
            c.1 >= o.1
        } else {
            c.1 <= o.1
        }
    } else if d.2 > 0 {
        c.2 >= o.2
    } else {
        c.2 <= o.2
    }
}

/// Whether face `face` of chunk `c` is marked entered in `entries`.
pub open spec fn marked(entries: Map<u128, u8>, c: ChunkCoords, face: usize) -> bool {
    entries.contains_key(spec_chunk_key(c)) && has_face(entries[spec_chunk_key(c)], face)
}

/// Whether the step out of the `j`-th chunk across face `s` has been taken where light
/// surely goes: its neighbour is in `seen`, marked entered through the opposite face.
#[verifier::opaque]
pub open spec fn step_done<V: Fn(ChunkCoords) -> bool, C: Fn(ChunkCoords, usize, usize) -> bool>(
    seen: Seq<ChunkCoords>,
    entries: Map<u128, u8>,
    j: int,
    s: int,
    origin: ChunkCoords,
    deltas: Seq<ChunkCoords>,
    opposite: Seq<usize>,
    in_view: V,
    connected: C,
) -> bool {
    lights_next(seen, j, s, origin, deltas, opposite, in_view, connected) ==> {
        &&& exists|a: int| 0 <= a < seen.len() && seen[a] == beside(seen[j], deltas[s])
        &&& marked(entries, beside(seen[j], deltas[s]), opposite[s])
    }
}

/// Whether `new` keeps every key of `old` and every face marked there.
pub open spec fn grows(old: Map<u128, u8>, new: Map<u128, u8>) -> bool {
    forall|k: u128|
        #[trigger] old.contains_key(k) ==> {
            &&& new.contains_key(k)
            &&& forall|f: usize| f < 8 && #[trigger] has_face(old[k], f) ==> has_face(new[k], f)
        }
}

/// Whether the step out of chunk `c` across face `s2` is one the walk has finished, with
/// the chunks of `layer` in `finished`, and the chunk `at` being worked on up to face `s`.
#[verifier::opaque]
pub open spec fn processed(
    c: ChunkCoords,
    s2: int,
    origin: ChunkCoords,
    layer: int,
    finished: Seq<ChunkCoords>,
    at: ChunkCoords,
    s: int,
) -> bool {
    ||| steps(c, origin) < layer
    ||| finished.contains(c)
    ||| (c == at && s2 < s)
}

proof fn lemma_lit_prefix<V: Fn(ChunkCoords) -> bool, C: Fn(ChunkCoords, usize, usize) -> bool>(
    short: Seq<ChunkCoords>,
    long: Seq<ChunkCoords>,
    j: int,
    e: usize,
    origin: ChunkCoords,
    deltas: Seq<ChunkCoords>,
    opposite: Seq<usize>,
    in_view: V,
    connected: C,
)
    requires
        short.len() <= long.len(),
        forall|a: int| 0 <= a < short.len() ==> #[trigger] long[a] == short[a],
        0 <= j < short.len(),
    ensures
        lit_through(long, j, e, origin, deltas, opposite, in_view, connected) == lit_through(
            short,
            j,
            e,
            origin,
            deltas,
            opposite,
            in_view,
            connected,
        ),
    decreases j,
{
    if lit_through(long, j, e, origin, deltas, opposite, in_view, connected) {
        let (k, t) = choose|k: int, t: int|
            #![trigger long[k], deltas[t]]
            {
                &&& 0 <= k < j
                &&& 0 <= t < deltas.len()
                &&& long[j] == beside(long[k], deltas[t])
                &&& outward(deltas[t], long[k], origin)
                &&& opposite[t] == e
                &&& (long[k] == origin || exists|f: usize|
                    f < deltas.len() && lit_through(
                        long,
                        k,
                        f,
                        origin,
                        deltas,
                        opposite,
                        in_view,
                        connected,
                    ) && #[trigger] surely_connected(connected, long[k], f, t as usize))
            };
        assert(long[k] == short[k]);
        assert(long[j] == short[j]);
        if long[k] != origin {
            let f = choose|f: usize|
                f < deltas.len() && lit_through(long, k, f, origin, deltas, opposite, in_view, connected)
                    && #[trigger] surely_connected(connected, long[k], f, t as usize);
            lemma_lit_prefix(short, long, k, f, origin, deltas, opposite, in_view, connected);
        }
    }
    if lit_through(short, j, e, origin, deltas, opposite, in_view, connected) {
        let (k, t) = choose|k: int, t: int|
            #![trigger short[k], deltas[t]]
            {
                &&& 0 <= k < j
                &&& 0 <= t < deltas.len()
                &&& short[j] == beside(short[k], deltas[t])
                &&& outward(deltas[t], short[k], origin)
                &&& opposite[t] == e
                &&& (short[k] == origin || exists|f: usize|
                    f < deltas.len() && lit_through(
                        short,
                        k,
                        f,
                        origin,
                        deltas,
                        opposite,
                        in_view,
                        connected,
                    ) && #[trigger] surely_connected(connected, short[k], f, t as usize))
            };
        assert(long[k] == short[k]);
        assert(long[j] == short[j]);
        if short[k] != origin {
            let f = choose|f: usize|
                f < deltas.len() && lit_through(short, k, f, origin, deltas, opposite, in_view, connected)
                    && #[trigger] surely_connected(connected, short[k], f, t as usize);
            lemma_lit_prefix(short, long, k, f, origin, deltas, opposite, in_view, connected);
        }
    }
}

/// Finished steps stay finished as the walk appends chunks and marks faces.
proof fn lemma_keep_done<V: Fn(ChunkCoords) -> bool, C: Fn(ChunkCoords, usize, usize) -> bool>(
    short: Seq<ChunkCoords>,
    e1: Map<u128, u8>,
    long: Seq<ChunkCoords>,
    e2: Map<u128, u8>,
    origin: ChunkCoords,
    deltas: Seq<ChunkCoords>,
    opposite: Seq<usize>,
    in_view: V,
    connected: C,
    layer: int,
    finished: Seq<ChunkCoords>,
    at: ChunkCoords,
    s: int,
)
    requires
        short.len() <= long.len(),
        forall|a: int| 0 <= a < short.len() ==> #[trigger] long[a] == short[a],
        forall|a: int| short.len() <= a < long.len() ==> steps(#[trigger] long[a], origin) >= layer
            && !finished.contains(long[a]) && long[a] != at,
        grows(e1, e2),
        forall|t: int| 0 <= t < opposite.len() ==> #[trigger] opposite[t] < 8,
        deltas.len() == opposite.len(),
        forall|j: int, s2: int|
            0 <= j < short.len() && 0 <= s2 < deltas.len() && processed(
                short[j],
                s2,
                origin,
                layer,
                finished,
                at,
                s,
            ) ==> #[trigger] step_done(
                short,
                e1,
                j,
                s2,
                origin,
                deltas,
                opposite,
                in_view,
                connected,
            ),
    ensures
        forall|j: int, s2: int|
            0 <= j < long.len() && 0 <= s2 < deltas.len() && processed(
                long[j],
                s2,
                origin,
                layer,
                finished,
                at,
                s,
            ) ==> #[trigger] step_done(
                long,
                e2,
                j,
                s2,
                origin,
                deltas,
                opposite,
                in_view,
                connected,
            ),
{
    assert forall|j: int, s2: int|
        0 <= j < long.len() && 0 <= s2 < deltas.len() && processed(
            long[j],
            s2,
            origin,
            layer,
            finished,
            at,
            s,
        ) implies #[trigger] step_done(
        long,
        e2,
        j,
        s2,
        origin,
        deltas,
        opposite,
        in_view,
        connected,
    ) by {
        reveal(step_done);
        reveal(processed);
        if j >= short.len() {
            assert(!processed(long[j], s2, origin, layer, finished, at, s));
        }
        assert(long[j] == short[j]);
        assert(step_done(short, e1, j, s2, origin, deltas, opposite, in_view, connected));
        if lights_next(long, j, s2, origin, deltas, opposite, in_view, connected) {
            if long[j] != origin {
                let e = choose|e: usize|
                    e < deltas.len() && lit_through(
                        long,
                        j,
                        e,
                        origin,
                        deltas,
                        opposite,
                        in_view,
                        connected,
                    ) && #[trigger] surely_connected(connected, long[j], e, s2 as usize);
                lemma_lit_prefix(short, long, j, e, origin, deltas, opposite, in_view, connected);
            }
            assert(lights_next(short, j, s2, origin, deltas, opposite, in_view, connected));
            let nb = beside(short[j], deltas[s2]);
            let a = choose|a: int| 0 <= a < short.len() && short[a] == nb;
            assert(long[a] == nb);
            assert(e1.contains_key(spec_chunk_key(nb)));
            assert(opposite[s2] < 8);
        }
    }
}

/// Once the step out of the chunk `at` across face `s` is finished, the walk has
/// finished the faces of `at` up to `s + 1`.
proof fn lemma_face_finished<V: Fn(ChunkCoords) -> bool, C: Fn(ChunkCoords, usize, usize) -> bool>(
    short: Seq<ChunkCoords>,
    e1: Map<u128, u8>,
    long: Seq<ChunkCoords>,
    e2: Map<u128, u8>,
    origin: ChunkCoords,
    deltas: Seq<ChunkCoords>,
    opposite: Seq<usize>,
    in_view: V,
    connected: C,
    layer: int,
    finished: Seq<ChunkCoords>,
    at: int,
    s: int,
)
    requires
        0 <= at < short.len(),
        short.len() <= long.len(),
        forall|a: int| 0 <= a < short.len() ==> #[trigger] long[a] == short[a],
        forall|a: int, b: int| 0 <= a < b < long.len() ==> long[a] != long[b],
        forall|a: int| short.len() <= a < long.len() ==> steps(#[trigger] long[a], origin) >= layer
            && !finished.contains(long[a]) && long[a] != short[at],
        grows(e1, e2),
        forall|t: int| 0 <= t < opposite.len() ==> #[trigger] opposite[t] < 8,
        deltas.len() == opposite.len(),
        forall|j: int, s2: int|
            0 <= j < short.len() && 0 <= s2 < deltas.len() && processed(
                short[j],
                s2,
                origin,
                layer,
                finished,
                short[at],
                s,
            ) ==> #[trigger] step_done(
                short,
                e1,
                j,
                s2,
                origin,
                deltas,
                opposite,
                in_view,
                connected,
            ),
        step_done(long, e2, at, s, origin, deltas, opposite, in_view, connected),
    ensures
        forall|j: int, s2: int|
            0 <= j < long.len() && 0 <= s2 < deltas.len() && processed(
                long[j],
                s2,
                origin,
                layer,
                finished,
                short[at],
                s + 1,
            ) ==> #[trigger] step_done(
                long,
                e2,
                j,
                s2,
                origin,
                deltas,
                opposite,
                in_view,
                connected,
            ),
{
    lemma_keep_done(
        short,
        e1,
        long,
        e2,
        origin,
        deltas,
        opposite,
        in_view,
        connected,
        layer,
        finished,
        short[at],
        s,
    );
    assert forall|j: int, s2: int|
        0 <= j < long.len() && 0 <= s2 < deltas.len() && processed(
            long[j],
            s2,
            origin,
            layer,
            finished,
            short[at],
            s + 1,
        ) implies #[trigger] step_done(
        long,
        e2,
        j,
        s2,
        origin,
        deltas,
        opposite,
        in_view,
        connected,
    ) by {
        reveal(processed);
        if !processed(long[j], s2, origin, layer, finished, short[at], s) {
            assert(long[at] == short[at]);
            assert(j == at);
        }
    }
}

/// Whether no coordinate of `c` is at the edge of the `i32` range.
pub open spec fn off_edge(c: ChunkCoords) -> bool {
    &&& i32::MIN < c.0 < i32::MAX
    &&& i32::MIN < c.1 < i32::MAX
    &&& i32::MIN < c.2 < i32::MAX
}

/// Every chunk of the walk is off the edge of the coordinate range.
proof fn lemma_walk_off_edge<V: Fn(ChunkCoords) -> bool, C: Fn(ChunkCoords, usize, usize) -> bool>(
    seen: Seq<ChunkCoords>,
    entries: Map<u128, u8>,
    origin: ChunkCoords,
    deltas: Seq<ChunkCoords>,
    opposite: Seq<usize>,
    in_view: V,
    connected: C,
    top: int,
    bound: nat,
)
    requires
        walk_wf(seen, entries, origin, deltas, opposite, in_view, connected, top),
        forall|c: ChunkCoords|
            #[trigger] call_ensures(in_view, (c,), true) ==> near(c, origin, bound),
        near(origin, origin, 0),
    ensures
        forall|a: int| 0 <= a < seen.len() ==> off_edge(#[trigger] seen[a]),
{
    reveal(walk_wf);
    assert forall|a: int| 0 <= a < seen.len() implies off_edge(#[trigger] seen[a]) by {
        if a > 0 {
            assert(reached(seen, a, origin, deltas, opposite, in_view, connected));
            assert(near(seen[a], origin, bound));
        }
    }
}

/// Every face through which light surely reaches a chunk of the walk is marked, once the
/// steps out of all nearer chunks are finished.
proof fn lemma_entry_marked<V: Fn(ChunkCoords) -> bool, C: Fn(ChunkCoords, usize, usize) -> bool>(
    seen: Seq<ChunkCoords>,
    entries: Map<u128, u8>,
    j: int,
    e: usize,
    origin: ChunkCoords,
    deltas: Seq<ChunkCoords>,
    opposite: Seq<usize>,
    in_view: V,
    connected: C,
    layer: int,
)
    requires
        lit_through(seen, j, e, origin, deltas, opposite, in_view, connected),
        steps(seen[j], origin) <= layer,
        forall|t: int| 0 <= t < deltas.len() ==> is_side_delta(#[trigger] deltas[t]),
        forall|a: int| 0 <= a < seen.len() ==> off_edge(#[trigger] seen[a]),
        forall|k: int, s2: int|
            0 <= k < seen.len() && 0 <= s2 < deltas.len() && steps(seen[k], origin) < layer
                ==> #[trigger] step_done(
                seen,
                entries,
                k,
                s2,
                origin,
                deltas,
                opposite,
                in_view,
                connected,
            ),
    ensures
        marked(entries, seen[j], e),
{
    let (k, t) = choose|k: int, t: int|
        #![trigger seen[k], deltas[t]]
        {
            &&& 0 <= k < j
            &&& 0 <= t < deltas.len()
            &&& seen[j] == beside(seen[k], deltas[t])
            &&& outward(deltas[t], seen[k], origin)
            &&& opposite[t] == e
            &&& (seen[k] == origin || exists|f: usize|
                f < deltas.len() && lit_through(
                    seen,
                    k,
                    f,
                    origin,
                    deltas,
                    opposite,
                    in_view,
                    connected,
                ) && #[trigger] surely_connected(connected, seen[k], f, t as usize))
        };
    lemma_step_away(deltas[t], seen[k], origin);
    assert(step_done(seen, entries, k, t, origin, deltas, opposite, in_view, connected));
    reveal(step_done);
    assert(lights_next(seen, k, t, origin, deltas, opposite, in_view, connected));
}

/// What holds of the walk's chunks so far, all within `top` steps of `origin`: `origin`
/// first, each chunk once, every later one reached from an earlier one; `entries` holds
/// the faces through which each was entered, and the chunks come in order of distance.
#[verifier::opaque]
pub open spec fn walk_wf<V: Fn(ChunkCoords) -> bool, C: Fn(ChunkCoords, usize, usize) -> bool>(
    visible: Seq<ChunkCoords>,
    entries: Map<u128, u8>,
    origin: ChunkCoords,
    deltas: Seq<ChunkCoords>,
    opposite: Seq<usize>,
    in_view: V,
    connected: C,
    top: int,
) -> bool {
    &&& visible.len() >= 1
    &&& visible[0] == origin
    &&& forall|a: int, b: int| 0 <= a < b < visible.len() ==> visible[a] != visible[b]
    &&& forall|i: int|
        1 <= i < visible.len() ==> #[trigger] reached(
            visible,
            i,
            origin,
            deltas,
            opposite,
            in_view,
            connected,
        )
    &&& forall|a: int| 0 <= a < visible.len() ==> entries.contains_key(spec_chunk_key(#[trigger] visible[a]))
    &&& forall|k: u128|
        #[trigger] entries.contains_key(k) ==> exists|a: int|
            0 <= a < visible.len() && spec_chunk_key(visible[a]) == k
    &&& forall|a: int, e: usize|
        0 <= a < visible.len() && e < 8 && #[trigger] has_face(
            entries[spec_chunk_key(visible[a])],
            e,
        ) ==> entered(visible, a, e, origin, deltas, opposite)
    &&& forall|a: int, b: int|
        0 <= a < b < visible.len() ==> steps(#[trigger] visible[a], origin) <= steps(
            #[trigger] visible[b],
            origin,
        )
    &&& forall|a: int| 0 <= a < visible.len() ==> steps(#[trigger] visible[a], origin) <= top
}

/// Whether a step from the `at`-th chunk across face `s` to `neighbor` is one the walk
/// takes.
pub open spec fn walk_step<V: Fn(ChunkCoords) -> bool, C: Fn(ChunkCoords, usize, usize) -> bool>(
    visible: Seq<ChunkCoords>,
    at: int,
    s: int,
    neighbor: ChunkCoords,
    origin: ChunkCoords,
    deltas: Seq<ChunkCoords>,
    opposite: Seq<usize>,
    in_view: V,
    connected: C,
) -> bool {
    &&& 0 <= at < visible.len()
    &&& 0 <= s < deltas.len()
    &&& deltas.len() == opposite.len() <= 8
    &&& opposite[s] < opposite.len()
    &&& neighbor == beside(visible[at], deltas[s])
    &&& outward(deltas[s], visible[at], origin)
    &&& steps(neighbor, origin) == steps(visible[at], origin) + 1
    &&& call_ensures(in_view, (neighbor,), true)
    &&& (visible[at] == origin || exists|e: usize|
        e < deltas.len() && entered(visible, at, e, origin, deltas, opposite)
            && #[trigger] call_ensures(connected, (visible[at], e, s as usize), true))
}

/// A step to a chunk not seen yet appends it, entered through the face opposite the
/// step.
proof fn lemma_walk_add<V: Fn(ChunkCoords) -> bool, C: Fn(ChunkCoords, usize, usize) -> bool>(
    visible: Seq<ChunkCoords>,
    entries: Map<u128, u8>,
    at: int,
    s: int,
    neighbor: ChunkCoords,
    origin: ChunkCoords,
    deltas: Seq<ChunkCoords>,
    opposite: Seq<usize>,
    in_view: V,
    connected: C,
    top: int,
)
    requires
        walk_wf(visible, entries, origin, deltas, opposite, in_view, connected, top),
        walk_step(visible, at, s, neighbor, origin, deltas, opposite, in_view, connected),
        steps(neighbor, origin) == top,
        !entries.contains_key(spec_chunk_key(neighbor)),
    ensures
        walk_wf(
            visible.push(neighbor),
            entries.insert(spec_chunk_key(neighbor), 1u8 << (opposite[s] as u8)),
            origin,
            deltas,
            opposite,
            in_view,
            connected,
            top,
        ),
{
    reveal(walk_wf);
    let longer = visible.push(neighbor);
    let key = spec_chunk_key(neighbor);
    let bit: u8 = 1u8 << (opposite[s] as u8);
    let more = entries.insert(key, bit);
    let len = visible.len() as int;
    lemma_walk_push(visible, neighbor, origin, deltas, opposite, in_view, connected);
    assert forall|a: int| 0 <= a < visible.len() implies visible[a] != neighbor by {
        if visible[a] == neighbor {
            assert(entries.contains_key(spec_chunk_key(visible[a])));
        }
    }
    assert(longer[len] == neighbor);
    assert(longer[at] == visible[at]);
    assert(entered(longer, len, opposite[s], origin, deltas, opposite)) by {
        assert(longer[len] == beside(longer[at], deltas[s]));
    }
    assert(reached(longer, len, origin, deltas, opposite, in_view, connected)) by {
        assert(longer[len] == beside(longer[at], deltas[s]));
        if visible[at] != origin {
            let e = choose|e: usize|
                e < deltas.len() && entered(visible, at, e, origin, deltas, opposite)
                    && #[trigger] call_ensures(connected, (visible[at], e, s as usize), true);
            assert(entered(longer, at, e, origin, deltas, opposite));
        }
    }
    assert forall|i: int|
        1 <= i < longer.len() implies #[trigger] reached(
        longer,
        i,
        origin,
        deltas,
        opposite,
        in_view,
        connected,
    ) by {
        if i < len {
            assert(reached(visible, i, origin, deltas, opposite, in_view, connected));
        }
    }
    assert forall|a: int| 0 <= a < longer.len() implies more.contains_key(
        spec_chunk_key(#[trigger] longer[a]),
    ) by {
        if a < len {
            assert(longer[a] == visible[a]);
        }
    }
    assert forall|k: u128| #[trigger] more.contains_key(k) implies exists|a: int|
        0 <= a < longer.len() && spec_chunk_key(longer[a]) == k by {
        if k != key {
            let a = choose|a: int| 0 <= a < visible.len() && spec_chunk_key(visible[a]) == k;
            assert(longer[a] == visible[a]);
        } else {
            assert(spec_chunk_key(longer[len]) == k);
        }
    }
    assert forall|a: int, e: usize|
        0 <= a < longer.len() && e < 8 && #[trigger] has_face(
            more[spec_chunk_key(longer[a])],
            e,
        ) implies entered(longer, a, e, origin, deltas, opposite) by {
        if a < len {
            assert(longer[a] == visible[a]);
            lemma_chunk_key_injective(visible[a], neighbor);
            assert(more[spec_chunk_key(longer[a])] == entries[spec_chunk_key(visible[a])]);
            assert(entered(visible, a, e, origin, deltas, opposite));
        } else {
            lemma_face_sets(0u8, opposite[s] as u8, e as u8);
            assert(e == opposite[s]);
        }
    }
    assert forall|a: int, b: int|
        0 <= a < b < longer.len() implies steps(#[trigger] longer[a], origin) <= steps(
        #[trigger] longer[b],
        origin,
    ) by {
        assert(longer[a] == visible[a]);
        if b < len {
            assert(longer[b] == visible[b]);
        }
    }
    assert forall|a: int| 0 <= a < longer.len() implies steps(#[trigger] longer[a], origin)
        <= top by {
        if a < len {
            assert(longer[a] == visible[a]);
        }
    }
}

/// A step to a chunk already seen, through a face it was not entered by yet, marks that
/// face.
proof fn lemma_walk_mark<V: Fn(ChunkCoords) -> bool, C: Fn(ChunkCoords, usize, usize) -> bool>(
    visible: Seq<ChunkCoords>,
    entries: Map<u128, u8>,
    at: int,
    s: int,
    neighbor: ChunkCoords,
    origin: ChunkCoords,
    deltas: Seq<ChunkCoords>,
    opposite: Seq<usize>,
    in_view: V,
    connected: C,
    top: int,
)
    requires
        walk_wf(visible, entries, origin, deltas, opposite, in_view, connected, top),
        walk_step(visible, at, s, neighbor, origin, deltas, opposite, in_view, connected),
        entries.contains_key(spec_chunk_key(neighbor)),
    ensures
        walk_wf(
            visible,
            entries.insert(
                spec_chunk_key(neighbor),
                entries[spec_chunk_key(neighbor)] | (1u8 << (opposite[s] as u8)),
            ),
            origin,
            deltas,
            opposite,
            in_view,
            connected,
            top,
        ),
{
    reveal(walk_wf);
    let key = spec_chunk_key(neighbor);
    let m = entries[key];
    let more = entries.insert(key, m | (1u8 << (opposite[s] as u8)));
    let w = choose|a: int| 0 <= a < visible.len() && spec_chunk_key(visible[a]) == key;
    lemma_chunk_key_injective(visible[w], neighbor);
    assert(visible[w] == neighbor);
    if w <= at {
        if w < at {
            assert(steps(visible[w], origin) <= steps(visible[at], origin));
        }
        assert(false);
    }
    assert(entered(visible, w, opposite[s], origin, deltas, opposite)) by {
        assert(visible[w] == beside(visible[at], deltas[s]));
    }
    assert forall|k: u128| #[trigger] more.contains_key(k) implies exists|a: int|
        0 <= a < visible.len() && spec_chunk_key(visible[a]) == k by {
        assert(entries.contains_key(k));
    }
    assert forall|a: int, e: usize|
        0 <= a < visible.len() && e < 8 && #[trigger] has_face(
            more[spec_chunk_key(visible[a])],
            e,
        ) implies entered(visible, a, e, origin, deltas, opposite) by {
        lemma_chunk_key_injective(visible[a], neighbor);
        if spec_chunk_key(visible[a]) == key {
            assert(a == w);
            lemma_face_sets(m, opposite[s] as u8, e as u8);
            if e != opposite[s] {
                assert(has_face(entries[spec_chunk_key(visible[a])], e));
            }
        } else {
            assert(has_face(entries[spec_chunk_key(visible[a])], e));
        }
    }
}

/// The chunks to draw: a breadth-first walk out from the viewer's chunk `origin` through
/// the faces of the chunks. Face `s` steps by `deltas[s]` and is entered through face
/// `opposite[s]` of the next chunk. A step goes only away from `origin` (or across it),
/// only to a chunk that passes `in_view` (inside the drawn area and the view frustum),
/// and, out of any chunk but `origin`, only through a face that light reaches from a
/// face the walk entered it by, as `connected(chunk, entry, exit)` tells. Gives `origin`
/// first and then every chunk reached, each once, in the order first reached, which is
/// also the order of distance from `origin`. Nothing is left out: every chunk into which
/// light surely passes out of a chunk of the result (see [`lights_next`]) is in it. The drawn area is bounded: `in_view`
/// accepts only chunks within some distance of `origin`, and, like `origin`, off the
/// edge of the coordinate range, where a neighbour's coordinates would overflow.
#[verifier::rlimit(100)]
#[verifier::spinoff_prover]
pub fn cull_chunks<V: Fn(ChunkCoords) -> bool, C: Fn(ChunkCoords, usize, usize) -> bool>(
    origin: ChunkCoords,
    deltas: &Vec<ChunkCoords>,
    opposite: &Vec<usize>,
    in_view: V,
    connected: C,
) -> (res: Vec<ChunkCoords>)
    requires
        deltas@.len() == opposite@.len(),
        deltas@.len() <= 8,
        forall|s: int| 0 <= s < deltas@.len() ==> is_side_delta(#[trigger] deltas@[s]),
        forall|s: int| 0 <= s < opposite@.len() ==> #[trigger] opposite@[s] < opposite@.len(),
        forall|c: ChunkCoords| call_requires(in_view, (c,)),
        forall|c: ChunkCoords, e: usize, s: usize| call_requires(connected, (c, e, s)),
        exists|r: nat| #[trigger] view_within(in_view, origin, r),
        near(origin, origin, 0),
    ensures
        res@.len() >= 1,
        res@[0] == origin,
        forall|i: int, j: int| 0 <= i < j < res@.len() ==> res@[i] != res@[j],
        forall|i: int|
            1 <= i < res@.len() ==> #[trigger] reached(
                res@,
                i,
                origin,
                deltas@,
                opposite@,
                in_view,
                connected,
            ),
        forall|i: int, j: int|
            0 <= i < j < res@.len() ==> steps(#[trigger] res@[i], origin) <= steps(
                #[trigger] res@[j],
                origin,
            ),
        forall|j: int, s: int|
            0 <= j < res@.len() && 0 <= s < deltas@.len() && #[trigger] lights_next(
                res@,
                j,
                s,
                origin,
                deltas@,
                opposite@,
                in_view,
                connected,
            ) ==> res@.contains(beside(res@[j], deltas@[s])),
{
    let ghost bound: nat = choose|r: nat| #[trigger] view_within(in_view, origin, r);
    let n = deltas.len();
    let mut entries: FxHashMap<u128, u8> = fx_map_new();
    fx_map_insert(&mut entries, chunk_key(origin), 0u8);
    let mut visible: Vec<ChunkCoords> = Vec::new();
    visible.push(origin);
    let mut current: Vec<ChunkCoords> = Vec::new();
    current.push(origin);
    let ghost mut layer: nat = 0;
    proof {
        reveal(walk_wf);
        assert(visible@[0] == origin);
        assert forall|k: u128| #[trigger] entries@.contains_key(k) implies exists|i: int|
            0 <= i < visible@.len() && spec_chunk_key(visible@[i]) == k by {
            assert(spec_chunk_key(visible@[0]) == k);
        }
        assert forall|a: int, e: usize|
            0 <= a < visible@.len() && e < 8 && #[trigger] has_face(
                entries@[spec_chunk_key(visible@[a])],
                e,
            ) implies entered(visible@, a, e, origin, deltas@, opposite@) by {
            lemma_face_sets(0u8, 0u8, e as u8);
        }
        assert(walk_wf(visible@, entries@, origin, deltas@, opposite@, in_view, connected, 0));
    }
    while current.len() > 0
        invariant
            n == deltas@.len(),
            deltas@.len() == opposite@.len(),
            deltas@.len() <= 8,
            forall|s: int| 0 <= s < deltas@.len() ==> is_side_delta(#[trigger] deltas@[s]),
            forall|s: int| 0 <= s < opposite@.len() ==> #[trigger] opposite@[s] < opposite@.len(),
            forall|c: ChunkCoords| call_requires(in_view, (c,)),
            forall|c: ChunkCoords, e: usize, s: usize| call_requires(connected, (c, e, s)),
            forall|c: ChunkCoords|
                #[trigger] call_ensures(in_view, (c,), true) ==> near(c, origin, bound),
            near(origin, origin, 0),
            walk_wf(visible@, entries@, origin, deltas@, opposite@, in_view, connected, layer as int),
            forall|j: int, s2: int|
                0 <= j < visible@.len() && 0 <= s2 < deltas@.len() && steps(visible@[j], origin)
                    < layer ==> #[trigger] step_done(
                    visible@,
                    entries@,
                    j,
                    s2,
                    origin,
                    deltas@,
                    opposite@,
                    in_view,
                    connected,
                ),
            forall|j: int|
                0 <= j < visible@.len() && steps(#[trigger] visible@[j], origin) == layer
                    ==> current@.contains(visible@[j]),
            forall|q: int|
                0 <= q < current@.len() ==> {
                    &&& exists|i: int| 0 <= i < visible@.len() && visible@[i] == current@[q]
                    &&& steps(#[trigger] current@[q], origin) == layer
                    &&& (layer == 0 ==> current@[q] == origin)
                    &&& (current@[q] == origin || call_ensures(in_view, (current@[q],), true))
                },
        decreases 3 * bound + 1 - layer,
    {
        assert(layer <= 3 * bound) by {
            let q = current@[0];
            assert(steps(q, origin) == layer);
            if q != origin {
                assert(near(q, origin, bound));
            }
        }
        let mut next: Vec<ChunkCoords> = Vec::new();
        let mut i: usize = 0;
        proof {
            assert(walk_wf(
                visible@,
                entries@,
                origin,
                deltas@,
                opposite@,
                in_view,
                connected,
                layer + 1int,
            )) by {
                reveal(walk_wf);
            }
            assert forall|j: int| 0 <= j < visible@.len() implies steps(#[trigger] visible@[j], origin) <= layer by {
                reveal(walk_wf);
            }
            assert(current@.take(0) =~= Seq::<ChunkCoords>::empty());
            assert forall|j: int, s2: int|
                0 <= j < visible@.len() && 0 <= s2 < deltas@.len() && processed(
                    visible@[j],
                    s2,
                    origin,
                    layer as int,
                    current@.take(0),
                    origin,
                    0,
                ) implies #[trigger] step_done(
                        visible@,
                        entries@,
                        j,
                        s2,
                        origin,
                        deltas@,
                        opposite@,
                        in_view,
                        connected,
                    ) by {
                        reveal(processed);
                assert(!current@.take(0).contains(visible@[j]));
            }
        }
        while i < current.len()
            invariant
                n == deltas@.len(),
                deltas@.len() == opposite@.len(),
                deltas@.len() <= 8,
                forall|s: int| 0 <= s < deltas@.len() ==> is_side_delta(#[trigger] deltas@[s]),
                forall|s: int|
                    0 <= s < opposite@.len() ==> #[trigger] opposite@[s] < opposite@.len(),
                forall|c: ChunkCoords| call_requires(in_view, (c,)),
                forall|c: ChunkCoords, e: usize, s: usize| call_requires(connected, (c, e, s)),
                forall|c: ChunkCoords|
                    #[trigger] call_ensures(in_view, (c,), true) ==> near(c, origin, bound),
                near(origin, origin, 0),
                layer <= 3 * bound,
                i <= current@.len(),
                walk_wf(
                    visible@,
                    entries@,
                    origin,
                    deltas@,
                    opposite@,
                    in_view,
                    connected,
                    layer + 1int,
                ),
                forall|j: int, s2: int|
                    0 <= j < visible@.len() && 0 <= s2 < deltas@.len() && processed(
                        visible@[j],
                        s2,
                        origin,
                        layer as int,
                        current@.take(i as int),
                        origin,
                        0,
                    ) ==> #[trigger] step_done(
                        visible@,
                        entries@,
                        j,
                        s2,
                        origin,
                        deltas@,
                        opposite@,
                        in_view,
                        connected,
                    ),
                forall|j: int|
                    0 <= j < visible@.len() && steps(#[trigger] visible@[j], origin) == layer
                        ==> current@.contains(visible@[j]),
                forall|j: int|
                    0 <= j < visible@.len() && steps(#[trigger] visible@[j], origin) == layer + 1
                        ==> next@.contains(visible@[j]),
                forall|q: int|
                    0 <= q < current@.len() ==> {
                        &&& exists|a: int| 0 <= a < visible@.len() && visible@[a] == current@[q]
                        &&& steps(#[trigger] current@[q], origin) == layer
                        &&& (layer == 0 ==> current@[q] == origin)
                        &&& (current@[q] == origin || call_ensures(in_view, (current@[q],), true))
                    },
                forall|q: int|
                    0 <= q < next@.len() ==> {
                        &&& exists|a: int| 0 <= a < visible@.len() && visible@[a] == next@[q]
                        &&& steps(#[trigger] next@[q], origin) == layer + 1
                        &&& call_ensures(in_view, (next@[q],), true)
                    },
            decreases current@.len() - i,
        {
            let coords = current[i];
            let ghost at: int = choose|a: int|
                0 <= a < visible@.len() && visible@[a] == current@[i as int];
            proof {
                assert(entries@.contains_key(spec_chunk_key(coords))) by {
                    reveal(walk_wf);
                }
            }
            assert(near(coords, origin, bound)) by {
                if coords != origin {
                    assert(call_ensures(in_view, (coords,), true));
                }
            }
            let entry_sides: u8 = match fx_map_get(&entries, chunk_key(coords)) {
                Some(m) => *m,
                None => 0,
            };
            let is_origin = coords.0 == origin.0 && coords.1 == origin.1 && coords.2 == origin.2;
            proof {
                assert forall|j: int, s2: int|
                    0 <= j < visible@.len() && 0 <= s2 < deltas@.len() && processed(
                        visible@[j],
                        s2,
                        origin,
                        layer as int,
                        current@.take(i as int),
                        coords,
                        0,
                    ) implies #[trigger] step_done(
                        visible@,
                        entries@,
                        j,
                        s2,
                        origin,
                        deltas@,
                        opposite@,
                        in_view,
                        connected,
                    ) by {
                        reveal(processed);
                    assert(processed(visible@[j], s2, origin, layer as int, current@.take(i as int), origin, 0));
                }
            }
            let mut s: usize = 0;
            while s < n
                invariant
                    n == deltas@.len(),
                    deltas@.len() == opposite@.len(),
                    deltas@.len() <= 8,
                    forall|t: int| 0 <= t < deltas@.len() ==> is_side_delta(#[trigger] deltas@[t]),
                    forall|t: int|
                        0 <= t < opposite@.len() ==> #[trigger] opposite@[t] < opposite@.len(),
                    forall|c: ChunkCoords| call_requires(in_view, (c,)),
                    forall|c: ChunkCoords, e: usize, t: usize| call_requires(connected, (c, e, t)),
                    forall|c: ChunkCoords|
                        #[trigger] call_ensures(in_view, (c,), true) ==> near(c, origin, bound),
                    s <= n,
                    i < current@.len(),
                    forall|q: int| 0 <= q < current@.len() ==> steps(#[trigger] current@[q], origin) == layer,
                    near(origin, origin, 0),
                    is_origin == (coords == origin),
                    near(coords, origin, bound),
                    steps(coords, origin) == layer,
                    0 <= at < visible@.len(),
                    visible@[at] == coords,
                    entries@.contains_key(spec_chunk_key(coords)),
                    entries@[spec_chunk_key(coords)] == entry_sides,
                    walk_wf(
                        visible@,
                        entries@,
                        origin,
                        deltas@,
                        opposite@,
                        in_view,
                        connected,
                        layer + 1int,
                    ),
                    forall|j: int, s2: int|
                        0 <= j < visible@.len() && 0 <= s2 < deltas@.len() && processed(
                            visible@[j],
                            s2,
                            origin,
                            layer as int,
                            current@.take(i as int),
                            coords,
                            s as int,
                        ) ==> #[trigger] step_done(
                            visible@,
                            entries@,
                            j,
                            s2,
                            origin,
                            deltas@,
                            opposite@,
                            in_view,
                            connected,
                        ),
                    forall|j: int|
                        0 <= j < visible@.len() && steps(#[trigger] visible@[j], origin) == layer
                            ==> current@.contains(visible@[j]),
                    forall|j: int|
                        0 <= j < visible@.len() && steps(#[trigger] visible@[j], origin) == layer + 1
                            ==> next@.contains(visible@[j]),
                    forall|q: int|
                        0 <= q < current@.len() ==> exists|a: int|
                            0 <= a < visible@.len() && visible@[a] == #[trigger] current@[q],
                    forall|q: int|
                        0 <= q < next@.len() ==> {
                            &&& exists|a: int|
                                0 <= a < visible@.len() && visible@[a] == next@[q]
                            &&& steps(#[trigger] next@[q], origin) == layer + 1
                            &&& call_ensures(in_view, (next@[q],), true)
                        },
                decreases n - s,
            {
                let ghost v0 = visible@;
                let ghost e0 = entries@;
                let ghost next0 = next@;
                let ghost finished = current@.take(i as int);
                proof {
                    lemma_walk_off_edge(
                        visible@,
                        entries@,
                        origin,
                        deltas@,
                        opposite@,
                        in_view,
                        connected,
                        layer + 1int,
                        bound,
                    );
                }
                let delta = deltas[s];
                if is_outward(delta, coords, origin) {
                    let neighbor = (coords.0 + delta.0, coords.1 + delta.1, coords.2 + delta.2);
                    proof {
                        lemma_step_away(delta, coords, origin);
                        assert(neighbor == beside(visible@[at], deltas@[s as int]));
                    }
                    if in_view(neighbor) {
                        let mut open = is_origin;
                        let mut e: usize = 0;
                        while !open && e < n
                            invariant
                                n == deltas@.len(),
                                n <= 8,
                                e <= n,
                                forall|c: ChunkCoords, f: usize, t: usize|
                                    call_requires(connected, (c, f, t)),
                                open ==> is_origin || exists|f: usize|
                                    f < n && has_face(entry_sides, f) && #[trigger] call_ensures(
                                        connected,
                                        (coords, f, s),
                                        true,
                                    ),
                                !open ==> !is_origin && forall|f: usize|
                                    f < e && has_face(entry_sides, f) ==> !#[trigger] surely_connected(
                                        connected,
                                        coords,
                                        f,
                                        s,
                                    ),
                            decreases n - e,
                        {
                            if (entry_sides >> (e as u8)) & 1u8 == 1u8 && connected(coords, e, s) {
                                open = true;
                            }
                            e = e + 1;
                        }
                        if open {
                            proof {
                                assert(walk_step(
                                    visible@,
                                    at,
                                    s as int,
                                    neighbor,
                                    origin,
                                    deltas@,
                                    opposite@,
                                    in_view,
                                    connected,
                                )) by {
                                    if !is_origin {
                                        let f = choose|f: usize|
                                            f < n && has_face(entry_sides, f) && #[trigger] call_ensures(
                                                connected,
                                                (coords, f, s),
                                                true,
                                            );
                                        assert(has_face(entries@[spec_chunk_key(visible@[at])], f));
                                        assert(entered(visible@, at, f, origin, deltas@, opposite@)) by {
                                            reveal(walk_wf);
                                        }
                                    }
                                }
                            }
                            let entry_side = opposite[s];
                            let bit: u8 = 1u8 << (entry_side as u8);
                            let key = chunk_key(neighbor);
                            proof {
                                lemma_chunk_key_injective(coords, neighbor);
                                lemma_face_sets(0u8, entry_side as u8, entry_side as u8);
                            }
                            let found = match fx_map_get(&entries, key) {
                                Some(m) => Some(*m),
                                None => None,
                            };
                            match found {
                                None => {
                                    proof {
                                        lemma_walk_add(
                                            v0,
                                            e0,
                                            at,
                                            s as int,
                                            neighbor,
                                            origin,
                                            deltas@,
                                            opposite@,
                                            in_view,
                                            connected,
                                            layer + 1int,
                                        );
                                    }
                                    fx_map_insert(&mut entries, key, bit);
                                    visible.push(neighbor);
                                    next.push(neighbor);
                                    proof {
                                        let len = v0.len() as int;
                                        assert(visible@[len] == neighbor);
                                        assert(visible@[at] == coords);
                                        assert forall|q: int|
                                            0 <= q < current@.len() implies exists|a: int|
                                                0 <= a < visible@.len() && visible@[a] == #[trigger] current@[q] by {
                                            let a = choose|a: int|
                                                0 <= a < v0.len() && v0[a] == current@[q];
                                            assert(visible@[a] == v0[a]);
                                        }
                                        assert forall|q: int|
                                            0 <= q < next@.len() implies exists|a: int|
                                                0 <= a < visible@.len() && visible@[a] == #[trigger] next@[q] by {
                                            if q == next@.len() - 1 {
                                                assert(visible@[len] == next@[q]);
                                            } else {
                                                let a = choose|a: int|
                                                    0 <= a < v0.len() && v0[a] == next@[q];
                                                assert(visible@[a] == v0[a]);
                                            }
                                        }
                                        assert(has_face(entries@[key], entry_side));
                                        assert(visible@.contains(neighbor));
                                        assert forall|j: int|
                                            0 <= j < visible@.len() && steps(#[trigger] visible@[j], origin) == layer + 1 implies next@.contains(
                                            visible@[j],
                                        ) by {
                                            if j < v0.len() {
                                                assert(visible@[j] == v0[j]);
                                                assert(next0.contains(v0[j]));
                                                let q = choose|q: int| 0 <= q < next0.len() && next0[q] == v0[j];
                                                assert(next@[q] == next0[q]);
                                            } else {
                                                assert(next@[next@.len() - 1] == visible@[j]);
                                            }
                                        }

                                        assert(!finished.contains(neighbor)) by {
                                            if finished.contains(neighbor) {
                                                let q = choose|q: int|
                                                    0 <= q < finished.len() && finished[q] == neighbor;
                                                assert(current@[q] == finished[q]);
                                            }
                                        }
                                    }
                                },
                                Some(m) => {
                                    proof {
                                        assert(exists|a: int|
                                            0 <= a < visible@.len() && spec_chunk_key(visible@[a]) == key) by {
                                            reveal(walk_wf);
                                        }
                                        let a = choose|a: int|
                                            0 <= a < visible@.len() && spec_chunk_key(visible@[a]) == key;
                                        lemma_chunk_key_injective(visible@[a], neighbor);
                                        assert(visible@.contains(neighbor));
                                    }
                                    if (m >> (entry_side as u8)) & 1u8 == 0u8 {
                                        proof {
                                            lemma_walk_mark(
                                                v0,
                                                e0,
                                                at,
                                                s as int,
                                                neighbor,
                                                origin,
                                                deltas@,
                                                opposite@,
                                                in_view,
                                                connected,
                                                layer + 1int,
                                            );
                                            lemma_face_sets(m, entry_side as u8, entry_side as u8);
                                        }
                                        fx_map_insert(&mut entries, key, m | bit);
                                        next.push(neighbor);
                                        proof {
                                            assert forall|j: int|
                                                0 <= j < visible@.len() && steps(#[trigger] visible@[j], origin) == layer + 1 implies next@.contains(
                                                visible@[j],
                                            ) by {
                                                if j < v0.len() {
                                                    assert(visible@[j] == v0[j]);
                                                    assert(next0.contains(v0[j]));
                                                    let q = choose|q: int| 0 <= q < next0.len() && next0[q] == v0[j];
                                                    assert(next@[q] == next0[q]);
                                                } else {
                                                    assert(next@[next@.len() - 1] == visible@[j]);
                                                }
                                            }

                                            assert forall|q: int|
                                                0 <= q < next@.len() implies exists|a: int|
                                                    0 <= a < visible@.len() && visible@[a] == #[trigger] next@[q] by {
                                                if q == next@.len() - 1 {
                                                    let a = choose|a: int|
                                                        0 <= a < visible@.len() && visible@[a] == neighbor;
                                                    assert(visible@[a] == next@[q]);
                                                }
                                            }
                                            assert forall|k: u128| #[trigger] e0.contains_key(k) implies {
                                                &&& entries@.contains_key(k)
                                                &&& forall|f: usize|
                                                    f < 8 && #[trigger] has_face(e0[k], f) ==> has_face(entries@[k], f)
                                            } by {
                                                assert forall|f: usize|
                                                    f < 8 && #[trigger] has_face(e0[k], f) implies has_face(
                                                    entries@[k],
                                                    f,
                                                ) by {
                                                    if k == key {
                                                        lemma_face_sets(m, entry_side as u8, f as u8);
                                                    }
                                                }
                                            }
                                        }
                                    } else {
                                        proof {
                                            let e8 = entry_side as u8;
                                            assert((m >> e8) & 1u8 != 0u8 ==> (m >> e8) & 1u8 == 1u8)
                                                by (bit_vector);
                                        }
                                    }
                                },
                            }
                            proof {
                                assert(marked(entries@, neighbor, entry_side));
                                assert(visible@[at] == coords);
                                assert(step_done(visible@, entries@, at, s as int, origin, deltas@, opposite@, in_view, connected)) by {
                                    reveal(step_done);
                                }
                            }
                        } else {
                            proof {
                                if lights_next(v0, at, s as int, origin, deltas@, opposite@, in_view, connected) {
                                    let f = choose|f: usize|
                                        f < deltas@.len() && lit_through(
                                            v0,
                                            at,
                                            f,
                                            origin,
                                            deltas@,
                                            opposite@,
                                            in_view,
                                            connected,
                                        ) && #[trigger] surely_connected(connected, v0[at], f, s as usize);
                                    assert forall|k: int, s2: int|
                                        0 <= k < v0.len() && 0 <= s2 < deltas@.len() && steps(v0[k], origin)
                                            < layer implies #[trigger] step_done(
                                        v0,
                                        e0,
                                        k,
                                        s2,
                                        origin,
                                        deltas@,
                                        opposite@,
                                        in_view,
                                        connected,
                                    ) by {
                                        reveal(processed);
                                        assert(processed(v0[k], s2, origin, layer as int, finished, coords, s as int));
                                    }
                                    lemma_entry_marked(
                                        v0,
                                        e0,
                                        at,
                                        f,
                                        origin,
                                        deltas@,
                                        opposite@,
                                        in_view,
                                        connected,
                                        layer as int,
                                    );
                                    assert(has_face(entry_sides, f));
                                    assert(false);
                                }
                                assert(step_done(visible@, entries@, at, s as int, origin, deltas@, opposite@, in_view, connected)) by {
                                    reveal(step_done);
                                }
                            }
                        }
                    } else {
                        proof {
                            assert(!surely_in_view(in_view, neighbor));
                            assert(step_done(visible@, entries@, at, s as int, origin, deltas@, opposite@, in_view, connected)) by {
                                reveal(step_done);
                            }
                        }
                    }
                } else {
                    proof {
                        assert(step_done(visible@, entries@, at, s as int, origin, deltas@, opposite@, in_view, connected)) by {
                            reveal(step_done);
                        }
                    }
                }
                proof {
                    assert(forall|a: int, b: int|
                        0 <= a < b < visible@.len() ==> visible@[a] != visible@[b]) by {
                        reveal(walk_wf);
                    }
                    lemma_face_finished(
                        v0,
                        e0,
                        visible@,
                        entries@,
                        origin,
                        deltas@,
                        opposite@,
                        in_view,
                        connected,
                        layer as int,
                        finished,
                        at,
                        s as int,
                    );
                }
                s = s + 1;
            }
            proof {
                let finished = current@.take(i as int);
                let more = current@.take(i as int + 1);
                assert forall|j: int, s2: int|
                    0 <= j < visible@.len() && 0 <= s2 < deltas@.len() && processed(
                        visible@[j],
                        s2,
                        origin,
                        layer as int,
                        more,
                        origin,
                        0,
                    ) implies #[trigger] step_done(
                        visible@,
                        entries@,
                        j,
                        s2,
                        origin,
                        deltas@,
                        opposite@,
                        in_view,
                        connected,
                    ) by {
                        reveal(processed);
                    if more.contains(visible@[j]) {
                        let q = choose|q: int| 0 <= q < more.len() && more[q] == visible@[j];
                        if q < i {
                            assert(finished[q] == visible@[j]);
                        }
                    }
                    assert(processed(visible@[j], s2, origin, layer as int, finished, coords, n as int));
                }
            }
            i = i + 1;
        }
        proof {
            assert(current@.take(i as int) =~= current@);
            assert forall|j: int, s2: int|
                0 <= j < visible@.len() && 0 <= s2 < deltas@.len() && steps(visible@[j], origin)
                    < layer + 1 implies #[trigger] step_done(
                        visible@,
                        entries@,
                        j,
                        s2,
                        origin,
                        deltas@,
                        opposite@,
                        in_view,
                        connected,
                    ) by {
                        reveal(processed);
                assert(processed(visible@[j], s2, origin, layer as int, current@.take(i as int), origin, 0));
            }
        }
        current = next;
        proof {
            layer = layer + 1;
        }
    }
    proof {
        reveal(walk_wf);
        assert forall|j: int, s: int|
            0 <= j < visible@.len() && 0 <= s < deltas@.len() && #[trigger] lights_next(
                visible@,
                j,
                s,
                origin,
                deltas@,
                opposite@,
                in_view,
                connected,
            ) implies visible@.contains(beside(visible@[j], deltas@[s])) by {
            if steps(visible@[j], origin) == layer {
                assert(current@.contains(visible@[j]));
            }
            assert(step_done(visible@, entries@, j, s, origin, deltas@, opposite@, in_view, connected));
            reveal(step_done);
        }
    }
    visible
}

/// The visible chunks whose mesh has the wanted part, in order: `parts[i]` tells
/// whether the `i`-th chunk has a mesh, and if so whether it has an opaque part and a
/// transparent part.
pub open spec fn with_part(
    visible: Seq<ChunkCoords>,
    parts: Seq<Option<(bool, bool)>>,
    transparent: bool,
) -> Seq<ChunkCoords>
    decreases visible.len(),
{
    if visible.len() == 0 || parts.len() != visible.len() {
        Seq::empty()
    } else {
        let rest = with_part(visible.drop_last(), parts.drop_last(), transparent);
        match parts.last() {
            Some((opaque, blended)) => if (if transparent {
                blended
            } else {
                opaque
            }) {
                rest.push(visible.last())
            } else {
                rest
            },
            None => rest,
        }
    }
}

/// Whether `list` is the subsequence of `visible` at the positions `idx`, increasing,
/// which are exactly the positions whose mesh has the wanted part (the transparent one
/// if `transparent`, else the opaque one); a position without a mesh is never taken.
pub open spec fn picks_at(
    list: Seq<ChunkCoords>,
    visible: Seq<ChunkCoords>,
    parts: Seq<Option<(bool, bool)>>,
    transparent: bool,
    idx: Seq<int>,
) -> bool {
    &&& idx.len() == list.len()
    &&& forall|k: int| 0 <= k < idx.len() ==> 0 <= #[trigger] idx[k] < visible.len()
    &&& forall|k: int| 0 <= k < idx.len() ==> list[k] == visible[#[trigger] idx[k]]
    &&& forall|k1: int, k2: int| 0 <= k1 < k2 < idx.len() ==> #[trigger] idx[k1] < #[trigger] idx[k2]
    &&& forall|i: int|
        0 <= i < visible.len() ==> ((match #[trigger] parts[i] {
            Some((opaque, blended)) => if transparent {
                blended
            } else {
                opaque
            },
            None => false,
        }) <==> exists|k: int| 0 <= k < idx.len() && idx[k] == i)
}

/// Whether `list` takes, in order, exactly the chunks of `visible` whose mesh has the
/// wanted part.
pub open spec fn picks(
    list: Seq<ChunkCoords>,
    visible: Seq<ChunkCoords>,
    parts: Seq<Option<(bool, bool)>>,
    transparent: bool,
) -> bool {
    exists|idx: Seq<int>| #[trigger] picks_at(list, visible, parts, transparent, idx)
}

/// The draw lists take, in visibility order, exactly the chunks whose mesh has the part
/// drawn: a chunk is in the opaque list if and only if its mesh has an opaque part, and
/// in the transparent list if and only if its mesh has a transparent part.
pub proof fn lemma_draw_lists_pick(
    visible: Seq<ChunkCoords>,
    parts: Seq<Option<(bool, bool)>>,
    transparent: bool,
)
    requires
        parts.len() == visible.len(),
    ensures
        picks(with_part(visible, parts, transparent), visible, parts, transparent),
    decreases visible.len(),
{
    let idx = lemma_with_part_indices(visible, parts, transparent);
    assert(picks_at(with_part(visible, parts, transparent), visible, parts, transparent, idx));
}

proof fn lemma_with_part_indices(
    visible: Seq<ChunkCoords>,
    parts: Seq<Option<(bool, bool)>>,
    transparent: bool,
) -> (idx: Seq<int>)
    requires
        parts.len() == visible.len(),
    ensures
        picks_at(with_part(visible, parts, transparent), visible, parts, transparent, idx),
    decreases visible.len(),
{
    let list = with_part(visible, parts, transparent);
    if visible.len() == 0 {
        let idx = Seq::<int>::empty();
        assert(picks_at(list, visible, parts, transparent, idx));
        idx
    } else {
        let n = visible.len() - 1;
        let front = visible.drop_last();
        let fparts = parts.drop_last();
        let rest = with_part(front, fparts, transparent);
        let ridx = lemma_with_part_indices(front, fparts, transparent);
        let wanted = match parts[n] {
            Some((opaque, blended)) => if transparent {
                blended
            } else {
                opaque
            },
            None => false,
        };
        let idx = if wanted {
            ridx.push(n)
        } else {
            ridx
        };
        assert(list == (if wanted {
            rest.push(visible[n])
        } else {
            rest
        }));
        assert forall|k: int| 0 <= k < idx.len() implies 0 <= #[trigger] idx[k] < visible.len()
            && list[k] == visible[idx[k]] by {
            if k < ridx.len() {
                assert(idx[k] == ridx[k]);
                assert(front[ridx[k]] == visible[ridx[k]]);
            }
        }
        assert forall|i: int|
            0 <= i < visible.len() implies ((match #[trigger] parts[i] {
            Some((opaque, blended)) => if transparent {
                blended
            } else {
                opaque
            },
            None => false,
        }) <==> exists|k: int| 0 <= k < idx.len() && idx[k] == i) by {
            if i < n {
                assert(fparts[i] == parts[i]);
                if exists|k: int| 0 <= k < ridx.len() && ridx[k] == i {
                    let k = choose|k: int| 0 <= k < ridx.len() && ridx[k] == i;
                    assert(idx[k] == i);
                }
                if exists|k: int| 0 <= k < idx.len() && idx[k] == i {
                    let k = choose|k: int| 0 <= k < idx.len() && idx[k] == i;
                    assert(k < ridx.len());
                    assert(ridx[k] == i);
                }
            } else {
                if wanted {
                    assert(idx[idx.len() - 1] == i);
                }
                if exists|k: int| 0 <= k < idx.len() && idx[k] == i {
                    let k = choose|k: int| 0 <= k < idx.len() && idx[k] == i;
                    if k < ridx.len() {
                        assert(ridx[k] < front.len());
                    }
                }
            }
        }
        idx
    }
}

/// What a frame draws of the visible chunks: those whose mesh has an opaque part, drawn
/// first in visibility order, and those whose mesh has a transparent part, to be drawn
/// afterwards; chunks without a mesh are skipped.
pub fn draw_lists(visible: &Vec<ChunkCoords>, parts: &Vec<Option<(bool, bool)>>) -> (res: (
    Vec<ChunkCoords>,
    Vec<ChunkCoords>,
))
    requires
        parts@.len() == visible@.len(),
    ensures
        res.0@ == with_part(visible@, parts@, false),
        res.1@ == with_part(visible@, parts@, true),
        picks(res.0@, visible@, parts@, false),
        picks(res.1@, visible@, parts@, true),
{
    let mut opaque: Vec<ChunkCoords> = Vec::new();
    let mut transparent: Vec<ChunkCoords> = Vec::new();
    let mut i: usize = 0;
    while i < visible.len()
        invariant
            parts@.len() == visible@.len(),
            i <= visible@.len(),
            opaque@ == with_part(visible@.take(i as int), parts@.take(i as int), false),
            transparent@ == with_part(visible@.take(i as int), parts@.take(i as int), true),
        decreases visible@.len() - i,
    {
        proof {
            assert(visible@.take(i as int + 1).drop_last() =~= visible@.take(i as int));
            assert(parts@.take(i as int + 1).drop_last() =~= parts@.take(i as int));
        }
        match parts[i] {
            Some((has_opaque, has_transparent)) => {
                if has_opaque {
                    opaque.push(visible[i]);
                }
                if has_transparent {
                    transparent.push(visible[i]);
                }
            },
            None => {},
        }
        i = i + 1;
    }
    proof {
        assert(visible@.take(i as int) =~= visible@);
        assert(parts@.take(i as int) =~= parts@);
        lemma_draw_lists_pick(visible@, parts@, false);
        lemma_draw_lists_pick(visible@, parts@, true);
    }
    (opaque, transparent)
}

} // verus!
