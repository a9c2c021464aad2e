//! The clustering engine: centroids ("means"), the assignment of every
//! sample to its nearest centroid, and the update that moves each centroid
//! to the mean of its cluster.
use vstd::multiset::Multiset;
use vstd::prelude::*;
use vstd::seq_lib::to_multiset_build;
use crate::color::{color_of, point_of, to_color, to_point, Color};
use crate::fixed::{
    div_round, lemma_round_div_error, lemma_round_div_within, magnitude, round_div, saturate,
    saturated, trunc_div,
};
use crate::random::random_draw;
use crate::vector::{IntVector, Vector3};

verus! {

/// Whether `means[k]` is the centroid nearest to `p`: none is nearer, and
/// every one before it is strictly farther.
pub open spec fn is_nearest(p: IntVector, means: Seq<Vector3>, k: int) -> bool {
    &&& 0 <= k < means.len()
    &&& forall|j: int|
        0 <= j < means.len() ==> p.minus(means[k]@).norm2() <= p.minus(#[trigger] means[j]@).norm2()
    &&& forall|j: int|
        0 <= j < k ==> p.minus(means[k]@).norm2() < p.minus(#[trigger] means[j]@).norm2()
}

/// The index of the centroid nearest to `p`, or -1 where there is none.
pub open spec fn nearest(p: IntVector, means: Seq<Vector3>) -> int {
    if means.len() == 0 {
        -1
    } else {
        choose|k: int| is_nearest(p, means, k)
    }
}

/// The index that `is_nearest` accepts is the one that `nearest` gives.
pub proof fn lemma_nearest_is(p: IntVector, means: Seq<Vector3>, k: int)
    requires
        is_nearest(p, means, k),
    ensures
        nearest(p, means) == k,
{
    let c = nearest(p, means);
    assert(is_nearest(p, means, c));
    if c < k {
        assert(p.minus(means[k]@).norm2() < p.minus(means[c]@).norm2());
        assert(p.minus(means[c]@).norm2() <= p.minus(means[k]@).norm2());
    } else if k < c {
        assert(p.minus(means[c]@).norm2() < p.minus(means[k]@).norm2());
        assert(p.minus(means[k]@).norm2() <= p.minus(means[c]@).norm2());
    }
}

/// Among one or more centroids there is a nearest one.
pub proof fn lemma_nearest_exists(p: IntVector, means: Seq<Vector3>)
    requires
        means.len() > 0,
    ensures
        is_nearest(p, means, nearest(p, means)),
    decreases means.len(),
{
    let n = means.len() - 1;
    if n == 0 {
        assert(is_nearest(p, means, 0));
    } else {
        let front = means.drop_last();
        lemma_nearest_exists(p, front);
        let kf = nearest(p, front);
        assert(forall|j: int| 0 <= j < n ==> front[j] == means[j]);
        if p.minus(means[n]@).norm2() < p.minus(means[kf]@).norm2() {
            assert(is_nearest(p, means, n));
        } else {
            assert(is_nearest(p, means, kf));
        }
    }
}

/// Finds the centroid nearest to `point` by a scan from the front; of
/// several at the same distance the first wins.
pub fn nearest_mean(point: Vector3, means: &Vec<Vector3>) -> (k: Option<usize>)
    ensures
        means.len() == 0 <==> k is None,
        k matches Some(i) ==> is_nearest(point@, means@, i as int) && i == nearest(point@, means@),
{
    let n = means.len();
    if n == 0 {
        return None;
    }
    let mut best: usize = 0;
    let mut least: u128 = point.distance_squared(means[0]);
    let mut j: usize = 1;
    while j < n
        invariant
            1 <= j <= n,
            n == means.len(),
            best < j,
            least == point@.minus(means@[best as int]@).norm2(),
            forall|i: int| 0 <= i < j ==> least <= point@.minus(#[trigger] means@[i]@).norm2(),
            forall|i: int| 0 <= i < best ==> least < point@.minus(#[trigger] means@[i]@).norm2(),
        decreases n - j,
    {
        let d: u128 = point.distance_squared(means[j]);
        if d < least {
            best = j;
            least = d;
        }
        j += 1;
    }
    proof {
        lemma_nearest_is(point@, means@, best as int);
    }
    Some(best)
}

/// The index of the centroid nearest to a colour's point, or -1 where there
/// is no centroid.
pub fn cluster_of_color(color: Color, cluster_radius: i32, means: &Vec<Vector3>) -> (k: i32)
    requires
        means.len() <= i32::MAX,
    ensures
        k == nearest(point_of(color, cluster_radius as int), means@),
        k == -1 <==> means.len() == 0,
        k != -1 ==> is_nearest(point_of(color, cluster_radius as int), means@, k as int),
{
    match nearest_mean(to_point(color, cluster_radius), means) {
        Some(i) => i as i32,
        None => -1,
    }
}

/// The colour that stands for `color` once the image is quantised: that of
/// the centroid nearest to it.
pub open spec fn quantized(color: Color, radius: int, means: Seq<Vector3>) -> Color {
    color_of(means[nearest(point_of(color, radius), means)]@, radius)
}

/// Recolours an image: every pixel takes the colour of the centroid nearest
/// to it.
pub fn recolor_image(pixels: &Vec<Color>, cluster_radius: i32, means: &Vec<Vector3>) -> (image:
    Vec<Color>)
    requires
        means.len() > 0,
    ensures
        image.len() == pixels.len(),
        forall|i: int|
            0 <= i < pixels.len() ==> #[trigger] image@[i] == quantized(
                pixels@[i],
                cluster_radius as int,
                means@,
            ),
{
    let count = pixels.len();
    let mut image: Vec<Color> = Vec::new();
    let mut i: usize = 0;
    while i < count
        invariant
            i <= count,
            count == pixels.len(),
            means.len() > 0,
            image.len() == i,
            forall|c: int|
                0 <= c < i ==> #[trigger] image@[c] == quantized(
                    pixels@[c],
                    cluster_radius as int,
                    means@,
                ),
        decreases count - i,
    {
        let k = nearest_mean(to_point(pixels[i], cluster_radius), means).unwrap();
        image.push(to_color(means[k], cluster_radius));
        i += 1;
    }
    image
}

/// The test that a sample belongs to cluster `i`.
pub open spec fn in_cluster(means: Seq<Vector3>, i: int) -> spec_fn(Vector3) -> bool {
    |sample: Vector3| nearest(sample@, means) == i
}

/// The samples whose nearest centroid is `means[i]`, in their order.
pub open spec fn assigned(samples: Seq<Vector3>, means: Seq<Vector3>, i: int) -> Seq<Vector3> {
    samples.filter(in_cluster(means, i))
}

/// What each cluster holds, as sequences.
pub open spec fn cluster_views(clusters: Seq<Vec<Vector3>>) -> Seq<Seq<Vector3>> {
    Seq::new(clusters.len(), |i: int| clusters[i]@)
}

/// The samples of all clusters together, as a multiset.
pub open spec fn pooled(clusters: Seq<Seq<Vector3>>) -> Multiset<Vector3>
    decreases clusters.len(),
{
    if clusters.len() == 0 {
        Multiset::empty()
    } else {
        pooled(clusters.drop_last()).add(clusters.last().to_multiset())
    }
}

/// Clusters that are all empty pool to nothing.
proof fn lemma_pooled_empty(clusters: Seq<Seq<Vector3>>)
    requires
        forall|i: int| 0 <= i < clusters.len() ==> (#[trigger] clusters[i]).len() == 0,
    ensures
        pooled(clusters) =~= Multiset::empty(),
    decreases clusters.len(),
{
    if clusters.len() > 0 {
        lemma_pooled_empty(clusters.drop_last());
        assert(clusters.last() =~= Seq::empty());
        Seq::<Vector3>::empty().to_multiset_ensures();
    }
}

/// One more sample in one cluster is one more sample in the pool.
proof fn lemma_pooled_push(clusters: Seq<Seq<Vector3>>, k: int, sample: Vector3)
    requires
        0 <= k < clusters.len(),
    ensures
        pooled(clusters.update(k, clusters[k].push(sample))) =~= pooled(clusters).insert(sample),
    decreases clusters.len(),
{
    let after = clusters.update(k, clusters[k].push(sample));
    if k == clusters.len() - 1 {
        assert(after.drop_last() =~= clusters.drop_last());
        to_multiset_build(clusters[k], sample);
    } else {
        assert(after.drop_last() =~= clusters.drop_last().update(
            k,
            clusters.drop_last()[k].push(sample),
        ));
        lemma_pooled_push(clusters.drop_last(), k, sample);
    }
}

/// The clusters that an assignment of `samples` to `means` gives.
pub open spec fn assignment(samples: Seq<Vector3>, means: Seq<Vector3>) -> Seq<Seq<Vector3>> {
    Seq::new(means.len(), |i: int| assigned(samples, means, i))
}

/// An assignment is a partition of the samples: the clusters pooled are the
/// samples, each as often as it was given, and no sample lies in two clusters.
pub proof fn lemma_assignment_partitions(samples: Seq<Vector3>, means: Seq<Vector3>)
    requires
        means.len() > 0,
    ensures
        pooled(assignment(samples, means)) == samples.to_multiset(),
        forall|i: int, j: int, sample: Vector3|
            assigned(samples, means, i).contains(sample) && assigned(samples, means, j).contains(
                sample,
            ) ==> i == j,
    decreases samples.len(),
{
    assert forall|i: int, j: int, sample: Vector3|
        assigned(samples, means, i).contains(sample) && assigned(samples, means, j).contains(
            sample,
        ) implies i == j by {
        let a = choose|a: int|
            0 <= a < assigned(samples, means, i).len() && assigned(samples, means, i)[a] == sample;
        let b = choose|b: int|
            0 <= b < assigned(samples, means, j).len() && assigned(samples, means, j)[b] == sample;
        samples.lemma_filter_pred(in_cluster(means, i), a);
        samples.lemma_filter_pred(in_cluster(means, j), b);
    }
    if samples.len() == 0 {
        assert forall|i: int| 0 <= i < means.len() implies (#[trigger] assignment(
            samples,
            means,
        )[i]).len() == 0 by {
            reveal(Seq::filter);
        }
        lemma_pooled_empty(assignment(samples, means));
        assert(samples =~= Seq::empty());
        Seq::<Vector3>::empty().to_multiset_ensures();
        assert(pooled(assignment(samples, means)) =~= samples.to_multiset());
    } else {
        let front = samples.drop_last();
        let sample = samples.last();
        lemma_assignment_partitions(front, means);
        lemma_nearest_exists(sample@, means);
        let k = nearest(sample@, means);
        let before = assignment(front, means);
        assert(samples =~= front.push(sample));
        assert forall|i: int| 0 <= i < means.len() implies #[trigger] assignment(samples, means)[i]
            == before.update(k, before[k].push(sample))[i] by {
            front.lemma_filter_push(sample, in_cluster(means, i));
        }
        assert(assignment(samples, means) =~= before.update(k, before[k].push(sample)));
        lemma_pooled_push(before, k, sample);
        to_multiset_build(front, sample);
        assert(pooled(assignment(samples, means)) =~= samples.to_multiset());
    }
}

/// Every sample of a cluster is nearest to that cluster's centroid: no
/// centroid is nearer, and those before it are strictly farther.
pub proof fn lemma_assigned_is_nearest(samples: Seq<Vector3>, means: Seq<Vector3>, i: int, j: int)
    requires
        0 <= i < means.len(),
        0 <= j < assigned(samples, means, i).len(),
    ensures
        is_nearest(assigned(samples, means, i)[j]@, means, i),
{
    samples.lemma_filter_pred(in_cluster(means, i), j);
    lemma_nearest_exists(assigned(samples, means, i)[j]@, means);
}

/// Rebuilds the clusters: one per centroid, each with the samples that are
/// nearest to that centroid, in the order of the samples.
pub fn recluster_state(
    samples: &Vec<Vector3>,
    means: &Vec<Vector3>,
    clusters: &mut Vec<Vec<Vector3>>,
)
    requires
        samples.len() == 0 || means.len() > 0,
    ensures
        final(clusters).len() == means.len(),
        forall|i: int|
            0 <= i < means.len() ==> (#[trigger] final(clusters)@[i])@ == assigned(
                samples@,
                means@,
                i,
            ),
        cluster_views(final(clusters)@) == assignment(samples@, means@),
        pooled(cluster_views(final(clusters)@)) == samples@.to_multiset(),
        forall|i: int, j: int|
            0 <= i < means.len() && 0 <= j < final(clusters)@[i].len() ==> is_nearest(
                #[trigger] final(clusters)@[i]@[j]@,
                means@,
                i,
            ),
{
    let count = means.len();
    let mut fresh: Vec<Vec<Vector3>> = Vec::new();
    let mut i: usize = 0;
    while i < count
        invariant
            i <= count,
            fresh.len() == i,
            forall|c: int| 0 <= c < i ==> (#[trigger] fresh@[c])@ == Seq::<Vector3>::empty(),
        decreases count - i,
    {
        fresh.push(Vec::new());
        i += 1;
    }
    *clusters = fresh;
    let total = samples.len();
    let mut s: usize = 0;
    proof {
        assert forall|c: int| 0 <= c < count implies (#[trigger] clusters@[c])@ == assigned(
            samples@.take(0),
            means@,
            c,
        ) by {
            reveal(Seq::filter);
        }
    }
    while s < total
        invariant
            s <= total,
            total == samples.len(),
            count == means.len(),
            total == 0 || count > 0,
            clusters.len() == count,
            forall|c: int|
                0 <= c < count ==> (#[trigger] clusters@[c])@ == assigned(
                    samples@.take(s as int),
                    means@,
                    c,
                ),
        decreases total - s,
    {
        let sample = samples[s];
        let k = nearest_mean(sample, means).unwrap();
        let ghost before = clusters@;
        clusters[k].push(sample);
        proof {
            assert(samples@.take(s + 1) =~= samples@.take(s as int).push(sample));
            assert forall|c: int| 0 <= c < count implies (#[trigger] clusters@[c])@ == assigned(
                samples@.take(s + 1),
                means@,
                c,
            ) by {
                samples@.take(s as int).lemma_filter_push(sample, in_cluster(means@, c));
                assert(before[c]@ == assigned(samples@.take(s as int), means@, c));
            }
        }
        s += 1;
    }
    proof {
        assert(samples@.take(total as int) =~= samples@);
        assert(cluster_views(clusters@) =~= assignment(samples@, means@));
        if count > 0 {
            lemma_assignment_partitions(samples@, means@);
        } else {
            assert(samples@ =~= Seq::empty());
            Seq::<Vector3>::empty().to_multiset_ensures();
            assert(pooled(cluster_views(clusters@)) =~= samples@.to_multiset());
        }
        assert forall|i: int, j: int|
            0 <= i < means.len() && 0 <= j < clusters@[i].len() implies is_nearest(
            #[trigger] clusters@[i]@[j]@,
            means@,
            i,
        ) by {
            lemma_assigned_is_nearest(samples@, means@, i, j);
        }
    }
}

/// The component-wise sum of the points.
pub open spec fn total(points: Seq<Vector3>) -> IntVector
    decreases points.len(),
{
    if points.len() == 0 {
        IntVector::zero()
    } else {
        total(points.drop_last()).plus(points.last()@)
    }
}

/// The component-wise mean of one or more points, each component rounded to
/// the nearest unit.
pub open spec fn centroid(points: Seq<Vector3>) -> IntVector {
    total(points).rounded(points.len() as int)
}

/// The mean of one or more points.
pub fn centroid_of(points: &Vec<Vector3>) -> (mean: Vector3)
    requires
        points.len() > 0,
    ensures
        mean@ == centroid(points@),
{
    let count = points.len();
    let mut x: i128 = 0;
    let mut y: i128 = 0;
    let mut z: i128 = 0;
    let mut j: usize = 0;
    while j < count
        invariant
            j <= count,
            count == points.len(),
            total(points@.take(j as int)) == (IntVector { x: x as int, y: y as int, z: z as int }),
            j * i32::MIN <= x <= j * i32::MAX,
            j * i32::MIN <= y <= j * i32::MAX,
            j * i32::MIN <= z <= j * i32::MAX,
        decreases count - j,
    {
        let point = points[j];
        proof {
            assert(points@.take(j + 1).drop_last() =~= points@.take(j as int));
        }
        x = x + point.x as i128;
        y = y + point.y as i128;
        z = z + point.z as i128;
        j += 1;
    }
    proof {
        assert(points@.take(count as int) =~= points@);
        lemma_round_div_within(x as int, count as int, i32::MIN as int, i32::MAX as int);
        lemma_round_div_within(y as int, count as int, i32::MIN as int, i32::MAX as int);
        lemma_round_div_within(z as int, count as int, i32::MIN as int, i32::MAX as int);
    }
    let n: i128 = count as i128;
    Vector3 {
        x: div_round(x, n) as i32,
        y: div_round(y, n) as i32,
        z: div_round(z, n) as i32,
    }
}

/// The coordinate that a draw of 32 random bits stands for: the draw taken
/// as a fraction of 2^32 of the way from `-radius` to `radius`.
pub open spec fn drawn_coordinate(radius: int, draw: int) -> int {
    saturated(-radius + trunc_div(2 * radius * draw, 0x1_0000_0000))
}

/// The point that three draws stand for.
pub open spec fn drawn_point(radius: int, dx: int, dy: int, dz: int) -> IntVector {
    IntVector {
        x: drawn_coordinate(radius, dx),
        y: drawn_coordinate(radius, dy),
        z: drawn_coordinate(radius, dz),
    }
}

/// Whatever the draw, the coordinate lies in the cube of the radius.
pub proof fn lemma_drawn_coordinate_bound(radius: int, draw: int)
    requires
        0 <= draw < 0x1_0000_0000,
        i32::MIN <= radius <= i32::MAX,
    ensures
        -magnitude(radius) <= drawn_coordinate(radius, draw) <= magnitude(radius),
        -0x1_0000_0000_0000_0000 <= 2 * radius * draw <= 0x1_0000_0000_0000_0000,
{
    let m = magnitude(radius);
    let n = 2 * m * draw;
    assert(0 <= n <= 2 * m * 0x1_0000_0000 - 2 * m) by (nonlinear_arith)
        requires
            n == 2 * m * draw,
            0 <= m,
            0 <= draw <= 0x1_0000_0000 - 1,
    ;
    let q = n / 0x1_0000_0000;
    assert(0 <= q <= 2 * m);
    if radius >= 0 {
        assert(2 * radius * draw == n);
    } else {
        assert(2 * radius * draw == -n) by (nonlinear_arith)
            requires
                n == 2 * m * draw,
                m == -radius,
        ;
        if n > 0 {
            assert(trunc_div(2 * radius * draw, 0x1_0000_0000) == -q);
        }
    }
}

/// The point in the cube of `cluster_radius` that three draws of 32 random
/// bits stand for.
pub fn point_from_draws(cluster_radius: i32, dx: u32, dy: u32, dz: u32) -> (point: Vector3)
    ensures
        point@ == drawn_point(cluster_radius as int, dx as int, dy as int, dz as int),
        point@.within(magnitude(cluster_radius as int)),
{
    proof {
        lemma_drawn_coordinate_bound(cluster_radius as int, dx as int);
        lemma_drawn_coordinate_bound(cluster_radius as int, dy as int);
        lemma_drawn_coordinate_bound(cluster_radius as int, dz as int);
    }
    let r: i128 = cluster_radius as i128;
    Vector3 {
        x: saturate(-r + (2 * r * (dx as i128)) / 0x1_0000_0000),
        y: saturate(-r + (2 * r * (dy as i128)) / 0x1_0000_0000),
        z: saturate(-r + (2 * r * (dz as i128)) / 0x1_0000_0000),
    }
}

/// The point that the three draws for centroid `i` stand for, where `draws`
/// holds three draws for each centroid, in the order of the centroids.
pub open spec fn drawn_for(radius: int, draws: Seq<u32>, i: int) -> IntVector {
    drawn_point(radius, draws[3 * i] as int, draws[3 * i + 1] as int, draws[3 * i + 2] as int)
}

/// Places every centroid anew in the cube of `cluster_radius`, at the point
/// that its three draws stand for.
pub fn generate_means_from_draws(means: &mut Vec<Vector3>, cluster_radius: i32, draws: &Vec<u32>)
    requires
        3 * old(means).len() <= draws.len(),
    ensures
        final(means).len() == old(means).len(),
        forall|i: int|
            0 <= i < final(means).len() ==> {
                &&& (#[trigger] final(means)@[i])@ == drawn_for(cluster_radius as int, draws@, i)
                &&& final(means)@[i]@.within(magnitude(cluster_radius as int))
            },
{
    let count = means.len();
    let mut i: usize = 0;
    while i < count
        invariant
            i <= count,
            means.len() == count,
            3 * count <= draws.len(),
            forall|c: int|
                0 <= c < i ==> {
                    &&& (#[trigger] means@[c])@ == drawn_for(cluster_radius as int, draws@, c)
                    &&& means@[c]@.within(magnitude(cluster_radius as int))
                },
        decreases count - i,
    {
        let point = point_from_draws(
            cluster_radius,
            draws[3 * i],
            draws[3 * i + 1],
            draws[3 * i + 2],
        );
        means.set(i, point);
        i += 1;
    }
}

/// Whether `point` is one that some three draws stand for.
pub open spec fn is_drawn(point: IntVector, radius: int) -> bool {
    exists|dx: u32, dy: u32, dz: u32| point == #[trigger] drawn_point(radius, dx as int, dy as int, dz as int)
}

/// A point drawn at random in the cube of `cluster_radius`.
fn random_point(cluster_radius: i32) -> (point: Vector3)
    ensures
        is_drawn(point@, cluster_radius as int),
        point@.within(magnitude(cluster_radius as int)),
{
    let dx = random_draw();
    let dy = random_draw();
    let dz = random_draw();
    point_from_draws(cluster_radius, dx, dy, dz)
}

/// Places every centroid anew, at random in the cube of `cluster_radius`.
pub fn generate_new_means(means: &mut Vec<Vector3>, cluster_radius: i32)
    ensures
        final(means).len() == old(means).len(),
        forall|i: int|
            0 <= i < final(means).len() ==> {
                &&& is_drawn(#[trigger] final(means)@[i]@, cluster_radius as int)
                &&& final(means)@[i]@.within(magnitude(cluster_radius as int))
            },
{
    let count = means.len();
    let mut i: usize = 0;
    while i < count
        invariant
            i <= count,
            means.len() == count,
            forall|c: int|
                0 <= c < i ==> {
                    &&& is_drawn(#[trigger] means@[c]@, cluster_radius as int)
                    &&& means@[c]@.within(magnitude(cluster_radius as int))
                },
        decreases count - i,
    {
        let point = random_point(cluster_radius);
        means.set(i, point);
        i += 1;
    }
}

/// Moves every centroid: one with a cluster goes to the mean of its
/// cluster, one without is placed anew at random in the cube of
/// `cluster_radius`.
pub fn update_means(means: &mut Vec<Vector3>, clusters: &Vec<Vec<Vector3>>, cluster_radius: i32)
    requires
        old(means).len() <= clusters.len(),
    ensures
        final(means).len() == old(means).len(),
        forall|i: int|
            0 <= i < final(means).len() && clusters@[i].len() > 0
                ==> (#[trigger] final(means)@[i])@ == centroid(clusters@[i]@),
        forall|i: int|
            0 <= i < final(means).len() && clusters@[i].len() == 0 ==> {
                &&& is_drawn(#[trigger] final(means)@[i]@, cluster_radius as int)
                &&& final(means)@[i]@.within(magnitude(cluster_radius as int))
            },
{
    let count = means.len();
    let mut i: usize = 0;
    while i < count
        invariant
            i <= count,
            means.len() == count,
            count <= clusters.len(),
            forall|c: int|
                0 <= c < i && clusters@[c].len() > 0 ==> (#[trigger] means@[c])@ == centroid(
                    clusters@[c]@,
                ),
            forall|c: int|
                0 <= c < i && clusters@[c].len() == 0 ==> {
                    &&& is_drawn(#[trigger] means@[c]@, cluster_radius as int)
                    &&& means@[c]@.within(magnitude(cluster_radius as int))
                },
        decreases count - i,
    {
        let point = if clusters[i].len() > 0 {
            centroid_of(&clusters[i])
        } else {
            random_point(cluster_radius)
        };
        means.set(i, point);
        i += 1;
    }
}

/// Where a centroid goes in an update: to the mean of its cluster, or,
/// without a cluster, to the point that its three draws stand for.
pub open spec fn updated_mean(cluster: Seq<Vector3>, radius: int, draws: Seq<u32>, i: int) -> IntVector {
    if cluster.len() > 0 {
        centroid(cluster)
    } else {
        drawn_for(radius, draws, i)
    }
}

/// Moves every centroid as `update_means` does, with the draws given: a
/// centroid without a cluster goes to the point that its three draws stand
/// for.
pub fn update_means_from_draws(
    means: &mut Vec<Vector3>,
    clusters: &Vec<Vec<Vector3>>,
    cluster_radius: i32,
    draws: &Vec<u32>,
)
    requires
        old(means).len() <= clusters.len(),
        3 * old(means).len() <= draws.len(),
    ensures
        final(means).len() == old(means).len(),
        forall|i: int|
            0 <= i < final(means).len() ==> (#[trigger] final(means)@[i])@ == updated_mean(
                clusters@[i]@,
                cluster_radius as int,
                draws@,
                i,
            ),
{
    let count = means.len();
    let mut i: usize = 0;
    while i < count
        invariant
            i <= count,
            means.len() == count,
            count <= clusters.len(),
            3 * count <= draws.len(),
            forall|c: int|
                0 <= c < i ==> (#[trigger] means@[c])@ == updated_mean(
                    clusters@[c]@,
                    cluster_radius as int,
                    draws@,
                    c,
                ),
        decreases count - i,
    {
        let point = if clusters[i].len() > 0 {
            centroid_of(&clusters[i])
        } else {
            point_from_draws(cluster_radius, draws[3 * i], draws[3 * i + 1], draws[3 * i + 2])
        };
        means.set(i, point);
        i += 1;
    }
}

/// The centroid of one or more points is their arithmetic mean to within
/// half a unit: in each component, the centroid times the number of points
/// differs from the sum of the points by no more than half that number.
pub proof fn lemma_centroid_is_mean(points: Seq<Vector3>)
    requires
        points.len() > 0,
    ensures
        ({
            let n = points.len() as int;
            let c = centroid(points);
            let t = total(points);
            &&& -n <= 2 * (c.x * n - t.x) <= n
            &&& -n <= 2 * (c.y * n - t.y) <= n
            &&& -n <= 2 * (c.z * n - t.z) <= n
        }),
{
    let n = points.len() as int;
    let t = total(points);
    lemma_round_div_error(t.x, n);
    lemma_round_div_error(t.y, n);
    lemma_round_div_error(t.z, n);
}

/// The centroid of a single point is that point.
pub proof fn lemma_centroid_of_one(point: Vector3)
    ensures
        centroid(seq![point]) == point@,
{
    let points = seq![point];
    assert(points.drop_last() =~= Seq::<Vector3>::empty());
    assert(total(points.drop_last()) == IntVector::zero());
    assert(total(points) == point@);
    assert(points.len() == 1);
    lemma_round_div_error(point@.x, 1);
    lemma_round_div_error(point@.y, 1);
    lemma_round_div_error(point@.z, 1);
}

} // verus!
