//! Binning based on k-means clustering of one-dimensional integer values:
//! greedy farthest-point seeding, Lloyd's iteration with an early exit when no
//! point changes cluster, bounded by a maximum iteration count. The resulting
//! centroids are sorted ascending so that a higher bin index means a larger
//! value, and a value is binned to its nearest centroid (first on ties).

use vstd::multiset::Multiset;
use vstd::prelude::*;

use crate::binning::Binner;
use crate::language::sort_by_key;
use crate::order::seq_keys;
use crate::percentile::ascending;
use crate::rng::{gen_below, rng_from_entropy, rng_from_seed};

verus! {

/// Arguments for the k-means binner.
#[derive(Clone, Copy, Debug)]
pub struct KMeansArgs {
    /// The number of clusters.
    pub k: usize,
    /// Maximum number of Lloyd iterations.
    pub max_iter: usize,
    /// Optional seed for reproducible initialization.
    pub seed: Option<u64>,
}

impl Default for KMeansArgs {
    /// Default clustering arguments: 3 clusters, 100 iterations, no seed.
    fn default() -> (r: KMeansArgs)
        ensures
            r.k == 3,
            r.max_iter == 100,
            r.seed is None,
    {
        KMeansArgs { k: 3, max_iter: 100, seed: None }
    }
}

impl KMeansArgs {
    pub fn new(k: usize, max_iter: usize, seed: Option<u64>) -> (r: KMeansArgs)
        ensures
            r.k == k,
            r.max_iter == max_iter,
            r.seed == seed,
    {
        KMeansArgs { k, max_iter, seed }
    }

    pub fn with_seed(self, seed: u64) -> (r: KMeansArgs)
        ensures
            r.k == self.k,
            r.max_iter == self.max_iter,
            r.seed == Some(seed),
    {
        KMeansArgs { seed: Some(seed), ..self }
    }

    pub fn with_bins(self, k: usize) -> (r: KMeansArgs)
        ensures
            r.k == k,
            r.max_iter == self.max_iter,
            r.seed == self.seed,
    {
        KMeansArgs { k, ..self }
    }
}

/// The squared distance of two one-dimensional points.
pub open spec fn spec_square_distance(a: int, b: int) -> int {
    (a - b) * (a - b)
}

/// Computes the squared distance of two values, exactly.
pub fn square_distance(a: u64, b: u64) -> (r: u128)
    ensures
        r == spec_square_distance(a as int, b as int),
{
    let d: u64 = if a >= b {
        a - b
    } else {
        b - a
    };
    proof {
        assert((d as u128) * (d as u128) <= u128::MAX && (d as u128) * (d as u128) == (a as int
            - b as int) * (a as int - b as int)) by (nonlinear_arith)
            requires
                d <= u64::MAX,
                d == a as int - b as int || d == b as int - a as int,
        ;
    }
    (d as u128) * (d as u128)
}

/// The result of a k-means clustering: the cluster index of each element, and
/// the cluster centroids.
#[derive(Debug)]
pub struct Clustering {
    /// `membership[i] == c` means element `i` belongs to cluster `c`.
    pub membership: Vec<usize>,
    /// The centroid of each cluster.
    pub centroids: Vec<u64>,
}

/// How many elements belong to cluster `c`.
pub open spec fn cluster_count(membership: Seq<usize>, c: int) -> int
    decreases membership.len(),
{
    if membership.len() == 0 {
        0
    } else {
        cluster_count(membership.drop_last(), c) + if membership.last() == c {
            1int
        } else {
            0int
        }
    }
}

/// The sum of the elements belonging to cluster `c`.
pub open spec fn cluster_sum(elems: Seq<u64>, membership: Seq<usize>, c: int) -> int
    decreases elems.len(),
{
    if elems.len() == 0 {
        0
    } else {
        cluster_sum(elems.drop_last(), membership.drop_last(), c) + if membership.last() == c {
            elems.last() as int
        } else {
            0int
        }
    }
}

/// A cluster has at most as many members as there are elements, and its sum
/// is bounded by its size times the largest value.
proof fn lemma_cluster_bounds(elems: Seq<u64>, membership: Seq<usize>, c: int)
    requires
        elems.len() == membership.len(),
    ensures
        0 <= cluster_count(membership, c) <= membership.len(),
        0 <= cluster_sum(elems, membership, c) <= cluster_count(membership, c) * (u64::MAX as int),
    decreases elems.len(),
{
    if elems.len() > 0 {
        lemma_cluster_bounds(elems.drop_last(), membership.drop_last(), c);
        if membership.last() == c {
            assert(cluster_count(membership.drop_last(), c) * (u64::MAX as int) + (
            u64::MAX as int) == cluster_count(membership, c) * (u64::MAX as int))
                by (nonlinear_arith)
                requires
                    cluster_count(membership, c) == cluster_count(membership.drop_last(), c) + 1,
            ;
        }
    }
}

/// The centroids are exactly the cluster means of the membership: the floor
/// of each non-empty cluster's average, and 0 for an empty cluster.
pub open spec fn centroids_are_cluster_means(
    elems: Seq<u64>,
    membership: Seq<usize>,
    centroids: Seq<u64>,
) -> bool {
    forall|c: int|
        0 <= c < centroids.len() ==> (#[trigger] centroids[c]) as int == (if cluster_count(
            membership,
            c,
        ) == 0 {
            0int
        } else {
            cluster_sum(elems, membership, c) / cluster_count(membership, c)
        })
}

/// Greedy farthest-point initialization: the first centroid is a uniformly
/// drawn element, and each further centroid is the untaken element farthest
/// from its closest centroid. Every centroid is an element of the data.
fn initialize(k: usize, elems: &Vec<u64>, rng: &mut rand::rngs::StdRng) -> (centroids: Vec<u64>)
    requires
        k >= 1,
        elems@.len() >= 1,
        elems@.len() <= u64::MAX,
    ensures
        centroids@.len() == k,
        forall|c: int| 0 <= c < k ==> elems@.contains(#[trigger] centroids@[c]),
{
    let n = elems.len();
    let mut taken: Vec<bool> = Vec::new();
    let mut t: usize = 0;
    while t < n
        invariant
            taken@.len() == t <= n,
        decreases n - t,
    {
        taken.push(false);
        t += 1;
    }
    let first = gen_below(rng, n as u64) as usize;
    let mut centroids: Vec<u64> = Vec::new();
    taken.set(first, true);
    centroids.push(elems[first]);
    proof {
        assert(elems@.contains(elems@[first as int]));
    }
    let mut c: usize = 1;
    while c < k
        invariant
            1 <= c <= k,
            n == elems@.len() >= 1,
            taken@.len() == n,
            centroids@.len() == c,
            forall|m: int| 0 <= m < c ==> elems@.contains(#[trigger] centroids@[m]),
        decreases k - c,
    {
        // the untaken element farthest from its closest centroid
        let mut imax: usize = 0;
        let mut dmax: Option<u128> = None;
        let mut i: usize = 0;
        while i < n
            invariant
                0 <= i <= n == elems@.len(),
                n >= 1,
                taken@.len() == n,
                centroids@.len() == c >= 1,
                imax < n,
            decreases n - i,
        {
            if !taken[i] {
                let mut dxmin = square_distance(elems[i], centroids[0]);
                let mut q: usize = 1;
                while q < centroids.len()
                    invariant
                        1 <= q <= centroids@.len(),
                        0 <= i < elems@.len(),
                    decreases centroids@.len() - q,
                {
                    let dx = square_distance(elems[i], centroids[q]);
                    if dx < dxmin {
                        dxmin = dx;
                    }
                    q += 1;
                }
                let better = match dmax {
                    Some(d) => dxmin > d,
                    None => true,
                };
                if better {
                    dmax = Some(dxmin);
                    imax = i;
                }
            }
            i += 1;
        }
        centroids.push(elems[imax]);
        proof {
            assert(elems@.contains(elems@[imax as int]));
        }
        c += 1;
    }
    centroids
}

/// Groups the elements into `k` clusters: assignment to the nearest centroid
/// and centroid recomputation as the cluster mean alternate until no element
/// changes cluster or the iteration budget is spent.
pub fn kmeans(k: usize, elems: &Vec<u64>, iter: usize, seed: Option<u64>) -> (r: Clustering)
    requires
        k >= 1,
        elems@.len() >= 1,
        elems@.len() <= u64::MAX,
    ensures
        r.centroids@.len() == k,
        r.membership@.len() == elems@.len(),
        forall|m: int| 0 <= m < r.membership@.len() ==> #[trigger] r.membership@[m] < k,
        iter == 0 ==> forall|c: int| 0 <= c < k ==> elems@.contains(#[trigger] r.centroids@[c]),
        iter >= 1 ==> centroids_are_cluster_means(elems@, r.membership@, r.centroids@),
{
    let n = elems.len();
    let mut rng = if let Some(s) = seed {
        rng_from_seed(s)
    } else {
        rng_from_entropy()
    };
    let mut centroids = initialize(k, elems, &mut rng);
    let mut membership: Vec<usize> = Vec::new();
    let mut t: usize = 0;
    while t < n
        invariant
            membership@.len() == t <= n,
            forall|m: int| 0 <= m < t ==> #[trigger] membership@[m] == 0,
        decreases n - t,
    {
        membership.push(0);
        t += 1;
    }
    let ghost mut computed: bool = false;
    let mut it: usize = 0;
    while it < iter
        invariant
            0 <= it <= iter,
            n == elems@.len() >= 1,
            n <= u64::MAX,
            k >= 1,
            centroids@.len() == k,
            membership@.len() == n,
            forall|m: int| 0 <= m < n ==> #[trigger] membership@[m] < k,
            it > 0 ==> computed,
            iter == 0 ==> forall|c: int|
                0 <= c < k ==> elems@.contains(#[trigger] centroids@[c]),
            computed ==> centroids_are_cluster_means(elems@, membership@, centroids@),
        ensures
            iter >= 1 ==> computed,
            centroids@.len() == k,
            membership@.len() == n,
            forall|m: int| 0 <= m < n ==> #[trigger] membership@[m] < k,
            iter == 0 ==> forall|c: int|
                0 <= c < k ==> elems@.contains(#[trigger] centroids@[c]),
            computed ==> centroids_are_cluster_means(elems@, membership@, centroids@),
        decreases iter - it,
    {
        let mut changed = false;

        // assign each element to the cluster of its closest centroid
        let mut i: usize = 0;
        while i < n
            invariant
                0 <= i <= n == elems@.len(),
                k >= 1,
                centroids@.len() == k,
                membership@.len() == n,
                forall|m: int| 0 <= m < n ==> #[trigger] membership@[m] < k,
            decreases n - i,
        {
            let old_clus = membership[i];
            let mut clus = old_clus;
            let mut dist = square_distance(elems[i], centroids[old_clus]);
            let mut c: usize = 0;
            while c < k
                invariant
                    0 <= c <= k == centroids@.len(),
                    0 <= i < elems@.len(),
                    clus < k,
                decreases k - c,
            {
                let sdist = square_distance(elems[i], centroids[c]);
                if sdist < dist {
                    dist = sdist;
                    clus = c;
                    changed = true;
                }
                c += 1;
            }
            membership.set(i, clus);
            i += 1;
        }

        // recompute each centroid as the mean of its cluster
        let mut sums: Vec<u128> = Vec::new();
        let mut counts: Vec<u64> = Vec::new();
        let mut c: usize = 0;
        while c < k
            invariant
                sums@.len() == c <= k,
                counts@.len() == c,
                forall|m: int| 0 <= m < c ==> #[trigger] sums@[m] == 0,
                forall|m: int| 0 <= m < c ==> #[trigger] counts@[m] == 0,
            decreases k - c,
        {
            sums.push(0);
            counts.push(0);
            c += 1;
        }
        let mut i: usize = 0;
        while i < n
            invariant
                0 <= i <= n == elems@.len(),
                n <= u64::MAX,
                k >= 1,
                centroids@.len() == k,
                membership@.len() == n,
                forall|m: int| 0 <= m < n ==> #[trigger] membership@[m] < k,
                sums@.len() == k,
                counts@.len() == k,
                forall|m: int| 0 <= m < k ==> #[trigger] counts@[m] <= i,
                forall|m: int|
                    0 <= m < k ==> #[trigger] sums@[m] <= (counts@[m] as int) * (u64::MAX as int),
                forall|m: int|
                    0 <= m < k ==> #[trigger] counts@[m] as int == cluster_count(
                        membership@.take(i as int),
                        m,
                    ),
                forall|m: int|
                    0 <= m < k ==> #[trigger] sums@[m] as int == cluster_sum(
                        elems@.take(i as int),
                        membership@.take(i as int),
                        m,
                    ),
            decreases n - i,
        {
            let clus = membership[i];
            let ghost old_sums = sums@;
            let ghost old_counts = counts@;
            proof {
                assert(old_sums[clus as int] + elems@[i as int] <= (old_counts[clus as int] as int
                    + 1) * (u64::MAX as int)) by (nonlinear_arith)
                    requires
                        old_sums[clus as int] <= (old_counts[clus as int] as int) * (
                        u64::MAX as int),
                        elems@[i as int] <= u64::MAX,
                ;
            }
            let new_count = counts[clus] + 1;
            let new_sum = sums[clus] + (elems[i] as u128);
            counts.set(clus, new_count);
            sums.set(clus, new_sum);
            proof {
                assert(membership@.take(i + 1).drop_last() =~= membership@.take(i as int));
                assert(elems@.take(i + 1).drop_last() =~= elems@.take(i as int));
                assert(membership@.take(i + 1).last() == membership@[i as int]);
                assert(elems@.take(i + 1).last() == elems@[i as int]);
                assert forall|m: int|
                    0 <= m < k implies #[trigger] counts@[m] as int == cluster_count(
                    membership@.take(i + 1),
                    m,
                ) && sums@[m] as int == cluster_sum(
                    elems@.take(i + 1),
                    membership@.take(i + 1),
                    m,
                ) by {
                    if m == clus {
                        assert(counts@[m] == old_counts[m] + 1);
                        assert(sums@[m] == old_sums[m] + elems@[i as int]);
                    } else {
                        assert(counts@[m] == old_counts[m]);
                        assert(sums@[m] == old_sums[m]);
                    }
                }
            }
            i += 1;
        }
        proof {
            assert(membership@.take(n as int) =~= membership@);
            assert(elems@.take(n as int) =~= elems@);
        }
        let mut c: usize = 0;
        while c < k
            invariant
                0 <= c <= k,
                centroids@.len() == k,
                sums@.len() == k,
                counts@.len() == k,
                forall|m: int|
                    0 <= m < k ==> #[trigger] sums@[m] <= (counts@[m] as int) * (u64::MAX as int),
                forall|m: int|
                    0 <= m < c ==> #[trigger] centroids@[m] as int == (if counts@[m] == 0 {
                        0int
                    } else {
                        sums@[m] as int / counts@[m] as int
                    }),
            decreases k - c,
        {
            let count = counts[c];
            if count == 0 {
                centroids.set(c, 0);
            } else {
                let q = sums[c] / (count as u128);
                proof {
                    vstd::arithmetic::div_mod::lemma_fundamental_div_mod(
                        sums@[c as int] as int,
                        count as int,
                    );
                    assert(q <= u64::MAX) by (nonlinear_arith)
                        requires
                            sums@[c as int] as int == (count as int) * (q as int) + (sums@[
                                c as int] as int % (count as int)),
                            0 <= sums@[c as int] as int % (count as int),
                            sums@[c as int] <= (count as int) * (u64::MAX as int),
                            count >= 1,
                    ;
                }
                centroids.set(c, q as u64);
            }
            c += 1;
        }
        proof {
            computed = true;
            assert(centroids_are_cluster_means(elems@, membership@, centroids@)) by {
                assert(forall|m: int|
                    0 <= m < k ==> #[trigger] counts@[m] as int == cluster_count(membership@, m));
                assert(forall|m: int|
                    0 <= m < k ==> #[trigger] sums@[m] as int == cluster_sum(
                        elems@,
                        membership@,
                        m,
                    ));
            }
        }

        if !changed {
            break ;
        }
        it += 1;
    }
    proof {
        if iter >= 1 {
            assert(computed);
        }
    }
    Clustering { membership, centroids }
}

/// Index `i` is the first nearest centroid to `x`: no centroid is strictly
/// closer, and every earlier centroid is strictly farther.
pub open spec fn is_first_nearest(cs: Seq<u64>, x: int, i: int) -> bool {
    &&& 0 <= i < cs.len()
    &&& forall|j: int|
        0 <= j < cs.len() ==> spec_square_distance(x, cs[i] as int) <= #[trigger] spec_square_distance(
            x,
            cs[j] as int,
        )
    &&& forall|j: int|
        0 <= j < i ==> spec_square_distance(x, cs[i] as int) < #[trigger] spec_square_distance(
            x,
            cs[j] as int,
        )
}

/// The first nearest centroid is unique.
pub proof fn lemma_first_nearest_unique(cs: Seq<u64>, x: int, i1: int, i2: int)
    requires
        is_first_nearest(cs, x, i1),
        is_first_nearest(cs, x, i2),
    ensures
        i1 == i2,
{
    if i1 < i2 {
        assert(spec_square_distance(x, cs[i2] as int) < spec_square_distance(x, cs[i1] as int));
        assert(spec_square_distance(x, cs[i1] as int) <= spec_square_distance(x, cs[i2] as int));
    } else if i2 < i1 {
        assert(spec_square_distance(x, cs[i1] as int) < spec_square_distance(x, cs[i2] as int));
        assert(spec_square_distance(x, cs[i2] as int) <= spec_square_distance(x, cs[i1] as int));
    }
}

/// `cs` are the centroids of a `k`-cluster grouping of `elems`: with at least
/// one Lloyd iteration they are the cluster means of some membership of the
/// elements, and with none they are seeded elements of the data.
pub open spec fn is_clustering_of(
    elems: Seq<u64>,
    membership: Seq<usize>,
    cs: Seq<u64>,
    k: int,
    max_iter: int,
) -> bool {
    &&& elems.len() == membership.len()
    &&& forall|m: int| 0 <= m < membership.len() ==> #[trigger] membership[m] < k
    &&& cs.len() == k
    &&& if max_iter == 0 {
        forall|c: int| 0 <= c < k ==> elems.contains(#[trigger] cs[c])
    } else {
        centroids_are_cluster_means(elems, membership, cs)
    }
}

/// Binning based on k-means clustering: a value is assigned to the bin of its
/// nearest centroid, and the centroids are sorted so bins are ordered.
#[derive(Debug)]
pub struct KMeansBinner {
    pub args: KMeansArgs,
    pub centroids: Vec<u64>,
}

impl Binner for KMeansBinner {
    type Args = KMeansArgs;

    /// At least one cluster is required; zero clusters is an invalid
    /// configuration.
    open spec fn args_wf(args: KMeansArgs) -> bool {
        args.k >= 1
    }

    /// One sorted centroid per bin.
    open spec fn wf(&self) -> bool {
        &&& self.centroids@.len() == self.args.k
        &&& self.args.k >= 1
        &&& ascending(self.centroids@)
    }

    /// The binner's centroids are the ascending arrangement of the centroids
    /// of a k-means clustering of the training values: the cluster means of
    /// some membership of the values (or seeded data elements when the
    /// iteration budget is zero). Which clustering was reached depends on the
    /// random seeding, so it is quantified.
    open spec fn trained_on(&self, values: Multiset<u64>, args: KMeansArgs) -> bool {
        &&& self.args == args
        &&& exists|elems: Seq<u64>, membership: Seq<usize>, cs: Seq<u64>|
            {
                &&& #[trigger] is_clustering_of(
                    elems,
                    membership,
                    cs,
                    args.k as int,
                    args.max_iter as int,
                )
                &&& elems.to_multiset() == values
                &&& self.centroids@.to_multiset() == cs.to_multiset()
            }
    }

    open spec fn spec_num_bins(&self) -> int {
        self.args.k as int
    }

    /// The bin of a value is the index of its first nearest centroid.
    open spec fn spec_bin(&self, data: u64) -> int {
        choose|i: int| is_first_nearest(self.centroids@, data as int, i)
    }

    /// Sorted centroids give monotone bins: if a larger value fell into a
    /// strictly smaller bin, it would be closer to a smaller centroid than
    /// the smaller value is — impossible on a line.
    proof fn lemma_bin_monotone(&self, x: u64, y: u64) {
        let cs = self.centroids@;
        lemma_first_nearest_exists(cs, x as int);
        lemma_first_nearest_exists(cs, y as int);
        let bx = self.spec_bin(x);
        let by = self.spec_bin(y);
        assert(is_first_nearest(cs, x as int, bx));
        assert(is_first_nearest(cs, y as int, by));
        if by < bx {
            let a = cs[by] as int;
            let b = cs[bx] as int;
            assert(a <= b);
            assert(spec_square_distance(x as int, b) < spec_square_distance(x as int, a));
            assert(spec_square_distance(y as int, a) <= spec_square_distance(y as int, b));
            assert(false) by (nonlinear_arith)
                requires
                    a <= b,
                    x <= y,
                    (x - b) * (x - b) < (x - a) * (x - a),
                    (y - a) * (y - a) <= (y - b) * (y - b),
            ;
        }
    }

    fn new(data: Vec<u64>, args: KMeansArgs) -> (r: KMeansBinner) {
        let population_size = data.len();
        proof {
            assert(population_size <= usize::MAX);
            assert(data@.len() <= u64::MAX);
        }
        let ghost elems = data@;
        let clustering = kmeans(args.k, &data, args.max_iter, args.seed);
        let ghost raw_centroids = clustering.centroids@;
        let ghost membership = clustering.membership@;
        let centroids = sort_by_key(clustering.centroids);
        proof {
            assert(seq_keys(centroids@) =~= centroids@);
            assert(seq_keys(raw_centroids) =~= raw_centroids);
            assert(centroids@.to_multiset() == raw_centroids.to_multiset());
            assert forall|i: int, j: int|
                #![trigger centroids@[i], centroids@[j]]
                0 <= i < j < centroids@.len() implies centroids@[i] <= centroids@[j] by {
                assert(<u64 as crate::order::VariantOrd>::leq(
                    seq_keys(centroids@)[i],
                    seq_keys(centroids@)[j],
                ));
            }
            assert(ascending(centroids@));
            assert(is_clustering_of(
                elems,
                membership,
                raw_centroids,
                args.k as int,
                args.max_iter as int,
            ));
        }
        KMeansBinner { args, centroids }
    }

    /// Bins a value to the index of its closest centroid (ties to the first,
    /// i.e. smallest, of the closest centroids).
    fn bin(&self, data: u64) -> (r: usize) {
        let k = self.centroids.len();
        let mut best: usize = 0;
        let mut best_dist = square_distance(data, self.centroids[0]);
        let mut c: usize = 1;
        while c < k
            invariant
                1 <= c <= k == self.centroids@.len(),
                best < c,
                best_dist == spec_square_distance(data as int, self.centroids@[best as int] as int),
                forall|j: int|
                    0 <= j < c ==> best_dist <= #[trigger] spec_square_distance(
                        data as int,
                        self.centroids@[j] as int,
                    ),
                forall|j: int|
                    0 <= j < best ==> best_dist < #[trigger] spec_square_distance(
                        data as int,
                        self.centroids@[j] as int,
                    ),
            decreases k - c,
        {
            let d = square_distance(data, self.centroids[c]);
            if d < best_dist {
                best = c;
                best_dist = d;
            }
            c += 1;
        }
        proof {
            assert(is_first_nearest(self.centroids@, data as int, best as int));
            lemma_first_nearest_unique(
                self.centroids@,
                data as int,
                best as int,
                self.spec_bin(data),
            );
        }
        best
    }

    fn num_bins(&self) -> usize {
        self.args.k
    }
}

/// Every value has a first nearest centroid among a non-empty centroid list.
pub proof fn lemma_first_nearest_exists(cs: Seq<u64>, x: int)
    requires
        cs.len() >= 1,
    ensures
        exists|i: int| is_first_nearest(cs, x, i),
    decreases cs.len(),
{
    if cs.len() == 1 {
        assert(is_first_nearest(cs, x, 0));
    } else {
        let head = cs.drop_last();
        lemma_first_nearest_exists(head, x);
        let i = choose|i: int| is_first_nearest(head, x, i);
        let m = cs.len() - 1;
        assert(forall|j: int| 0 <= j < m ==> cs[j] == head[j]);
        if spec_square_distance(x, cs[m] as int) < spec_square_distance(x, cs[i] as int) {
            assert(is_first_nearest(cs, x, m)) by {
                assert(forall|j: int|
                    0 <= j < m ==> spec_square_distance(x, cs[i] as int)
                        <= #[trigger] spec_square_distance(x, cs[j] as int));
            }
        } else {
            assert(is_first_nearest(cs, x, i)) by {
                assert(forall|j: int|
                    0 <= j < m ==> spec_square_distance(x, cs[i] as int)
                        <= #[trigger] spec_square_distance(x, cs[j] as int));
                assert(forall|j: int|
                    0 <= j < i ==> spec_square_distance(x, cs[i] as int)
                        < #[trigger] spec_square_distance(x, cs[j] as int));
            }
        }
    }
}

} // verus!
