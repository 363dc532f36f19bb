//! Which kernels a model has to compile.

use crate::names::same_text;
use vstd::prelude::*;

verus! {

/// No earlier kernel has the key of kernel `i`.
pub open spec fn first_of_key(keys: Seq<String>, i: int) -> bool {
    forall|j: int| 0 <= j < i ==> #[trigger] keys[j]@ != keys[i]@
}

/// The kernels to fetch and to build, in their order among the requests.
pub struct CompilePlan {
    /// First requests of keys that the cache holds.
    pub hits: Vec<usize>,
    /// First requests of keys that the cache lacks.
    pub fresh: Vec<usize>,
}

/// The indices below `n` that are first of their key and whose cache state is
/// `want`, ascending.
pub open spec fn firsts(keys: Seq<String>, cached: Seq<bool>, want: bool, n: int) -> Seq<usize>
    decreases n,
{
    if n <= 0 {
        Seq::empty()
    } else {
        let head = firsts(keys, cached, want, n - 1);
        if first_of_key(keys, n - 1) && cached[n - 1] == want {
            head.push((n - 1) as usize)
        } else {
            head
        }
    }
}

fn is_first(keys: &Vec<String>, i: usize) -> (r: bool)
    requires
        i < keys@.len(),
    ensures
        r == first_of_key(keys@, i as int),
{
    let mut j: usize = 0;
    while j < i
        invariant
            j <= i < keys@.len(),
            forall|k: int| 0 <= k < j ==> #[trigger] keys@[k]@ != keys@[i as int]@,
        decreases i - j,
    {
        if same_text(keys[j].as_str(), keys[i].as_str()) {
            assert(keys@[j as int]@ == keys@[i as int]@);
            return false;
        }
        j += 1;
    }
    true
}

/// Drops repeated keys and parts the rest into those that the cache holds and
/// those to build.
pub fn compile_plan(keys: &Vec<String>, cached: &Vec<bool>) -> (r: CompilePlan)
    requires
        cached@.len() == keys@.len(),
    ensures
        r.hits@ == firsts(keys@, cached@, true, keys@.len() as int),
        r.fresh@ == firsts(keys@, cached@, false, keys@.len() as int),
{
    let mut hits: Vec<usize> = Vec::new();
    let mut fresh: Vec<usize> = Vec::new();
    let mut i: usize = 0;
    while i < keys.len()
        invariant
            i <= keys@.len(),
            cached@.len() == keys@.len(),
            hits@ == firsts(keys@, cached@, true, i as int),
            fresh@ == firsts(keys@, cached@, false, i as int),
        decreases keys@.len() - i,
    {
        if is_first(keys, i) {
            if cached[i] {
                hits.push(i);
            } else {
                fresh.push(i);
            }
        }
        i += 1;
    }
    CompilePlan { hits, fresh }
}

/// The most worker threads that compile at once.
pub const MAX_THREADS: usize = 8;

/// Threads that share the work.
pub open spec fn worker_count(parallelism: int) -> int {
    let t = if parallelism < MAX_THREADS { parallelism } else { MAX_THREADS as int };
    if t < 1 { 1 } else { t }
}

/// Length of the part that each worker takes.
pub open spec fn chunk_of(n: int, parallelism: int) -> int {
    let c = (n + worker_count(parallelism) - 1) / worker_count(parallelism);
    if c < 1 { 1 } else { c }
}

/// How many kernels one worker compiles.
pub fn chunk_len(n: usize, parallelism: usize) -> (r: usize)
    ensures
        r == chunk_of(n as int, parallelism as int),
        r >= 1,
{
    let t: usize = if parallelism < MAX_THREADS { parallelism } else { MAX_THREADS };
    let t: usize = if t < 1 { 1 } else { t };
    let q: usize = n / t;
    proof {
        let (a, b, x) = (n as int, t as int, q as int);
        assert(a % b != 0 ==> x < a) by (nonlinear_arith)
            requires
                x == a / b,
                a >= 0,
                b >= 1,
        ;
    }
    let c: usize = if n % t == 0 { q } else { q + 1 };
    proof {
        let (a, b) = (n as int, t as int);
        assert(a == b * (a / b) + a % b && 0 <= a % b < b) by (nonlinear_arith)
            requires
                a >= 0,
                b >= 1,
        ;
        let (x, m) = (a / b, a % b);
        assert((b * x + m + b - 1) / b == if m == 0 { x } else { x + 1 }) by (nonlinear_arith)
            requires
                0 <= m < b,
                b >= 1,
                x >= 0,
        ;
    }
    if c < 1 { 1 } else { c }
}

/// No more parts than workers, and together they hold every kernel.
pub proof fn law_chunks_cover(n: int, parallelism: int)
    requires
        n >= 0,
        parallelism >= 0,
    ensures
        worker_count(parallelism) * chunk_of(n, parallelism) >= n,
{
    let w = worker_count(parallelism);
    let c = (n + w - 1) / w;
    assert(w * c >= n) by (nonlinear_arith)
        requires
            c == (n + w - 1) / w,
            w >= 1,
            n >= 0,
    ;
    let d = chunk_of(n, parallelism);
    assert(w * d >= w * c) by (nonlinear_arith)
        requires
            d >= c,
            w >= 1,
    ;
}

/// Every key is planned exactly once: a request is in the plan where it is the
/// first of its key, and nowhere else.
pub proof fn law_each_key_once(keys: Seq<String>, cached: Seq<bool>, n: int, i: int)
    requires
        0 <= i < n <= keys.len(),
        n <= usize::MAX,
        cached.len() == keys.len(),
    ensures
        first_of_key(keys, i) <==> (firsts(keys, cached, true, n).contains(i as usize) || firsts(
            keys,
            cached,
            false,
            n,
        ).contains(i as usize)),
        !(firsts(keys, cached, true, n).contains(i as usize) && firsts(
            keys,
            cached,
            false,
            n,
        ).contains(i as usize)),
{
    lemma_firsts(keys, cached, true, n, i);
    lemma_firsts(keys, cached, false, n, i);
}

proof fn lemma_firsts(keys: Seq<String>, cached: Seq<bool>, want: bool, n: int, i: int)
    requires
        0 <= n <= keys.len(),
        n <= usize::MAX,
        0 <= i < keys.len(),
    ensures
        firsts(keys, cached, want, n).contains(i as usize) && i <= usize::MAX <==> i < n
            && first_of_key(keys, i) && cached[i] == want,
    decreases n,
{
    if n > 0 {
        lemma_firsts(keys, cached, want, n - 1, i);
        let head = firsts(keys, cached, want, n - 1);
        let all = firsts(keys, cached, want, n);
        if first_of_key(keys, n - 1) && cached[n - 1] == want {
            assert(all == head.push((n - 1) as usize));
            assert(all[all.len() - 1] == (n - 1) as usize);
            if head.contains(i as usize) {
                let k = choose|k: int| 0 <= k < head.len() && head[k] == i as usize;
                assert(all[k] == i as usize);
            }
            if all.contains(i as usize) && i <= usize::MAX {
                let k = choose|k: int| 0 <= k < all.len() && all[k] == i as usize;
                if k < head.len() {
                    assert(head[k] == i as usize);
                }
            }
        }
    }
}

} // verus!
