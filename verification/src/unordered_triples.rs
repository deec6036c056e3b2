use vstd::prelude::*;

verus! {

/// A triple of indices, as produced by [`UnorderedTriples`].
pub type Triple = (usize, usize, usize);

/// `0 <= i < j < k < n`.
pub open spec fn valid_triple(n: int, i: int, j: int, k: int) -> bool {
    0 <= i < j < k < n
}

/// The triple that follows `(i, j, k)` in lexicographic order among the triples below `n`
/// (or a triple with `i == n - 2`, which is not valid, after the last one).
pub open spec fn successor(n: int, i: int, j: int, k: int) -> (int, int, int) {
    if k + 1 < n {
        (i, j, k + 1)
    } else if j + 2 < n {
        (i, j + 1, j + 2)
    } else {
        (i + 1, i + 2, i + 3)
    }
}

/// The triples that an iteration starting at `(i, j, k)` produces, in order.
pub open spec fn triples_from(n: int, i: int, j: int, k: int) -> Seq<Triple>
    decreases n - i, n - j, n - k,
{
    if valid_triple(n, i, j, k) {
        let (a, b, c) = successor(n, i, j, k);
        seq![(i as usize, j as usize, k as usize)] + triples_from(n, a, b, c)
    } else {
        Seq::empty()
    }
}

/// All triples `(i, j, k)` with `0 <= i < j < k < n`, in lexicographic order.
pub open spec fn all_triples(n: usize) -> Seq<Triple> {
    triples_from(n as int, 0, 1, 2)
}

/// Strict lexicographic order on triples.
pub open spec fn lex_lt(a: (int, int, int), b: (int, int, int)) -> bool {
    a.0 < b.0 || (a.0 == b.0 && (a.1 < b.1 || (a.1 == b.1 && a.2 < b.2)))
}

pub open spec fn as_ints(t: Triple) -> (int, int, int) {
    (t.0 as int, t.1 as int, t.2 as int)
}

/// The binomial coefficient `n choose 3`, as a polynomial.
pub open spec fn choose3(n: int) -> int {
    n * (n - 1) * (n - 2) / 6
}

/// An iterator over all triples `(i, j, k)` where `0 <= i < j < k < n` for a fixed `n`, in
/// lexicographic order.
pub struct UnorderedTriples {
    n: usize,
    i: usize,
    j: usize,
    k: usize,
}

impl UnorderedTriples {
    #[verifier::type_invariant]
    closed spec fn wf(self) -> bool {
        ||| (self.n <= 2 && self.i == 0 && self.j == 1 && self.k == 2)
        ||| (self.n >= 3 && valid_triple(self.n as int, self.i as int, self.j as int, self.k as int))
        ||| (self.n >= 3 && self.i == self.n - 2 && self.j == self.n - 1 && self.k == self.n)
    }
}

impl View for UnorderedTriples {
    type V = Seq<Triple>;

    /// The triples that are still to come.
    closed spec fn view(&self) -> Seq<Triple> {
        triples_from(self.n as int, self.i as int, self.j as int, self.k as int)
    }
}

impl UnorderedTriples {
    /// An iterator over all triples below `n`.
    pub fn new(n: usize) -> (r: Self)
        ensures
            r@ == all_triples(n),
    {
        UnorderedTriples { n, i: 0, j: 1, k: 2 }
    }

    /// Returns the next triple, or `None` once all have been returned.
    pub fn next(&mut self) -> (r: Option<Triple>)
        ensures
            old(self)@.len() == 0 ==> r is None && final(self)@ == old(self)@,
            old(self)@.len() > 0 ==> r == Some(old(self)@[0]) && final(self)@ == old(self)@.drop_first(),
    {
        proof {
            use_type_invariant(&*self);
        }
        if self.n <= 2 {
            return None;
        }
        let result = (self.i, self.j, self.k);
        if self.i >= self.n - 2 {
            return None;
        }
        let n = self.n;
        let mut i = self.i;
        let mut j = self.j;
        let mut k = self.k + 1;
        if k >= n {
            j = j + 1;
            k = j + 1;
            if j >= n - 1 {
                i = i + 1;
                j = i + 1;
                k = j + 1;
            }
        }
        proof {
            let ghost old_view = triples_from(n as int, result.0 as int, result.1 as int, result.2 as int);
            assert(old_view.drop_first() =~= triples_from(n as int, i as int, j as int, k as int));
        }
        *self = UnorderedTriples { n, i, j, k };
        Some(result)
    }

    /// All the triples that are still to come, in order.
    pub fn to_vec(self) -> (v: Vec<Triple>)
        ensures
            v@ == self@,
    {
        let ghost all = self@;
        let mut it = self;
        let mut v: Vec<Triple> = Vec::new();
        assert(all =~= v@ + it@);
        loop
            invariant
                all == self@,
                all == v@ + it@,
            decreases it@.len(),
        {
            let ghost before = it@;
            match it.next() {
                Some(t) => {
                    v.push(t);
                    assert(all =~= v@ + it@);
                },
                None => {
                    assert(all =~= v@);
                    return v;
                },
            }
        }
    }
}


/// Six times the number of triples that an iteration starting at the valid triple `(i, j, k)`
/// produces.
pub open spec fn six_times_remaining(n: int, i: int, j: int, k: int) -> int {
    6 * (n - k) + 3 * (n - 1 - j) * (n - 2 - j) + (n - 1 - i) * (n - 2 - i) * (n - 3 - i)
}

proof fn lemma_step_next_j(n: int, j: int, p: int)
    by (nonlinear_arith)
    ensures
        6 * 1 + 3 * (n - 1 - j) * (n - 2 - j) + p
            == 6 * (n - (j + 2)) + 3 * (n - 1 - (j + 1)) * (n - 2 - (j + 1)) + p + 6,
{
}

proof fn lemma_step_next_i(n: int, i: int)
    by (nonlinear_arith)
    ensures
        6 * 1 + 3 * 1 * 0 + (n - 1 - i) * (n - 2 - i) * (n - 3 - i)
            == 6 * (n - (i + 3)) + 3 * (n - 1 - (i + 2)) * (n - 2 - (i + 2))
                + (n - 1 - (i + 1)) * (n - 2 - (i + 1)) * (n - 3 - (i + 1)) + 6,
{
}

proof fn lemma_full_count(n: int)
    by (nonlinear_arith)
    ensures
        6 * (n - 2) + 3 * (n - 1 - 1) * (n - 2 - 1) + (n - 1 - 0) * (n - 2 - 0) * (n - 3 - 0)
            == n * (n - 1) * (n - 2),
{
}

proof fn lemma_div_six(x: int, l: int)
    by (nonlinear_arith)
    requires
        x == 6 * l,
    ensures
        x / 6 == l,
{
}

/// Every triple produced from a valid state is valid and not below that state, and the
/// triples come in strictly increasing lexicographic order.
proof fn lemma_triples_from_ordered(n: int, i: int, j: int, k: int)
    requires
        n <= usize::MAX,
        valid_triple(n, i, j, k),
    ensures
        forall|a: int|
            0 <= a < triples_from(n, i, j, k).len() ==> {
                let t = as_ints(#[trigger] triples_from(n, i, j, k)[a]);
                &&& valid_triple(n, t.0, t.1, t.2)
                &&& !lex_lt(t, (i, j, k))
            },
        forall|a: int, b: int|
            0 <= a < b < triples_from(n, i, j, k).len() ==> lex_lt(
                as_ints(#[trigger] triples_from(n, i, j, k)[a]),
                as_ints(#[trigger] triples_from(n, i, j, k)[b]),
            ),
    decreases n - i, n - j, n - k,
{
    let s = triples_from(n, i, j, k);
    let (x, y, z) = successor(n, i, j, k);
    let rest = triples_from(n, x, y, z);
    assert(s == seq![(i as usize, j as usize, k as usize)] + rest);
    if valid_triple(n, x, y, z) {
        lemma_triples_from_ordered(n, x, y, z);
    }
    assert forall|a: int| 0 <= a < s.len() implies {
        let t = as_ints(#[trigger] s[a]);
        &&& valid_triple(n, t.0, t.1, t.2)
        &&& !lex_lt(t, (i, j, k))
    } by {
        if a > 0 {
            assert(s[a] == rest[a - 1]);
        }
    }
    assert forall|a: int, b: int| 0 <= a < b < s.len() implies lex_lt(
        as_ints(#[trigger] s[a]),
        as_ints(#[trigger] s[b]),
    ) by {
        assert(s[b] == rest[b - 1]);
        if a > 0 {
            assert(s[a] == rest[a - 1]);
        }
    }
}

/// Every valid triple that is not below a valid state is produced from that state.
proof fn lemma_triples_from_complete(n: int, i: int, j: int, k: int, a: int, b: int, c: int)
    requires
        n <= usize::MAX,
        valid_triple(n, i, j, k),
        valid_triple(n, a, b, c),
        !lex_lt((a, b, c), (i, j, k)),
    ensures
        triples_from(n, i, j, k).contains((a as usize, b as usize, c as usize)),
    decreases n - i, n - j, n - k,
{
    let s = triples_from(n, i, j, k);
    let (x, y, z) = successor(n, i, j, k);
    let rest = triples_from(n, x, y, z);
    assert(s == seq![(i as usize, j as usize, k as usize)] + rest);
    if a == i && b == j && c == k {
        assert(s[0] == (a as usize, b as usize, c as usize));
    } else {
        assert(valid_triple(n, x, y, z));
        assert(!lex_lt((a, b, c), (x, y, z)));
        lemma_triples_from_complete(n, x, y, z, a, b, c);
        let idx = choose|idx: int| 0 <= idx < rest.len() && rest[idx] == (a as usize, b as usize, c as usize);
        assert(s[idx + 1] == rest[idx]);
    }
}

/// Six times the number of triples produced from a valid state.
proof fn lemma_triples_from_count(n: int, i: int, j: int, k: int)
    requires
        n <= usize::MAX,
        valid_triple(n, i, j, k),
    ensures
        6 * triples_from(n, i, j, k).len() == six_times_remaining(n, i, j, k),
    decreases n - i, n - j, n - k,
{
    let (x, y, z) = successor(n, i, j, k);
    let rest = triples_from(n, x, y, z);
    assert(triples_from(n, i, j, k).len() == 1 + rest.len());
    if k + 1 < n {
        lemma_triples_from_count(n, x, y, z);
    } else if j + 2 < n {
        lemma_triples_from_count(n, x, y, z);
        lemma_step_next_j(n, j, (n - 1 - i) * (n - 2 - i) * (n - 3 - i));
    } else {
        lemma_step_next_i(n, i);
        if valid_triple(n, x, y, z) {
            lemma_triples_from_count(n, x, y, z);
        } else {
            assert(i == n - 3);
            assert(six_times_remaining(n, x, y, z) == 0) by (nonlinear_arith)
                requires
                    x == n - 2,
                    y == n - 1,
                    z == n,
            ;
        }
    }
}

/// The triples below `n` are exactly those `(i, j, k)` with `i < j < k < n`.
pub proof fn lemma_all_triples_exactly_valid(n: usize, i: usize, j: usize, k: usize)
    ensures
        all_triples(n).contains((i, j, k)) <==> i < j < k < n,
{
    let s = all_triples(n);
    if n >= 3 {
        lemma_triples_from_ordered(n as int, 0, 1, 2);
        if i < j < k < n {
            lemma_triples_from_complete(n as int, 0, 1, 2, i as int, j as int, k as int);
        }
        if s.contains((i, j, k)) {
            let idx = choose|idx: int| 0 <= idx < s.len() && s[idx] == (i, j, k);
            let t = as_ints(s[idx]);
            assert(valid_triple(n as int, t.0, t.1, t.2));
        }
    } else {
        assert(s.len() == 0);
    }
}

/// The triples below `n` come in strictly increasing lexicographic order, so none repeats.
pub proof fn lemma_all_triples_sorted(n: usize)
    ensures
        forall|a: int, b: int|
            0 <= a < b < all_triples(n).len() ==> lex_lt(
                as_ints(#[trigger] all_triples(n)[a]),
                as_ints(#[trigger] all_triples(n)[b]),
            ),
{
    if n >= 3 {
        lemma_triples_from_ordered(n as int, 0, 1, 2);
    }
}

/// There are `n choose 3` triples below `n`.
pub proof fn lemma_all_triples_count(n: usize)
    ensures
        all_triples(n).len() == choose3(n as int),
{
    if n >= 3 {
        lemma_triples_from_count(n as int, 0, 1, 2);
        lemma_full_count(n as int);
        lemma_div_six(n * (n - 1) * (n - 2), all_triples(n).len() as int);
    } else {
        assert(all_triples(n).len() == 0);
        assert(choose3(n as int) == 0) by (nonlinear_arith)
            requires
                n < 3,
        ;
    }
}

} // verus!
