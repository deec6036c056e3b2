use vstd::prelude::*;

verus! {

/// The first components of a sequence of pairs.
pub open spec fn firsts<T>(pairs: Seq<(T, T)>) -> Seq<T> {
    pairs.map_values(|p: (T, T)| p.0)
}

/// The second components of a sequence of pairs.
pub open spec fn seconds<T>(pairs: Seq<(T, T)>) -> Seq<T> {
    pairs.map_values(|p: (T, T)| p.1)
}

/// What `unzip_circle` returns: for pairs `[(a0, b0), ..., (a(n-1), b(n-1))]` it is
/// `[a0, ..., a(n-2), b(n-1), ..., b1]`; for no pairs it is empty.
pub open spec fn unzip_circle_spec<T>(pairs: Seq<(T, T)>) -> Seq<T> {
    if pairs.len() == 0 {
        Seq::empty()
    } else {
        firsts(pairs).drop_last() + seconds(pairs).reverse().drop_last()
    }
}

/// Convert the vector of pairs `[(1, X), (2, 10), ..., (4, 6), (X, 5)]` to the vector
/// `[1, 2, 3, ...]`: the first components except the last, followed by the second components in
/// reverse order except the first.
pub fn unzip_circle<T>(pairs: Vec<(T, T)>) -> (r: Vec<T>)
    ensures
        r@ == unzip_circle_spec(pairs@),
{
    let ghost p = pairs@;
    let n = pairs.len();
    let mut rest = pairs;
    // Popping from the back yields the firsts and the seconds in reverse order.
    let mut firsts_rev: Vec<T> = Vec::new();
    let mut seconds_rev: Vec<T> = Vec::new();
    while rest.len() > 0
        invariant
            rest@ == p.take(rest@.len() as int),
            rest@.len() <= p.len(),
            n == p.len(),
            firsts_rev@.len() == p.len() - rest@.len(),
            seconds_rev@.len() == p.len() - rest@.len(),
            forall|i: int|
                0 <= i < firsts_rev@.len() ==> #[trigger] firsts_rev@[i] == p[p.len() - 1 - i].0,
            forall|i: int|
                0 <= i < seconds_rev@.len() ==> #[trigger] seconds_rev@[i] == p[p.len() - 1 - i].1,
        decreases rest@.len(),
    {
        let ghost before = rest@;
        match rest.pop() {
            Some(pair) => {
                let (a, b) = pair;
                firsts_rev.push(a);
                seconds_rev.push(b);
                assert(rest@ =~= p.take(rest@.len() as int));
            },
            None => {},
        }
    }
    if n == 0 {
        assert(firsts_rev@ =~= Seq::<T>::empty());
        return firsts_rev;
    }
    // Drop the last pair's first component, and restore the original order of the others.
    let mut result: Vec<T> = Vec::new();
    while firsts_rev.len() > 1
        invariant
            n == p.len(),
            n > 0,
            1 <= firsts_rev@.len() <= n,
            result@.len() == n - firsts_rev@.len(),
            forall|i: int|
                0 <= i < firsts_rev@.len() ==> #[trigger] firsts_rev@[i] == p[p.len() - 1 - i].0,
            forall|i: int| 0 <= i < result@.len() ==> #[trigger] result@[i] == p[i].0,
        decreases firsts_rev@.len(),
    {
        match firsts_rev.pop() {
            Some(a) => {
                result.push(a);
            },
            None => {},
        }
    }
    // Drop the first pair's second component.
    let _ = seconds_rev.pop();
    let ghost prefix = result@;
    result.append(&mut seconds_rev);
    proof {
        assert(prefix =~= firsts(p).drop_last());
        assert(result@ =~= firsts(p).drop_last() + seconds(p).reverse().drop_last());
    }
    result
}

/// The character of the decimal digit `d`.
pub open spec fn digit_char(d: int) -> char {
    ((('0' as u32) as int) + d) as char
}

/// The decimal representation of `n`, without leading zeros.
pub open spec fn decimal(n: nat) -> Seq<char>
    decreases n,
{
    if n < 10 {
        seq![digit_char(n as int)]
    } else {
        decimal(n / 10).push(digit_char((n % 10) as int))
    }
}

/// The character of a decimal digit.
pub fn digit(d: u64) -> (c: char)
    requires
        d < 10,
    ensures
        c == digit_char(d as int),
{
    ((d as u8) + 48) as char
}

/// The decimal representation of `n`, as `n.to_string()` writes it.
pub fn decimal_digits(n: u64) -> (r: Vec<char>)
    ensures
        r@ == decimal(n as nat),
    decreases n,
{
    if n < 10 {
        let mut v: Vec<char> = Vec::new();
        v.push(digit(n));
        v
    } else {
        let mut v = decimal_digits(n / 10);
        v.push(digit(n % 10));
        v
    }
}

} // verus!
