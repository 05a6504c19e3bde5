use vstd::prelude::*;

verus! {

/// The decimal digit `d` (below ten) as a one-character string.
pub open spec fn digit_text(d: nat) -> Seq<char> {
    if d == 0 {
        seq!['0']
    } else if d == 1 {
        seq!['1']
    } else if d == 2 {
        seq!['2']
    } else if d == 3 {
        seq!['3']
    } else if d == 4 {
        seq!['4']
    } else if d == 5 {
        seq!['5']
    } else if d == 6 {
        seq!['6']
    } else if d == 7 {
        seq!['7']
    } else if d == 8 {
        seq!['8']
    } else {
        seq!['9']
    }
}

/// The decimal representation of `n`, without sign or leading zeros.
pub open spec fn decimal(n: nat) -> Seq<char>
    decreases n,
{
    if n < 10 {
        digit_text(n)
    } else {
        decimal(n / 10) + digit_text(n % 10)
    }
}

/// Debug rendering of a string: quoted, with escapes. This is what
/// `format!("{:?}", s)` produces for a `&str`.
pub uninterp spec fn debug_quoted(s: Seq<char>) -> Seq<char>;

fn digit_str(d: u64) -> (r: &'static str)
    requires
        d < 10,
    ensures
        r@ == digit_text(d as nat),
{
    proof {
        reveal_strlit("0");
        reveal_strlit("1");
        reveal_strlit("2");
        reveal_strlit("3");
        reveal_strlit("4");
        reveal_strlit("5");
        reveal_strlit("6");
        reveal_strlit("7");
        reveal_strlit("8");
        reveal_strlit("9");
    }
    if d == 0 {
        "0"
    } else if d == 1 {
        "1"
    } else if d == 2 {
        "2"
    } else if d == 3 {
        "3"
    } else if d == 4 {
        "4"
    } else if d == 5 {
        "5"
    } else if d == 6 {
        "6"
    } else if d == 7 {
        "7"
    } else if d == 8 {
        "8"
    } else {
        "9"
    }
}

/// Appends the decimal representation of `n` to `out`.
pub fn push_decimal(out: &mut String, n: u64)
    ensures
        final(out)@ == old(out)@ + decimal(n as nat),
    decreases n,
{
    if n < 10 {
        out.append(digit_str(n));
    } else {
        push_decimal(out, n / 10);
        out.append(digit_str(n % 10));
        assert(old(out)@ + decimal((n / 10) as nat) + digit_text((n % 10) as nat) =~= old(out)@ + decimal(
            n as nat,
        ));
    }
}

/// The Debug rendering of `s` (quoted and escaped), made by `format!`
/// with the `{:?}` specifier; the contract names the result and claims
/// nothing of its characters.
#[verifier::external_body]
pub(crate) fn debug_quoted_string(s: &str) -> (r: String)
    ensures
        r@ == debug_quoted(s@),
{
    format!("{s:?}")
}

/// Lexicographic order on character sequences, by code point; this is
/// the order of `str` and `String` comparison.
pub open spec fn str_lt(a: Seq<char>, b: Seq<char>) -> bool
    decreases a.len(),
{
    if a.len() == 0 {
        b.len() > 0
    } else if b.len() == 0 {
        false
    } else if a[0] != b[0] {
        (a[0] as int) < (b[0] as int)
    } else {
        str_lt(a.drop_first(), b.drop_first())
    }
}

/// `str_lt` is irreflexive.
pub proof fn lemma_str_lt_irreflexive(a: Seq<char>)
    ensures
        !str_lt(a, a),
    decreases a.len(),
{
    if a.len() > 0 {
        lemma_str_lt_irreflexive(a.drop_first());
    }
}

/// `str_lt` is transitive.
pub proof fn lemma_str_lt_transitive(a: Seq<char>, b: Seq<char>, c: Seq<char>)
    requires
        str_lt(a, b),
        str_lt(b, c),
    ensures
        str_lt(a, c),
    decreases a.len(),
{
    if a.len() > 0 && b.len() > 0 && c.len() > 0 && a[0] == b[0] && b[0] == c[0] {
        lemma_str_lt_transitive(a.drop_first(), b.drop_first(), c.drop_first());
    }
}

/// Distinct sequences are ordered one way or the other.
pub proof fn lemma_str_lt_total(a: Seq<char>, b: Seq<char>)
    requires
        a != b,
    ensures
        str_lt(a, b) || str_lt(b, a),
    decreases a.len(),
{
    if a.len() == 0 && b.len() == 0 {
        assert(a =~= b);
    } else if a.len() > 0 && b.len() > 0 {
        if a[0] == b[0] {
            if a.drop_first() == b.drop_first() {
                assert(a =~= seq![a[0]] + a.drop_first());
                assert(b =~= seq![b[0]] + b.drop_first());
            }
            lemma_str_lt_total(a.drop_first(), b.drop_first());
        } else {
            let x = a[0];
            let y = b[0];
            assert((x as int) != (y as int));
        }
    }
}

/// `str_lt` is asymmetric.
pub proof fn lemma_str_lt_asymmetric(a: Seq<char>, b: Seq<char>)
    requires
        str_lt(a, b),
    ensures
        !str_lt(b, a),
{
    if str_lt(b, a) {
        lemma_str_lt_transitive(a, b, a);
        lemma_str_lt_irreflexive(a);
    }
}

/// Whether `a` sorts before `b`.
pub fn str_less(a: &str, b: &str) -> (r: bool)
    ensures
        r == str_lt(a@, b@),
{
    let n = a.unicode_len();
    let m = b.unicode_len();
    let mut i: usize = 0;
    assert(a@.skip(0) =~= a@);
    assert(b@.skip(0) =~= b@);
    while i < n && i < m && a.get_char(i) == b.get_char(i)
        invariant
            n == a@.len(),
            m == b@.len(),
            i <= n,
            i <= m,
            str_lt(a@, b@) == str_lt(a@.skip(i as int), b@.skip(i as int)),
        decreases n - i,
    {
        assert(a@.skip(i as int).drop_first() =~= a@.skip(i + 1));
        assert(b@.skip(i as int).drop_first() =~= b@.skip(i + 1));
        i = i + 1;
    }
    if i == n {
        i < m
    } else if i == m {
        false
    } else {
        a.get_char(i) < b.get_char(i)
    }
}

/// Keys of a keyed sequence.
pub open spec fn keys_of<T>(s: Seq<(String, T)>) -> Seq<Seq<char>> {
    s.map_values(|e: (String, T)| e.0@)
}

/// The keys are in strictly increasing order.
pub open spec fn strictly_sorted(keys: Seq<Seq<char>>) -> bool {
    forall|i: int, j: int| 0 <= i < j < keys.len() ==> str_lt(keys[i], keys[j])
}

/// No key occurs twice.
pub open spec fn distinct_keys(keys: Seq<Seq<char>>) -> bool {
    forall|i: int, j: int| 0 <= i < j < keys.len() ==> keys[i] != keys[j]
}

/// The entries of `v`, reordered by increasing key. Keys must be
/// distinct; the result holds exactly the entries of `v`.
pub fn sort_by_key<T>(v: Vec<(String, T)>) -> (r: Vec<(String, T)>)
    requires
        distinct_keys(keys_of(v@)),
    ensures
        r@.len() == v@.len(),
        strictly_sorted(keys_of(r@)),
        forall|x: (String, T)| r@.contains(x) <==> v@.contains(x),
{
    let ghost input = v@;
    let mut rest = v;
    let mut out: Vec<(String, T)> = Vec::new();
    let ghost mut taken: int = 0;
    while rest.len() > 0
        invariant
            distinct_keys(keys_of(input)),
            taken + rest@.len() == input.len(),
            0 <= taken,
            rest@ == input.skip(taken),
            out@.len() == taken,
            strictly_sorted(keys_of(out@)),
            forall|x: (String, T)| out@.contains(x) <==> input.take(taken).contains(x),
        decreases rest@.len(),
    {
        let e = rest.remove(0);
        let ghost k = e.0@;
        assert(input[taken] == e);
        let mut p: usize = 0;
        while p < out.len() && !str_less(e.0.as_str(), out[p].0.as_str())
            invariant
                p <= out@.len(),
                forall|q: int| 0 <= q < p ==> !str_lt(k, keys_of(out@)[q]),
                k == e.0@,
            decreases out@.len() - p,
        {
            p = p + 1;
        }
        proof {
            assert forall|q: int| 0 <= q < out@.len() implies keys_of(out@)[q] != k by {
                assert(out@.contains(out@[q]));
                assert(input.take(taken).contains(out@[q]));
                let j = choose|j: int| 0 <= j < taken && input.take(taken)[j] == out@[q];
                assert(keys_of(input)[j] == keys_of(out@)[q]);
                assert(keys_of(input)[taken] == k);
            }
            assert forall|q: int| 0 <= q < p implies str_lt(keys_of(out@)[q], k) by {
                lemma_str_lt_total(keys_of(out@)[q], k);
            }
            assert forall|q: int| p <= q < out@.len() implies str_lt(k, keys_of(out@)[q]) by {
                if p < out@.len() {
                    if q > p {
                        lemma_str_lt_transitive(k, keys_of(out@)[p as int], keys_of(out@)[q]);
                    }
                }
            }
        }
        let ghost before = out@;
        out.insert(p, e);
        proof {
            assert(keys_of(out@) =~= keys_of(before).insert(p as int, k));
            assert(input.take(taken + 1) =~= input.take(taken).push(e));
            let grown = input.take(taken + 1);
            assert(grown[taken] == e);
            assert forall|j: int| 0 <= j < taken implies grown[j] == input.take(taken)[j] by {}
            assert forall|x: (String, T)| out@.contains(x) <==> grown.contains(x) by {
                if out@.contains(x) {
                    let j = choose|j: int| 0 <= j < out@.len() && out@[j] == x;
                    if j == p {
                        assert(grown[taken] == x);
                    } else {
                        if j < p {
                            assert(before[j] == x);
                        } else {
                            assert(before[j - 1] == x);
                        }
                        assert(before.contains(x));
                        assert(input.take(taken).contains(x));
                        let i2 = choose|i2: int| 0 <= i2 < taken && input.take(taken)[i2] == x;
                        assert(grown[i2] == x);
                    }
                }
                if grown.contains(x) {
                    if x == e {
                        assert(out@[p as int] == e);
                    } else {
                        assert(input.take(taken).contains(x));
                        assert(before.contains(x));
                        let j = choose|j: int| 0 <= j < before.len() && before[j] == x;
                        if j < p {
                            assert(out@[j] == x);
                        } else {
                            assert(out@[j + 1] == x);
                        }
                    }
                }
            }
            taken = taken + 1;
            assert(rest@ =~= input.skip(taken));
        }
    }
    proof {
        assert(input.take(taken) =~= input);
    }
    out
}

} // verus!
