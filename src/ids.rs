use vstd::prelude::*;
use vstd::relations::injective_on;
use vstd::set_lib::{lemma_int_range, lemma_len_subset, lemma_map_size, set_int_range};

use crate::number::{digit_value, digits_value};
use crate::text::same_text;

verus! {

/// The decimal digits, in order of value.
pub open spec fn digit_chars() -> Seq<char> {
    seq!['0', '1', '2', '3', '4', '5', '6', '7', '8', '9']
}

/// The decimal notation of `n`, without leading zeros.
pub open spec fn decimal(n: nat) -> Seq<char>
    decreases n,
{
    if n < 10 {
        seq![digit_chars()[n as int]]
    } else {
        decimal(n / 10).push(digit_chars()[(n % 10) as int])
    }
}

/// The `n`th alternative to `candidate`: the candidate, a dot, and `n` in decimal.
pub open spec fn suffixed(candidate: Seq<char>, n: nat) -> Seq<char> {
    candidate + seq!['.'] + decimal(n)
}

/// The first suffix from `n` on whose alternative is not in `names` (or the first
/// past the number of names, which is never reached).
pub open spec fn probe_from(names: Seq<Seq<char>>, candidate: Seq<char>, n: nat) -> nat
    decreases names.len() + 2 - n,
{
    if n > names.len() + 1 || !names.contains(suffixed(candidate, n)) {
        n
    } else {
        probe_from(names, candidate, n + 1)
    }
}

/// The identifier that `candidate` receives when `names` are taken: the candidate
/// itself when free, else its first free numbered alternative.
pub open spec fn resolved_id(names: Seq<Seq<char>>, candidate: Seq<char>) -> Seq<char> {
    if !names.contains(candidate) {
        candidate
    } else {
        suffixed(candidate, probe_from(names, candidate, 1))
    }
}

proof fn lemma_digit(d: int)
    requires
        0 <= d < 10,
    ensures
        digit_value(digit_chars()[d]) == d,
{
    let c = digit_chars();
    if d == 0 {
        assert(c[0] == '0');
    } else if d == 1 {
        assert(c[1] == '1');
    } else if d == 2 {
        assert(c[2] == '2');
    } else if d == 3 {
        assert(c[3] == '3');
    } else if d == 4 {
        assert(c[4] == '4');
    } else if d == 5 {
        assert(c[5] == '5');
    } else if d == 6 {
        assert(c[6] == '6');
    } else if d == 7 {
        assert(c[7] == '7');
    } else if d == 8 {
        assert(c[8] == '8');
    } else {
        assert(c[9] == '9');
    }
}

proof fn lemma_decimal_value(n: nat)
    ensures
        digits_value(decimal(n)) == n,
        decimal(n).len() > 0,
    decreases n,
{
    if n < 10 {
        lemma_digit(n as int);
        let s = seq![digit_chars()[n as int]];
        assert(s.drop_last() =~= Seq::<char>::empty());
        assert(digits_value(Seq::<char>::empty()) == 0);
        assert(digits_value(s) == digits_value(s.drop_last()) * 10 + digit_value(s.last()));
    } else {
        lemma_decimal_value(n / 10);
        lemma_digit((n % 10) as int);
        assert(n == (n / 10) * 10 + n % 10);
        let s = decimal(n / 10).push(digit_chars()[(n % 10) as int]);
        assert(s.drop_last() =~= decimal(n / 10));
        assert(s == decimal(n));
        assert(digits_value(s) == digits_value(s.drop_last()) * 10 + digit_value(s.last()));
    }
}

proof fn lemma_suffixed_injective(candidate: Seq<char>, a: nat, b: nat)
    requires
        suffixed(candidate, a) == suffixed(candidate, b),
    ensures
        a == b,
{
    let k = candidate.len() + 1int;
    let sa = suffixed(candidate, a);
    assert(sa.subrange(k, sa.len() as int) =~= decimal(a));
    assert(sa.subrange(k, sa.len() as int) =~= decimal(b));
    lemma_decimal_value(a);
    lemma_decimal_value(b);
}

/// Among the first `names.len() + 1` alternatives of a candidate, one is free.
proof fn lemma_free_alternative(names: Seq<Seq<char>>, candidate: Seq<char>)
    ensures
        exists|m: nat| 1 <= m <= names.len() + 1 && !names.contains(#[trigger] suffixed(candidate, m)),
{
    if !exists|m: nat| 1 <= m <= names.len() + 1 && !names.contains(#[trigger] suffixed(candidate, m)) {
        let f = |i: int| suffixed(candidate, i as nat);
        let x = set_int_range(1, names.len() + 2int);
        lemma_int_range(1, names.len() + 2int);
        assert forall|i: int, j: int| x.contains(i) && x.contains(j) && #[trigger] f(i) == #[trigger] f(j) implies i == j by {
            lemma_suffixed_injective(candidate, i as nat, j as nat);
        }
        assert(injective_on(f, x));
        lemma_map_size(x, x.map(f), f);
        assert forall|s: Seq<char>| x.map(f).contains(s) implies names.to_set().contains(s) by {
            let i = choose|i: int| x.contains(i) && f(i) == s;
            assert(names.contains(suffixed(candidate, i as nat)));
        }
        names.lemma_cardinality_of_set();
        lemma_len_subset(x.map(f), names.to_set());
    }
}

/// Builds the decimal notation of `n`.
pub fn decimal_string(n: usize) -> (r: String)
    ensures
        r@ == decimal(n as nat),
    decreases n,
{
    let digits: [&str; 10] = ["0", "1", "2", "3", "4", "5", "6", "7", "8", "9"];
    proof {
        reveal_strlit("0");
        reveal_strlit("1");
        reveal_strlit("2");
        reveal_strlit("3");
        reveal_strlit("4");
        reveal_strlit("5");
        reveal_strlit("6");
        reveal_strlit("7");
        reveal_strlit("8");
        reveal_strlit("9");
    }
    assert(forall|d: int| 0 <= d < 10 ==> #[trigger] digits@[d]@ == seq![digit_chars()[d]]);
    if n < 10 {
        String::from_str(digits[n])
    } else {
        let mut s = decimal_string(n / 10);
        s.append(digits[n % 10]);
        assert(s@ =~= decimal(n as nat));
        s
    }
}

/// Hands out source identifiers that are unique across all backends; a taken
/// candidate receives the first free numbered alternative.
pub struct IdResolver {
    names: Vec<String>,
}

impl IdResolver {
    /// The identifiers taken so far, in the order they were taken.
    pub closed spec fn taken(&self) -> Seq<Seq<char>> {
        self.names@.map_values(|s: String| s@)
    }

    /// A resolver in which the given names are taken from the start.
    pub fn new(reserved: Vec<String>) -> (r: Self)
        ensures
            r.taken() == reserved@.map_values(|s: String| s@),
    {
        IdResolver { names: reserved }
    }

    /// The number of identifiers taken so far.
    pub fn len(&self) -> (r: usize)
        ensures
            r == self.taken().len(),
    {
        self.names.len()
    }

    fn is_taken(&self, name: &str) -> (r: bool)
        ensures
            r == self.taken().contains(name@),
    {
        let mut i: usize = 0;
        while i < self.names.len()
            invariant
                i <= self.names@.len(),
                forall|j: int| 0 <= j < i ==> self.taken()[j] != name@,
            decreases self.names@.len() - i,
        {
            if same_text(self.names[i].as_str(), name) {
                assert(self.taken()[i as int] == name@);
                return true;
            }
            i = i + 1;
        }
        false
    }

    /// Returns the identifier for `candidate` and takes it: the candidate itself when
    /// it is free, else the candidate followed by `.1`, `.2`, ... whichever is free first.
    pub fn resolve(&mut self, candidate: &str) -> (r: String)
        requires
            old(self).taken().len() < usize::MAX,
        ensures
            r@ == resolved_id(old(self).taken(), candidate@),
            !old(self).taken().contains(r@),
            final(self).taken() == old(self).taken().push(r@),
    {
        let ghost names = self.taken();
        let ghost before = self.names@;
        if !self.is_taken(candidate) {
            let r = candidate.to_owned();
            self.names.push(candidate.to_owned());
            assert(self.taken() =~= before.map_values(|s: String| s@).push(r@));
            return r;
        }
        proof {
            lemma_free_alternative(names, candidate@);
        }
        let k = self.names.len();
        let mut n: usize = 1;
        loop
            invariant
                names == self.taken(),
                names == old(self).taken(),
                before == self.names@,
                k == names.len(),
                k < usize::MAX,
                1 <= n <= k + 1,
                names.contains(candidate@),
                forall|j: nat| 1 <= j < n ==> names.contains(#[trigger] suffixed(candidate@, j)),
                probe_from(names, candidate@, 1) == probe_from(names, candidate@, n as nat),
                exists|m: nat| 1 <= m <= names.len() + 1 && !names.contains(#[trigger] suffixed(candidate@, m)),
            decreases k + 1 - n,
        {
            proof {
                reveal_strlit(".");
            }
            let mut s = candidate.to_owned();
            s.append(".");
            let d = decimal_string(n);
            s.append(d.as_str());
            assert(s@ =~= suffixed(candidate@, n as nat));
            if !self.is_taken(s.as_str()) {
                assert(probe_from(names, candidate@, n as nat) == n);
                self.names.push(s.clone());
                assert(self.taken() =~= before.map_values(|s: String| s@).push(s@));
                return s;
            }
            if n == k + 1 {
                proof {
                    let m = choose|m: nat| 1 <= m <= names.len() + 1 && !names.contains(#[trigger] suffixed(candidate@, m));
                    if m < n {
                        assert(names.contains(suffixed(candidate@, m)));
                    }
                }
            }
            n = n + 1;
        }
    }
}

/// Resolving one free candidate twice, as two backends declaring the same name do,
/// gives the candidate itself first and then a different, non-empty identifier.
pub proof fn lemma_resolve_twice(names: Seq<Seq<char>>, candidate: Seq<char>)
    requires
        !names.contains(candidate),
        candidate.len() > 0,
    ensures
        resolved_id(names, candidate) == candidate,
        resolved_id(names.push(candidate), candidate) != candidate,
        resolved_id(names.push(candidate), candidate).len() > 0,
{
    let s = resolved_id(names.push(candidate), candidate);
    assert(names.push(candidate).contains(candidate)) by {
        assert(names.push(candidate)[names.len() as int] == candidate);
    }
    assert(s.len() > candidate.len());
}

} // verus!
