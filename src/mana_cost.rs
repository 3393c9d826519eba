use vstd::prelude::*;
use crate::digits::{decimal, push_decimal};
use crate::mana::{Mana, KINDS};
use crate::token::{tokenize, tokens_spec, Fault, ParseError, Token, MAX_AMOUNT};

verus! {

/// A mana cost as a mathematical value: the generic amount, absent when the
/// cost has no numeric symbol, and for each non-generic kind, by its position
/// in the fixed order of kinds, how often it occurs.
pub struct CostView {
    pub generic: Option<nat>,
    pub counts: Seq<nat>,
}

/// The generic amount, 0 when there is none.
pub open spec fn generic_amount(v: CostView) -> nat {
    match v.generic {
        Some(g) => g,
        None => 0,
    }
}

/// The cost with no symbol.
pub open spec fn empty_view() -> CostView {
    CostView { generic: None, counts: Seq::new(KINDS as nat, |i: int| 0nat) }
}

/// `v` with one more token.
pub open spec fn add_token(v: CostView, t: Token) -> CostView {
    match t {
        Token::Generic(a) => CostView { generic: Some((generic_amount(v) + a) as nat), counts: v.counts },
        Token::Symbol(m) => {
            let i = m.index_spec();
            if 0 <= i < v.counts.len() {
                CostView { generic: v.generic, counts: v.counts.update(i, (v.counts[i] + 1) as nat) }
            } else {
                v
            }
        },
    }
}

/// `v` with the tokens `ts` added, first to last.
pub open spec fn add_tokens(v: CostView, ts: Seq<Token>) -> CostView
    decreases ts.len(),
{
    if ts.len() == 0 {
        v
    } else {
        add_token(add_tokens(v, ts.drop_last()), ts.last())
    }
}

/// The canonical cost of a token sequence: generic amounts summed, the other
/// kinds counted.
pub open spec fn tally(ts: Seq<Token>) -> CostView {
    add_tokens(empty_view(), ts)
}

/// The contribution of the kinds at positions `0 .. n` to the static mana value.
pub open spec fn kinds_value(counts: Seq<nat>, n: int) -> int
    decreases n,
{
    if n <= 0 {
        0
    } else {
        kinds_value(counts, n - 1) + counts[n - 1] * Mana::at_spec(n - 1).value_spec()
    }
}

/// The static mana value: the generic amount, plus each kind's count times its
/// value (so `X` and `Y` count 0).
pub open spec fn static_value(v: CostView) -> int {
    generic_amount(v) + kinds_value(v.counts, KINDS as int)
}

/// The mana value with `X` bound to `x` and `Y` to `y`.
pub open spec fn bound_value(v: CostView, x: int, y: int) -> int {
    static_value(v) + v.counts[Mana::X.index_spec()] * x + v.counts[Mana::Y.index_spec()] * y
}

/// A cost whose generic amount and counts fit the stored `MAX_AMOUNT`.
pub open spec fn in_range(v: CostView) -> bool {
    &&& v.counts.len() == KINDS
    &&& generic_amount(v) <= MAX_AMOUNT
    &&& forall|i: int| 0 <= i < KINDS ==> #[trigger] v.counts[i] <= MAX_AMOUNT
}

/// The canonical cost a text denotes, or why it denotes none: the first token
/// failure, else `Overflow` when the summed generic amount or a count does not
/// fit the stored range.
pub open spec fn parse_spec(s: Seq<char>) -> Result<CostView, Fault> {
    match tokens_spec(s) {
        Err(f) => Err(f),
        Ok(ts) => if in_range(tally(ts)) {
            Ok(tally(ts))
        } else {
            Err(Fault::Overflow)
        },
    }
}

/// `t` written `k` times.
pub open spec fn repeat(t: Seq<char>, k: nat) -> Seq<char>
    decreases k,
{
    if k == 0 {
        Seq::empty()
    } else {
        repeat(t, (k - 1) as nat) + t
    }
}

/// The printed generic part: `{N}`, or nothing.
pub open spec fn generic_text(g: Option<nat>) -> Seq<char> {
    match g {
        Some(n) => seq!['{'] + decimal(n) + seq!['}'],
        None => Seq::empty(),
    }
}

/// The printed kinds at positions `0 .. n`, each repeated by its count.
pub open spec fn kinds_text(counts: Seq<nat>, n: int) -> Seq<char>
    decreases n,
{
    if n <= 0 {
        Seq::empty()
    } else {
        kinds_text(counts, n - 1) + repeat(Mana::at_spec(n - 1).text_spec(), counts[n - 1])
    }
}

/// The printed form of a cost: the generic part, then each kind in the fixed
/// order.
pub open spec fn print_spec(v: CostView) -> Seq<char> {
    generic_text(v.generic) + kinds_text(v.counts, KINDS as int)
}

/// A canonical mana cost: the generic amount, if any, and how often each other
/// symbol kind occurs.
#[derive(Debug)]
pub struct ManaCost {
    generic: Option<u32>,
    counts: Vec<u32>,
}

impl View for ManaCost {
    type V = CostView;

    closed spec fn view(&self) -> CostView {
        CostView {
            generic: match self.generic {
                Some(g) => Some(g as nat),
                None => None,
            },
            counts: self.counts@.map_values(|c: u32| c as nat),
        }
    }
}

impl PartialEq for ManaCost {
    /// Two costs are equal when they hold the same generic amount, or both
    /// none, and the same count of every other kind.
    fn eq(&self, o: &ManaCost) -> (r: bool) {
        proof {
            use_type_invariant(self);
            use_type_invariant(o);
        }
        if self.generic != o.generic {
            return false;
        }
        let mut i: usize = 0;
        while i < KINDS
            invariant
                i <= KINDS,
                self.counts.len() == KINDS,
                o.counts.len() == KINDS,
                forall|j: int| 0 <= j < i ==> self.counts@[j] == o.counts@[j],
            decreases KINDS - i,
        {
            if self.counts[i] != o.counts[i] {
                assert(self@.counts[i as int] != o@.counts[i as int]);
                return false;
            }
            i = i + 1;
        }
        assert(self@.counts =~= o@.counts);
        true
    }
}

impl vstd::std_specs::cmp::PartialEqSpecImpl for ManaCost {
    open spec fn obeys_eq_spec() -> bool {
        true
    }

    open spec fn eq_spec(&self, o: &ManaCost) -> bool {
        self@ == o@
    }
}

impl Eq for ManaCost {
}

proof fn lemma_kinds_value_nonneg(counts: Seq<nat>, n: int)
    ensures
        kinds_value(counts, n) >= 0,
    decreases n,
{
    if n > 0 {
        lemma_kinds_value_nonneg(counts, n - 1);
        assert(counts[n - 1] * Mana::at_spec(n - 1).value_spec() >= 0) by (nonlinear_arith)
            requires
                counts[n - 1] >= 0,
                Mana::at_spec(n - 1).value_spec() >= 0,
        ;
    }
}

/// A static mana value is never negative.
pub proof fn lemma_static_value_nonneg(v: CostView)
    ensures
        static_value(v) >= 0,
{
    lemma_kinds_value_nonneg(v.counts, KINDS as int);
}

pub proof fn lemma_add_tokens_append(v: CostView, a: Seq<Token>, b: Seq<Token>)
    ensures
        add_tokens(v, a + b) == add_tokens(add_tokens(v, a), b),
    decreases b.len(),
{
    if b.len() == 0 {
        assert(a + b =~= a);
    } else {
        lemma_add_tokens_append(v, a, b.drop_last());
        assert((a + b).drop_last() =~= a + b.drop_last());
        assert((a + b).last() == b.last());
    }
}

proof fn lemma_add_token_commutes(v: CostView, t: Token, u: Token)
    ensures
        add_token(add_token(v, t), u) == add_token(add_token(v, u), t),
{
    match (t, u) {
        (Token::Symbol(m1), Token::Symbol(m2)) => {
            let i1 = m1.index_spec();
            let i2 = m2.index_spec();
            if 0 <= i1 < v.counts.len() && 0 <= i2 < v.counts.len() {
                assert(add_token(add_token(v, t), u).counts =~= add_token(add_token(v, u), t).counts);
            }
        },
        _ => {},
    }
}

/// Canonicalization does not depend on token order: exchanging two
/// neighbouring tokens leaves the tallied cost unchanged.
pub proof fn lemma_tally_swap(a: Seq<Token>, t: Token, u: Token, b: Seq<Token>)
    ensures
        tally(a + seq![t, u] + b) == tally(a + seq![u, t] + b),
{
    let v = tally(a);
    lemma_add_tokens_append(empty_view(), a + seq![t, u], b);
    lemma_add_tokens_append(empty_view(), a + seq![u, t], b);
    lemma_add_tokens_append(empty_view(), a, seq![t, u]);
    lemma_add_tokens_append(empty_view(), a, seq![u, t]);
    assert(seq![t, u].drop_last() =~= seq![t]);
    assert(seq![u, t].drop_last() =~= seq![u]);
    assert(seq![t].drop_last() =~= Seq::<Token>::empty());
    assert(seq![u].drop_last() =~= Seq::<Token>::empty());
    assert(add_tokens(v, Seq::<Token>::empty()) == v);
    assert(add_tokens(v, seq![t]) == add_token(v, t));
    assert(add_tokens(v, seq![u]) == add_token(v, u));
    assert(add_tokens(v, seq![t, u]) == add_token(add_token(v, t), u));
    assert(add_tokens(v, seq![u, t]) == add_token(add_token(v, u), t));
    lemma_add_token_commutes(v, t, u);
}

/// `n`, held at `MAX_AMOUNT + 1` once it passes `MAX_AMOUNT`.
pub open spec fn capped(n: nat) -> nat {
    if n <= MAX_AMOUNT {
        n
    } else {
        MAX_AMOUNT as nat + 1
    }
}

proof fn lemma_tally_step(ts: Seq<Token>, k: int)
    requires
        0 <= k < ts.len(),
    ensures
        tally(ts.take(k + 1)) == add_token(tally(ts.take(k)), ts[k]),
{
    assert(ts.take(k + 1).drop_last() =~= ts.take(k));
}

impl ManaCost {
    #[verifier::type_invariant]
    closed spec fn inv(self) -> bool {
        in_range(self@)
    }

    /// The canonical cost of a token sequence, or `NumericOverflow` when it is
    /// out of range.
    fn from_tokens(ts: &Vec<Token>) -> (r: Result<ManaCost, ParseError>)
        ensures
            match r {
                Ok(c) => in_range(tally(ts@)) && c@ == tally(ts@),
                Err(e) => !in_range(tally(ts@)) && e@ == Fault::Overflow,
            },
    {
        let mut has_generic = false;
        let mut g: u64 = 0;
        let mut cs: Vec<u64> = Vec::new();
        let mut i: usize = 0;
        while i < KINDS
            invariant
                i <= KINDS,
                cs.len() == i,
                forall|j: int| 0 <= j < i ==> cs@[j] == 0,
            decreases KINDS - i,
        {
            cs.push(0);
            i = i + 1;
        }
        assert(ts@.take(0) =~= Seq::<Token>::empty());
        let mut k: usize = 0;
        while k < ts.len()
            invariant
                k <= ts.len(),
                cs.len() == KINDS,
                tally(ts@.take(k as int)).counts.len() == KINDS,
                has_generic == tally(ts@.take(k as int)).generic is Some,
                g == capped(generic_amount(tally(ts@.take(k as int)))),
                forall|j: int|
                    0 <= j < KINDS ==> #[trigger] cs@[j] == capped(tally(ts@.take(k as int)).counts[j]),
            decreases ts.len() - k,
        {
            proof {
                lemma_tally_step(ts@, k as int);
            }
            match ts[k] {
                Token::Generic(a) => {
                    has_generic = true;
                    let w = g + a as u64;
                    g = if w > MAX_AMOUNT as u64 { MAX_AMOUNT as u64 + 1 } else { w };
                },
                Token::Symbol(m) => {
                    if m != Mana::Generic {
                        let j = m.index();
                        let c = cs[j] + 1;
                        cs.set(j, if c > MAX_AMOUNT as u64 { MAX_AMOUNT as u64 + 1 } else { c });
                    }
                },
            }
            k = k + 1;
        }
        assert(ts@.take(ts.len() as int) =~= ts@);
        let ghost v = tally(ts@);
        if g > MAX_AMOUNT as u64 {
            return Err(ParseError::NumericOverflow);
        }
        let mut i: usize = 0;
        while i < KINDS
            invariant
                i <= KINDS,
                cs.len() == KINDS,
                v == tally(ts@),
                v.counts.len() == KINDS,
                forall|j: int| 0 <= j < KINDS ==> #[trigger] cs@[j] == capped(v.counts[j]),
                forall|j: int| 0 <= j < i ==> #[trigger] cs@[j] <= MAX_AMOUNT,
            decreases KINDS - i,
        {
            if cs[i] > MAX_AMOUNT as u64 {
                assert(cs@[i as int] == capped(v.counts[i as int]));
                assert(v.counts[i as int] > MAX_AMOUNT);
                assert(!in_range(v));
                return Err(ParseError::NumericOverflow);
            }
            i = i + 1;
        }
        let mut out: Vec<u32> = Vec::new();
        let mut i: usize = 0;
        while i < KINDS
            invariant
                i <= KINDS,
                cs.len() == KINDS,
                v == tally(ts@),
                v.counts.len() == KINDS,
                forall|j: int| 0 <= j < KINDS ==> #[trigger] cs@[j] <= MAX_AMOUNT,
                forall|j: int| 0 <= j < KINDS ==> #[trigger] cs@[j] == capped(v.counts[j]),
                out.len() == i,
                forall|j: int| 0 <= j < i ==> #[trigger] out@[j] == cs@[j],
            decreases KINDS - i,
        {
            let c = cs[i];
            assert(v.counts[i as int] == c);
            out.push(c as u32);
            i = i + 1;
        }
        let ghost counts = out@.map_values(|c: u32| c as nat);
        assert(counts =~= v.counts);
        assert(generic_amount(v) == g);
        let cost = ManaCost { generic: if has_generic { Some(g as u32) } else { None }, counts: out };
        assert(cost@.counts =~= v.counts);
        assert(cost@.generic == v.generic);
        Ok(cost)
    }

    /// How often the kind at position `i` occurs.
    fn count_at(&self, i: usize) -> (r: u32)
        requires
            i < KINDS,
        ensures
            r == self@.counts[i as int],
            r <= MAX_AMOUNT,
    {
        proof {
            use_type_invariant(self);
        }
        self.counts[i]
    }

    /// The text of the cost: the generic amount as one `{N}` token if the cost
    /// has one, then each other kind's text repeated by its count, kinds in
    /// the fixed order.
    pub fn print_symbols(&self) -> (r: String)
        ensures
            r@ == print_spec(self@),
    {
        proof {
            use_type_invariant(self);
        }
        let mut out = String::new();
        match self.generic {
            Some(g) => {
                out.append("{");
                push_decimal(&mut out, g as u64);
                out.append("}");
                proof {
                    reveal_strlit("{");
                    reveal_strlit("}");
                }
            },
            None => {},
        }
        let ghost head = out@;
        assert(head =~= generic_text(self@.generic));
        let mut i: usize = 0;
        while i < KINDS
            invariant
                i <= KINDS,
                out@ == head + kinds_text(self@.counts, i as int),
            decreases KINDS - i,
        {
            let m = Mana::at(i);
            let t = m.text();
            let n = self.count_at(i);
            let ghost before = out@;
            let mut j: u32 = 0;
            while j < n
                invariant
                    j <= n,
                    out@ == before + repeat(t@, j as nat),
                decreases n - j,
            {
                out.append(t);
                j = j + 1;
                assert(out@ =~= before + repeat(t@, j as nat));
            }
            i = i + 1;
            assert(out@ =~= head + kinds_text(self@.counts, i as int));
        }
        out
    }

    /// The static mana value: the generic amount plus each other kind's count
    /// times its value, `X` and `Y` counting 0.
    pub fn mana_value(&self) -> (r: i64)
        ensures
            r == static_value(self@),
    {
        proof {
            use_type_invariant(self);
        }
        let mut total: u64 = match self.generic {
            Some(g) => g as u64,
            None => 0,
        };
        let mut i: usize = 0;
        while i < KINDS
            invariant
                i <= KINDS,
                in_range(self@),
                total == generic_amount(self@) + kinds_value(self@.counts, i as int),
                total <= MAX_AMOUNT + 2 * MAX_AMOUNT * i,
            decreases KINDS - i,
        {
            let c = self.count_at(i) as u64;
            let w = Mana::at(i).value() as u64;
            assert(total + c * w <= MAX_AMOUNT + 2 * MAX_AMOUNT * (i + 1)) by (nonlinear_arith)
                requires
                    total <= MAX_AMOUNT + 2 * MAX_AMOUNT * i,
                    c <= MAX_AMOUNT,
                    w <= 2,
            ;
            assert(MAX_AMOUNT + 2 * MAX_AMOUNT * (i + 1) <= MAX_AMOUNT + 2 * MAX_AMOUNT * KINDS)
                by (nonlinear_arith)
                requires
                    i < KINDS,
            ;
            total = total + c * w;
            i = i + 1;
        }
        total as i64
    }

    /// The mana value once `X` is bound to `x` and `Y` to `y`: as the static
    /// value, with each `X` counting `x` and each `Y` counting `y`.
    pub fn mana_value_on_stack(&self, x: i32, y: i32) -> (r: i32)
        requires
            i32::MIN <= bound_value(self@, x as int, y as int) <= i32::MAX,
        ensures
            r == bound_value(self@, x as int, y as int),
    {
        let base = self.mana_value() as i128;
        let cx = self.count_at(Mana::X.index()) as i128;
        let cy = self.count_at(Mana::Y.index()) as i128;
        let xv = x as i128;
        let yv = y as i128;
        assert(-0x4000_0000_0000_0000 <= cx * xv <= 0x4000_0000_0000_0000) by (nonlinear_arith)
            requires
                0 <= cx <= MAX_AMOUNT,
                i32::MIN <= xv <= i32::MAX,
        ;
        assert(-0x4000_0000_0000_0000 <= cy * yv <= 0x4000_0000_0000_0000) by (nonlinear_arith)
            requires
                0 <= cy <= MAX_AMOUNT,
                i32::MIN <= yv <= i32::MAX,
        ;
        (base + cx * xv + cy * yv) as i32
    }

    /// The canonical cost of a text. Text outside brackets is skipped; each
    /// bracketed token is a run of digits (a generic amount) or a symbol code.
    /// Fails on the first unknown token, on an unclosed bracket, and when a
    /// digit run, the summed generic amount or a symbol's count exceeds
    /// `MAX_AMOUNT`, the largest amount or count a cost stores.
    pub fn parse_string(s: &str) -> (r: Result<ManaCost, ParseError>)
        ensures
            match r {
                Ok(c) => parse_spec(s@) == Ok::<CostView, Fault>(c@),
                Err(e) => parse_spec(s@) == Err::<CostView, Fault>(e@),
            },
    {
        match tokenize(s) {
            Err(e) => Err(e),
            Ok(ts) => ManaCost::from_tokens(&ts),
        }
    }
}

} // verus!
