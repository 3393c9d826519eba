use vstd::prelude::*;
use crate::digits::{digit_value, digits_value, is_digit, is_digit_run};
use crate::mana::{kind_of_code, pair_kind_exec, single_kind_exec, Mana};

verus! {

/// The largest generic amount, and the largest count of one symbol kind, that a
/// cost stores.
pub const MAX_AMOUNT: u32 = 2147483647;

/// One recognized token of a cost text.
#[derive(Debug, Copy, Clone, PartialEq, Eq, Structural)]
pub enum Token {
    /// A run of digits, with its value.
    Generic(u32),
    /// One occurrence of a non-generic symbol kind.
    Symbol(Mana),
}

/// Why a text is not a mana cost.
#[derive(Debug, Clone)]
pub enum ParseError {
    /// A bracketed token, given with its brackets, that is neither a run of
    /// digits nor a known symbol code.
    UnrecognizedSymbol(String),
    /// An opening bracket with no closing bracket after it.
    MalformedToken,
    /// A digit run, a summed generic amount or a symbol's count beyond
    /// `MAX_AMOUNT`.
    NumericOverflow,
}

/// What a parse error says, as a mathematical value.
pub enum Fault {
    /// An unknown token, with its brackets.
    Unrecognized(Seq<char>),
    /// An unclosed bracket.
    Malformed,
    /// An amount or a count out of range.
    Overflow,
}

impl View for ParseError {
    type V = Fault;

    open spec fn view(&self) -> Fault {
        match self {
            ParseError::UnrecognizedSymbol(t) => Fault::Unrecognized(t@),
            ParseError::MalformedToken => Fault::Malformed,
            ParseError::NumericOverflow => Fault::Overflow,
        }
    }
}

/// The token that a bracket interior `body` stands for.
pub open spec fn classify(body: Seq<char>) -> Result<Token, Fault> {
    if is_digit_run(body) {
        if digits_value(body) <= MAX_AMOUNT {
            Ok(Token::Generic(digits_value(body) as u32))
        } else {
            Err(Fault::Overflow)
        }
    } else {
        match kind_of_code(body) {
            Some(m) => Ok(Token::Symbol(m)),
            None => Err(Fault::Unrecognized(seq!['{'] + body + seq!['}'])),
        }
    }
}

/// The first position at or after `k` that holds `}`, or `t.len()` if none does.
pub open spec fn find_close(t: Seq<char>, k: int) -> int
    decreases t.len() - k,
{
    if k < 0 || k >= t.len() {
        t.len() as int
    } else if t[k] == '}' {
        k
    } else {
        find_close(t, k + 1)
    }
}

/// `first` followed by what `rest` holds, or the first error.
pub open spec fn prepend(first: Result<Token, Fault>, rest: Result<Seq<Token>, Fault>) -> Result<
    Seq<Token>,
    Fault,
> {
    match first {
        Err(f) => Err(f),
        Ok(t) => match rest {
            Err(f) => Err(f),
            Ok(ts) => Ok(seq![t] + ts),
        },
    }
}

/// The tokens of a text, scanned left to right: text outside brackets is
/// skipped; each `{` opens a token that ends at the next `}`. Either every
/// token is recognized, or the result is the first failure.
pub open spec fn tokens_spec(s: Seq<char>) -> Result<Seq<Token>, Fault>
    decreases s.len(),
    via tokens_spec_decreases
{
    if s.len() == 0 {
        Ok(Seq::empty())
    } else if s[0] != '{' {
        tokens_spec(s.drop_first())
    } else {
        let close = find_close(s, 1);
        if close >= s.len() {
            Err(Fault::Malformed)
        } else {
            prepend(classify(s.subrange(1, close)), tokens_spec(s.subrange(close + 1, s.len() as int)))
        }
    }
}

pub proof fn lemma_find_close_bounds(t: Seq<char>, k: int)
    requires
        0 <= k,
    ensures
        k <= find_close(t, k) <= t.len() || (k > t.len() && find_close(t, k) == t.len()),
    decreases t.len() - k,
{
    if k < t.len() && t[k] != '}' {
        lemma_find_close_bounds(t, k + 1);
    }
}

#[via_fn]
proof fn tokens_spec_decreases(s: Seq<char>) {
    if s.len() > 0 && s[0] == '{' {
        lemma_find_close_bounds(s, 1);
    }
}

/// `find_close` is the first `}` at or after `k`.
pub proof fn lemma_find_close_is(t: Seq<char>, k: int, j: int)
    requires
        0 <= k <= j <= t.len(),
        forall|m: int| k <= m < j ==> t[m] != '}',
        j == t.len() || t[j] == '}',
    ensures
        find_close(t, k) == j,
    decreases j - k,
{
    if k < j {
        lemma_find_close_is(t, k + 1, j);
    }
}

/// The digit run `b[lo..hi]` as a value, held at `MAX_AMOUNT + 1` once it
/// passes `MAX_AMOUNT`.
fn run_value(b: &Vec<char>, lo: usize, hi: usize) -> (r: u64)
    requires
        lo <= hi <= b.len(),
        forall|i: int| lo <= i < hi ==> is_digit(#[trigger] b@[i]),
    ensures
        r == if digits_value(b@.subrange(lo as int, hi as int)) <= MAX_AMOUNT {
            digits_value(b@.subrange(lo as int, hi as int))
        } else {
            MAX_AMOUNT as nat + 1
        },
{
    let mut v: u64 = 0;
    let mut k: usize = lo;
    while k < hi
        invariant
            lo <= k <= hi <= b.len(),
            forall|i: int| lo <= i < hi ==> is_digit(#[trigger] b@[i]),
            v == if digits_value(b@.subrange(lo as int, k as int)) <= MAX_AMOUNT {
                digits_value(b@.subrange(lo as int, k as int))
            } else {
                MAX_AMOUNT as nat + 1
            },
        decreases hi - k,
    {
        let c = b[k];
        assert(is_digit(b@[k as int]));
        let d: u64 = (c as u32 - '0' as u32) as u64;
        let ghost prev = digits_value(b@.subrange(lo as int, k as int));
        let ghost sub = b@.subrange(lo as int, k + 1);
        assert(sub.drop_last() =~= b@.subrange(lo as int, k as int));
        assert(digits_value(sub) == prev * 10 + digit_value(c));
        let w: u64 = v * 10 + d;
        if w > MAX_AMOUNT as u64 {
            v = MAX_AMOUNT as u64 + 1;
            assert(digits_value(sub) > MAX_AMOUNT) by (nonlinear_arith)
                requires
                    digits_value(sub) == prev * 10 + digit_value(c),
                    prev >= 0,
                    w > MAX_AMOUNT,
                    w == (if prev <= MAX_AMOUNT { prev } else { MAX_AMOUNT as nat + 1 }) * 10 + digit_value(c),
            ;
        } else {
            v = w;
        }
        k = k + 1;
    }
    v
}

/// The characters of `s`, in order.
fn chars_of(s: &str) -> (r: Vec<char>)
    ensures
        r@ == s@,
{
    let n = s.unicode_len();
    let mut r: Vec<char> = Vec::new();
    let mut k: usize = 0;
    while k < n
        invariant
            n == s@.len(),
            k <= n,
            r@ == s@.take(k as int),
        decreases n - k,
    {
        r.push(s.get_char(k));
        k = k + 1;
        assert(r@ =~= s@.take(k as int));
    }
    assert(r@ =~= s@);
    r
}

/// The token for the bracket interior `b[lo..hi]`.
fn classify_exec(s: &str, b: &Vec<char>, lo: usize, hi: usize) -> (r: Result<Token, ParseError>)
    requires
        b@ == s@,
        1 <= lo <= hi < b.len(),
        b@[lo - 1] == '{',
        b@[hi as int] == '}',
    ensures
        match r {
            Ok(t) => classify(b@.subrange(lo as int, hi as int)) == Ok::<Token, Fault>(t),
            Err(e) => classify(b@.subrange(lo as int, hi as int)) == Err::<Token, Fault>(e@),
        },
{
    let ghost body = b@.subrange(lo as int, hi as int);
    let mut all_digits = lo < hi;
    let mut k: usize = lo;
    while k < hi
        invariant
            lo <= k <= hi <= b.len(),
            all_digits <==> lo < hi && forall|i: int| lo <= i < k ==> is_digit(#[trigger] b@[i]),
        decreases hi - k,
    {
        if !('0' <= b[k] && b[k] <= '9') {
            all_digits = false;
        }
        k = k + 1;
    }
    assert(all_digits <==> is_digit_run(body)) by {
        if all_digits {
            assert forall|i: int| 0 <= i < body.len() implies is_digit(#[trigger] body[i]) by {
                assert(body[i] == b@[lo + i]);
            }
        }
        if is_digit_run(body) {
            assert forall|i: int| lo <= i < hi implies is_digit(#[trigger] b@[i]) by {
                assert(body[i - lo] == b@[i]);
            }
        }
    }
    if all_digits {
        let v = run_value(b, lo, hi);
        if v <= MAX_AMOUNT as u64 {
            Ok(Token::Generic(v as u32))
        } else {
            Err(ParseError::NumericOverflow)
        }
    } else {
        let n = hi - lo;
        let kind = if n == 1 {
            single_kind_exec(b[lo])
        } else if n == 3 && b[lo + 1] == '/' {
            pair_kind_exec(b[lo], b[lo + 2])
        } else {
            None
        };
        match kind {
            Some(m) => Ok(Token::Symbol(m)),
            None => {
                let t = s.substring_char(lo - 1, hi + 1);
                assert(t@ =~= seq!['{'] + body + seq!['}']);
                Err(ParseError::UnrecognizedSymbol(t.to_owned()))
            },
        }
    }
}

/// `acc` followed by what `rest` holds, or the error of `rest`.
pub open spec fn prepend_all(acc: Seq<Token>, rest: Result<Seq<Token>, Fault>) -> Result<
    Seq<Token>,
    Fault,
> {
    match rest {
        Err(f) => Err(f),
        Ok(ts) => Ok(acc + ts),
    }
}

/// The tokens of `s`, left to right, or the first failure.
pub fn tokenize(s: &str) -> (r: Result<Vec<Token>, ParseError>)
    ensures
        match r {
            Ok(ts) => tokens_spec(s@) == Ok::<Seq<Token>, Fault>(ts@),
            Err(e) => tokens_spec(s@) == Err::<Seq<Token>, Fault>(e@),
        },
{
    let b = chars_of(s);
    let n = b.len();
    let mut acc: Vec<Token> = Vec::new();
    let mut i: usize = 0;
    assert(b@.subrange(0, n as int) =~= b@);
    assert(acc@ + Seq::<Token>::empty() =~= Seq::<Token>::empty());
    while i < n
        invariant
            b@ == s@,
            n == b.len(),
            i <= n,
            tokens_spec(s@) == prepend_all(acc@, tokens_spec(b@.subrange(i as int, n as int))),
        decreases n - i,
    {
        let ghost sub = b@.subrange(i as int, n as int);
        if b[i] != '{' {
            assert(sub.drop_first() =~= b@.subrange(i + 1, n as int));
            i = i + 1;
        } else {
            let mut j: usize = i + 1;
            while j < n && b[j] != '}'
                invariant
                    i < j <= n,
                    n == b.len(),
                    forall|m: int| i < m < j ==> b@[m] != '}',
                decreases n - j,
            {
                j = j + 1;
            }
            proof {
                lemma_find_close_is(sub, 1, j - i);
            }
            if j == n {
                return Err(ParseError::MalformedToken);
            }
            let t = classify_exec(s, &b, i + 1, j);
            assert(sub.subrange(1, j - i) =~= b@.subrange(i + 1, j as int));
            assert(sub.subrange(j - i + 1, sub.len() as int) =~= b@.subrange(j + 1, n as int));
            match t {
                Err(e) => {
                    return Err(e);
                },
                Ok(tok) => {
                    let ghost before = acc@;
                    acc.push(tok);
                    proof {
                        match tokens_spec(b@.subrange(j + 1, n as int)) {
                            Ok(ts) => {
                                assert(before + (seq![tok] + ts) =~= acc@ + ts);
                            },
                            Err(f) => {},
                        }
                    }
                    i = j + 1;
                },
            }
        }
    }
    assert(b@.subrange(n as int, n as int) =~= Seq::<char>::empty());
    assert(acc@ + Seq::<Token>::empty() =~= acc@);
    Ok(acc)
}

} // verus!
