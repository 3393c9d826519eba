use vstd::prelude::*;
use crate::digits::{decimal, digits_value, is_digit_run, lemma_decimal};
use crate::mana::{kind_of_code, Mana, KINDS};
use crate::mana_cost::{
    add_token, add_tokens, empty_view, lemma_add_tokens_append, generic_amount, generic_text, in_range, kinds_text,
    parse_spec, print_spec, repeat, tally, CostView,
};
use crate::token::{classify, find_close, lemma_find_close_is, prepend_all, tokens_spec, Fault, Token};

verus! {

/// `t` repeated `k` times, as tokens.
pub open spec fn repeat_tokens(t: Token, k: nat) -> Seq<Token>
    decreases k,
{
    if k == 0 {
        Seq::empty()
    } else {
        repeat_tokens(t, (k - 1) as nat).push(t)
    }
}

/// The tokens of the kinds at positions `0 .. n`, each repeated by its count.
pub open spec fn kinds_tokens(counts: Seq<nat>, n: int) -> Seq<Token>
    decreases n,
{
    if n <= 0 {
        Seq::empty()
    } else {
        kinds_tokens(counts, n - 1) + repeat_tokens(Token::Symbol(Mana::at_spec(n - 1)), counts[n - 1])
    }
}

/// The token of the generic part, if any.
pub open spec fn generic_tokens(g: Option<nat>) -> Seq<Token> {
    match g {
        Some(n) => seq![Token::Generic(n as u32)],
        None => Seq::empty(),
    }
}

pub proof fn lemma_prepend_assoc(a: Seq<Token>, b: Seq<Token>, r: Result<Seq<Token>, Fault>)
    ensures
        prepend_all(a, prepend_all(b, r)) == prepend_all(a + b, r),
{
    match r {
        Ok(ts) => {
            assert(a + (b + ts) =~= (a + b) + ts);
        },
        Err(_) => {},
    }
}

/// One bracketed token followed by `r`.
proof fn lemma_one_token(body: Seq<char>, r: Seq<char>, t: Token)
    requires
        !body.contains('}'),
        classify(body) == Ok::<Token, Fault>(t),
    ensures
        tokens_spec(seq!['{'] + body + seq!['}'] + r) == prepend_all(seq![t], tokens_spec(r)),
{
    let s = seq!['{'] + body + seq!['}'] + r;
    let j: int = body.len() as int + 1;
    assert forall|m: int| 1 <= m < j implies s[m] != '}' by {
        assert(s[m] == body[m - 1]);
        if s[m] == '}' {
            assert(body.contains('}'));
        }
    }
    assert(s[j] == '}');
    lemma_find_close_is(s, 1, j);
    assert(find_close(s, 1) == j);
    assert(s.subrange(1, j) =~= body);
    assert(s.subrange(j + 1, s.len() as int) =~= r);
    assert(s.len() > 0 && s[0] == '{');
    match tokens_spec(r) {
        Ok(ts) => {},
        Err(_) => {},
    }
}

proof fn lemma_code_kind(m: Mana)
    requires
        m != Mana::Generic,
    ensures
        kind_of_code(m.code()) == Some(m),
        !is_digit_run(m.code()),
        !m.code().contains('}'),
{
    let c = m.code();
    assert(!crate::digits::is_digit(c[0]));
    assert(!c.contains('}')) by {
        if c.contains('}') {
            let i = choose|i: int| 0 <= i < c.len() && c[i] == '}';
            assert(c[i] != '}');
        }
    }
}

proof fn lemma_kind_token(m: Mana, r: Seq<char>)
    requires
        m != Mana::Generic,
    ensures
        tokens_spec(m.text_spec() + r) == prepend_all(seq![Token::Symbol(m)], tokens_spec(r)),
{
    lemma_code_kind(m);
    assert(m.text_spec() + r =~= seq!['{'] + m.code() + seq!['}'] + r);
    lemma_one_token(m.code(), r, Token::Symbol(m));
}

proof fn lemma_repeat_tokens(m: Mana, k: nat, r: Seq<char>)
    requires
        m != Mana::Generic,
    ensures
        tokens_spec(repeat(m.text_spec(), k) + r) == prepend_all(
            repeat_tokens(Token::Symbol(m), k),
            tokens_spec(r),
        ),
    decreases k,
{
    if k == 0 {
        assert(repeat(m.text_spec(), k) + r =~= r);
        match tokens_spec(r) {
            Ok(ts) => {
                assert(Seq::<Token>::empty() + ts =~= ts);
            },
            Err(_) => {},
        }
    } else {
        let t = m.text_spec();
        assert(repeat(t, k) + r =~= repeat(t, (k - 1) as nat) + (t + r));
        lemma_repeat_tokens(m, (k - 1) as nat, t + r);
        lemma_kind_token(m, r);
        lemma_prepend_assoc(repeat_tokens(Token::Symbol(m), (k - 1) as nat), seq![Token::Symbol(m)], tokens_spec(r));
        assert(repeat_tokens(Token::Symbol(m), (k - 1) as nat) + seq![Token::Symbol(m)]
            =~= repeat_tokens(Token::Symbol(m), k));
    }
}

proof fn lemma_kinds_tokens(counts: Seq<nat>, n: int, r: Seq<char>)
    requires
        0 <= n <= KINDS,
    ensures
        tokens_spec(kinds_text(counts, n) + r) == prepend_all(kinds_tokens(counts, n), tokens_spec(r)),
    decreases n,
{
    if n == 0 {
        assert(kinds_text(counts, n) + r =~= r);
        match tokens_spec(r) {
            Ok(ts) => {
                assert(Seq::<Token>::empty() + ts =~= ts);
            },
            Err(_) => {},
        }
    } else {
        let m = Mana::at_spec(n - 1);
        let rep = repeat(m.text_spec(), counts[n - 1]);
        assert(kinds_text(counts, n) + r =~= kinds_text(counts, n - 1) + (rep + r));
        lemma_kinds_tokens(counts, n - 1, rep + r);
        lemma_repeat_tokens(m, counts[n - 1], r);
        lemma_prepend_assoc(
            kinds_tokens(counts, n - 1),
            repeat_tokens(Token::Symbol(m), counts[n - 1]),
            tokens_spec(r),
        );
    }
}

/// The printed text of an in-range cost scans to its tokens.
proof fn lemma_print_tokens(v: CostView)
    requires
        in_range(v),
    ensures
        tokens_spec(print_spec(v)) == Ok::<Seq<Token>, Fault>(
            generic_tokens(v.generic) + kinds_tokens(v.counts, KINDS as int),
        ),
{
    let kt = kinds_text(v.counts, KINDS as int);
    lemma_kinds_tokens(v.counts, KINDS as int, Seq::empty());
    assert(kt + Seq::<char>::empty() =~= kt);
    assert(tokens_spec(Seq::<char>::empty()) == Ok::<Seq<Token>, Fault>(Seq::empty()));
    assert(kinds_tokens(v.counts, KINDS as int) + Seq::<Token>::empty() =~= kinds_tokens(v.counts, KINDS as int));
    match v.generic {
        Some(g) => {
            lemma_decimal(g);
            assert(print_spec(v) =~= seq!['{'] + decimal(g) + seq!['}'] + kt);
            lemma_one_token(decimal(g), kt, Token::Generic(g as u32));
        },
        None => {
            assert(print_spec(v) =~= kt);
            assert(Seq::<Token>::empty() + kinds_tokens(v.counts, KINDS as int) =~= kinds_tokens(v.counts, KINDS as int));
        },
    }
}

proof fn lemma_add_repeat(w: CostView, m: Mana, k: nat)
    requires
        0 <= m.index_spec() < w.counts.len(),
    ensures
        add_tokens(w, repeat_tokens(Token::Symbol(m), k)) == (CostView {
            generic: w.generic,
            counts: w.counts.update(m.index_spec(), w.counts[m.index_spec()] + k),
        }),
    decreases k,
{
    let i = m.index_spec();
    if k == 0 {
        assert(w.counts.update(i, w.counts[i] + k) =~= w.counts);
    } else {
        lemma_add_repeat(w, m, (k - 1) as nat);
        let ts = repeat_tokens(Token::Symbol(m), k);
        assert(ts.drop_last() =~= repeat_tokens(Token::Symbol(m), (k - 1) as nat));
        let prev = add_tokens(w, ts.drop_last());
        assert(prev.counts.update(i, prev.counts[i] + 1) =~= w.counts.update(i, w.counts[i] + k));
    }
}

/// The counts of the kinds before position `n` taken from `counts`, zero from there on.
pub open spec fn counts_up_to(counts: Seq<nat>, n: int) -> Seq<nat> {
    Seq::new(KINDS as nat, |j: int| if j < n { counts[j] } else { 0nat })
}

proof fn lemma_index_at(i: int)
    requires
        0 <= i < KINDS,
    ensures
        Mana::at_spec(i).index_spec() == i,
        Mana::at_spec(i) != Mana::Generic,
{
}

proof fn lemma_add_kinds(g: Option<nat>, counts: Seq<nat>, n: int)
    requires
        0 <= n <= KINDS,
        counts.len() == KINDS,
    ensures
        add_tokens(CostView { generic: g, counts: counts_up_to(counts, 0) }, kinds_tokens(counts, n))
            == (CostView { generic: g, counts: counts_up_to(counts, n) }),
    decreases n,
{
    let w = CostView { generic: g, counts: counts_up_to(counts, 0) };
    if n == 0 {
    } else {
        lemma_add_kinds(g, counts, n - 1);
        let m = Mana::at_spec(n - 1);
        lemma_index_at(n - 1);
        lemma_add_tokens_append(w, kinds_tokens(counts, n - 1), repeat_tokens(Token::Symbol(m), counts[n - 1]));
        let mid = CostView { generic: g, counts: counts_up_to(counts, n - 1) };
        lemma_add_repeat(mid, m, counts[n - 1]);
        assert(mid.counts.update(n - 1, mid.counts[n - 1] + counts[n - 1]) =~= counts_up_to(counts, n));
    }
}

/// An in-range cost is the tally of the tokens of its printed text.
proof fn lemma_tally_print_tokens(v: CostView)
    requires
        in_range(v),
    ensures
        tally(generic_tokens(v.generic) + kinds_tokens(v.counts, KINDS as int)) == v,
{
    let gt = generic_tokens(v.generic);
    lemma_add_tokens_append(empty_view(), gt, kinds_tokens(v.counts, KINDS as int));
    let w = add_tokens(empty_view(), gt);
    match v.generic {
        Some(g) => {
            assert(gt.drop_last() =~= Seq::<Token>::empty());
            assert(add_tokens(empty_view(), gt.drop_last()) == empty_view());
            assert(w == add_token(empty_view(), Token::Generic(g as u32)));
            assert(w.generic == Some(g));
            assert(w.counts == empty_view().counts);
        },
        None => {
            assert(gt =~= Seq::<Token>::empty());
            assert(w == empty_view());
        },
    }
    assert(w.counts =~= counts_up_to(v.counts, 0));
    assert(w == CostView { generic: v.generic, counts: counts_up_to(v.counts, 0) });
    lemma_add_kinds(v.generic, v.counts, KINDS as int);
    assert(counts_up_to(v.counts, KINDS as int) =~= v.counts);
}

/// Printing an in-range cost and parsing the text gives the cost back.
pub proof fn lemma_print_parse(v: CostView)
    requires
        in_range(v),
    ensures
        parse_spec(print_spec(v)) == Ok::<CostView, Fault>(v),
{
    lemma_print_tokens(v);
    lemma_tally_print_tokens(v);
}

/// Parsing a text, printing the cost and parsing that text again gives the
/// same cost as the first parse.
pub proof fn lemma_parse_print_parse(s: Seq<char>)
    requires
        parse_spec(s) is Ok,
    ensures
        parse_spec(print_spec(parse_spec(s)->Ok_0)) == parse_spec(s),
{
    lemma_print_parse(parse_spec(s)->Ok_0);
}

} // verus!
