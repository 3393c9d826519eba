use vstd::prelude::*;
use crate::mana::KINDS;
use crate::mana_cost::{
    add_token, add_tokens, empty_view, generic_amount, in_range, lemma_add_tokens_append,
    parse_spec, tally, CostView,
};
use crate::roundtrip::lemma_prepend_assoc;
use crate::token::{
    classify, find_close, lemma_find_close_is, prepend, prepend_all, tokens_spec, Fault, Token,
};

verus! {

/// Two generic parts added: absent only when both are absent.
pub open spec fn sum_generic(g: Option<nat>, h: Option<nat>) -> Option<nat> {
    match (g, h) {
        (None, h) => h,
        (g, None) => g,
        (Some(m), Some(n)) => Some(m + n),
    }
}

/// Two costs added element-wise.
pub open spec fn sum_costs(v: CostView, w: CostView) -> CostView {
    CostView {
        generic: sum_generic(v.generic, w.generic),
        counts: Seq::new(KINDS as nat, |i: int| v.counts[i] + w.counts[i]),
    }
}

proof fn lemma_find_close_props(t: Seq<char>, k: int)
    requires
        0 <= k,
        find_close(t, k) < t.len(),
    ensures
        k <= find_close(t, k),
        t[find_close(t, k)] == '}',
        forall|m: int| k <= m < find_close(t, k) ==> t[m] != '}',
    decreases t.len() - k,
{
    if k < t.len() && t[k] != '}' {
        lemma_find_close_props(t, k + 1);
    }
}

/// A text that scans without failure ends with no open bracket, so the tokens
/// of a text that follows it come after its own.
pub proof fn lemma_tokens_append(a: Seq<char>, b: Seq<char>)
    requires
        tokens_spec(a) is Ok,
    ensures
        tokens_spec(a + b) == prepend_all(tokens_spec(a)->Ok_0, tokens_spec(b)),
    decreases a.len(),
{
    if a.len() == 0 {
        assert(a + b =~= b);
        match tokens_spec(b) {
            Ok(ts) => {
                assert(Seq::<Token>::empty() + ts =~= ts);
            },
            Err(_) => {},
        }
    } else if a[0] != '{' {
        assert((a + b).drop_first() =~= a.drop_first() + b);
        lemma_tokens_append(a.drop_first(), b);
    } else {
        let s = a + b;
        let close = find_close(a, 1);
        lemma_find_close_props(a, 1);
        assert forall|m: int| 1 <= m < close implies s[m] != '}' by {
            assert(s[m] == a[m]);
        }
        lemma_find_close_is(s, 1, close);
        assert(s.subrange(1, close) =~= a.subrange(1, close));
        let rest = a.subrange(close + 1, a.len() as int);
        assert(s.subrange(close + 1, s.len() as int) =~= rest + b);
        let t = classify(a.subrange(1, close))->Ok_0;
        lemma_tokens_append(rest, b);
        lemma_prepend_assoc(seq![t], tokens_spec(rest)->Ok_0, tokens_spec(b));
        assert(prepend(classify(a.subrange(1, close)), tokens_spec(rest + b)) == prepend_all(
            seq![t],
            tokens_spec(rest + b),
        ));
    }
}

proof fn lemma_add_tokens_len(v: CostView, ts: Seq<Token>)
    ensures
        add_tokens(v, ts).counts.len() == v.counts.len(),
    decreases ts.len(),
{
    if ts.len() > 0 {
        lemma_add_tokens_len(v, ts.drop_last());
    }
}

/// Adding tokens to a cost adds their tally to it.
proof fn lemma_add_tokens_sum(v: CostView, ts: Seq<Token>)
    requires
        v.counts.len() == KINDS,
    ensures
        add_tokens(v, ts) == sum_costs(v, tally(ts)),
    decreases ts.len(),
{
    if ts.len() == 0 {
        assert(sum_costs(v, empty_view()).counts =~= v.counts);
    } else {
        let init = ts.drop_last();
        let t = ts.last();
        lemma_add_tokens_sum(v, init);
        lemma_add_tokens_len(empty_view(), init);
        let w = tally(init);
        let p = sum_costs(v, w);
        assert(generic_amount(p) == generic_amount(v) + generic_amount(w));
        assert(add_token(p, t).counts =~= sum_costs(v, add_token(w, t)).counts);
    }
}

/// Concatenating two texts that each parse adds their costs element-wise; the
/// result is `Overflow` only when the sum leaves the stored range.
pub proof fn lemma_parse_concat(a: Seq<char>, b: Seq<char>)
    requires
        parse_spec(a) is Ok,
        parse_spec(b) is Ok,
    ensures
        ({
            let sum = sum_costs(parse_spec(a)->Ok_0, parse_spec(b)->Ok_0);
            parse_spec(a + b) == if in_range(sum) {
                Ok::<CostView, Fault>(sum)
            } else {
                Err::<CostView, Fault>(Fault::Overflow)
            }
        }),
{
    let ta = tokens_spec(a)->Ok_0;
    let tb = tokens_spec(b)->Ok_0;
    lemma_tokens_append(a, b);
    assert(tokens_spec(a + b) == Ok::<Seq<Token>, Fault>(ta + tb));
    lemma_add_tokens_append(empty_view(), ta, tb);
    lemma_add_tokens_sum(tally(ta), tb);
}

} // verus!
