use vstd::prelude::*;
use mtg_color::ColorSet;
use crate::mana_cost::{static_value, ManaCost};
use crate::number::Number;

verus! {

#[verifier::external_type_specification]
#[verifier::external_body]
pub struct ExColorSet(ColorSet);

/// Relies on mtg_color's `ColorSet::symbols`: the letters of the set's colors
/// in canonical order, at most five of them.
pub assume_specification[ ColorSet::symbols ](c: &ColorSet) -> (r: &'static str)
    ensures
        r@.len() <= 5,
;

/// A card or other game object.
pub struct MtgObject {
    /// A card can have zero or more names.
    pub name: Vec<String>,
    /// A card may have zero or more mana costs.
    pub mana_cost: Vec<ManaCost>,
    pub color: ColorSet,
    pub color_identity: ColorSet,
    pub power: Option<Number>,
    pub pt: Option<(Number, Number)>,
    pub loyalty: Option<Number>,
    pub defense: Option<Number>,
    pub type_line: Vec<String>,
}

/// The names joined, ` // ` between each two.
pub open spec fn joined_names(names: Seq<Seq<char>>) -> Seq<char>
    decreases names.len(),
{
    if names.len() == 0 {
        Seq::empty()
    } else if names.len() == 1 {
        names[0]
    } else {
        joined_names(names.drop_last()) + seq![' ', '/', '/', ' '] + names.last()
    }
}

/// The sum of the static mana values of the first `n` costs.
pub open spec fn values_sum(costs: Seq<ManaCost>, n: int) -> int
    decreases n,
{
    if n <= 0 {
        0
    } else {
        values_sum(costs, n - 1) + static_value(costs[n - 1]@)
    }
}

impl MtgObject {
    /// The views of the names.
    pub open spec fn names(&self) -> Seq<Seq<char>> {
        self.name@.map_values(|s: String| s@)
    }

    /// All the names of the object; several names are separated by ` // `.
    pub fn print_name(&self) -> (r: String)
        ensures
            r@ == joined_names(self.names()),
    {
        let mut out = String::new();
        let mut i: usize = 0;
        while i < self.name.len()
            invariant
                i <= self.name.len(),
                out@ == joined_names(self.names().take(i as int)),
            decreases self.name.len() - i,
        {
            let ghost prev = self.names().take(i as int);
            if i > 0 {
                out.append(" // ");
                proof {
                    reveal_strlit(" // ");
                }
            }
            out.append(self.name[i].as_str());
            proof {
                let next = self.names().take(i + 1);
                assert(next.drop_last() =~= prev);
                if i == 0 {
                    assert(out@ =~= next[0]);
                } else {
                    assert(out@ =~= joined_names(prev) + seq![' ', '/', '/', ' '] + next.last());
                }
            }
            i = i + 1;
        }
        proof {
            assert(self.names().take(self.name.len() as int) =~= self.names());
        }
        out
    }

    /// The sum of the mana values of all mana costs.
    pub fn total_mana_value(&self) -> (r: i64)
        requires
            values_sum(self.mana_cost@, self.mana_cost.len() as int) <= i64::MAX,
        ensures
            r == values_sum(self.mana_cost@, self.mana_cost.len() as int),
    {
        let mut mv: i64 = 0;
        let mut i: usize = 0;
        while i < self.mana_cost.len()
            invariant
                i <= self.mana_cost.len(),
                mv == values_sum(self.mana_cost@, i as int),
                values_sum(self.mana_cost@, self.mana_cost.len() as int) <= i64::MAX,
            decreases self.mana_cost.len() - i,
        {
            let v = self.mana_cost[i].mana_value();
            proof {
                lemma_values_sum_le(self.mana_cost@, i + 1, self.mana_cost.len() as int);
                lemma_values_sum_nonneg(self.mana_cost@, i as int);
            }
            mv = mv + v;
            i = i + 1;
        }
        proof {
            lemma_values_sum_nonneg(self.mana_cost@, self.mana_cost.len() as int);
        }
        mv
    }

    /// The mana value of each mana cost, in order.
    pub fn mana_values(&self) -> (r: Vec<i64>)
        ensures
            r.len() == self.mana_cost.len(),
            forall|i: int| 0 <= i < r.len() ==> r@[i] == static_value(#[trigger] self.mana_cost@[i]@),
    {
        let mut out: Vec<i64> = Vec::new();
        let mut i: usize = 0;
        while i < self.mana_cost.len()
            invariant
                i <= self.mana_cost.len(),
                out.len() == i,
                forall|j: int| 0 <= j < i ==> out@[j] == static_value(#[trigger] self.mana_cost@[j]@),
            decreases self.mana_cost.len() - i,
        {
            out.push(self.mana_cost[i].mana_value());
            i = i + 1;
        }
        out
    }

    /// The letters of the object's colors.
    pub fn color(&self) -> &str {
        self.color.symbols()
    }

    /// The letters of the object's color identity.
    pub fn color_identity(&self) -> &str {
        self.color_identity.symbols()
    }
}

proof fn lemma_values_sum_nonneg(costs: Seq<ManaCost>, n: int)
    requires
        n <= costs.len(),
    ensures
        values_sum(costs, n) >= 0,
    decreases n,
{
    if n > 0 {
        lemma_values_sum_nonneg(costs, n - 1);
        crate::mana_cost::lemma_static_value_nonneg(costs[n - 1]@);
    }
}

proof fn lemma_values_sum_le(costs: Seq<ManaCost>, m: int, n: int)
    requires
        0 <= m <= n <= costs.len(),
    ensures
        values_sum(costs, m) <= values_sum(costs, n),
    decreases n - m,
{
    if m < n {
        lemma_values_sum_le(costs, m, n - 1);
        crate::mana_cost::lemma_static_value_nonneg(costs[n - 1]@);
    }
}

} // verus!
