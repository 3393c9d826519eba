use vstd::prelude::*;
use crate::digits::{decimal, push_decimal};
use crate::mana::Mana;
use crate::mana_cost::repeat;

verus! {

/// A mana symbol with its multiplicity, or for `Generic` its amount.
#[derive(Debug, Copy, Clone, PartialEq, Eq, Structural)]
pub enum ManaSymbol {
    Generic(usize),
    White(usize),
    Blue(usize),
    Black(usize),
    Red(usize),
    Green(usize),
    Colorless(usize),
    Snow(usize),
    // Variables
    X(usize),
    Y(usize),
    // Hybrid mana
    WU(usize),
    WB(usize),
    UB(usize),
    UR(usize),
    BR(usize),
    BG(usize),
    RG(usize),
    RW(usize),
    GW(usize),
    GU(usize),
    // Twobrid mana
    W2(usize),
    U2(usize),
    B2(usize),
    R2(usize),
    G2(usize),
    // Onebrid mana
    WC(usize),
    UC(usize),
    BC(usize),
    RC(usize),
    GC(usize),
}

impl ManaSymbol {
    /// The kind of the symbol and its multiplicity (its amount for `Generic`).
    pub open spec fn parts(self) -> (Mana, nat) {
        match self {
            ManaSymbol::Generic(n) => (Mana::Generic, n as nat),
            ManaSymbol::White(n) => (Mana::White, n as nat),
            ManaSymbol::Blue(n) => (Mana::Blue, n as nat),
            ManaSymbol::Black(n) => (Mana::Black, n as nat),
            ManaSymbol::Red(n) => (Mana::Red, n as nat),
            ManaSymbol::Green(n) => (Mana::Green, n as nat),
            ManaSymbol::Colorless(n) => (Mana::Colorless, n as nat),
            ManaSymbol::Snow(n) => (Mana::Snow, n as nat),
            ManaSymbol::X(n) => (Mana::X, n as nat),
            ManaSymbol::Y(n) => (Mana::Y, n as nat),
            ManaSymbol::WU(n) => (Mana::WU, n as nat),
            ManaSymbol::WB(n) => (Mana::WB, n as nat),
            ManaSymbol::UB(n) => (Mana::UB, n as nat),
            ManaSymbol::UR(n) => (Mana::UR, n as nat),
            ManaSymbol::BR(n) => (Mana::BR, n as nat),
            ManaSymbol::BG(n) => (Mana::BG, n as nat),
            ManaSymbol::RG(n) => (Mana::RG, n as nat),
            ManaSymbol::RW(n) => (Mana::RW, n as nat),
            ManaSymbol::GW(n) => (Mana::GW, n as nat),
            ManaSymbol::GU(n) => (Mana::GU, n as nat),
            ManaSymbol::W2(n) => (Mana::W2, n as nat),
            ManaSymbol::U2(n) => (Mana::U2, n as nat),
            ManaSymbol::B2(n) => (Mana::B2, n as nat),
            ManaSymbol::R2(n) => (Mana::R2, n as nat),
            ManaSymbol::G2(n) => (Mana::G2, n as nat),
            ManaSymbol::WC(n) => (Mana::WC, n as nat),
            ManaSymbol::UC(n) => (Mana::UC, n as nat),
            ManaSymbol::BC(n) => (Mana::BC, n as nat),
            ManaSymbol::RC(n) => (Mana::RC, n as nat),
            ManaSymbol::GC(n) => (Mana::GC, n as nat),
        }
    }

    /// The text of the symbol: `{N}` for a generic amount `N`, else the
    /// kind's text repeated by the multiplicity.
    pub open spec fn symbol_spec(self) -> Seq<char> {
        let (m, n) = self.parts();
        if m == Mana::Generic {
            seq!['{'] + decimal(n) + seq!['}']
        } else {
            repeat(m.text_spec(), n)
        }
    }

    fn parts_exec(&self) -> (r: (Mana, usize))
        ensures
            r.0 == self.parts().0,
            r.1 == self.parts().1,
    {
        match *self {
            ManaSymbol::Generic(n) => (Mana::Generic, n),
            ManaSymbol::White(n) => (Mana::White, n),
            ManaSymbol::Blue(n) => (Mana::Blue, n),
            ManaSymbol::Black(n) => (Mana::Black, n),
            ManaSymbol::Red(n) => (Mana::Red, n),
            ManaSymbol::Green(n) => (Mana::Green, n),
            ManaSymbol::Colorless(n) => (Mana::Colorless, n),
            ManaSymbol::Snow(n) => (Mana::Snow, n),
            ManaSymbol::X(n) => (Mana::X, n),
            ManaSymbol::Y(n) => (Mana::Y, n),
            ManaSymbol::WU(n) => (Mana::WU, n),
            ManaSymbol::WB(n) => (Mana::WB, n),
            ManaSymbol::UB(n) => (Mana::UB, n),
            ManaSymbol::UR(n) => (Mana::UR, n),
            ManaSymbol::BR(n) => (Mana::BR, n),
            ManaSymbol::BG(n) => (Mana::BG, n),
            ManaSymbol::RG(n) => (Mana::RG, n),
            ManaSymbol::RW(n) => (Mana::RW, n),
            ManaSymbol::GW(n) => (Mana::GW, n),
            ManaSymbol::GU(n) => (Mana::GU, n),
            ManaSymbol::W2(n) => (Mana::W2, n),
            ManaSymbol::U2(n) => (Mana::U2, n),
            ManaSymbol::B2(n) => (Mana::B2, n),
            ManaSymbol::R2(n) => (Mana::R2, n),
            ManaSymbol::G2(n) => (Mana::G2, n),
            ManaSymbol::WC(n) => (Mana::WC, n),
            ManaSymbol::UC(n) => (Mana::UC, n),
            ManaSymbol::BC(n) => (Mana::BC, n),
            ManaSymbol::RC(n) => (Mana::RC, n),
            ManaSymbol::GC(n) => (Mana::GC, n),
        }
    }

    /// The text form of the symbol.
    pub fn symbol(&self) -> (r: String)
        ensures
            r@ == self.symbol_spec(),
    {
        let (m, n) = self.parts_exec();
        let mut out = String::new();
        if m == Mana::Generic {
            out.append("{");
            push_decimal(&mut out, n as u64);
            out.append("}");
            proof {
                reveal_strlit("{");
                reveal_strlit("}");
                assert(out@ =~= self.symbol_spec());
            }
        } else {
            let t = m.text();
            let mut j: usize = 0;
            while j < n
                invariant
                    j <= n,
                    out@ == repeat(t@, j as nat),
                decreases n - j,
            {
                out.append(t);
                j = j + 1;
                assert(out@ =~= repeat(t@, j as nat));
            }
        }
        out
    }
}

} // verus!
