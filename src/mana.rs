use vstd::prelude::*;

verus! {

/// Every kind of mana symbol. `Generic` stands for the numeric symbols; every
/// other kind is one fixed symbol.
#[derive(Debug, Copy, Clone, PartialEq, Eq, Structural, PartialOrd, Ord, Hash)]
pub enum Mana {
    Generic,
    White,
    Blue,
    Black,
    Red,
    Green,
    Colorless,
    Snow,
    // Variables
    X,
    Y,
    // Hybrid mana
    WU,
    WB,
    UB,
    UR,
    BR,
    BG,
    RG,
    RW,
    GW,
    GU,
    // Twobrid mana
    W2,
    U2,
    B2,
    R2,
    G2,
    // Onebrid mana
    WC,
    UC,
    BC,
    RC,
    GC,
}

/// Number of symbol kinds other than `Generic`.
pub const KINDS: usize = 29;

/// The kind of a one-letter code.
pub open spec fn single_kind(c: char) -> Option<Mana> {
    match c {
        'W' => Some(Mana::White),
        'U' => Some(Mana::Blue),
        'B' => Some(Mana::Black),
        'R' => Some(Mana::Red),
        'G' => Some(Mana::Green),
        'C' => Some(Mana::Colorless),
        'S' => Some(Mana::Snow),
        'X' => Some(Mana::X),
        'Y' => Some(Mana::Y),
        _ => None,
    }
}

/// The kind of a code `a/b`.
pub open spec fn pair_kind(a: char, b: char) -> Option<Mana> {
    match (a, b) {
        ('W', 'U') => Some(Mana::WU),
        ('W', 'B') => Some(Mana::WB),
        ('U', 'B') => Some(Mana::UB),
        ('U', 'R') => Some(Mana::UR),
        ('B', 'R') => Some(Mana::BR),
        ('B', 'G') => Some(Mana::BG),
        ('R', 'G') => Some(Mana::RG),
        ('R', 'W') => Some(Mana::RW),
        ('G', 'W') => Some(Mana::GW),
        ('G', 'U') => Some(Mana::GU),
        ('W', '2') => Some(Mana::W2),
        ('U', '2') => Some(Mana::U2),
        ('B', '2') => Some(Mana::B2),
        ('R', '2') => Some(Mana::R2),
        ('G', '2') => Some(Mana::G2),
        ('W', 'C') => Some(Mana::WC),
        ('U', 'C') => Some(Mana::UC),
        ('B', 'C') => Some(Mana::BC),
        ('R', 'C') => Some(Mana::RC),
        ('G', 'C') => Some(Mana::GC),
        _ => None,
    }
}

/// The symbol kind whose code is exactly `body` (the text between the
/// brackets), if any.
pub open spec fn kind_of_code(body: Seq<char>) -> Option<Mana> {
    if body.len() == 1 {
        single_kind(body[0])
    } else if body.len() == 3 && body[1] == '/' {
        pair_kind(body[0], body[2])
    } else {
        None
    }
}

/// The kind of a one-letter code.
pub fn single_kind_exec(c: char) -> (r: Option<Mana>)
    ensures
        r == single_kind(c),
{
    match c {
        'W' => Some(Mana::White),
        'U' => Some(Mana::Blue),
        'B' => Some(Mana::Black),
        'R' => Some(Mana::Red),
        'G' => Some(Mana::Green),
        'C' => Some(Mana::Colorless),
        'S' => Some(Mana::Snow),
        'X' => Some(Mana::X),
        'Y' => Some(Mana::Y),
        _ => None,
    }
}

/// The kind of a code `a/b`.
pub fn pair_kind_exec(a: char, b: char) -> (r: Option<Mana>)
    ensures
        r == pair_kind(a, b),
{
    match (a, b) {
        ('W', 'U') => Some(Mana::WU),
        ('W', 'B') => Some(Mana::WB),
        ('U', 'B') => Some(Mana::UB),
        ('U', 'R') => Some(Mana::UR),
        ('B', 'R') => Some(Mana::BR),
        ('B', 'G') => Some(Mana::BG),
        ('R', 'G') => Some(Mana::RG),
        ('R', 'W') => Some(Mana::RW),
        ('G', 'W') => Some(Mana::GW),
        ('G', 'U') => Some(Mana::GU),
        ('W', '2') => Some(Mana::W2),
        ('U', '2') => Some(Mana::U2),
        ('B', '2') => Some(Mana::B2),
        ('R', '2') => Some(Mana::R2),
        ('G', '2') => Some(Mana::G2),
        ('W', 'C') => Some(Mana::WC),
        ('U', 'C') => Some(Mana::UC),
        ('B', 'C') => Some(Mana::BC),
        ('R', 'C') => Some(Mana::RC),
        ('G', 'C') => Some(Mana::GC),
        _ => None,
    }
}

impl Mana {
    /// The code of a symbol kind: its text without the brackets. `Generic`
    /// has the placeholder `#`, which is never printed or parsed.
    pub open spec fn code(self) -> Seq<char> {
        match self {
            Mana::Generic => seq!['#'],
            Mana::White => seq!['W'],
            Mana::Blue => seq!['U'],
            Mana::Black => seq!['B'],
            Mana::Red => seq!['R'],
            Mana::Green => seq!['G'],
            Mana::Colorless => seq!['C'],
            Mana::Snow => seq!['S'],
            Mana::X => seq!['X'],
            Mana::Y => seq!['Y'],
            Mana::WU => seq!['W', '/', 'U'],
            Mana::WB => seq!['W', '/', 'B'],
            Mana::UB => seq!['U', '/', 'B'],
            Mana::UR => seq!['U', '/', 'R'],
            Mana::BR => seq!['B', '/', 'R'],
            Mana::BG => seq!['B', '/', 'G'],
            Mana::RG => seq!['R', '/', 'G'],
            Mana::RW => seq!['R', '/', 'W'],
            Mana::GW => seq!['G', '/', 'W'],
            Mana::GU => seq!['G', '/', 'U'],
            Mana::W2 => seq!['W', '/', '2'],
            Mana::U2 => seq!['U', '/', '2'],
            Mana::B2 => seq!['B', '/', '2'],
            Mana::R2 => seq!['R', '/', '2'],
            Mana::G2 => seq!['G', '/', '2'],
            Mana::WC => seq!['W', '/', 'C'],
            Mana::UC => seq!['U', '/', 'C'],
            Mana::BC => seq!['B', '/', 'C'],
            Mana::RC => seq!['R', '/', 'C'],
            Mana::GC => seq!['G', '/', 'C'],
        }
    }

    /// The bracketed text of a symbol kind, e.g. `{W}` or `{R/2}`.
    pub open spec fn text_spec(self) -> Seq<char> {
        seq!['{'] + self.code() + seq!['}']
    }

    /// What one occurrence of the kind adds to the static mana value.
    pub open spec fn value_spec(self) -> int {
        match self {
            Mana::W2 | Mana::U2 | Mana::B2 | Mana::R2 | Mana::G2 => 2,
            Mana::X | Mana::Y => 0,
            _ => 1,
        }
    }

    /// The position of a non-generic kind in the fixed order of kinds
    /// (the order of declaration), from 0 to `KINDS - 1`.
    pub open spec fn index_spec(self) -> int {
        match self {
            Mana::Generic => -1,
            Mana::White => 0,
            Mana::Blue => 1,
            Mana::Black => 2,
            Mana::Red => 3,
            Mana::Green => 4,
            Mana::Colorless => 5,
            Mana::Snow => 6,
            Mana::X => 7,
            Mana::Y => 8,
            Mana::WU => 9,
            Mana::WB => 10,
            Mana::UB => 11,
            Mana::UR => 12,
            Mana::BR => 13,
            Mana::BG => 14,
            Mana::RG => 15,
            Mana::RW => 16,
            Mana::GW => 17,
            Mana::GU => 18,
            Mana::W2 => 19,
            Mana::U2 => 20,
            Mana::B2 => 21,
            Mana::R2 => 22,
            Mana::G2 => 23,
            Mana::WC => 24,
            Mana::UC => 25,
            Mana::BC => 26,
            Mana::RC => 27,
            Mana::GC => 28,
        }
    }

    /// The non-generic kind at position `i` of the fixed order.
    pub open spec fn at_spec(i: int) -> Mana {
        if i == 0 { Mana::White }
        else if i == 1 { Mana::Blue }
        else if i == 2 { Mana::Black }
        else if i == 3 { Mana::Red }
        else if i == 4 { Mana::Green }
        else if i == 5 { Mana::Colorless }
        else if i == 6 { Mana::Snow }
        else if i == 7 { Mana::X }
        else if i == 8 { Mana::Y }
        else if i == 9 { Mana::WU }
        else if i == 10 { Mana::WB }
        else if i == 11 { Mana::UB }
        else if i == 12 { Mana::UR }
        else if i == 13 { Mana::BR }
        else if i == 14 { Mana::BG }
        else if i == 15 { Mana::RG }
        else if i == 16 { Mana::RW }
        else if i == 17 { Mana::GW }
        else if i == 18 { Mana::GU }
        else if i == 19 { Mana::W2 }
        else if i == 20 { Mana::U2 }
        else if i == 21 { Mana::B2 }
        else if i == 22 { Mana::R2 }
        else if i == 23 { Mana::G2 }
        else if i == 24 { Mana::WC }
        else if i == 25 { Mana::UC }
        else if i == 26 { Mana::BC }
        else if i == 27 { Mana::RC }
        else { Mana::GC }
    }

    /// The bracketed text of the kind; `{#}` for `Generic`, whose amount is
    /// printed by the cost itself.
    pub fn text(&self) -> (r: &'static str)
        ensures
            r@ == self.text_spec(),
    {
        match self {
            Mana::Generic => { proof { reveal_strlit("{#}"); } "{#}" },
            Mana::White => { proof { reveal_strlit("{W}"); } "{W}" },
            Mana::Blue => { proof { reveal_strlit("{U}"); } "{U}" },
            Mana::Black => { proof { reveal_strlit("{B}"); } "{B}" },
            Mana::Red => { proof { reveal_strlit("{R}"); } "{R}" },
            Mana::Green => { proof { reveal_strlit("{G}"); } "{G}" },
            Mana::Colorless => { proof { reveal_strlit("{C}"); } "{C}" },
            Mana::Snow => { proof { reveal_strlit("{S}"); } "{S}" },
            Mana::X => { proof { reveal_strlit("{X}"); } "{X}" },
            Mana::Y => { proof { reveal_strlit("{Y}"); } "{Y}" },
            Mana::WU => { proof { reveal_strlit("{W/U}"); } "{W/U}" },
            Mana::WB => { proof { reveal_strlit("{W/B}"); } "{W/B}" },
            Mana::UB => { proof { reveal_strlit("{U/B}"); } "{U/B}" },
            Mana::UR => { proof { reveal_strlit("{U/R}"); } "{U/R}" },
            Mana::BR => { proof { reveal_strlit("{B/R}"); } "{B/R}" },
            Mana::BG => { proof { reveal_strlit("{B/G}"); } "{B/G}" },
            Mana::RG => { proof { reveal_strlit("{R/G}"); } "{R/G}" },
            Mana::RW => { proof { reveal_strlit("{R/W}"); } "{R/W}" },
            Mana::GW => { proof { reveal_strlit("{G/W}"); } "{G/W}" },
            Mana::GU => { proof { reveal_strlit("{G/U}"); } "{G/U}" },
            Mana::W2 => { proof { reveal_strlit("{W/2}"); } "{W/2}" },
            Mana::U2 => { proof { reveal_strlit("{U/2}"); } "{U/2}" },
            Mana::B2 => { proof { reveal_strlit("{B/2}"); } "{B/2}" },
            Mana::R2 => { proof { reveal_strlit("{R/2}"); } "{R/2}" },
            Mana::G2 => { proof { reveal_strlit("{G/2}"); } "{G/2}" },
            Mana::WC => { proof { reveal_strlit("{W/C}"); } "{W/C}" },
            Mana::UC => { proof { reveal_strlit("{U/C}"); } "{U/C}" },
            Mana::BC => { proof { reveal_strlit("{B/C}"); } "{B/C}" },
            Mana::RC => { proof { reveal_strlit("{R/C}"); } "{R/C}" },
            Mana::GC => { proof { reveal_strlit("{G/C}"); } "{G/C}" },
        }
    }

    /// The position of a non-generic kind in the fixed order of kinds.
    pub fn index(&self) -> (r: usize)
        requires
            *self != Mana::Generic,
        ensures
            r == self.index_spec(),
            r < KINDS,
    {
        match self {
            Mana::Generic => 0,
            Mana::White => 0,
            Mana::Blue => 1,
            Mana::Black => 2,
            Mana::Red => 3,
            Mana::Green => 4,
            Mana::Colorless => 5,
            Mana::Snow => 6,
            Mana::X => 7,
            Mana::Y => 8,
            Mana::WU => 9,
            Mana::WB => 10,
            Mana::UB => 11,
            Mana::UR => 12,
            Mana::BR => 13,
            Mana::BG => 14,
            Mana::RG => 15,
            Mana::RW => 16,
            Mana::GW => 17,
            Mana::GU => 18,
            Mana::W2 => 19,
            Mana::U2 => 20,
            Mana::B2 => 21,
            Mana::R2 => 22,
            Mana::G2 => 23,
            Mana::WC => 24,
            Mana::UC => 25,
            Mana::BC => 26,
            Mana::RC => 27,
            Mana::GC => 28,
        }
    }

    /// The non-generic kind at position `i` of the fixed order.
    pub fn at(i: usize) -> (r: Mana)
        requires
            i < KINDS,
        ensures
            r == Mana::at_spec(i as int),
            r != Mana::Generic,
            r.index_spec() == i,
    {
        if i == 0 { Mana::White }
        else if i == 1 { Mana::Blue }
        else if i == 2 { Mana::Black }
        else if i == 3 { Mana::Red }
        else if i == 4 { Mana::Green }
        else if i == 5 { Mana::Colorless }
        else if i == 6 { Mana::Snow }
        else if i == 7 { Mana::X }
        else if i == 8 { Mana::Y }
        else if i == 9 { Mana::WU }
        else if i == 10 { Mana::WB }
        else if i == 11 { Mana::UB }
        else if i == 12 { Mana::UR }
        else if i == 13 { Mana::BR }
        else if i == 14 { Mana::BG }
        else if i == 15 { Mana::RG }
        else if i == 16 { Mana::RW }
        else if i == 17 { Mana::GW }
        else if i == 18 { Mana::GU }
        else if i == 19 { Mana::W2 }
        else if i == 20 { Mana::U2 }
        else if i == 21 { Mana::B2 }
        else if i == 22 { Mana::R2 }
        else if i == 23 { Mana::G2 }
        else if i == 24 { Mana::WC }
        else if i == 25 { Mana::UC }
        else if i == 26 { Mana::BC }
        else if i == 27 { Mana::RC }
        else { Mana::GC }
    }

    /// What one occurrence of the kind adds to the static mana value:
    /// 2 for the twobrids, 0 for `X` and `Y`, 1 for every other kind.
    pub fn value(&self) -> (r: i32)
        ensures
            r == self.value_spec(),
    {
        match self {
            Mana::W2 | Mana::U2 | Mana::B2 | Mana::R2 | Mana::G2 => 2,
            Mana::X | Mana::Y => 0,
            _ => 1,
        }
    }
}

} // verus!
