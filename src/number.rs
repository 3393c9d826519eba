use vstd::prelude::*;
use crate::digits::{decimal, push_decimal};

verus! {

/// A number in a number position (power, toughness, loyalty, defense): most
/// are integers, but `*`, `X` or `Y` can stand there too.
#[derive(Debug, Clone, Copy, PartialEq, Eq, Structural)]
pub enum Number {
    N(i32),
    Star,
    X,
    Y,
}

impl Number {
    /// The text of a number: the integer in decimal, with `-` when negative,
    /// or `*`, `X`, `Y`.
    pub open spec fn text_spec(self) -> Seq<char> {
        match self {
            Number::N(n) => if n < 0 {
                seq!['-'] + decimal((-n) as nat)
            } else {
                decimal(n as nat)
            },
            Number::Star => seq!['*'],
            Number::X => seq!['X'],
            Number::Y => seq!['Y'],
        }
    }

    /// The text form of the number.
    pub fn text(&self) -> (r: String)
        ensures
            r@ == self.text_spec(),
    {
        let mut out = String::new();
        match *self {
            Number::N(n) => {
                if n < 0 {
                    out.append("-");
                    proof {
                        reveal_strlit("-");
                    }
                    push_decimal(&mut out, (-(n as i64)) as u64);
                } else {
                    push_decimal(&mut out, n as u64);
                }
            },
            Number::Star => {
                out.append("*");
                proof {
                    reveal_strlit("*");
                }
            },
            Number::X => {
                out.append("X");
                proof {
                    reveal_strlit("X");
                }
            },
            Number::Y => {
                out.append("Y");
                proof {
                    reveal_strlit("Y");
                }
            },
        }
        proof {
            assert(out@ =~= self.text_spec());
        }
        out
    }
}

} // verus!
