//! Textual rendering of fatty-acid identities: a compact form (carbon count
//! and number of unsaturated bonds) and a full form that also lists the bond
//! positions, both driven by a small set of separator and notation options.

use vstd::prelude::*;
use crate::fatty_acid::{FattyAcid, FattyAcidView, Unsaturated};

verus! {

/// Where the geometry mark stands relative to the bond position.
#[derive(Clone, Copy, Debug, PartialEq, Eq, Structural)]
pub enum Notation {
    Prefix,
    Suffix,
}

/// Whether cis geometry is written out or left implicit.
#[derive(Clone, Copy, Debug, PartialEq, Eq, Structural)]
pub enum Elision {
    Explicit,
    Implicit,
}

impl Default for Elision {
    fn default() -> (r: Self)
        ensures
            r == Elision::Implicit,
    {
        Elision::Implicit
    }
}

/// The separator strings of a rendering style: before the carbon count,
/// before the bond count, and around the bond positions (one opening the
/// list, one between entries).
#[derive(Clone, Copy, Debug)]
pub struct Separators {
    pub c: &'static str,
    pub u: &'static str,
    pub i: [&'static str; 2],
}

/// A rendering style.
#[derive(Clone, Copy, Debug)]
pub struct Options {
    pub separators: Separators,
    pub notation: Notation,
    pub elision: Elision,
}

impl Options {
    /// The identifier style: `c18u1c9`.
    pub fn id() -> (r: Options)
        ensures
            r.separators.c@ == "c"@,
            r.separators.u@ == "u"@,
            r.separators.i[0]@ == ""@,
            r.separators.i[1]@ == ""@,
            r.notation == Notation::Prefix,
            r.elision == Elision::Explicit,
    {
        Options {
            separators: Separators { c: "c", u: "u", i: ["", ""] },
            notation: Notation::Prefix,
            elision: Elision::Explicit,
        }
    }

    /// The common style: `18:1Δ9`.
    pub fn common() -> (r: Options)
        ensures
            r.separators.c@ == ""@,
            r.separators.u@ == ":"@,
            r.separators.i[0]@ == "\u{0394}"@,
            r.separators.i[1]@ == ","@,
            r.notation == Notation::Suffix,
            r.elision == Elision::Implicit,
    {
        Options {
            separators: Separators { c: "", u: ":", i: ["\u{0394}", ","] },
            notation: Notation::Suffix,
            elision: Elision::Implicit,
        }
    }
}

/// A fatty acid paired with the style to render it in.
#[derive(Clone, Debug)]
pub struct Display<T> {
    pub fatty_acid: T,
    pub options: Options,
}

impl<T> Display<T> {
    /// Pairs a fatty acid with a rendering style.
    pub fn new(fatty_acid: T, options: Options) -> (r: Self)
        ensures
            r.fatty_acid == fatty_acid,
            r.options == options,
    {
        Self { fatty_acid, options }
    }
}

/// Rendering a value in a given style.
pub trait DisplayWithOptions where Self: Sized {
    fn display(&self, options: Options) -> (r: Display<&Self>)
        ensures
            r.fatty_acid == self,
            r.options == options,
    ;
}

impl DisplayWithOptions for FattyAcid {
    fn display(&self, options: Options) -> (r: Display<&FattyAcid>) {
        Display::new(self, options)
    }
}

/// The decimal digit character of a value below ten.
pub open spec fn digit_char(d: int) -> char {
    if d == 0 {
        '0'
    } else if d == 1 {
        '1'
    } else if d == 2 {
        '2'
    } else if d == 3 {
        '3'
    } else if d == 4 {
        '4'
    } else if d == 5 {
        '5'
    } else if d == 6 {
        '6'
    } else if d == 7 {
        '7'
    } else if d == 8 {
        '8'
    } else {
        '9'
    }
}

/// The decimal digits of a nonnegative value, most significant first.
pub open spec fn dec_digits(n: int) -> Seq<char>
    decreases n,
{
    if n < 10 {
        seq![digit_char(n)]
    } else {
        dec_digits(n / 10) + seq![digit_char(n % 10)]
    }
}

fn digit_str(d: u8) -> (r: &'static str)
    requires
        d < 10,
    ensures
        r@ == seq![digit_char(d as int)],
{
    proof {
        reveal_strlit("0");
        reveal_strlit("1");
        reveal_strlit("2");
        reveal_strlit("3");
        reveal_strlit("4");
        reveal_strlit("5");
        reveal_strlit("6");
        reveal_strlit("7");
        reveal_strlit("8");
        reveal_strlit("9");
    }
    let r: &'static str = match d {
        0u8 => "0",
        1u8 => "1",
        2u8 => "2",
        3u8 => "3",
        4u8 => "4",
        5u8 => "5",
        6u8 => "6",
        7u8 => "7",
        8u8 => "8",
        _ => "9",
    };
    proof {
        assert(r@ =~= seq![digit_char(d as int)]);
    }
    r
}

/// Appends the decimal digits of a value to a string.
fn push_decimal(s: &mut String, n: usize)
    requires
        n <= 255,
    ensures
        final(s)@ == old(s)@ + dec_digits(n as int),
{
    let ghost expected = dec_digits(n as int);
    proof {
        reveal_with_fuel(dec_digits, 5);
    }
    if n >= 100 {
        let h = (n / 100) as u8;
        let t = ((n / 10) % 10) as u8;
        let o = (n % 10) as u8;
        proof {
            vstd::arithmetic::div_mod::lemma_div_denominator(n as int, 10, 10);
            assert(expected =~= seq![
                digit_char(h as int),
                digit_char(t as int),
                digit_char(o as int),
            ]);
        }
        s.append(digit_str(h));
        s.append(digit_str(t));
        s.append(digit_str(o));
        proof {
            assert(final(s)@ =~= old(s)@ + expected);
        }
    } else if n >= 10 {
        let t = (n / 10) as u8;
        let o = (n % 10) as u8;
        proof {
            assert(expected =~= seq![digit_char(t as int), digit_char(o as int)]);
        }
        s.append(digit_str(t));
        s.append(digit_str(o));
        proof {
            assert(final(s)@ =~= old(s)@ + expected);
        }
    } else {
        let o = n as u8;
        proof {
            assert(expected =~= seq![digit_char(o as int)]);
        }
        s.append(digit_str(o));
        proof {
            assert(final(s)@ =~= old(s)@ + expected);
        }
    }
}

/// The compact rendering: the carbon separator and count, then the bond
/// separator and the number of unsaturation descriptors.
pub open spec fn spec_render(fa: FattyAcidView, o: Options) -> Seq<char> {
    o.separators.c@ + dec_digits(fa.carbons as int) + o.separators.u@ + dec_digits(
        fa.unsaturated.len() as int,
    )
}

/// The position list of the full rendering: the opening separator before the
/// first known position, the in-between separator before every later entry,
/// and each known position in decimal.
pub open spec fn spec_render_positions(s: Seq<Unsaturated>, o: Options) -> Seq<char>
    decreases s.len(),
{
    if s.len() == 0 {
        Seq::<char>::empty()
    } else {
        (match s.first().index {
            Some(p) => o.separators.i[0]@ + dec_digits(p as int),
            None => Seq::<char>::empty(),
        }) + spec_render_rest(s.drop_first(), o)
    }
}

/// The later entries of the position list: each preceded by the in-between
/// separator, its position written only when known.
pub open spec fn spec_render_rest(s: Seq<Unsaturated>, o: Options) -> Seq<char>
    decreases s.len(),
{
    if s.len() == 0 {
        Seq::<char>::empty()
    } else {
        o.separators.i[1]@ + (match s.first().index {
            Some(p) => dec_digits(p as int),
            None => Seq::<char>::empty(),
        }) + spec_render_rest(s.drop_first(), o)
    }
}

impl<'a> Display<&'a FattyAcid> {
    /// Renders the compact form, for example `18:1` in the common style or
    /// `c18u1` in the identifier style.
    pub fn render(&self) -> (r: String)
        ensures
            r@ == spec_render(self.fatty_acid@, self.options),
    {
        let mut s = String::new();
        s.append(self.options.separators.c);
        push_decimal(&mut s, self.fatty_acid.carbons as usize);
        s.append(self.options.separators.u);
        let count = self.fatty_acid.unsaturated.len();
        if count > 255 {
            push_decimal_large(&mut s, count);
        } else {
            push_decimal(&mut s, count);
        }
        proof {
            assert(s@ =~= spec_render(self.fatty_acid@, self.options));
        }
        s
    }

    /// Renders the full form, which also lists the known bond positions, for
    /// example `18:2Δ9,12` in the common style.
    pub fn render_full(&self) -> (r: String)
        ensures
            r@ == spec_render(self.fatty_acid@, self.options) + spec_render_positions(
                self.fatty_acid@.unsaturated,
                self.options,
            ),
    {
        let mut s = self.render();
        let us = &self.fatty_acid.unsaturated;
        let ghost whole = spec_render_positions(self.fatty_acid@.unsaturated, self.options);
        if us.len() > 0 {
            match us[0].index {
                Some(p) => {
                    s.append(self.options.separators.i[0]);
                    push_decimal(&mut s, p as usize);
                },
                None => {},
            }
            let mut k: usize = 1;
            proof {
                assert(us@.drop_first() =~= us@.skip(1));
                assert(s@ + spec_render_rest(us@.skip(1), self.options) =~= spec_render(
                    self.fatty_acid@,
                    self.options,
                ) + whole);
            }
            while k < us.len()
                invariant
                    1 <= k <= us@.len(),
                    us@ == self.fatty_acid@.unsaturated,
                    whole == spec_render_positions(self.fatty_acid@.unsaturated, self.options),
                    s@ + spec_render_rest(us@.skip(k as int), self.options) == spec_render(
                        self.fatty_acid@,
                        self.options,
                    ) + whole,
                decreases us@.len() - k,
            {
                proof {
                    assert(us@.skip(k as int).first() == us@[k as int]);
                    assert(us@.skip(k as int).drop_first() =~= us@.skip(k as int + 1));
                }
                s.append(self.options.separators.i[1]);
                match us[k].index {
                    Some(p) => {
                        push_decimal(&mut s, p as usize);
                    },
                    None => {},
                }
                proof {
                    assert(s@ + spec_render_rest(us@.skip(k as int + 1), self.options)
                        =~= spec_render(self.fatty_acid@, self.options) + whole);
                }
                k = k + 1;
            }
            proof {
                assert(us@.skip(us@.len() as int) =~= Seq::<Unsaturated>::empty());
                assert(s@ =~= spec_render(self.fatty_acid@, self.options) + whole);
            }
        } else {
            proof {
                assert(whole =~= Seq::<char>::empty());
                assert(s@ =~= spec_render(self.fatty_acid@, self.options) + whole);
            }
        }
        s
    }
}

/// Appends the decimal digits of a large count to a string.
fn push_decimal_large(s: &mut String, n: usize)
    ensures
        final(s)@ == old(s)@ + dec_digits(n as int),
    decreases n,
{
    if n < 10 {
        s.append(digit_str(n as u8));
        proof {
            assert(final(s)@ =~= old(s)@ + dec_digits(n as int));
        }
    } else {
        push_decimal_large(s, n / 10);
        s.append(digit_str((n % 10) as u8));
        proof {
            assert(final(s)@ =~= old(s)@ + dec_digits(n as int));
        }
    }
}

} // verus!
