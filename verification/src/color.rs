//! The color law: a normalized escape value is mapped onto an ordered list
//! of gradient stops, evenly spaced over `[0, 1]` and linearly interpolated.

use vstd::arithmetic::div_mod::{
    lemma_div_is_ordered, lemma_fundamental_div_mod, lemma_fundamental_div_mod_converse,
};
use vstd::prelude::*;

verus! {

/// A color with one byte for each of red, green and blue.
#[derive(Clone, Copy, Debug, PartialEq, Eq, Structural)]
pub struct Rgb {
    pub red: u8,
    pub green: u8,
    pub blue: u8,
}

/// The channel value `r / den` of the way from `a` to `b`, rounded down.
pub open spec fn lerp(a: int, b: int, r: int, den: int) -> int {
    (a * (den - r) + b * r) / den
}

/// The color `r / den` of the way from `a` to `b`, channel by channel.
pub open spec fn mix(a: Rgb, b: Rgb, r: int, den: int) -> Rgb {
    Rgb {
        red: lerp(a.red as int, b.red as int, r, den) as u8,
        green: lerp(a.green as int, b.green as int, r, den) as u8,
        blue: lerp(a.blue as int, b.blue as int, r, den) as u8,
    }
}

/// The color of the gradient through `stops` at the position `num / den`.
///
/// The stops sit at `0, 1/(n-1), 2/(n-1), .., 1`. A position at or beyond
/// the last stop takes the last stop's color.
pub open spec fn gradient_color(stops: Seq<Rgb>, num: int, den: int) -> Rgb {
    let last = stops.len() - 1;
    let pos = num * last;
    if pos / den >= last {
        stops[last]
    } else {
        mix(stops[pos / den], stops[pos / den + 1], pos % den, den)
    }
}

/// A channel interpolated between two bytes is a byte between them.
pub proof fn lemma_lerp_between(a: int, b: int, r: int, den: int)
    requires
        0 <= a <= 255,
        0 <= b <= 255,
        0 <= r < den,
    ensures
        0 <= lerp(a, b, r, den) <= 255,
        a <= b ==> a <= lerp(a, b, r, den) <= b,
        b <= a ==> b <= lerp(a, b, r, den) <= a,
        r == 0 ==> lerp(a, b, r, den) == a,
{
    let lo = if a <= b { a } else { b };
    let hi = if a <= b { b } else { a };
    let v = a * (den - r) + b * r;
    assert(lo * den <= v <= hi * den) by (nonlinear_arith)
        requires
            lo <= a <= hi,
            lo <= b <= hi,
            0 <= r < den,
            v == a * (den - r) + b * r,
    ;
    lemma_div_is_ordered(lo * den, v, den);
    lemma_div_is_ordered(v, hi * den, den);
    lemma_fundamental_div_mod_converse(lo * den, den, lo, 0);
    lemma_fundamental_div_mod_converse(hi * den, den, hi, 0);
    if r == 0 {
        assert(v == a * den) by (nonlinear_arith)
            requires
                v == a * (den - r) + b * r,
                r == 0,
        ;
        lemma_fundamental_div_mod_converse(v, den, a, 0);
    }
}

/// The gradient starts at its first stop and ends at its last one.
pub proof fn lemma_gradient_endpoints(stops: Seq<Rgb>, den: int)
    requires
        stops.len() >= 2,
        den > 0,
    ensures
        gradient_color(stops, 0, den) == stops[0],
        gradient_color(stops, den, den) == stops[stops.len() - 1],
{
    let last = stops.len() - 1;
    assert(0 * last == 0);
    lemma_fundamental_div_mod_converse(0, den, 0, 0);
    lemma_lerp_between(stops[0].red as int, stops[1].red as int, 0, den);
    lemma_lerp_between(stops[0].green as int, stops[1].green as int, 0, den);
    lemma_lerp_between(stops[0].blue as int, stops[1].blue as int, 0, den);
    assert(den * last == last * den) by (nonlinear_arith);
    lemma_fundamental_div_mod_converse(den * last, den, last, 0);
}

/// The stops black, blue, magenta, red.
pub open spec fn heat_stops() -> Seq<Rgb> {
    seq![
        (Rgb { red: 0, green: 0, blue: 0 }),
        (Rgb { red: 0, green: 0, blue: 255 }),
        (Rgb { red: 255, green: 0, blue: 255 }),
        (Rgb { red: 255, green: 0, blue: 0 }),
    ]
}

/// The stops black, blue, magenta, red, white.
pub open spec fn heat_to_white_stops() -> Seq<Rgb> {
    seq![
        (Rgb { red: 0, green: 0, blue: 0 }),
        (Rgb { red: 0, green: 0, blue: 255 }),
        (Rgb { red: 255, green: 0, blue: 255 }),
        (Rgb { red: 255, green: 0, blue: 0 }),
        (Rgb { red: 255, green: 255, blue: 255 }),
    ]
}

/// An ordered list of at least two gradient stops.
pub struct ColorMapper {
    stops: Vec<Rgb>,
}

impl View for ColorMapper {
    type V = Seq<Rgb>;

    closed spec fn view(&self) -> Seq<Rgb> {
        self.stops@
    }
}

impl ColorMapper {
    /// Every mapper holds at least two stops.
    #[verifier::type_invariant]
    spec fn at_least_two_stops(self) -> bool {
        self.stops@.len() >= 2
    }

    /// Builds a mapper from `stops`, or nothing if there are fewer than two.
    pub fn new(stops: Vec<Rgb>) -> (out: Option<ColorMapper>)
        ensures
            out is Some <==> stops@.len() >= 2,
            out matches Some(m) ==> m@ == stops@,
    {
        if stops.len() >= 2 {
            Some(ColorMapper { stops })
        } else {
            None
        }
    }

    /// Black, blue, magenta, red: the gradient of the tiles on screen.
    pub fn heat() -> (out: ColorMapper)
        ensures
            out@ == heat_stops(),
    {
        let stops = vec![
            Rgb { red: 0, green: 0, blue: 0 },
            Rgb { red: 0, green: 0, blue: 255 },
            Rgb { red: 255, green: 0, blue: 255 },
            Rgb { red: 255, green: 0, blue: 0 },
        ];
        ColorMapper { stops }
    }

    /// Black, blue, magenta, red, white: points that never escape come out
    /// white.
    pub fn heat_to_white() -> (out: ColorMapper)
        ensures
            out@ == heat_to_white_stops(),
    {
        let stops = vec![
            Rgb { red: 0, green: 0, blue: 0 },
            Rgb { red: 0, green: 0, blue: 255 },
            Rgb { red: 255, green: 0, blue: 255 },
            Rgb { red: 255, green: 0, blue: 0 },
            Rgb { red: 255, green: 255, blue: 255 },
        ];
        ColorMapper { stops }
    }

    /// The number of stops.
    pub fn len(&self) -> (n: usize)
        ensures
            n == self@.len(),
            n >= 2,
    {
        proof {
            use_type_invariant(self);
        }
        self.stops.len()
    }

    /// The stop at `index`.
    pub fn stop(&self, index: usize) -> (out: Rgb)
        requires
            index < self@.len(),
        ensures
            out == self@[index as int],
    {
        self.stops[index]
    }

    /// The color for the normalized value `num / den`.
    ///
    /// Zero gives the first stop and one the last; a value above one is
    /// taken as one.
    pub fn color_for(&self, num: u64, den: u64) -> (out: Rgb)
        requires
            den > 0,
        ensures
            self@.len() >= 2,
            out == gradient_color(self@, num as int, den as int),
            num == 0 ==> out == self@[0],
            num >= den ==> out == self@[self@.len() - 1],
    {
        proof {
            use_type_invariant(self);
        }
        let last: usize = self.stops.len() - 1;
        assert(0 <= num * last <= 0xffff_ffff_ffff_ffff * 0xffff_ffff_ffff_ffff) by (nonlinear_arith)
            requires
                0 <= num <= 0xffff_ffff_ffff_ffff,
                0 <= last <= 0xffff_ffff_ffff_ffff,
        ;
        let pos: u128 = (num as u128) * (last as u128);
        let index: u128 = pos / (den as u128);
        let rem: u128 = pos % (den as u128);
        proof {
            lemma_fundamental_div_mod(pos as int, den as int);
            lemma_gradient_endpoints(self@, den as int);
            if num >= den {
                assert(num * last >= den * last) by (nonlinear_arith)
                    requires
                        num >= den,
                        last >= 0,
                ;
                assert(den * last == last * den) by (nonlinear_arith);
                lemma_fundamental_div_mod_converse(den * last, den as int, last as int, 0);
                lemma_div_is_ordered(den * last, pos as int, den as int);
            }
        }
        if index >= last as u128 {
            self.stops[last]
        } else {
            let from: Rgb = self.stops[index as usize];
            let to: Rgb = self.stops[index as usize + 1];
            Rgb {
                red: blend(from.red, to.red, rem, den),
                green: blend(from.green, to.green, rem, den),
                blue: blend(from.blue, to.blue, rem, den),
            }
        }
    }
}

/// One channel of [`mix`].
fn blend(a: u8, b: u8, rem: u128, den: u64) -> (out: u8)
    requires
        rem < den,
    ensures
        out == lerp(a as int, b as int, rem as int, den as int),
{
    proof {
        lemma_lerp_between(a as int, b as int, rem as int, den as int);
    }
    assert(0 <= a * (den - rem) <= 255 * 0xffff_ffff_ffff_ffff && 0 <= b * rem <= 255
        * 0xffff_ffff_ffff_ffff) by (nonlinear_arith)
        requires
            0 <= a <= 255,
            0 <= b <= 255,
            0 <= rem < den <= 0xffff_ffff_ffff_ffff,
    ;
    let weighted: u128 = (a as u128) * ((den as u128) - rem) + (b as u128) * rem;
    (weighted / (den as u128)) as u8
}

} // verus!
