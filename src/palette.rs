use vstd::prelude::*;
use crate::error::LayoutError;

verus! {

/// A color by its red, green and blue components.
#[derive(Clone, Copy, Debug, PartialEq, Eq, Structural)]
pub struct Color {
    pub r: u8,
    pub g: u8,
    pub b: u8,
}

/// The color written as `0xRRGGBB`.
pub open spec fn rgb(hex: int) -> Color {
    Color { r: (hex / 65536) as u8, g: ((hex / 256) % 256) as u8, b: (hex % 256) as u8 }
}

/// The ten colors of the d3 "category10" scheme, in order.
pub open spec fn category10_hex(i: int) -> int {
    if i == 0 { 0x1f77b4 }
    else if i == 1 { 0xff7f0e }
    else if i == 2 { 0x2ca02c }
    else if i == 3 { 0xd62728 }
    else if i == 4 { 0x9467bd }
    else if i == 5 { 0x8c564b }
    else if i == 6 { 0xe377c2 }
    else if i == 7 { 0x7f7f7f }
    else if i == 8 { 0xbcbd22 }
    else { 0x17becf }
}

/// The twenty colors of the Tableau 20 scheme, in order.
pub open spec fn tableau20_hex(i: int) -> int {
    if i == 0 { 0x1f77b4 }
    else if i == 1 { 0xaec7e8 }
    else if i == 2 { 0xff7f0e }
    else if i == 3 { 0xffbb78 }
    else if i == 4 { 0x2ca02c }
    else if i == 5 { 0x98df8a }
    else if i == 6 { 0xd62728 }
    else if i == 7 { 0xff9896 }
    else if i == 8 { 0x9467bd }
    else if i == 9 { 0xc5b0d5 }
    else if i == 10 { 0x8c564b }
    else if i == 11 { 0xc49c94 }
    else if i == 12 { 0xe377c2 }
    else if i == 13 { 0xf7b6d2 }
    else if i == 14 { 0x7f7f7f }
    else if i == 15 { 0xc7c7c7 }
    else if i == 16 { 0xbcbd22 }
    else if i == 17 { 0xdbdb8d }
    else if i == 18 { 0x17becf }
    else { 0x9edae5 }
}

/// The number of distinct colors used for `n` categories.
pub open spec fn palette_size(n: int) -> int {
    if n > 10 { 20 } else { 10 }
}

/// The color of category `i` out of `n`: the palette is walked cyclically.
pub open spec fn palette_color(n: int, i: int) -> Color {
    let k = i % palette_size(n);
    if n > 10 { rgb(tableau20_hex(k)) } else { rgb(category10_hex(k)) }
}

/// Relies on colorous::CATEGORY10: the ten colors of the category10 scheme.
#[verifier::external_body]
fn category10(i: usize) -> (c: Color)
    requires
        i < 10,
    ensures
        c == rgb(category10_hex(i as int)),
{
    let c = colorous::CATEGORY10[i];
    Color { r: c.r, g: c.g, b: c.b }
}

fn tableau20(i: usize) -> (c: Color)
    requires
        i < 20,
    ensures
        c == rgb(tableau20_hex(i as int)),
{
    let hex: u32 = if i == 0 { 0x1f77b4 }
        else if i == 1 { 0xaec7e8 }
        else if i == 2 { 0xff7f0e }
        else if i == 3 { 0xffbb78 }
        else if i == 4 { 0x2ca02c }
        else if i == 5 { 0x98df8a }
        else if i == 6 { 0xd62728 }
        else if i == 7 { 0xff9896 }
        else if i == 8 { 0x9467bd }
        else if i == 9 { 0xc5b0d5 }
        else if i == 10 { 0x8c564b }
        else if i == 11 { 0xc49c94 }
        else if i == 12 { 0xe377c2 }
        else if i == 13 { 0xf7b6d2 }
        else if i == 14 { 0x7f7f7f }
        else if i == 15 { 0xc7c7c7 }
        else if i == 16 { 0xbcbd22 }
        else if i == 17 { 0xdbdb8d }
        else if i == 18 { 0x17becf }
        else { 0x9edae5 };
    Color { r: (hex / 65536) as u8, g: ((hex / 256) % 256) as u8, b: (hex % 256) as u8 }
}

/// Assigns one color to each category, in order: ten colors for up to ten
/// categories, twenty beyond that, reused cyclically.
pub fn colors(vars: &Vec<String>) -> (r: Result<Vec<Color>, LayoutError>)
    ensures
        vars@.len() == 0 <==> r is Err,
        r is Err ==> r->Err_0 == LayoutError::ConfigError,
        r is Ok ==> r->Ok_0@ == Seq::new(vars@.len(), |i: int| palette_color(vars@.len() as int, i)),
{
    let n = vars.len();
    if n == 0 {
        return Err(LayoutError::ConfigError);
    }
    let mut out: Vec<Color> = Vec::new();
    let mut i: usize = 0;
    while i < n
        invariant
            i <= n,
            n == vars@.len(),
            out@ == Seq::new(i as nat, |j: int| palette_color(n as int, j)),
        decreases n - i,
    {
        let c = if n > 10 { tableau20(i % 20) } else { category10(i % 10) };
        out.push(c);
        proof {
            assert(out@ =~= Seq::new((i + 1) as nat, |j: int| palette_color(n as int, j)));
        }
        i = i + 1;
    }
    Ok(out)
}

/// Two category lists of the same length, equal ones in particular, receive
/// the same colors from `colors`.
pub proof fn lemma_colors_deterministic(a: Seq<String>, b: Seq<String>, ca: Seq<Color>, cb: Seq<Color>)
    requires
        a.len() == b.len(),
        ca == Seq::new(a.len(), |i: int| palette_color(a.len() as int, i)),
        cb == Seq::new(b.len(), |i: int| palette_color(b.len() as int, i)),
    ensures
        ca == cb,
{
}

/// The palette starts over exactly once its colors are used up: after ten
/// categories for lists of up to ten, after twenty beyond that.
pub proof fn lemma_palette_deterministic_and_cyclic(n: int, i: int)
    requires
        0 <= i,
        0 < n,
    ensures
        palette_color(n, i + palette_size(n)) == palette_color(n, i),
        n <= 10 ==> palette_color(n, i + 10) == palette_color(n, i),
        n > 10 ==> palette_color(n, i + 20) == palette_color(n, i),
{
    assert((i + palette_size(n)) % palette_size(n) == i % palette_size(n)) by (nonlinear_arith)
        requires palette_size(n) > 0;
}

} // verus!
