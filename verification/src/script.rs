//! Byte-exact assembly of the visualization script.
//!
//! The computed field is visualized by a plain-text script: three fixed
//! scene-loading directives, one "draw arrow" directive per sampled grid
//! point, and three fixed trailing directives. Downstream tooling consumes
//! the script byte for byte, so every directive is specified here down to the
//! character. The numeric text for diameters and endpoints is handed in by
//! the caller (it comes from floating-point values); the arrow index, the
//! directive layout and the whole-script concatenation are verified.
//!
//! `sample_indices` gives the coarsened lattice the arrows are drawn on: the
//! grid is walked with a fixed stride along all three axes, in the same
//! row-major order as the solver, and the arrow index is exactly the position
//! in that enumeration.

use vstd::prelude::*;

verus! {

use vstd::string::StringExecFns;
use crate::index::{axis_i, axis_j, axis_l, flat_index, lemma_flat_index};

/// The fixed stride of the coarsened sampling lattice along every axis.
pub const SAMPLE_STRIDE: usize = 3;

/// The character for one decimal digit.
pub open spec fn digit_char(d: nat) -> char {
    if d == 0 {
        '0'
    } else if d == 1 {
        '1'
    } else if d == 2 {
        '2'
    } else if d == 3 {
        '3'
    } else if d == 4 {
        '4'
    } else if d == 5 {
        '5'
    } else if d == 6 {
        '6'
    } else if d == 7 {
        '7'
    } else if d == 8 {
        '8'
    } else {
        '9'
    }
}

/// The decimal digit string of v, most significant digit first, with no sign
/// and no leading zero (a single zero digit for v == 0).
pub open spec fn dec_digits(v: nat) -> Seq<char>
    decreases v,
{
    if v < 10 {
        seq![digit_char(v)]
    } else {
        dec_digits(v / 10).push(digit_char(v % 10))
    }
}

/// The one-character string for a single decimal digit.
fn digit_str(d: usize) -> (r: &'static str)
    requires
        d < 10,
    ensures
        r@.len() == 1,
        r@[0] == digit_char(d as nat),
{
    if d == 0 {
        proof {
            reveal_strlit("0");
        }
        "0"
    } else if d == 1 {
        proof {
            reveal_strlit("1");
        }
        "1"
    } else if d == 2 {
        proof {
            reveal_strlit("2");
        }
        "2"
    } else if d == 3 {
        proof {
            reveal_strlit("3");
        }
        "3"
    } else if d == 4 {
        proof {
            reveal_strlit("4");
        }
        "4"
    } else if d == 5 {
        proof {
            reveal_strlit("5");
        }
        "5"
    } else if d == 6 {
        proof {
            reveal_strlit("6");
        }
        "6"
    } else if d == 7 {
        proof {
            reveal_strlit("7");
        }
        "7"
    } else if d == 8 {
        proof {
            reveal_strlit("8");
        }
        "8"
    } else {
        proof {
            reveal_strlit("9");
        }
        "9"
    }
}

/// Renders an unsigned number as its decimal digit string.
pub fn to_decimal(v: usize) -> (r: String)
    ensures
        r@ == dec_digits(v as nat),
    decreases v,
{
    if v < 10 {
        let r = String::from_str(digit_str(v));
        proof {
            assert(r@ =~= dec_digits(v as nat));
        }
        r
    } else {
        let mut r = to_decimal(v / 10);
        r.append(digit_str(v % 10));
        proof {
            assert(r@ =~= dec_digits(v as nat));
        }
        r
    }
}

/// The text of one "draw arrow" directive: fixed red color, the given
/// diameter text, and the two given 3-D endpoints, each coordinate given as
/// text, followed by a newline.
pub open spec fn arrow_line_spec(
    idx: nat,
    diameter: Seq<char>,
    x1: Seq<char>,
    y1: Seq<char>,
    z1: Seq<char>,
    x2: Seq<char>,
    y2: Seq<char>,
    z2: Seq<char>,
) -> Seq<char> {
    "draw arrow"@ + dec_digits(idx) + " arrow color [1,0,0] diameter "@ + diameter + " { "@ + x1
        + ","@ + y1 + ","@ + z1 + " } { "@ + x2 + ","@ + y2 + ","@ + z2 + " }\n"@
}

/// Builds one "draw arrow" directive, character-exact.
pub fn arrow_line(
    idx: usize,
    diameter: &str,
    x1: &str,
    y1: &str,
    z1: &str,
    x2: &str,
    y2: &str,
    z2: &str,
) -> (r: String)
    ensures
        r@ == arrow_line_spec(idx as nat, diameter@, x1@, y1@, z1@, x2@, y2@, z2@),
{
    let mut r = String::from_str("draw arrow");
    let num = to_decimal(idx);
    r.append(num.as_str());
    r.append(" arrow color [1,0,0] diameter ");
    r.append(diameter);
    r.append(" { ");
    r.append(x1);
    r.append(",");
    r.append(y1);
    r.append(",");
    r.append(z1);
    r.append(" } { ");
    r.append(x2);
    r.append(",");
    r.append(y2);
    r.append(",");
    r.append(z2);
    r.append(" }\n");
    proof {
        assert(r@ =~= arrow_line_spec(idx as nat, diameter@, x1@, y1@, z1@, x2@, y2@, z2@));
    }
    r
}

/// The three fixed scene-loading directives that open every script.
pub open spec fn header_spec() -> Seq<char> {
    "load \"file:$SCRIPT_PATH$/central_region.xyz\" \n"@
        + "write \"$SCRIPT_PATH$/central_region2.xyz\" \n"@
        + "load \"file:$SCRIPT_PATH$/central_region2.xyz\" \n"@
}

/// The three fixed trailing directives that close every script.
pub open spec fn footer_spec() -> Seq<char> {
    "set defaultdrawarrowscale 0.1 \n"@ + "rotate 90 \n"@ + "background white \n"@
}

/// The views of a vector of directive lines.
pub open spec fn lines_view(lines: Seq<String>) -> Seq<Seq<char>> {
    Seq::new(lines.len(), |i: int| lines[i]@)
}

/// All lines joined in order, with nothing between them.
pub open spec fn concat_lines(lines: Seq<Seq<char>>) -> Seq<char>
    decreases lines.len(),
{
    if lines.len() == 0 {
        Seq::empty()
    } else {
        concat_lines(lines.drop_last()) + lines.last()
    }
}

/// Assembles the whole script: the fixed header directives, every given
/// arrow directive in order, then the fixed trailing directives. Zero arrow
/// lines still produce the full header and footer.
pub fn build_script(arrows: &Vec<String>) -> (r: String)
    ensures
        r@ == header_spec() + concat_lines(lines_view(arrows@)) + footer_spec(),
{
    let mut r = String::from_str("load \"file:$SCRIPT_PATH$/central_region.xyz\" \n");
    r.append("write \"$SCRIPT_PATH$/central_region2.xyz\" \n");
    r.append("load \"file:$SCRIPT_PATH$/central_region2.xyz\" \n");
    proof {
        assert(lines_view(arrows@).take(0) =~= Seq::<Seq<char>>::empty());
        assert(r@ =~= header_spec() + concat_lines(lines_view(arrows@).take(0)));
    }
    let mut idx: usize = 0;
    while idx < arrows.len()
        invariant
            idx <= arrows.len(),
            r@ == header_spec() + concat_lines(lines_view(arrows@).take(idx as int)),
        decreases arrows.len() - idx,
    {
        r.append(arrows[idx].as_str());
        proof {
            let lv = lines_view(arrows@);
            assert(lv.take(idx + 1).drop_last() =~= lv.take(idx as int));
            assert(lv.take(idx + 1).last() == arrows@[idx as int]@);
            assert(r@ =~= header_spec() + concat_lines(lv.take(idx + 1)));
        }
        idx += 1;
    }
    proof {
        assert(lines_view(arrows@).take(arrows@.len() as int) =~= lines_view(arrows@));
    }
    r.append("set defaultdrawarrowscale 0.1 \n");
    r.append("rotate 90 \n");
    r.append("background white \n");
    proof {
        assert(r@ =~= header_spec() + concat_lines(lines_view(arrows@)) + footer_spec());
    }
    r
}

/// How many sample points a stride of s yields along an axis of length len:
/// the positions 0, s, 2s, ... below len.
pub open spec fn stride_count(len: nat, s: nat) -> nat {
    if len == 0 {
        0
    } else {
        (((len - 1) as int / s as int) + 1) as nat
    }
}

/// A sample slot below the stride count stays strictly inside the axis.
proof fn lemma_stride_in_range(len: nat, s: nat, a: nat)
    requires
        s > 0,
        a < stride_count(len, s),
    ensures
        a * s < len,
{
    vstd::arithmetic::div_mod::lemma_fundamental_div_mod((len - 1) as int, s as int);
    vstd::arithmetic::div_mod::lemma_mod_bound((len - 1) as int, s as int);
    let q = (len - 1) as int / s as int;
    assert(a <= q);
    assert(a * s <= q * s) by (nonlinear_arith)
        requires
            a <= q,
            s > 0,
    ;
    assert(q * s <= len - 1) by (nonlinear_arith)
        requires
            len - 1 == q * s + ((len - 1) as int % s as int),
            (len - 1) as int % s as int >= 0,
    ;
}

/// Enumerates the coarsened sampling lattice of an (m, n, k) grid with the
/// given stride along all three axes, in the same row-major order as the
/// solver: position t of the result is the cell whose sample-lattice index
/// has flat position t, and every returned cell lies inside the grid.
pub fn sample_indices(m: usize, n: usize, k: usize, step: usize) -> (r: Vec<
    (usize, usize, usize),
>)
    requires
        step > 0,
    ensures
        r@.len() == stride_count(m as nat, step as nat) * stride_count(n as nat, step as nat)
            * stride_count(k as nat, step as nat),
        forall|t: int|
            0 <= t < r@.len() ==> #[trigger] r@[t] == (
                ((axis_i(
                    stride_count(n as nat, step as nat),
                    stride_count(k as nat, step as nat),
                    t as nat,
                ) * (step as nat)) as usize),
                ((axis_j(
                    stride_count(n as nat, step as nat),
                    stride_count(k as nat, step as nat),
                    t as nat,
                ) * (step as nat)) as usize),
                ((axis_l(stride_count(k as nat, step as nat), t as nat) * (step as nat)) as usize),
            ),
        forall|t: int|
            0 <= t < r@.len() ==> #[trigger] r@[t].0 < m && r@[t].1 < n && r@[t].2 < k,
{
    let cm: usize = if m == 0 {
        0
    } else {
        (m - 1) / step + 1
    };
    let cn: usize = if n == 0 {
        0
    } else {
        (n - 1) / step + 1
    };
    let ck: usize = if k == 0 {
        0
    } else {
        (k - 1) / step + 1
    };
    let mut r: Vec<(usize, usize, usize)> = Vec::new();
    let mut a: usize = 0;
    proof {
        assert((a as nat) * (cn as nat) * (ck as nat) == 0) by (nonlinear_arith)
            requires
                a == 0,
        ;
    }
    while a < cm
        invariant
            step > 0,
            a <= cm,
            cm == stride_count(m as nat, step as nat),
            cn == stride_count(n as nat, step as nat),
            ck == stride_count(k as nat, step as nat),
            r@.len() == (a as nat) * (cn as nat) * (ck as nat),
            forall|t: int|
                0 <= t < r@.len() ==> #[trigger] r@[t] == (
                    ((axis_i(cn as nat, ck as nat, t as nat) * (step as nat)) as usize),
                    ((axis_j(cn as nat, ck as nat, t as nat) * (step as nat)) as usize),
                    ((axis_l(ck as nat, t as nat) * (step as nat)) as usize),
                ),
            forall|t: int|
                0 <= t < r@.len() ==> #[trigger] r@[t].0 < m && r@[t].1 < n && r@[t].2 < k,
        decreases cm - a,
    {
        let mut b: usize = 0;
        proof {
            assert((b as nat) * (ck as nat) == 0) by (nonlinear_arith)
                requires
                    b == 0,
            ;
        }
        while b < cn
            invariant
                step > 0,
                a < cm,
                b <= cn,
                cm == stride_count(m as nat, step as nat),
                cn == stride_count(n as nat, step as nat),
                ck == stride_count(k as nat, step as nat),
                r@.len() == (a as nat) * (cn as nat) * (ck as nat) + (b as nat) * (ck as nat),
                forall|t: int|
                    0 <= t < r@.len() ==> #[trigger] r@[t] == (
                        ((axis_i(cn as nat, ck as nat, t as nat) * (step as nat)) as usize),
                        ((axis_j(cn as nat, ck as nat, t as nat) * (step as nat)) as usize),
                        ((axis_l(ck as nat, t as nat) * (step as nat)) as usize),
                    ),
                forall|t: int|
                    0 <= t < r@.len() ==> #[trigger] r@[t].0 < m && r@[t].1 < n && r@[t].2 < k,
            decreases cn - b,
        {
            let mut c: usize = 0;
            while c < ck
                invariant
                    step > 0,
                    a < cm,
                    b < cn,
                    c <= ck,
                    cm == stride_count(m as nat, step as nat),
                    cn == stride_count(n as nat, step as nat),
                    ck == stride_count(k as nat, step as nat),
                    r@.len() == (a as nat) * (cn as nat) * (ck as nat) + (b as nat) * (ck as nat)
                        + c as nat,
                    forall|t: int|
                        0 <= t < r@.len() ==> #[trigger] r@[t] == (
                            ((axis_i(cn as nat, ck as nat, t as nat) * (step as nat)) as usize),
                            ((axis_j(cn as nat, ck as nat, t as nat) * (step as nat)) as usize),
                            ((axis_l(ck as nat, t as nat) * (step as nat)) as usize),
                        ),
                    forall|t: int|
                        0 <= t < r@.len() ==> #[trigger] r@[t].0 < m && r@[t].1 < n && r@[t].2 < k,
                decreases ck - c,
            {
                proof {
                    lemma_flat_index(cm as nat, cn as nat, ck as nat, a as nat, b as nat, c as nat);
                    assert(r@.len() == flat_index(cn as nat, ck as nat, a as nat, b as nat, c as nat))
                        by (nonlinear_arith)
                        requires
                            r@.len() == (a as nat) * (cn as nat) * (ck as nat) + (b as nat) * (
                            ck as nat) + c as nat,
                    ;
                    lemma_stride_in_range(m as nat, step as nat, a as nat);
                    lemma_stride_in_range(n as nat, step as nat, b as nat);
                    lemma_stride_in_range(k as nat, step as nat, c as nat);
                }
                let ix: usize = a * step;
                let iy: usize = b * step;
                let iz: usize = c * step;
                r.push((ix, iy, iz));
                c += 1;
            }
            proof {
                assert(((b + 1) as nat) * (ck as nat) == (b as nat) * (ck as nat) + (ck as nat))
                    by (nonlinear_arith);
            }
            b += 1;
        }
        proof {
            assert(((a + 1) as nat) * (cn as nat) * (ck as nat) == (a as nat) * (cn as nat) * (
            ck as nat) + (cn as nat) * (ck as nat)) by (nonlinear_arith);
        }
        a += 1;
    }
    r
}

} // verus!
