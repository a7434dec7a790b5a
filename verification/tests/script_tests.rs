use biot_savart::script::{arrow_line, build_script, sample_indices, to_decimal, SAMPLE_STRIDE};

const HEADER: &str = "load \"file:$SCRIPT_PATH$/central_region.xyz\" \nwrite \"$SCRIPT_PATH$/central_region2.xyz\" \nload \"file:$SCRIPT_PATH$/central_region2.xyz\" \n";
const FOOTER: &str = "set defaultdrawarrowscale 0.1 \nrotate 90 \nbackground white \n";

/// Renders the visualization script for a field given as flat row-major
/// component vectors, mirroring the unverified shell: magnitudes are sampled
/// on the stride-3 lattice, normalized to [0, 1] for the arrow diameter
/// unless all magnitudes are equal, and the raw field vector gives the arrow
/// endpoints.
fn render_script(
    bx: &[f64],
    by: &[f64],
    bz: &[f64],
    dims: (usize, usize, usize),
    x: &[f64],
    y: &[f64],
    z: &[f64],
) -> String {
    let (m, n, k) = dims;
    let samples = sample_indices(m, n, k, SAMPLE_STRIDE);
    let at = |i: usize, j: usize, l: usize| (i * n + j) * k + l;
    let mut lengths: Vec<f64> = Vec::new();
    for &(i, j, l) in &samples {
        let t: usize = at(i, j, l);
        lengths.push((bx[t].powf(2.0) + by[t].powf(2.0) + bz[t].powf(2.0)).sqrt());
    }
    let max = lengths.iter().cloned().fold(f64::NAN, f64::max);
    let min = lengths.iter().cloned().fold(f64::NAN, f64::min);
    if max != min {
        lengths = lengths.iter().map(|v| (v - min) / (max - min)).collect();
    }
    let mut arrows: Vec<String> = Vec::new();
    for (idx, &(i, j, l)) in samples.iter().enumerate() {
        let t: usize = at(i, j, l);
        arrows.push(arrow_line(
            idx,
            &format!("{}", lengths[idx]),
            &format!("{}", x[i] - bx[t]),
            &format!("{}", y[j] - by[t]),
            &format!("{}", z[l] - bz[t]),
            &format!("{}", x[i] + bx[t]),
            &format!("{}", y[j] + by[t]),
            &format!("{}", z[l] + bz[t]),
        ));
    }
    build_script(&arrows)
}

#[test]
fn to_decimal_renders_digits() {
    assert_eq!(to_decimal(0), "0");
    assert_eq!(to_decimal(7), "7");
    assert_eq!(to_decimal(10), "10");
    assert_eq!(to_decimal(12034), "12034");
    assert_eq!(to_decimal(usize::MAX), format!("{}", usize::MAX));
}

#[test]
fn arrow_line_is_byte_exact() {
    let line = arrow_line(0, "0.5", "1", "2", "3", "4", "5", "6");
    assert_eq!(
        line,
        "draw arrow0 arrow color [1,0,0] diameter 0.5 { 1,2,3 } { 4,5,6 }\n"
    );
    let line = arrow_line(17, "0", "-1.5", "0", "0.25", "1.5", "0", "-0.25");
    assert_eq!(
        line,
        "draw arrow17 arrow color [1,0,0] diameter 0 { -1.5,0,0.25 } { 1.5,0,-0.25 }\n"
    );
}

#[test]
fn empty_arrow_list_still_emits_header_and_footer() {
    let script = build_script(&Vec::new());
    assert_eq!(script, format!("{}{}", HEADER, FOOTER));
}

#[test]
fn build_script_joins_arrows_in_order() {
    let arrows = vec![String::from("one\n"), String::from("two\n")];
    let script = build_script(&arrows);
    assert_eq!(script, format!("{}one\ntwo\n{}", HEADER, FOOTER));
}

#[test]
fn sample_indices_walks_the_stride_lattice_row_major() {
    assert_eq!(
        sample_indices(4, 4, 4, 3),
        vec![
            (0, 0, 0),
            (0, 0, 3),
            (0, 3, 0),
            (0, 3, 3),
            (3, 0, 0),
            (3, 0, 3),
            (3, 3, 0),
            (3, 3, 3),
        ]
    );
    assert_eq!(sample_indices(2, 2, 2, 3), vec![(0, 0, 0)]);
    assert_eq!(sample_indices(0, 5, 5, 3), vec![]);
    assert_eq!(
        sample_indices(7, 1, 1, 2),
        vec![(0, 0, 0), (2, 0, 0), (4, 0, 0), (6, 0, 0)]
    );
}

#[test]
fn uniform_magnitudes_skip_normalization_and_pass_through_raw() {
    // an all-zero field leaves min == max, so the raw magnitude (0) is used
    // as the diameter and nothing divides by zero
    let zeros = [0.0_f64; 8];
    let axes = [0.0_f64, 1.0];
    let script = render_script(&zeros, &zeros, &zeros, (2, 2, 2), &axes, &axes, &axes);
    let expected = format!(
        "{}draw arrow0 arrow color [1,0,0] diameter 0 {{ 0,0,0 }} {{ 0,0,0 }}\n{}",
        HEADER, FOOTER
    );
    assert_eq!(script, expected);
    assert!(!script.contains("NaN"));
}

#[test]
fn distinct_magnitudes_are_normalized_for_the_diameter_only() {
    // two samples along the outer axis with different magnitudes: diameters
    // become 0 and 1 while the endpoints keep the raw field values
    let mut bx = [0.0_f64; 4];
    bx[3] = 2.0;
    let bzero = [0.0_f64; 4];
    let x = [0.0_f64, 1.0, 2.0, 3.0];
    let y = [0.0_f64];
    let z = [0.0_f64];
    let script = render_script(&bx, &bzero, &bzero, (4, 1, 1), &x, &y, &z);
    let expected = format!(
        "{}draw arrow0 arrow color [1,0,0] diameter 0 {{ 0,0,0 }} {{ 0,0,0 }}\ndraw arrow1 arrow color [1,0,0] diameter 1 {{ 1,0,0 }} {{ 5,0,0 }}\n{}",
        HEADER, FOOTER
    );
    assert_eq!(script, expected);
}
