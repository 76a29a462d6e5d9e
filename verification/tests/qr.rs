use lnemail::qr::{draw, fits, render, svg, MAX_TEXT};

#[test]
fn encodes_a_short_string_into_a_square_svg_with_a_quiet_zone() {
    let out = svg("hello").unwrap();
    assert!(out.starts_with("<svg"));
    assert!(out.contains("fill=\"#fff\""));
    assert!(out.contains("fill=\"#000\""));
    assert!(out.contains("<path d=\"M"));
}

#[test]
fn a_real_lightning_invoice_encodes_into_a_scannable_pattern() {
    let invoice = [
        "lnbc10u1p3xnhl2pp5jptserfk3zk4qy42tlucycrfwxhydvlemu9pqr93tuzlv9cc7g3s",
        "dqsvfhkcap3xyhx7un8cqzpgxqzjcsp5f8c5deqsz6d5aqk2fpsv6vfqjqsq0h2exyxqcy7",
        "lu92e2s2a5x2q9qyyssqhw2r5xw2zwwnr5z6cxwv6wgqz5rn2jl5x7q6z6r4l4x3yq9wq5e",
        "xhqp6f6z5",
    ]
    .concat();
    let out = svg(&invoice).unwrap();
    assert!(out.contains("<path d=\"M"));
    // The quiet zone keeps the pattern off the very edge the viewBox draws.
    assert!(!out.contains("M0 0h") && !out.contains("M0 0v"));
}

#[test]
fn refuses_empty_oversized_and_control_bearing_text_before_encoding() {
    assert_eq!(svg(""), Err("invalid_params"));
    assert_eq!(svg(&"a".repeat(MAX_TEXT + 1)), Err("invalid_params"));
    assert_eq!(svg("a\nb"), Err("invalid_params"));
    assert_eq!(svg("a\0b"), Err("invalid_params"));
    assert_eq!(svg("a\x7fb"), Err("invalid_params"));
}

#[test]
fn text_too_large_for_any_qr_version_is_refused_rather_than_panicking() {
    // Lowercase text encodes in byte mode, whose largest version holds
    // 2953 bytes at the lowest error-correction level — well under
    // MAX_TEXT, so this clears our own length gate and still exceeds
    // what the encoder itself can hold.
    assert_eq!(svg(&"a".repeat(MAX_TEXT)), Err("lnemail_qr_failed"));
}

#[test]
fn a_code_is_drawn_run_by_run_inside_its_margin() {
    let modules = [true, true, false, false, true, false, true, false, true];
    assert_eq!(
        render(3, &modules),
        "<svg xmlns=\"http://www.w3.org/2000/svg\" viewBox=\"0 0 11 11\" \
shape-rendering=\"crispEdges\"><rect width=\"11\" height=\"11\" fill=\"#fff\"/>\
<path d=\"M4 4h2v1h-2zM5 5h1v1h-1zM4 6h1v1h-1zM6 6h1v1h-1z\" fill=\"#000\"/></svg>"
    );
    assert!(render(0, &[]).contains("viewBox=\"0 0 8 8\""));
}

#[test]
fn a_short_text_makes_the_smallest_code() {
    let out = svg("hello").unwrap();
    assert!(out.contains("viewBox=\"0 0 29 29\""));
    // The finder pattern in the first corner: seven dark modules.
    assert!(out.contains("<path d=\"M4 4h7v1h-7z"));
    assert_ne!(svg("hello"), svg("other"));
}

#[test]
fn any_text_is_drawn_as_it_is_where_its_code_can_be_scored() {
    for text in ["hello", "", "a\nb", &"a".repeat(MAX_TEXT), &"a".repeat(MAX_TEXT + 1)] {
        assert_eq!(draw(text), Some(svg(text)));
    }
    // The most bytes that the largest code holds, and the most digits that are
    // tried.
    for text in ["f".repeat(2331), "lnbc1".repeat(466), "7".repeat(MAX_TEXT)] {
        let out = draw(&text).unwrap().unwrap();
        assert_eq!(Ok(out), svg(&text));
    }
    assert_eq!(draw(&"f".repeat(2332)), Some(Err("lnemail_qr_failed")));
}

#[test]
fn a_code_whose_score_goes_over_sixteen_bits_is_not_drawn() {
    assert_eq!(draw(&CROWDED.concat()), None);
}

#[test]
fn a_score_counts_runs_blocks_and_finders() {
    // A code that is alike throughout scores 64978 and 66123 at these widths.
    assert!(fits(0, &[]));
    assert!(fits(115, &vec![true; 115 * 115]));
    assert!(!fits(116, &vec![false; 116 * 116]));
    let checkered: Vec<bool> = (0..177 * 177).map(|i| i % 2 == 0).collect();
    assert!(fits(177, &checkered));
    // Likenesses of a finder in every other row score 71632, and 53072 in every
    // third.
    let finder = [true, false, true, true, true, false, true, false, false, false, false];
    let rows = |every: usize| -> Vec<bool> {
        (0..176 * 176)
            .map(|i| if i / 176 % every == 0 { finder[i % 176 % 11] } else { i % 176 % 2 == 0 })
            .collect()
    };
    assert!(!fits(176, &rows(2)));
    assert!(fits(176, &rows(3)));
}

/// The pieces of a text that fills the largest code, and leaves hardly any
/// pattern in it under one of the masks.
const CROWDED: [&str; 28] = [
    "C<C<C<C<C3<c<L<C<C<C<C3c<C<LC<C<C<C|CC3<CC<C3<Lc<C<C<C<C3<ClCLC<C<C<C<C|C<LC<C<C<C<l",
    "C3<LC<C3<LC|C<C<C<CC<LLlLC<C<C<C33Lc<LC<C<C<C<<cC<LC<C3<LC<c<C<C<LC<LLC|C<C<C<C3<LC|",
    "<C<C<C<C3LCc<<C<C3<C3<C|C<C<C3<LC3<c<C<C<C3<LC3|C<C<C<C<LCCs<C<C3<C<LC<c<C<CC<LC3<C|",
    "C<C<CC<C33<c<C<C<C<LCC3lC<C3<C3<C<C|C<LC<LC3<C<c<C<LC<C33<C|C<C<LLC3C<<c<C3<C3LC<C<c",
    "<LC<C33<C<C|C<LC<C3C<C<c<C<L<C3C3<C|C3<C3LC<C<C|LC<C33<C<C<c<LC33<3<C<C|C<C<C333<C<c",
    "3<C3LC<C<C3|C<C33<C<C<Cs<C3333<C<C<c<LC3<C3<C<Cs<LCLC<C<C3<c<C<C<C<C<C3lC33<C<C<C<C|",
    "LC3<CC<C<C3|LCLC<C<C3<C|C33<C<C<C<Lc3<LC<C<C<C<lC3<LC<C<C3<lCLC<C<CC<C<c3C<C<C<C3<Cs",
    "<LC<C<C<C<<c<LLC<C<C3<Lc<C<C<LC<C<LcC<C<C<C3<C3|LC<C<C<C3<C|LLC<C<C3<LLlC<C<C3<C<LCc",
    "<C<C<C3<C<LlC<C<C<C3<C<c<C<C<C3<L<Lc<C<CC<C<LCC|C<C<CC<C<LLc<C<C<C3<LLClC<C<C3<C<LC|",
    "C<LC<C<LCC<c<C<LC<C<L<C|C<C<LC<LLL<c<C<C3<C<LC<c<LC<C<LCC<C|C<LC<C<CLC<c<C<L3<LL3<C|",
    "C<C3<C<LC<C|LC<C<L33<C<c<LC<C<LLC<C|C<C3<LC3<C<c<C<C<C<LC<Cs<C<C<C<C<C<c3<C<C<3<C<C|",
    "C<LC<LC3<C<c<C<C<CC<C<Cs<C<C<C<C<C<c3LC<C33<C<C|C<LC<L33<C<c<C<C<LC<C<Cs<C<C<C<C<C<c",
    "<LC<C33<C<C|C<LC<C33<C<c<C<C<LC<C<Cc<C<C<C<C<C<c3<C<C33<C<C|C<<C<C33<C<c<C<C<LC<C<Lc",
    "<C<C<CLC<C<c3<C<C33<C<C|C3<C<C3C<C<c<C<C<LC<C<Cs<C<C<L<C<C<c3<C<C33<C<C|C3<C<C<3<C<c",
    "<C<C<C3<C<Cc<C<C<CC3<C<cC<C<C3C<C<C|C3<C<C3C<C<c<C<C<C3<C<Lc<C<C<LC3<C<lC<C<C<C<C<C|",
    "LC<C<CCC<C<c<C<C<C3<C<Lc<C<C<LC3<C<lC<C<C<C<C<C|L3<C<LCC<C<c<C<C<C3<C<Lc<C<C<LC3<C<l",
    "C<C<C<C<C<C|C3<C<LCC<C<c<C<C<C3<C3<c<C<C<LC3<C3|C<C<C<C<C<C|LC<C<LCC<C<c<CLC<C3<C3<c",
    "<C<C<C33<C3lC<C<C33<C<C|LC<C<LCC<C<c<LLC<LC<C3<c<C<C<C33<C<lC<C<C3CLC<C|LC<C<LCC<C<c",
    "<LLC<LCLCC<c<C<C<C33<C3|C<C<C33LC<C|<C<C<C3C<C<c<<LC<LCLLC<c<C<C<C33<C3|C<C<C33LC<Cs",
    "<C<C<C<C<C<c3<LC<LCLC3<c<C<C<C33<C3|C<C<C33LC<Cs<C<C<C<C<C<c3LLC3<CLCC<c<C<C<C33<CC|",
    "C<C<C33LC<Cs<C<C<C<C<C<c<<LC<L3LLC<c<C<C<LC3<LC|C<C<C33LC<Lc<C<C<C<C<C<c3<LC<C3LLC<c",
    "<C<C<LCC<LC|C<C<C<CLC<Ls<C<C<LLC<C<c3<LC<C3LLC<c<C<C3<CC<LC|C<C<C<CLC<Cs<C<C<C<C<C<c",
    "3<LC<C3C<C<c<C<C<LCC3<C|C<C<C<LLC<Lc<C<C<LC3<C<cC<LC<C<C<C<c<C<C<LCC3LC|C<C<C<LLC<Lc",
    "<C<C<LC3<C<lC<L3<3<C<C<c<C<CLL3C<LC|C<C<C<LLC<Lc<C<C<LC3<C<lC<C<C3LC<C<c<C<LLC3C3<C|",
    "C<C<C<<LC<<c<C<C<LC3<C<|C<CLC<LC<C<c<C<C<C3C3<C|C<C<C3<LC3<c<C<C<L33<C3|C<L<C<LC<C<c",
    "<C<CL33C3<C|C<C<CC<LC3<c<C<C<C33<C3lC<C<C<CC<C<c<C<LC3<CC<C|C<C<L33<C3<c<C<C<C33<C<|",
    "C<C<C<LC<C<c<C<LC3<LC<C|C<C<C33<LC<c<C<C<C33<C3|C<C<CLLC<C<c<C<LC3LLC<C|C<C<C33<L3<c",
    "<C<C<C33<C3|C<C<LC<C<C<c<C3<C<LLC<C|C<C333C<C3<c<C<C<C33<C3|C<C",
];
