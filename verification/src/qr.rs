//! Renders a text, a Lightning invoice here, as a scannable QR code. The
//! image is an SVG, black on white whatever the theme: a wallet's camera reads
//! contrast.
use qrcode::bits::encode_auto;
use qrcode::canvas::Canvas;
use qrcode::canvas::MaskPattern::{
    Checkerboard, DiagonalLines, Diamonds, Fields, HorizontalLines, LargeCheckerboard, Meadow,
    VerticalLines,
};
use qrcode::ec::construct_codewords;
use qrcode::EcLevel;
use vstd::prelude::*;
use vstd::string::*;

use crate::params::{free_of_control, no_control};
use crate::text::{bytes_of, decimal, decimal_text};

verus! {

/// The most bytes that are tried.
pub const MAX_TEXT: usize = 4096;

/// Modules of white margin that a reader expects around the pattern.
pub const QUIET_ZONE: usize = 4;

/// What `qrcode` draws of the data, where it can hold it, before it settles on
/// a mask: the modules along a side, and the code under each of its eight
/// masks, of each module, row by row, whether it is dark.
pub uninterp spec fn qr_candidates(data: Seq<u8>) -> Option<(nat, Seq<Seq<bool>>)>;

/// What the codes of a run are.
pub open spec fn codes_of(codes: Seq<Vec<bool>>) -> Seq<Seq<bool>> {
    Seq::new(codes.len(), |k: int| codes[k]@)
}

/// `qrcode::bits::encode_auto`, `qrcode::ec::construct_codewords` and, of
/// `qrcode::canvas::Canvas`, `draw_all_functional_patterns`, `draw_data` and
/// `apply_mask` with each of the eight masks: the codes that `QrCode::new`
/// chooses from, each a square of 21 to 177 modules along a side. None of them
/// is scored here.
#[verifier::external_body]
fn candidates(data: &[u8]) -> (r: Option<(usize, Vec<Vec<bool>>)>)
    ensures
        match r {
            Some((width, codes)) => {
                &&& qr_candidates(data@) == Some((width as nat, codes_of(codes@)))
                &&& 21 <= width <= 177
                &&& forall|k: int|
                    0 <= k < codes@.len() ==> (#[trigger] codes@[k])@.len() == width * width
            },
            None => qr_candidates(data@) is None,
        },
{
    let bits = encode_auto(data, EcLevel::M).ok()?;
    let version = bits.version();
    let (words, ec) = construct_codewords(&bits.into_bytes(), version, EcLevel::M).ok()?;
    let mut canvas = Canvas::new(version, EcLevel::M);
    canvas.draw_all_functional_patterns();
    canvas.draw_data(&words, &ec);
    let masks = [Checkerboard, HorizontalLines, VerticalLines, DiagonalLines, LargeCheckerboard,
        Fields, Diamonds, Meadow];
    Some((version.width() as usize, masks.map(|mask| {
        let mut code = canvas.clone();
        code.apply_mask(mask);
        code.into_colors().into_iter().map(|c| c.select(true, false)).collect()
    }).to_vec()))
}

/// What `qrcode::QrCode::new` makes of the data, where it can hold it: the
/// modules along a side, and of each module, row by row, whether it is dark.
pub uninterp spec fn qr_code(data: Seq<u8>) -> Option<(nat, Seq<bool>)>;

/// `qrcode::QrCode::new`, with the `width` and the `into_colors` of the code:
/// what the data makes, a square of 21 to 177 modules along each side. It
/// scores the code under each of the eight masks in 16 bits, and panics where
/// a score goes over them in a build that checks for overflow.
#[verifier::external_body]
fn encoded(data: &[u8]) -> (r: Option<(usize, Vec<bool>)>)
    requires
        scores_fit(data@),
    ensures
        match r {
            Some((width, modules)) => {
                &&& qr_code(data@) == Some((width as nat, modules@))
                &&& 21 <= width <= 177
                &&& modules@.len() == width * width
            },
            None => qr_code(data@) is None,
        },
{
    let code = qrcode::QrCode::new(data).ok()?;
    let width = code.width();
    Some((width, code.into_colors().into_iter().map(|c| c.select(true, false)).collect()))
}

/// Whether the module at a place is dark.
pub open spec fn dark(modules: Seq<bool>, width: nat, row: int, col: int) -> bool {
    0 <= row < width && 0 <= col < width && modules[row * width + col]
}

/// The module at a place in a line: a row, or a column where it is not across.
pub open spec fn cell(modules: Seq<bool>, width: nat, across: bool, line: int, at: int) -> bool {
    if across {
        dark(modules, width, line, at)
    } else {
        dark(modules, width, at, line)
    }
}

/// Whether five modules of a line from a place on are alike.
pub open spec fn five_alike(
    modules: Seq<bool>,
    width: nat,
    across: bool,
    line: int,
    at: int,
) -> bool {
    let c = |k: int| cell(modules, width, across, line, at + k);
    at + 5 <= width && c(0) == c(1) && c(1) == c(2) && c(2) == c(3) && c(3) == c(4)
}

/// Whether the modules of a line from a place on look like a finder pattern:
/// dark, light, three dark, light, dark, and four before or behind them that
/// are light or beyond the edge.
pub open spec fn like_a_finder(
    modules: Seq<bool>,
    width: nat,
    across: bool,
    line: int,
    at: int,
) -> bool {
    let c = |k: int| cell(modules, width, across, line, at + k);
    &&& at + 7 <= width
    &&& c(0) && !c(1) && c(2) && c(3) && c(4) && !c(5) && c(6)
    &&& (!c(-1) && !c(-2) && !c(-3) && !c(-4)) || (!c(7) && !c(8) && !c(9) && !c(10))
}

/// What a place adds to the score of a line: one for each five modules that
/// are alike and two more where their run begins, which is three for a run of
/// five and one for each module more; forty for a likeness of a finder.
pub open spec fn line_score(
    modules: Seq<bool>,
    width: nat,
    across: bool,
    line: int,
    at: int,
) -> nat {
    let alike: nat = if !five_alike(modules, width, across, line, at) {
        0
    } else if at > 0 && cell(modules, width, across, line, at - 1) == cell(
        modules,
        width,
        across,
        line,
        at,
    ) {
        1
    } else {
        3
    };
    let finder: nat = if like_a_finder(modules, width, across, line, at) {
        40
    } else {
        0
    };
    alike + finder
}

/// Whether a place and those right of it, below it and across from it are
/// alike.
pub open spec fn block_alike(modules: Seq<bool>, width: nat, row: int, col: int) -> bool {
    &&& row + 2 <= width
    &&& col + 2 <= width
    &&& dark(modules, width, row, col) == dark(modules, width, row, col + 1)
    &&& dark(modules, width, row, col) == dark(modules, width, row + 1, col)
    &&& dark(modules, width, row, col) == dark(modules, width, row + 1, col + 1)
}

/// What a place adds to the score of a code: in its row, in its column, and
/// three for a block that is alike.
pub open spec fn place_score(modules: Seq<bool>, width: nat, row: int, col: int) -> nat {
    let block: nat = if block_alike(modules, width, row, col) {
        3
    } else {
        0
    };
    line_score(modules, width, true, row, col) + line_score(modules, width, false, col, row)
        + block
}

/// The score of the first `n` places of a row and of all the rows above it.
pub open spec fn score_to(modules: Seq<bool>, width: nat, row: int, n: int) -> nat
    decreases row, n,
{
    if n > 0 {
        score_to(modules, width, row, n - 1) + place_score(modules, width, row, n - 1)
    } else if row > 0 {
        score_to(modules, width, row - 1, width as int)
    } else {
        0
    }
}

/// The most that a score may come to: what 16 bits hold, less the hundred at
/// most that an uneven share of dark modules adds. The likenesses of a finder
/// count the code's own three, which `qrcode` takes off again.
pub const MAX_SCORE: u64 = 65435;

/// Whether the score of a code stays within 16 bits.
pub open spec fn score_fits(modules: Seq<bool>, width: nat) -> bool {
    score_to(modules, width, width as int, 0) <= MAX_SCORE
}

/// Whether the scores of some codes stay within 16 bits.
pub open spec fn all_fit(codes: Seq<Seq<bool>>, width: nat) -> bool {
    forall|k: int| 0 <= k < codes.len() ==> score_fits(#[trigger] codes[k], width)
}

/// Whether the score under each mask stays within 16 bits, where the data can
/// be held at all. It does but for large codes of hardly any pattern under one
/// of the masks.
pub open spec fn scores_fit(data: Seq<u8>) -> bool {
    match qr_candidates(data) {
        Some((width, codes)) => all_fit(codes, width),
        None => true,
    }
}

/// A run of dark modules that stand next to each other in one row.
pub struct Run {
    pub row: int,
    pub start: int,
    pub len: int,
}

/// Whether a run of dark modules begins at a place.
pub open spec fn run_starts(modules: Seq<bool>, width: nat, row: int, col: int) -> bool {
    dark(modules, width, row, col) && !dark(modules, width, row, col - 1)
}

/// How many modules from a place on are dark without a break.
pub open spec fn run_len(modules: Seq<bool>, width: nat, row: int, col: int) -> nat
    decreases width - col,
{
    if col < width && dark(modules, width, row, col) {
        1 + run_len(modules, width, row, col + 1)
    } else {
        0
    }
}

/// The runs that begin in the first `n` columns of a row.
pub open spec fn row_runs(modules: Seq<bool>, width: nat, row: int, n: int) -> Seq<Run>
    decreases n,
{
    if n <= 0 {
        Seq::empty()
    } else if run_starts(modules, width, row, n - 1) {
        row_runs(modules, width, row, n - 1).push(
            Run { row, start: n - 1, len: run_len(modules, width, row, n - 1) as int },
        )
    } else {
        row_runs(modules, width, row, n - 1)
    }
}

/// The runs in the first `n` rows.
pub open spec fn runs(modules: Seq<bool>, width: nat, n: int) -> Seq<Run>
    decreases n,
{
    if n <= 0 {
        Seq::empty()
    } else {
        runs(modules, width, n - 1) + row_runs(modules, width, n - 1, width as int)
    }
}

/// A run as a piece of an SVG path: a bar one module high, moved in by the
/// quiet zone.
pub open spec fn bar(run: Run) -> Seq<char> {
    "M"@ + decimal((run.start + QUIET_ZONE) as nat) + " "@ + decimal((run.row + QUIET_ZONE) as nat)
        + "h"@ + decimal(run.len as nat) + "v1h-"@ + decimal(run.len as nat) + "z"@
}

/// The path that draws runs.
pub open spec fn bars(runs: Seq<Run>) -> Seq<char>
    decreases runs.len(),
{
    if runs.len() == 0 {
        Seq::empty()
    } else {
        bars(runs.drop_last()) + bar(runs.last())
    }
}

/// The image of a code: a white square, and on it the runs in black.
pub open spec fn image(width: nat, modules: Seq<bool>) -> Seq<char> {
    let side = decimal(width + 2 * QUIET_ZONE as nat);
    "<svg xmlns=\"http://www.w3.org/2000/svg\" viewBox=\"0 0 "@ + side + " "@ + side
        + "\" shape-rendering=\"crispEdges\"><rect width=\""@ + side + "\" height=\""@ + side
        + "\" fill=\"#fff\"/><path d=\""@ + bars(runs(modules, width, width as int))
        + "\" fill=\"#000\"/></svg>"@
}

fn append_bar(path: &mut String, row: usize, start: usize, len: usize)
    requires
        row + QUIET_ZONE <= usize::MAX,
        start + QUIET_ZONE <= usize::MAX,
    ensures
        final(path)@ == old(path)@ + bar(Run { row: row as int, start: start as int, len: len as int }),
{
    let x = decimal_text((start + QUIET_ZONE) as u64);
    let y = decimal_text((row + QUIET_ZONE) as u64);
    let run = decimal_text(len as u64);
    path.append("M");
    path.append(x.as_str());
    path.append(" ");
    path.append(y.as_str());
    path.append("h");
    path.append(run.as_str());
    path.append("v1h-");
    path.append(run.as_str());
    path.append("z");
    assert(path@ =~= old(path)@ + bar(Run { row: row as int, start: start as int, len: len as int }));
}

proof fn a_place_is_within(width: int, row: int, col: int)
    requires
        0 <= row < width,
        0 <= col < width,
    ensures
        0 <= row * width,
        row * width + col < width * width,
{
    assert(0 <= row * width) by (nonlinear_arith)
        requires
            0 <= row,
            0 <= width,
    ;
    assert(row * width + width <= width * width) by (nonlinear_arith)
        requires
            row + 1 <= width,
            0 <= width,
    ;
}

/// A run that is there up to `n` columns has no other beginning within it.
proof fn no_run_starts_within(modules: Seq<bool>, width: nat, row: int, start: int, n: int)
    requires
        0 <= start < n <= width,
        forall|c: int| start <= c < n ==> dark(modules, width, row, c),
    ensures
        row_runs(modules, width, row, n) == row_runs(modules, width, row, start + 1),
    decreases n,
{
    if n > start + 1 {
        assert(dark(modules, width, row, n - 2));
        no_run_starts_within(modules, width, row, start, n - 1);
    }
}

proof fn run_len_is(modules: Seq<bool>, width: nat, row: int, start: int, end: int)
    requires
        0 <= start <= end <= width,
        forall|c: int| start <= c < end ==> dark(modules, width, row, c),
        end == width || !dark(modules, width, row, end),
    ensures
        run_len(modules, width, row, start) == end - start,
    decreases end - start,
{
    if start < end {
        assert(dark(modules, width, row, start));
        run_len_is(modules, width, row, start + 1, end);
    }
}

/// The path that draws every dark run of a code.
fn path_of(width: usize, modules: &[bool]) -> (r: String)
    requires
        modules@.len() == width * width,
        width + 2 * QUIET_ZONE <= usize::MAX,
    ensures
        r@ == bars(runs(modules@, width as nat, width as int)),
{
    let mut path = String::new();
    let count: usize = modules.len();
    let ghost m = modules@;
    let ghost w = width as nat;
    for row in 0..width
        invariant
            m == modules@,
            w == width,
            m.len() == width * width,
                    m.len() == count,
            width + 2 * QUIET_ZONE <= usize::MAX,
            path@ == bars(runs(m, w, row as int)),
    {
        let ghost above = runs(m, w, row as int);
        let mut col: usize = 0;
        assert(above + row_runs(m, w, row as int, 0) =~= above);
        while col < width
            invariant
                m == modules@,
                w == width,
                row < width,
                m.len() == width * width,
                    m.len() == count,
                width + 2 * QUIET_ZONE <= usize::MAX,
                col <= width,
                path@ == bars(above + row_runs(m, w, row as int, col as int)),
                dark(m, w, row as int, col as int) ==> run_starts(m, w, row as int, col as int),
            decreases width - col,
        {
            proof {
                a_place_is_within(width as int, row as int, col as int);
            }
            if !modules[row * width + col] {
                col = col + 1;
                continue ;
            }
            let start: usize = col;
            while col < width && modules[row * width + col]
                invariant
                    m == modules@,
                    w == width,
                    row < width,
                    m.len() == width * width,
                    m.len() == count,
                    start <= col <= width,
                    forall|c: int| start <= c < col ==> dark(m, w, row as int, c),
                    col < width ==> 0 <= row * width && row * width + col < width * width,
                    0 <= row * width <= usize::MAX,
                    start < width && dark(m, w, row as int, start as int),
                ensures
                    col == width || !dark(m, w, row as int, col as int),
                decreases width - col,
            {
                col = col + 1;
                proof {
                    if col < width {
                        a_place_is_within(width as int, row as int, col as int);
                    }
                }
            }
            let run: usize = col - start;
            append_bar(&mut path, row, start, run);
            proof {
                let r = Run { row: row as int, start: start as int, len: run as int };
                run_len_is(m, w, row as int, start as int, col as int);
                let before = above + row_runs(m, w, row as int, start as int);
                assert(run_starts(m, w, row as int, start as int));
                assert(before.push(r) =~= above + row_runs(m, w, row as int, start + 1));
                assert(before.push(r).drop_last() =~= before);
                no_run_starts_within(m, w, row as int, start as int, col as int);
            }
        }
    }
    path
}

/// Draws a code.
pub fn render(width: usize, modules: &[bool]) -> (r: String)
    requires
        modules@.len() == width * width,
    ensures
        r@ == image(width as nat, modules@),
{
    let count: usize = modules.len();
    assert(width + 2 * QUIET_ZONE <= usize::MAX) by (nonlinear_arith)
        requires
            width * width == count,
            usize::MAX >= 0xffff_ffff,
            QUIET_ZONE == 4,
    ;
    let side = decimal_text((width + 2 * QUIET_ZONE) as u64);
    let path = path_of(width, modules);
    let mut out = "<svg xmlns=\"http://www.w3.org/2000/svg\" viewBox=\"0 0 ".to_owned();
    out.append(side.as_str());
    out.append(" ");
    out.append(side.as_str());
    out.append("\" shape-rendering=\"crispEdges\"><rect width=\"");
    out.append(side.as_str());
    out.append("\" height=\"");
    out.append(side.as_str());
    out.append("\" fill=\"#fff\"/><path d=\"");
    out.append(path.as_str());
    out.append("\" fill=\"#000\"/></svg>");
    out
}

/// Whether a text may be tried: not empty, within the limit and without a
/// control byte.
pub open spec fn drawable(text: Seq<char>) -> bool {
    &&& text.len() > 0
    &&& bytes_of(text).len() <= MAX_TEXT
    &&& no_control(bytes_of(text))
}

/// The image of a text, or why there is none.
pub open spec fn drawn(text: Seq<char>) -> Result<Seq<char>, &'static str> {
    if !drawable(text) {
        Err("invalid_params")
    } else {
        match qr_code(bytes_of(text)) {
            Some((width, modules)) => Ok(image(width, modules)),
            None => Err("lnemail_qr_failed"),
        }
    }
}

/// The characters of an image.
pub open spec fn image_in(r: Result<String, &'static str>) -> Result<Seq<char>, &'static str> {
    match r {
        Ok(out) => Ok(out@),
        Err(e) => Err(e),
    }
}

fn may_be_drawn(text: &str) -> (r: bool)
    ensures
        r == drawable(text@),
{
    let bytes = text.as_bytes();
    !text.is_empty() && bytes.len() <= MAX_TEXT && free_of_control(bytes)
}

/// A text as the SVG image of a QR code. It is for texts whose code can be
/// scored; [`draw`] takes any.
pub fn svg(text: &str) -> (r: Result<String, &'static str>)
    requires
        drawable(text@) ==> scores_fit(bytes_of(text@)),
    ensures
        image_in(r) == drawn(text@),
{
    if !may_be_drawn(text) {
        return Err("invalid_params");
    }
    match encoded(text.as_bytes()) {
        Some((width, modules)) => Ok(render(width, modules.as_slice())),
        None => Err("lnemail_qr_failed"),
    }
}

fn module_at(modules: &[bool], width: usize, row: usize, col: usize) -> (r: bool)
    requires
        modules@.len() == width * width,
    ensures
        r == dark(modules@, width as nat, row as int, col as int),
{
    if row < width && col < width {
        let count: usize = modules.len();
        proof {
            a_place_is_within(width as int, row as int, col as int);
        }
        modules[row * width + col]
    } else {
        false
    }
}

fn cell_at(modules: &[bool], width: usize, across: bool, line: usize, at: usize) -> (r: bool)
    requires
        modules@.len() == width * width,
    ensures
        r == cell(modules@, width as nat, across, line as int, at as int),
{
    if across {
        module_at(modules, width, line, at)
    } else {
        module_at(modules, width, at, line)
    }
}

fn has_five_alike(modules: &[bool], width: usize, across: bool, line: usize, at: usize) -> (r: bool)
    requires
        modules@.len() == width * width,
        width <= 177,
        line < width,
        at < width,
    ensures
        r == five_alike(modules@, width as nat, across, line as int, at as int),
{
    if at + 5 > width {
        return false;
    }
    let first = cell_at(modules, width, across, line, at);
    first == cell_at(modules, width, across, line, at + 1) && first == cell_at(
        modules,
        width,
        across,
        line,
        at + 2,
    ) && first == cell_at(modules, width, across, line, at + 3) && first == cell_at(
        modules,
        width,
        across,
        line,
        at + 4,
    )
}

fn light_before(modules: &[bool], width: usize, across: bool, line: usize, at: usize, back: usize) -> (r:
    bool)
    requires
        modules@.len() == width * width,
    ensures
        r == !cell(modules@, width as nat, across, line as int, at - back),
{
    back > at || !cell_at(modules, width, across, line, at - back)
}

fn is_like_a_finder(modules: &[bool], width: usize, across: bool, line: usize, at: usize) -> (r:
    bool)
    requires
        modules@.len() == width * width,
        width <= 177,
        line < width,
        at < width,
    ensures
        r == like_a_finder(modules@, width as nat, across, line as int, at as int),
{
    if at + 7 > width || !cell_at(modules, width, across, line, at) || cell_at(
        modules,
        width,
        across,
        line,
        at + 1,
    ) || !cell_at(modules, width, across, line, at + 2) || !cell_at(
        modules,
        width,
        across,
        line,
        at + 3,
    ) || !cell_at(modules, width, across, line, at + 4) || cell_at(
        modules,
        width,
        across,
        line,
        at + 5,
    ) || !cell_at(modules, width, across, line, at + 6) {
        return false;
    }
    let before = light_before(modules, width, across, line, at, 1) && light_before(
        modules,
        width,
        across,
        line,
        at,
        2,
    ) && light_before(modules, width, across, line, at, 3) && light_before(
        modules,
        width,
        across,
        line,
        at,
        4,
    );
    let behind = !cell_at(modules, width, across, line, at + 7) && !cell_at(
        modules,
        width,
        across,
        line,
        at + 8,
    ) && !cell_at(modules, width, across, line, at + 9) && !cell_at(
        modules,
        width,
        across,
        line,
        at + 10,
    );
    before || behind
}

fn score_in_line(modules: &[bool], width: usize, across: bool, line: usize, at: usize) -> (r: u64)
    requires
        modules@.len() == width * width,
        width <= 177,
        line < width,
        at < width,
    ensures
        r == line_score(modules@, width as nat, across, line as int, at as int),
        r <= 43,
{
    let alike: u64 = if !has_five_alike(modules, width, across, line, at) {
        0
    } else if at > 0 && cell_at(modules, width, across, line, at - 1) == cell_at(
        modules,
        width,
        across,
        line,
        at,
    ) {
        1
    } else {
        3
    };
    let finder: u64 = if is_like_a_finder(modules, width, across, line, at) {
        40
    } else {
        0
    };
    alike + finder
}

fn score_at(modules: &[bool], width: usize, row: usize, col: usize) -> (r: u64)
    requires
        modules@.len() == width * width,
        width <= 177,
        row < width,
        col < width,
    ensures
        r == place_score(modules@, width as nat, row as int, col as int),
        r <= 89,
{
    let first = module_at(modules, width, row, col);
    let alike = row + 2 <= width && col + 2 <= width && first == module_at(
        modules,
        width,
        row,
        col + 1,
    ) && first == module_at(modules, width, row + 1, col) && first == module_at(
        modules,
        width,
        row + 1,
        col + 1,
    );
    let block: u64 = if alike {
        3
    } else {
        0
    };
    score_in_line(modules, width, true, row, col) + score_in_line(modules, width, false, col, row)
        + block
}

proof fn score_grows(modules: Seq<bool>, width: nat, row: int, n: int)
    requires
        0 <= row < width,
        0 <= n <= width,
    ensures
        score_to(modules, width, row, n) <= score_to(modules, width, width as int, 0),
    decreases width - row, width - n,
{
    if n < width {
        score_grows(modules, width, row, n + 1);
    } else if row + 1 < width {
        score_grows(modules, width, row + 1, 0);
    }
}

/// Whether the score of a code stays within 16 bits.
pub fn fits(width: usize, modules: &[bool]) -> (r: bool)
    requires
        modules@.len() == width * width,
        width <= 177,
    ensures
        r == score_fits(modules@, width as nat),
{
    let ghost m = modules@;
    let ghost w = width as nat;
    let mut total: u64 = 0;
    let mut row: usize = 0;
    while row < width
        invariant
            m == modules@,
            w == width,
            m.len() == width * width,
            row <= width,
            width <= 177,
            total == score_to(m, w, row as int, 0),
            total <= MAX_SCORE,
        decreases width - row,
    {
        let mut col: usize = 0;
        while col < width
            invariant
                m == modules@,
                w == width,
                m.len() == width * width,
                row < width,
                col <= width,
                width <= 177,
                total == score_to(m, w, row as int, col as int),
                total <= MAX_SCORE,
            decreases width - col,
        {
            total = total + score_at(modules, width, row, col);
            col = col + 1;
            if total > MAX_SCORE {
                proof {
                    score_grows(m, w, row as int, col as int);
                }
                return false;
            }
        }
        row = row + 1;
    }
    true
}

/// A text as the SVG image of a QR code, where its code can be scored; none
/// where it cannot.
pub fn draw(text: &str) -> (r: Option<Result<String, &'static str>>)
    ensures
        match r {
            Some(outcome) => (drawable(text@) ==> scores_fit(bytes_of(text@))) && image_in(outcome)
                == drawn(text@),
            None => drawable(text@) && !scores_fit(bytes_of(text@)),
        },
{
    if may_be_drawn(text) {
        match candidates(text.as_bytes()) {
            Some((width, codes)) => {
                let ghost all = codes_of(codes@);
                for k in 0..codes.len()
                    invariant
                        all == codes_of(codes@),
                        21 <= width <= 177,
                        drawable(text@),
                        qr_candidates(bytes_of(text@)) == Some((width as nat, all)),
                        forall|j: int|
                            0 <= j < codes@.len() ==> (#[trigger] codes@[j])@.len() == width
                                * width,
                        forall|j: int| 0 <= j < k ==> score_fits(#[trigger] all[j], width as nat),
                {
                    assert(all[k as int] == codes@[k as int]@);
                    if !fits(width, codes[k].as_slice()) {
                        assert(!score_fits(all[k as int], width as nat));
                        assert(!all_fit(all, width as nat));
                        return None;
                    }
                }
            },
            None => {},
        }
    }
    Some(svg(text))
}

/// Whether a run draws the module at a place.
pub open spec fn draws(run: Run, row: int, col: int) -> bool {
    run.row == row && run.start <= col < run.start + run.len
}

/// Whether a run is one of a code's: it begins where a run begins and goes as
/// far as the modules are dark.
pub open spec fn is_run(modules: Seq<bool>, width: nat, run: Run) -> bool {
    &&& run_starts(modules, width, run.row, run.start)
    &&& run.len == run_len(modules, width, run.row, run.start)
}

/// Whether one run stands before another: further up, or in the same row
/// further left.
pub open spec fn before(a: Run, b: Run) -> bool {
    a.row < b.row || (a.row == b.row && a.start < b.start)
}

proof fn row_runs_are_the_runs(modules: Seq<bool>, width: nat, row: int, n: int)
    requires
        0 <= n <= width,
    ensures
        forall|k: int|
            0 <= k < row_runs(modules, width, row, n).len() ==> is_run(
                modules,
                width,
                #[trigger] row_runs(modules, width, row, n)[k],
            ) && row_runs(modules, width, row, n)[k].row == row && row_runs(
                modules,
                width,
                row,
                n,
            )[k].start < n,
        forall|j: int, k: int|
            0 <= j < k < row_runs(modules, width, row, n).len() ==> before(
                #[trigger] row_runs(modules, width, row, n)[j],
                #[trigger] row_runs(modules, width, row, n)[k],
            ),
        forall|c: int|
            0 <= c < n && run_starts(modules, width, row, c) ==> exists|k: int|
                0 <= k < row_runs(modules, width, row, n).len() && (#[trigger] row_runs(
                    modules,
                    width,
                    row,
                    n,
                )[k]).start == c,
    decreases n,
{
    if n > 0 {
        row_runs_are_the_runs(modules, width, row, n - 1);
        let all = row_runs(modules, width, row, n);
        let old = row_runs(modules, width, row, n - 1);
        assert forall|c: int|
            0 <= c < n && run_starts(modules, width, row, c) implies exists|k: int|
            0 <= k < all.len() && (#[trigger] all[k]).start == c by {
            if c == n - 1 {
                assert(all[all.len() - 1].start == c);
            } else {
                let k = choose|k: int| 0 <= k < old.len() && (#[trigger] old[k]).start == c;
                assert(all[k] == old[k]);
            }
        }
    }
}

proof fn runs_are_the_runs(modules: Seq<bool>, width: nat, n: int)
    requires
        0 <= n <= width,
    ensures
        forall|k: int|
            0 <= k < runs(modules, width, n).len() ==> is_run(
                modules,
                width,
                #[trigger] runs(modules, width, n)[k],
            ) && runs(modules, width, n)[k].row < n,
        forall|j: int, k: int|
            0 <= j < k < runs(modules, width, n).len() ==> before(
                #[trigger] runs(modules, width, n)[j],
                #[trigger] runs(modules, width, n)[k],
            ),
        forall|r: int, c: int|
            0 <= r < n && 0 <= c < width && #[trigger] run_starts(modules, width, r, c)
                ==> exists|k: int|
                0 <= k < runs(modules, width, n).len() && (#[trigger] runs(
                    modules,
                    width,
                    n,
                )[k]).row == r && runs(modules, width, n)[k].start == c,
    decreases n,
{
    if n > 0 {
        runs_are_the_runs(modules, width, n - 1);
        row_runs_are_the_runs(modules, width, n - 1, width as int);
        let all = runs(modules, width, n);
        let above = runs(modules, width, n - 1);
        let here = row_runs(modules, width, n - 1, width as int);
        assert forall|k: int| 0 <= k < all.len() implies is_run(
            modules,
            width,
            #[trigger] all[k],
        ) && all[k].row < n by {
            if k < above.len() {
                assert(all[k] == above[k]);
            } else {
                assert(all[k] == here[k - above.len()]);
            }
        }
        assert forall|j: int, k: int| 0 <= j < k < all.len() implies before(
            #[trigger] all[j],
            #[trigger] all[k],
        ) by {
            if k < above.len() {
                assert(all[k] == above[k] && all[j] == above[j]);
            } else if j >= above.len() {
                assert(all[k] == here[k - above.len()] && all[j] == here[j - above.len()]);
            } else {
                assert(all[k] == here[k - above.len()] && all[j] == above[j]);
            }
        }
        assert forall|r: int, c: int|
            0 <= r < n && 0 <= c < width && #[trigger] run_starts(
                modules,
                width,
                r,
                c,
            ) implies exists|k: int|
            0 <= k < all.len() && (#[trigger] all[k]).row == r && all[k].start == c by {
            if r < n - 1 {
                let k = choose|k: int|
                    0 <= k < above.len() && (#[trigger] above[k]).row == r && above[k].start == c;
                assert(all[k] == above[k]);
            } else {
                let k = choose|k: int| 0 <= k < here.len() && (#[trigger] here[k]).start == c;
                assert(all[above.len() + k] == here[k]);
            }
        }
    }
}

proof fn a_run_is_dark(modules: Seq<bool>, width: nat, row: int, start: int)
    requires
        0 <= row < width,
        0 <= start <= width,
    ensures
        start + run_len(modules, width, row, start) <= width,
        forall|c: int|
            start <= c < start + run_len(modules, width, row, start) ==> dark(
                modules,
                width,
                row,
                c,
            ),
        !dark(modules, width, row, start + run_len(modules, width, row, start)),
    decreases width - start,
{
    if start < width && dark(modules, width, row, start) {
        a_run_is_dark(modules, width, row, start + 1);
    }
}

/// The place where the run through a dark module begins.
spec fn run_start(modules: Seq<bool>, width: nat, row: int, col: int) -> int
    decreases col,
{
    if col > 0 && dark(modules, width, row, col - 1) {
        run_start(modules, width, row, col - 1)
    } else {
        col
    }
}

proof fn the_run_begins(modules: Seq<bool>, width: nat, row: int, col: int)
    requires
        dark(modules, width, row, col),
    ensures
        0 <= run_start(modules, width, row, col) <= col,
        run_starts(modules, width, row, run_start(modules, width, row, col)),
        col < run_start(modules, width, row, col) + run_len(
            modules,
            width,
            row,
            run_start(modules, width, row, col),
        ),
    decreases col,
{
    if col > 0 && dark(modules, width, row, col - 1) {
        the_run_begins(modules, width, row, col - 1);
        a_run_is_dark(modules, width, row, run_start(modules, width, row, col - 1));
    }
}

/// The image draws every dark module exactly once and no light one, and keeps
/// every bar within the pattern: the quiet zone around it stays white.
pub proof fn every_dark_module_is_drawn_once(modules: Seq<bool>, width: nat, row: int, col: int)
    requires
        0 <= row < width,
        0 <= col < width,
    ensures
        dark(modules, width, row, col) <==> exists|k: int|
            0 <= k < runs(modules, width, width as int).len() && draws(
                #[trigger] runs(modules, width, width as int)[k],
                row,
                col,
            ),
        forall|j: int, k: int|
            0 <= j < runs(modules, width, width as int).len() && 0 <= k < runs(
                modules,
                width,
                width as int,
            ).len() && draws(#[trigger] runs(modules, width, width as int)[j], row, col) && draws(
                #[trigger] runs(modules, width, width as int)[k],
                row,
                col,
            ) ==> j == k,
        forall|k: int|
            0 <= k < runs(modules, width, width as int).len() ==> {
                let run = #[trigger] runs(modules, width, width as int)[k];
                0 <= run.row < width && 0 <= run.start && run.len >= 1 && run.start + run.len
                    <= width
            },
{
    let all = runs(modules, width, width as int);
    runs_are_the_runs(modules, width, width as int);
    if dark(modules, width, row, col) {
        the_run_begins(modules, width, row, col);
        let s = run_start(modules, width, row, col);
        let k = choose|k: int|
            0 <= k < all.len() && (#[trigger] all[k]).row == row && all[k].start == s;
        assert(draws(all[k], row, col));
    }
    assert forall|k: int| 0 <= k < all.len() implies {
        let run = #[trigger] all[k];
        0 <= run.row < width && 0 <= run.start && run.len >= 1 && run.start + run.len <= width
    } by {
        a_run_is_dark(modules, width, all[k].row, all[k].start);
    }
    if exists|k: int| 0 <= k < all.len() && draws(#[trigger] all[k], row, col) {
        let k = choose|k: int| 0 <= k < all.len() && draws(#[trigger] all[k], row, col);
        a_run_is_dark(modules, width, row, all[k].start);
    }
    assert forall|j: int, k: int|
        0 <= j < all.len() && 0 <= k < all.len() && draws(#[trigger] all[j], row, col) && draws(
            #[trigger] all[k],
            row,
            col,
        ) implies j == k by {
        if j != k {
            let (a, b) = if all[j].start < all[k].start {
                (all[j], all[k])
            } else {
                (all[k], all[j])
            };
            a_run_is_dark(modules, width, row, a.start);
            assert(dark(modules, width, row, b.start - 1));
        }
    }
}

} // verus!
