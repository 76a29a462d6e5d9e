//! What the image of a QR code shows to someone who reads its SVG, and of which
//! texts there is one.
use vstd::prelude::*;
use vstd::string::*;

use crate::qr::{
    bar, bars, cell, dark, draws, drawn, every_dark_module_is_drawn_once, five_alike, image, line_score,
    qr_candidates, qr_code, runs, score_fits, score_to, scores_fit, Run,
};
use crate::text::{all_digits, bytes_of, decimal, decimal_reads_back, digits_value, is_digit};

verus! {

/// A bar that a path draws: one module high, from a place on to the right.
pub struct Bar {
    pub x: nat,
    pub y: nat,
    pub len: nat,
}

/// How many digits a text begins with.
pub open spec fn leading_digits(s: Seq<char>) -> nat
    decreases s.len(),
{
    if s.len() == 0 || !('0' <= s[0] <= '9') {
        0
    } else {
        1 + leading_digits(s.drop_first())
    }
}

/// The number that a text begins with, and what stands behind it.
pub open spec fn read_number(s: Seq<char>) -> Option<(nat, Seq<char>)> {
    let n = leading_digits(s) as int;
    if n == 0 {
        None
    } else {
        Some((digits_value(s.take(n)), s.skip(n)))
    }
}

/// What stands behind a word that a text begins with.
pub open spec fn read_word(s: Seq<char>, word: Seq<char>) -> Option<Seq<char>> {
    if s.len() >= word.len() && s.take(word.len() as int) == word {
        Some(s.skip(word.len() as int))
    } else {
        None
    }
}

/// The number behind a word that a text begins with, and what stands behind
/// the number.
pub open spec fn read_field(s: Seq<char>, word: Seq<char>) -> Option<(nat, Seq<char>)> {
    match read_word(s, word) {
        Some(rest) => read_number(rest),
        None => None,
    }
}

/// The bar that a path begins with: `M` and where it starts, `h` and how far it
/// goes, one down, as far back, and `z`; and what stands behind it.
pub open spec fn read_bar(s: Seq<char>) -> Option<(Bar, Seq<char>)> {
    match read_field(s, "M"@) {
        Some((x, s)) => match read_field(s, " "@) {
            Some((y, s)) => match read_field(s, "h"@) {
                Some((len, s)) => match read_field(s, "v1h-"@) {
                    Some((back, s)) => match read_word(s, "z"@) {
                        Some(s) => if back == len {
                            Some((Bar { x, y, len }, s))
                        } else {
                            None
                        },
                        None => None,
                    },
                    None => None,
                },
                None => None,
            },
            None => None,
        },
        None => None,
    }
}

/// The bars of a path, where it is made of nothing else.
pub open spec fn read_bars(s: Seq<char>) -> Option<Seq<Bar>>
    decreases s.len(),
{
    if s.len() == 0 {
        Some(Seq::empty())
    } else {
        match read_bar(s) {
            Some((first, rest)) => if rest.len() < s.len() {
                match read_bars(rest) {
                    Some(others) => Some(Seq::empty().push(first) + others),
                    None => None,
                }
            } else {
                None
            },
            None => None,
        }
    }
}

/// Whether a bar covers a place of the image.
pub open spec fn covers(bar: Bar, x: int, y: int) -> bool {
    bar.y == y && bar.x <= x < bar.x + bar.len
}

proof fn digits_lead(digits: Seq<char>, rest: Seq<char>)
    requires
        all_digits(digits),
        rest.len() == 0 || !is_digit(rest[0]),
    ensures
        leading_digits(digits + rest) == digits.len(),
    decreases digits.len(),
{
    let s = digits + rest;
    if digits.len() == 0 {
        assert(s =~= rest);
    } else {
        assert(is_digit(digits[0]));
        assert(s.drop_first() =~= digits.drop_first() + rest);
        assert forall|i: int| 0 <= i < digits.drop_first().len() implies is_digit(
            #[trigger] digits.drop_first()[i],
        ) by {
            assert(is_digit(digits[i + 1]));
        }
        digits_lead(digits.drop_first(), rest);
    }
}

proof fn a_field_reads_back(word: Seq<char>, n: nat, rest: Seq<char>)
    requires
        rest.len() == 0 || !is_digit(rest[0]),
    ensures
        read_field(word + decimal(n) + rest, word) == Some((n, rest)),
{
    let d = decimal(n);
    let s = word + d + rest;
    decimal_reads_back(n);
    digits_lead(d, rest);
    assert(s.take(word.len() as int) =~= word);
    assert(s.skip(word.len() as int) =~= d + rest);
    assert((d + rest).take(d.len() as int) =~= d);
    assert((d + rest).skip(d.len() as int) =~= rest);
}

proof fn a_bar_reads_back(run: Run, rest: Seq<char>)
    requires
        run.row >= 0,
        run.start >= 0,
        run.len >= 0,
    ensures
        read_bar(bar(run) + rest) == Some(
            (
                Bar { x: (run.start + 4) as nat, y: (run.row + 4) as nat, len: run.len as nat },
                rest,
            ),
        ),
        bar(run).len() > 0,
{
    reveal_strlit("M");
    reveal_strlit(" ");
    reveal_strlit("h");
    reveal_strlit("v1h-");
    reveal_strlit("z");
    let x = (run.start + 4) as nat;
    let y = (run.row + 4) as nat;
    let len = run.len as nat;
    let s4 = "z"@ + rest;
    let s3 = "v1h-"@ + decimal(len) + s4;
    let s2 = "h"@ + decimal(len) + s3;
    let s1 = " "@ + decimal(y) + s2;
    let s0 = "M"@ + decimal(x) + s1;
    assert(bar(run) + rest =~= s0);
    a_field_reads_back("M"@, x, s1);
    a_field_reads_back(" "@, y, s2);
    a_field_reads_back("h"@, len, s3);
    a_field_reads_back("v1h-"@, len, s4);
    assert(s4.take(1) =~= "z"@);
    assert(s4.skip(1) =~= rest);
}

proof fn bars_from_the_front(all: Seq<Run>)
    requires
        all.len() > 0,
    ensures
        bars(all) == bar(all[0]) + bars(all.drop_first()),
    decreases all.len(),
{
    if all.len() == 1 {
        assert(all.drop_last() =~= Seq::<Run>::empty());
        assert(all.drop_first() =~= Seq::<Run>::empty());
        assert(bars(all.drop_last()) =~= Seq::<char>::empty());
        assert(bars(all.drop_first()) =~= Seq::<char>::empty());
        assert(bars(all) =~= bar(all[0]));
        assert(bar(all[0]) + bars(all.drop_first()) =~= bar(all[0]));
    } else {
        bars_from_the_front(all.drop_last());
        assert(all.drop_last().drop_first() =~= all.drop_first().drop_last());
        assert(bars(all) =~= bar(all[0]) + bars(all.drop_first()));
    }
}

proof fn bars_read_back(all: Seq<Run>)
    requires
        forall|k: int|
            0 <= k < all.len() ==> {
                let run = #[trigger] all[k];
                run.row >= 0 && run.start >= 0 && run.len >= 0
            },
    ensures
        read_bars(bars(all)) is Some,
        read_bars(bars(all))->0.len() == all.len(),
        forall|k: int|
            0 <= k < all.len() ==> #[trigger] read_bars(bars(all))->0[k] == (Bar {
                x: (all[k].start + 4) as nat,
                y: (all[k].row + 4) as nat,
                len: all[k].len as nat,
            }),
    decreases all.len(),
{
    if all.len() > 0 {
        let rest = all.drop_first();
        assert forall|k: int| 0 <= k < rest.len() implies {
            let run = #[trigger] rest[k];
            run.row >= 0 && run.start >= 0 && run.len >= 0
        } by {
            assert(rest[k] == all[k + 1]);
        }
        bars_read_back(rest);
        bars_from_the_front(all);
        a_bar_reads_back(all[0], bars(rest));
        let read = read_bars(bars(all))->0;
        assert forall|k: int| 0 <= k < all.len() implies #[trigger] read[k] == (Bar {
            x: (all[k].start + 4) as nat,
            y: (all[k].row + 4) as nat,
            len: all[k].len as nat,
        }) by {
            if k > 0 {
                assert(read[k] == read_bars(bars(rest))->0[k - 1]);
                assert(all[k] == rest[k - 1]);
            }
        }
    }
}

/// The opening of an image of a size: a white square, and the start of a path.
pub open spec fn opening(side: nat) -> Seq<char> {
    "<svg xmlns=\"http://www.w3.org/2000/svg\" viewBox=\"0 0 "@ + decimal(side) + " "@ + decimal(
        side,
    ) + "\" shape-rendering=\"crispEdges\"><rect width=\""@ + decimal(side) + "\" height=\""@
        + decimal(side) + "\" fill=\"#fff\"/><path d=\""@
}

/// Whether a path, read bar by bar, blackens the dark modules of a code and
/// nothing else on a square four modules larger on each side: a place is under
/// exactly one bar where its module is dark, and under none where it is light
/// or in the margin.
pub open spec fn shows(path: Seq<char>, width: nat, modules: Seq<bool>) -> bool {
    match read_bars(path) {
        Some(all) => {
            &&& forall|x: int, y: int|
                #![trigger modules[(y - 4) * width + (x - 4)]]
                4 <= x < width + 4 && 4 <= y < width + 4 ==> (modules[(y - 4) * width + (x - 4)]
                    <==> exists|k: int| 0 <= k < all.len() && covers(#[trigger] all[k], x, y))
            &&& forall|x: int, y: int, j: int, k: int|
                0 <= j < all.len() && 0 <= k < all.len() && #[trigger] covers(all[j], x, y)
                    && #[trigger] covers(all[k], x, y) ==> j == k
            &&& forall|k: int|
                0 <= k < all.len() ==> {
                    let bar = #[trigger] all[k];
                    4 <= bar.x && bar.x + bar.len <= width + 4 && 4 <= bar.y < width + 4
                }
        },
        None => false,
    }
}

/// Whoever reads the image of a code sees the code: its SVG is a white square
/// four modules larger on each side, and a path whose bars blacken every dark
/// module, each once, and nothing else.
pub proof fn the_image_shows_the_code(width: nat, modules: Seq<bool>)
    requires
        modules.len() == width * width,
    ensures
        exists|path: Seq<char>|
            #[trigger] shows(path, width, modules) && image(width, modules) == opening(width + 8)
                + path + "\" fill=\"#000\"/></svg>"@,
{
    let all = runs(modules, width, width as int);
    let path = bars(all);
    if width > 0 {
        every_dark_module_is_drawn_once(modules, width, 0, 0);
    } else {
        assert(all =~= Seq::<Run>::empty());
    }
    bars_read_back(all);
    let read = read_bars(path)->0;
    assert forall|x: int, y: int|
        #![trigger modules[(y - 4) * width + (x - 4)]]
        4 <= x < width + 4 && 4 <= y < width + 4 implies (modules[(y - 4) * width + (x - 4)]
        <==> exists|k: int| 0 <= k < read.len() && covers(#[trigger] read[k], x, y)) by {
        every_dark_module_is_drawn_once(modules, width, y - 4, x - 4);
        assert(modules[(y - 4) * width + (x - 4)] == dark(modules, width, y - 4, x - 4));
        if dark(modules, width, y - 4, x - 4) {
            let k = choose|k: int| 0 <= k < all.len() && draws(#[trigger] all[k], y - 4, x - 4);
            assert(covers(read[k], x, y));
        }
        if exists|k: int| 0 <= k < read.len() && covers(#[trigger] read[k], x, y) {
            let k = choose|k: int| 0 <= k < read.len() && covers(#[trigger] read[k], x, y);
            assert(draws(all[k], y - 4, x - 4));
        }
    }
    assert forall|x: int, y: int, j: int, k: int|
        0 <= j < read.len() && 0 <= k < read.len() && #[trigger] covers(read[j], x, y)
            && #[trigger] covers(read[k], x, y) implies j == k by {
        assert(0 <= all[j].row < width);
        assert(0 <= y - 4 < width && 0 <= x - 4 < width);
        every_dark_module_is_drawn_once(modules, width, y - 4, x - 4);
        assert(draws(all[j], y - 4, x - 4));
        assert(draws(all[k], y - 4, x - 4));
    }
    assert(shows(path, width, modules));
    assert(image(width, modules) =~= opening(width + 8) + path + "\" fill=\"#000\"/></svg>"@);
}

/// A text has an image exactly where it is not empty, has at most 4096 bytes,
/// none of them a control byte, and `qrcode` can hold it; the image is that of
/// the code that `qrcode` makes. Every other is refused with a word that says
/// which of the two it was.
pub proof fn of_which_texts_there_is_an_image(text: Seq<char>)
    ensures
        ({
            let bytes = bytes_of(text);
            let fair = text.len() > 0 && bytes.len() <= 4096 && forall|i: int|
                0 <= i < bytes.len() ==> 32 <= #[trigger] bytes[i] && bytes[i] != 127;
            &&& !fair <==> drawn(text) == Err::<Seq<char>, &'static str>("invalid_params")
            &&& fair && qr_code(bytes) is None <==> drawn(text) == Err::<Seq<char>, &'static str>(
                "lnemail_qr_failed",
            )
            &&& fair && qr_code(bytes) is Some <==> drawn(text) is Ok
            &&& forall|width: nat, modules: Seq<bool>|
                fair && qr_code(bytes) == Some((width, modules)) ==> drawn(text) == Ok::<
                    Seq<char>,
                    &'static str,
                >(#[trigger] image(width, modules))
        }),
{
    let bytes = bytes_of(text);
    assert("invalid_params" != "lnemail_qr_failed") by {
        reveal_strlit("invalid_params");
        reveal_strlit("lnemail_qr_failed");
    }
}

/// The module at a row and a column; none beyond the edges is dark.
pub open spec fn at(modules: Seq<bool>, width: nat, row: int, col: int) -> bool {
    0 <= row < width && 0 <= col < width && modules[row * width + col]
}

/// The points for five alike that start at a place of a line: three where the
/// run begins there, and one where it began before.
pub open spec fn points_of_run(line: spec_fn(int) -> bool, width: nat, k: int) -> int {
    if !(k + 4 < width && forall|j: int| k <= j <= k + 4 ==> #[trigger] line(j) == line(k)) {
        0
    } else if k == 0 || line(k - 1) != line(k) {
        3
    } else {
        1
    }
}

/// The points for a likeness of a finder that starts at a place of a line.
pub open spec fn points_of_finder(line: spec_fn(int) -> bool, width: nat, k: int) -> int {
    if k + 6 < width && line(k) && !line(k + 1) && line(k + 2) && line(k + 3) && line(k + 4)
        && !line(k + 5) && line(k + 6) && ((forall|j: int|
        k - 4 <= j < k ==> !#[trigger] line(j)) || (forall|j: int|
        k + 7 <= j < k + 11 ==> !#[trigger] line(j))) {
        40
    } else {
        0
    }
}

proof fn line_points(
    modules: Seq<bool>,
    width: nat,
    across: bool,
    i: int,
    k: int,
    line: spec_fn(int) -> bool,
)
    requires
        0 <= k < width,
        forall|j: int| #[trigger] line(j) == cell(modules, width, across, i, j),
    ensures
        line_score(modules, width, across, i, k) == points_of_run(line, width, k)
            + points_of_finder(line, width, k),
{
    let c = |j: int| cell(modules, width, across, i, k + j);
    assert forall|j: int| #[trigger] line(j) == c(j - k) by {}
    assert(line(k) == c(0) && line(k + 1) == c(1) && line(k + 2) == c(2) && line(k + 3) == c(3)
        && line(k + 4) == c(4) && line(k + 5) == c(5) && line(k + 6) == c(6) && line(k + 7) == c(7)
        && line(k + 8) == c(8) && line(k + 9) == c(9) && line(k + 10) == c(10));
    assert(line(k - 1) == c(-1) && line(k - 2) == c(-2) && line(k - 3) == c(-3) && line(k - 4) == c(
        -4,
    ));
    if five_alike(modules, width, across, i, k) {
        assert forall|j: int| k <= j <= k + 4 implies #[trigger] line(j) == line(k) by {
            assert(j == k || j == k + 1 || j == k + 2 || j == k + 3 || j == k + 4);
        }
    }
    if forall|j: int| k <= j <= k + 4 ==> #[trigger] line(j) == line(k) {
        assert(c(0) == c(1) && c(1) == c(2) && c(2) == c(3) && c(3) == c(4));
    }
    if !c(-1) && !c(-2) && !c(-3) && !c(-4) {
        assert forall|j: int| k - 4 <= j < k implies !#[trigger] line(j) by {
            assert(j == k - 1 || j == k - 2 || j == k - 3 || j == k - 4);
        }
    }
    if !c(7) && !c(8) && !c(9) && !c(10) {
        assert forall|j: int| k + 7 <= j < k + 11 implies !#[trigger] line(j) by {
            assert(j == k + 7 || j == k + 8 || j == k + 9 || j == k + 10);
        }
    }
}

/// How a code is scored: place by place, row by row, with what the runs of its
/// row and its column and the likenesses of a finder in them come to, and three
/// for a block of four alike; and the score fits where 16 bits hold it with a
/// hundred to spare.
pub proof fn how_a_code_is_scored(modules: Seq<bool>, width: nat, row: int, col: int)
    requires
        0 <= row < width,
        0 <= col < width,
    ensures
        ({
            let across = |j: int| at(modules, width, row, j);
            let down = |j: int| at(modules, width, j, col);
            let here = at(modules, width, row, col);
            let block: int = if row + 1 < width && col + 1 < width && at(
                modules,
                width,
                row,
                col + 1,
            ) == here && at(modules, width, row + 1, col) == here && at(
                modules,
                width,
                row + 1,
                col + 1,
            ) == here {
                3
            } else {
                0
            };
            score_to(modules, width, row, col + 1) == score_to(modules, width, row, col)
                + points_of_run(across, width, col) + points_of_run(down, width, row)
                + points_of_finder(across, width, col) + points_of_finder(down, width, row) + block
        }),
        score_to(modules, width, 0, 0) == 0,
        score_to(modules, width, row + 1, 0) == score_to(modules, width, row, width as int),
        score_fits(modules, width) <==> score_to(modules, width, width as int, 0) + 100 <= 65535,
{
    let across = |j: int| at(modules, width, row, j);
    let down = |j: int| at(modules, width, j, col);
    assert forall|j: int| #[trigger] across(j) == cell(modules, width, true, row, j) by {}
    assert forall|j: int| #[trigger] down(j) == cell(modules, width, false, col, j) by {}
    line_points(modules, width, true, row, col, across);
    line_points(modules, width, false, col, row, down);
}

/// A text can be drawn where the scores under all masks fit, and where it cannot
/// be held at all.
pub proof fn when_a_text_can_be_drawn(data: Seq<u8>, width: nat, codes: Seq<Seq<bool>>, k: int)
    ensures
        qr_candidates(data) is None ==> scores_fit(data),
        qr_candidates(data) == Some((width, codes)) && scores_fit(data) && 0 <= k < codes.len()
            ==> score_fits(codes[k], width),
        qr_candidates(data) == Some((width, codes)) && !scores_fit(data) ==> exists|j: int|
            0 <= j < codes.len() && !score_fits(#[trigger] codes[j], width),
{
}

} // verus!
