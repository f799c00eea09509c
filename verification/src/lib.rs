//! Rendering a portion of a raster image to a string of terminal
//! escape-coded half-block glyphs.
//!
//! Each character cell shows two vertically stacked color samples: the top
//! sample as the background color and the bottom sample as the foreground
//! color of a lower-half-block glyph. One cell is encoded as
//! `ESC[48;2;{r};{g};{b}m ESC[38;2;{r};{g};{b}m` followed by the glyph, and
//! each row ends with the reset sequence `ESC[0m` and a newline.

pub mod pixel;
pub mod view;
pub mod viewport;

use crate::pixel::{chan, get_average_rgb, lemma_average_clamp, spec_average, Image};
use vstd::math::min;
use vstd::prelude::*;
use vstd::string::StringExecFns;

verus! {

/// The decimal digit `d` (for `0 <= d <= 9`) as a character.
pub open spec fn digit_char(d: int) -> char {
    if d == 0 {
        '0'
    } else if d == 1 {
        '1'
    } else if d == 2 {
        '2'
    } else if d == 3 {
        '3'
    } else if d == 4 {
        '4'
    } else if d == 5 {
        '5'
    } else if d == 6 {
        '6'
    } else if d == 7 {
        '7'
    } else if d == 8 {
        '8'
    } else {
        '9'
    }
}

/// The decimal digits of a channel value `0 <= n <= 255`, without leading
/// zeros.
pub open spec fn dec_chars(n: int) -> Seq<char> {
    if n < 10 {
        seq![digit_char(n)]
    } else if n < 100 {
        seq![digit_char(n / 10), digit_char(n % 10)]
    } else {
        seq![digit_char(n / 100), digit_char((n / 10) % 10), digit_char(n % 10)]
    }
}

/// Start of the background-color escape sequence: `ESC[48;2;`.
pub open spec fn bg_prefix() -> Seq<char> {
    seq!['\u{1b}', '[', '4', '8', ';', '2', ';']
}

/// Start of the foreground-color escape sequence: `ESC[38;2;`.
pub open spec fn fg_prefix() -> Seq<char> {
    seq!['\u{1b}', '[', '3', '8', ';', '2', ';']
}

/// End of a row: the reset sequence `ESC[0m` and a newline.
pub open spec fn row_end_chars() -> Seq<char> {
    seq!['\u{1b}', '[', '0', 'm', '\n']
}

/// The three decimal channel arguments of a truecolor escape sequence,
/// separated by semicolons.
pub open spec fn color_args_chars(r: int, g: int, b: int) -> Seq<char> {
    dec_chars(r) + seq![';'] + dec_chars(g) + seq![';'] + dec_chars(b)
}

/// One encoded cell: background set to the top color, foreground set to the
/// bottom color, then the lower-half-block glyph.
pub open spec fn cell_chars_colors(
    tr: int,
    tg: int,
    tb: int,
    br: int,
    bg: int,
    bb: int,
) -> Seq<char> {
    bg_prefix() + color_args_chars(tr, tg, tb) + seq!['m'] + fg_prefix() + color_args_chars(
        br,
        bg,
        bb,
    ) + seq!['m', '\u{2584}']
}

/// Channel `c` of the color sampled for the top half of cell `(x, y)`.
pub open spec fn top_color(img: Image, v: view::View, x: int, y: int, c: int) -> int {
    spec_average(img, v.cell_x(x), v.top_y(y), v.block_width(), v.half_block_height(), c)
}

/// Channel `c` of the color sampled for the bottom half of cell `(x, y)`.
pub open spec fn bottom_color(img: Image, v: view::View, x: int, y: int, c: int) -> int {
    spec_average(img, v.cell_x(x), v.bottom_y(y), v.block_width(), v.half_block_height(), c)
}

/// The encoded characters of cell `(x, y)`.
pub open spec fn cell_chars(img: Image, v: view::View, x: int, y: int) -> Seq<char> {
    cell_chars_colors(
        top_color(img, v, x, y, 0),
        top_color(img, v, x, y, 1),
        top_color(img, v, x, y, 2),
        bottom_color(img, v, x, y, 0),
        bottom_color(img, v, x, y, 1),
        bottom_color(img, v, x, y, 2),
    )
}

/// The first `n` cells of row `y`, concatenated left to right.
pub open spec fn row_prefix_chars(img: Image, v: view::View, y: int, n: int) -> Seq<char>
    decreases n,
{
    if n <= 0 {
        Seq::empty()
    } else {
        row_prefix_chars(img, v, y, n - 1) + cell_chars(img, v, n - 1, y)
    }
}

/// One full encoded row: all its cells followed by the reset sequence and a
/// newline.
pub open spec fn row_chars(img: Image, v: view::View, y: int) -> Seq<char> {
    row_prefix_chars(img, v, y, v.target_width as int) + row_end_chars()
}

/// The first `n` rows of the frame, concatenated top to bottom.
pub open spec fn frame_prefix_chars(img: Image, v: view::View, n: int) -> Seq<char>
    decreases n,
{
    if n <= 0 {
        Seq::empty()
    } else {
        frame_prefix_chars(img, v, n - 1) + row_chars(img, v, n - 1)
    }
}

/// The whole encoded frame: `target_height` rows, row-major, top to bottom.
pub open spec fn frame_chars(img: Image, v: view::View) -> Seq<char> {
    frame_prefix_chars(img, v, v.target_height as int)
}

/// Appends one decimal digit to the output.
fn append_digit(out: &mut String, d: u8)
    requires
        d < 10,
    ensures
        final(out)@ == old(out)@ + seq![digit_char(d as int)],
{
    if d == 0 {
        proof {
            reveal_strlit("0");
            assert("0"@ =~= seq![digit_char(0)]);
        }
        out.append("0");
    } else if d == 1 {
        proof {
            reveal_strlit("1");
            assert("1"@ =~= seq![digit_char(1)]);
        }
        out.append("1");
    } else if d == 2 {
        proof {
            reveal_strlit("2");
            assert("2"@ =~= seq![digit_char(2)]);
        }
        out.append("2");
    } else if d == 3 {
        proof {
            reveal_strlit("3");
            assert("3"@ =~= seq![digit_char(3)]);
        }
        out.append("3");
    } else if d == 4 {
        proof {
            reveal_strlit("4");
            assert("4"@ =~= seq![digit_char(4)]);
        }
        out.append("4");
    } else if d == 5 {
        proof {
            reveal_strlit("5");
            assert("5"@ =~= seq![digit_char(5)]);
        }
        out.append("5");
    } else if d == 6 {
        proof {
            reveal_strlit("6");
            assert("6"@ =~= seq![digit_char(6)]);
        }
        out.append("6");
    } else if d == 7 {
        proof {
            reveal_strlit("7");
            assert("7"@ =~= seq![digit_char(7)]);
        }
        out.append("7");
    } else if d == 8 {
        proof {
            reveal_strlit("8");
            assert("8"@ =~= seq![digit_char(8)]);
        }
        out.append("8");
    } else {
        proof {
            reveal_strlit("9");
            assert("9"@ =~= seq![digit_char(9)]);
        }
        out.append("9");
    }
}

/// Appends the decimal representation of a channel value to the output.
fn append_u8_decimal(out: &mut String, n: u8)
    ensures
        final(out)@ == old(out)@ + dec_chars(n as int),
{
    let ghost start = out@;
    if n >= 100 {
        append_digit(out, n / 100);
        append_digit(out, (n / 10) % 10);
        append_digit(out, n % 10);
        proof {
            assert(out@ =~= start + dec_chars(n as int));
        }
    } else if n >= 10 {
        append_digit(out, n / 10);
        append_digit(out, n % 10);
        proof {
            assert(out@ =~= start + dec_chars(n as int));
        }
    } else {
        append_digit(out, n);
        proof {
            assert(out@ =~= start + dec_chars(n as int));
        }
    }
}

/// Appends the encoding of one cell, from its two sampled colors.
#[verifier::rlimit(60)]
fn append_cell(out: &mut String, top: [u8; 3], bot: [u8; 3])
    ensures
        final(out)@ == old(out)@ + cell_chars_colors(
            chan(top, 0),
            chan(top, 1),
            chan(top, 2),
            chan(bot, 0),
            chan(bot, 1),
            chan(bot, 2),
        ),
{
    let ghost start = out@;
    proof {
        reveal_strlit("\u{1b}[48;2;");
        assert("\u{1b}[48;2;"@ =~= bg_prefix());
        reveal_strlit(";");
        assert(";"@ =~= seq![';']);
        reveal_strlit("m\u{1b}[38;2;");
        assert("m\u{1b}[38;2;"@ =~= seq!['m'] + fg_prefix());
        reveal_strlit("m\u{2584}");
        assert("m\u{2584}"@ =~= seq!['m', '\u{2584}']);
    }
    out.append("\u{1b}[48;2;");
    append_u8_decimal(out, top[0]);
    out.append(";");
    append_u8_decimal(out, top[1]);
    out.append(";");
    append_u8_decimal(out, top[2]);
    out.append("m\u{1b}[38;2;");
    proof {
        assert(out@ =~= start + bg_prefix() + color_args_chars(
            chan(top, 0),
            chan(top, 1),
            chan(top, 2),
        ) + seq!['m'] + fg_prefix());
    }
    append_u8_decimal(out, bot[0]);
    out.append(";");
    append_u8_decimal(out, bot[1]);
    out.append(";");
    append_u8_decimal(out, bot[2]);
    out.append("m\u{2584}");
    proof {
        assert(out@ =~= start + cell_chars_colors(
            chan(top, 0),
            chan(top, 1),
            chan(top, 2),
            chan(bot, 0),
            chan(bot, 1),
            chan(bot, 2),
        ));
    }
}

/// Number of occurrences of a character in a sequence.
pub open spec fn count_char(s: Seq<char>, c: char) -> int
    decreases s.len(),
{
    if s.len() == 0 {
        0
    } else {
        count_char(s.drop_last(), c) + if s.last() == c {
            1int
        } else {
            0int
        }
    }
}

/// Counting distributes over concatenation.
proof fn lemma_count_char_concat(a: Seq<char>, b: Seq<char>, c: char)
    ensures
        count_char(a + b, c) == count_char(a, c) + count_char(b, c),
    decreases b.len(),
{
    if b.len() == 0 {
        assert(a + b =~= a);
    } else {
        lemma_count_char_concat(a, b.drop_last(), c);
        assert((a + b).drop_last() =~= a + b.drop_last());
        assert((a + b).last() == b.last());
    }
}

/// A sequence without the character holds zero of it.
proof fn lemma_count_char_zero(s: Seq<char>, c: char)
    requires
        forall|i: int| 0 <= i < s.len() ==> s[i] != c,
    ensures
        count_char(s, c) == 0,
    decreases s.len(),
{
    if s.len() > 0 {
        lemma_count_char_zero(s.drop_last(), c);
    }
}

/// Count of a character in a one-element sequence.
proof fn lemma_count_char_singleton(x: char, c: char)
    ensures
        count_char(seq![x], c) == if x == c {
            1int
        } else {
            0int
        },
{
    lemma_count_char_zero(seq![x].drop_last(), c);
}

/// The decimal digits of a channel value contain neither a newline nor the
/// half-block glyph.
proof fn lemma_dec_chars_counts(n: int)
    ensures
        count_char(dec_chars(n), '\n') == 0,
        count_char(dec_chars(n), '\u{2584}') == 0,
{
    let s = dec_chars(n);
    assert forall|i: int| 0 <= i < s.len() implies s[i] != '\n' && s[i] != '\u{2584}' by {
        assert(s[i] == digit_char(n) || s[i] == digit_char(n / 10) || s[i] == digit_char(n % 10)
            || s[i] == digit_char(n / 100) || s[i] == digit_char((n / 10) % 10));
    }
    lemma_count_char_zero(s, '\n');
    lemma_count_char_zero(s, '\u{2584}');
}

/// One encoded cell holds exactly one half-block glyph and no newline.
proof fn lemma_cell_chars_counts(tr: int, tg: int, tb: int, br: int, bg: int, bb: int)
    ensures
        count_char(cell_chars_colors(tr, tg, tb, br, bg, bb), '\u{2584}') == 1,
        count_char(cell_chars_colors(tr, tg, tb, br, bg, bb), '\n') == 0,
{
    let glyph = '\u{2584}';
    let nl = '\n';
    let args_top = color_args_chars(tr, tg, tb);
    let args_bot = color_args_chars(br, bg, bb);
    assert forall|c: char| c == glyph || c == nl implies count_char(args_top, c) == 0 && count_char(
        args_bot,
        c,
    ) == 0 by {
        lemma_dec_chars_counts(tr);
        lemma_dec_chars_counts(tg);
        lemma_dec_chars_counts(tb);
        lemma_dec_chars_counts(br);
        lemma_dec_chars_counts(bg);
        lemma_dec_chars_counts(bb);
        lemma_count_char_singleton(';', c);
        lemma_count_char_concat(dec_chars(tr), seq![';'], c);
        lemma_count_char_concat(dec_chars(tr) + seq![';'], dec_chars(tg), c);
        lemma_count_char_concat(dec_chars(tr) + seq![';'] + dec_chars(tg), seq![';'], c);
        lemma_count_char_concat(dec_chars(tr) + seq![';'] + dec_chars(tg) + seq![';'], dec_chars(tb), c);
        lemma_count_char_concat(dec_chars(br), seq![';'], c);
        lemma_count_char_concat(dec_chars(br) + seq![';'], dec_chars(bg), c);
        lemma_count_char_concat(dec_chars(br) + seq![';'] + dec_chars(bg), seq![';'], c);
        lemma_count_char_concat(dec_chars(br) + seq![';'] + dec_chars(bg) + seq![';'], dec_chars(bb), c);
    }
    assert forall|c: char| c == glyph || c == nl implies count_char(bg_prefix(), c) == 0
        && count_char(fg_prefix(), c) == 0 && count_char(seq!['m'], c) == 0 by {
        lemma_count_char_zero(bg_prefix(), c);
        lemma_count_char_zero(fg_prefix(), c);
        lemma_count_char_singleton('m', c);
    }
    assert(count_char(seq!['m', glyph], glyph) == 1 && count_char(seq!['m', glyph], nl) == 0) by {
        assert(seq!['m', glyph] =~= seq!['m'] + seq![glyph]);
        lemma_count_char_singleton('m', glyph);
        lemma_count_char_singleton(glyph, glyph);
        lemma_count_char_concat(seq!['m'], seq![glyph], glyph);
        lemma_count_char_singleton('m', nl);
        lemma_count_char_singleton(glyph, nl);
        lemma_count_char_concat(seq!['m'], seq![glyph], nl);
    }
    assert forall|c: char| c == glyph || c == nl implies count_char(
        cell_chars_colors(tr, tg, tb, br, bg, bb),
        c,
    ) == count_char(seq!['m', glyph], c) by {
        lemma_count_char_concat(bg_prefix(), args_top, c);
        lemma_count_char_concat(bg_prefix() + args_top, seq!['m'], c);
        lemma_count_char_concat(bg_prefix() + args_top + seq!['m'], fg_prefix(), c);
        lemma_count_char_concat(bg_prefix() + args_top + seq!['m'] + fg_prefix(), args_bot, c);
        lemma_count_char_concat(
            bg_prefix() + args_top + seq!['m'] + fg_prefix() + args_bot,
            seq!['m', glyph],
            c,
        );
    }
}

/// The first `n` cells of a row hold `n` glyphs and no newline.
proof fn lemma_row_prefix_counts(img: Image, v: view::View, y: int, n: int)
    requires
        0 <= n,
    ensures
        count_char(row_prefix_chars(img, v, y, n), '\u{2584}') == n,
        count_char(row_prefix_chars(img, v, y, n), '\n') == 0,
    decreases n,
{
    if n > 0 {
        lemma_row_prefix_counts(img, v, y, n - 1);
        lemma_cell_chars_counts(
            top_color(img, v, n - 1, y, 0),
            top_color(img, v, n - 1, y, 1),
            top_color(img, v, n - 1, y, 2),
            bottom_color(img, v, n - 1, y, 0),
            bottom_color(img, v, n - 1, y, 1),
            bottom_color(img, v, n - 1, y, 2),
        );
        lemma_count_char_concat(row_prefix_chars(img, v, y, n - 1), cell_chars(img, v, n - 1, y), '\u{2584}');
        lemma_count_char_concat(row_prefix_chars(img, v, y, n - 1), cell_chars(img, v, n - 1, y), '\n');
    }
}

/// One encoded row holds exactly `target_width` glyphs and exactly one
/// newline, which is its last character.
proof fn lemma_row_chars_counts(img: Image, v: view::View, y: int)
    ensures
        count_char(row_chars(img, v, y), '\u{2584}') == v.target_width as int,
        count_char(row_chars(img, v, y), '\n') == 1,
        row_chars(img, v, y).len() > 0,
        row_chars(img, v, y).last() == '\n',
{
    let glyph = '\u{2584}';
    lemma_row_prefix_counts(img, v, y, v.target_width as int);
    assert(count_char(row_end_chars(), glyph) == 0) by {
        lemma_count_char_zero(row_end_chars(), glyph);
    }
    assert(count_char(row_end_chars(), '\n') == 1) by {
        assert(row_end_chars().drop_last() =~= seq!['\u{1b}', '[', '0', 'm']);
        lemma_count_char_zero(seq!['\u{1b}', '[', '0', 'm'], '\n');
    }
    lemma_count_char_concat(row_prefix_chars(img, v, y, v.target_width as int), row_end_chars(), glyph);
    lemma_count_char_concat(row_prefix_chars(img, v, y, v.target_width as int), row_end_chars(), '\n');
    assert(row_chars(img, v, y).last() == row_end_chars().last());
}

/// The first `n` rows of a frame hold `n * target_width` glyphs and `n`
/// newlines.
proof fn lemma_frame_prefix_counts(img: Image, v: view::View, n: int)
    requires
        0 <= n,
    ensures
        count_char(frame_prefix_chars(img, v, n), '\u{2584}') == n * v.target_width as int,
        count_char(frame_prefix_chars(img, v, n), '\n') == n,
    decreases n,
{
    let glyph = '\u{2584}';
    let w = v.target_width as int;
    if n == 0 {
        assert(0int * w == 0) by (nonlinear_arith);
    } else {
        lemma_frame_prefix_counts(img, v, n - 1);
        lemma_row_chars_counts(img, v, n - 1);
        lemma_count_char_concat(frame_prefix_chars(img, v, n - 1), row_chars(img, v, n - 1), glyph);
        lemma_count_char_concat(frame_prefix_chars(img, v, n - 1), row_chars(img, v, n - 1), '\n');
        assert((n - 1) * w + w == n * w) by (nonlinear_arith);
    }
}

/// Law: a rendered frame consists of exactly `target_height` rows, each of
/// exactly `target_width` glyphs. The frame is the concatenation of its
/// `target_height` rows; it holds one newline per row; and each row holds
/// exactly `target_width` half-block glyphs and ends with its only newline.
pub proof fn lemma_frame_shape(img: Image, v: view::View)
    ensures
        count_char(frame_chars(img, v), '\n') == v.target_height as int,
        count_char(frame_chars(img, v), '\u{2584}') == v.target_height as int
            * v.target_width as int,
        forall|y: int|
            0 <= y < v.target_height as int ==> count_char(
                #[trigger] row_chars(img, v, y),
                '\u{2584}',
            ) == v.target_width as int && count_char(row_chars(img, v, y), '\n') == 1 && row_chars(
                img,
                v,
                y,
            ).last() == '\n',
{
    lemma_frame_prefix_counts(img, v, v.target_height as int);
    assert forall|y: int| 0 <= y < v.target_height as int implies count_char(
        #[trigger] row_chars(img, v, y),
        '\u{2584}',
    ) == v.target_width as int && count_char(row_chars(img, v, y), '\n') == 1 && row_chars(
        img,
        v,
        y,
    ).last() == '\n' by {
        lemma_row_chars_counts(img, v, y);
    }
}

/// Law: rendering is deterministic. The encoded frame is a function of the
/// image and the view alone, so two renders of identical inputs produce
/// identical text.
pub proof fn lemma_render_deterministic(
    img1: Image,
    v1: view::View,
    img2: Image,
    v2: view::View,
)
    requires
        img1 == img2,
        v1 == v2,
    ensures
        frame_chars(img1, v1) == frame_chars(img2, v2),
{
}

/// The smaller of two unsigned values.
fn min_u64(a: u64, b: u64) -> (r: u64)
    ensures
        r as int == min(a as int, b as int),
{
    if a < b {
        a
    } else {
        b
    }
}

/// Renders a portion of an image to a string using half-block characters.
///
/// The rendering is defined by the `View` struct, which maps a source
/// rectangle from the image to a target area in the terminal. The output is
/// exactly the encoded frame: `target_height` rows, each of `target_width`
/// encoded cells followed by the reset sequence and a newline, top to bottom
/// and left to right. It is a pure function of the image and the view.
pub fn render(image: &Image, view: &view::View) -> (out: String)
    requires
        image.wf(),
        view.wf(),
    ensures
        out@ == frame_chars(*image, *view),
{
    let mut output = String::new();
    let iw: u64 = image.width as u64;
    let ih: u64 = image.height as u64;
    let sw: u64 = view.source_width as u64;
    let sh: u64 = view.source_height as u64;
    let tw: u64 = view.target_width as u64;
    let th: u64 = view.target_height as u64;

    // The dimensions in source pixels of the block sampled for each
    // half-cell: the rounded ratios, at least one pixel each.
    let block_width: u64 = {
        let q = (2 * sw + tw) / (2 * tw);
        if q < 1 {
            1
        } else {
            q
        }
    };
    let half_height: u64 = {
        let q = (sh + th) / (2 * th);
        if q < 1 {
            1
        } else {
            q
        }
    };
    proof {
        assert(block_width as int == view.block_width());
        assert(half_height as int == view.half_block_height());
        vstd::arithmetic::div_mod::lemma_div_nonincreasing((sh + th) as int, (2 * th) as int);
    }

    let mut y: u32 = 0;
    while y < view.target_height
        invariant
            image.wf(),
            view.wf(),
            y <= view.target_height,
            iw == image.width as u64,
            ih == image.height as u64,
            sw == view.source_width as u64,
            sh == view.source_height as u64,
            tw == view.target_width as u64,
            th == view.target_height as u64,
            block_width as int == view.block_width(),
            half_height as int == view.half_block_height(),
            half_height <= sh + th,
            output@ == frame_prefix_chars(*image, *view, y as int),
        decreases view.target_height - y,
    {
        proof {
            vstd::arithmetic::mul::lemma_mul_upper_bound(
                y as int,
                u32::MAX as int,
                sh as int,
                u32::MAX as int,
            );
            vstd::arithmetic::mul::lemma_mul_nonnegative(y as int, sh as int);
            vstd::arithmetic::mul::lemma_mul_inequality(y as int, th as int, sh as int);
            vstd::arithmetic::div_mod::lemma_div_multiples_vanish(sh as int, th as int);
            vstd::arithmetic::div_mod::lemma_div_is_ordered(
                y as int * sh as int,
                th as int * sh as int,
                th as int,
            );
        }
        let top_y: u64 = view.source_y as u64 + (y as u64) * sh / th;
        let bot_y: u64 = top_y + half_height;
        proof {
            assert(top_y as int == view.top_y(y as int));
            assert(bot_y as int == view.bottom_y(y as int));
        }
        let mut x: u32 = 0;
        while x < view.target_width
            invariant
                image.wf(),
                view.wf(),
                x <= view.target_width,
                y < view.target_height,
                iw == image.width as u64,
                ih == image.height as u64,
                sw == view.source_width as u64,
                sh == view.source_height as u64,
                tw == view.target_width as u64,
                th == view.target_height as u64,
                block_width as int == view.block_width(),
                half_height as int == view.half_block_height(),
                top_y as int == view.top_y(y as int),
                bot_y as int == view.bottom_y(y as int),
                output@ == frame_prefix_chars(*image, *view, y as int) + row_prefix_chars(
                    *image,
                    *view,
                    y as int,
                    x as int,
                ),
            decreases view.target_width - x,
        {
            proof {
                vstd::arithmetic::mul::lemma_mul_upper_bound(
                    x as int,
                    u32::MAX as int,
                    sw as int,
                    u32::MAX as int,
                );
                vstd::arithmetic::mul::lemma_mul_nonnegative(x as int, sw as int);
                vstd::arithmetic::div_mod::lemma_div_nonincreasing(
                    (x as u64 * sw) as int,
                    tw as int,
                );
            }
            let cx: u64 = view.source_x as u64 + (x as u64) * sw / tw;
            proof {
                assert(cx as int == view.cell_x(x as int));
            }
            let top = get_average_rgb(
                image,
                min_u64(cx, iw) as u32,
                min_u64(top_y, ih) as u32,
                min_u64(block_width, iw) as u32,
                min_u64(half_height, ih) as u32,
            );
            let bot = get_average_rgb(
                image,
                min_u64(cx, iw) as u32,
                min_u64(bot_y, ih) as u32,
                min_u64(block_width, iw) as u32,
                min_u64(half_height, ih) as u32,
            );
            proof {
                lemma_average_clamp(
                    *image,
                    cx as int,
                    top_y as int,
                    block_width as int,
                    half_height as int,
                    0,
                );
                lemma_average_clamp(
                    *image,
                    cx as int,
                    top_y as int,
                    block_width as int,
                    half_height as int,
                    1,
                );
                lemma_average_clamp(
                    *image,
                    cx as int,
                    top_y as int,
                    block_width as int,
                    half_height as int,
                    2,
                );
                lemma_average_clamp(
                    *image,
                    cx as int,
                    bot_y as int,
                    block_width as int,
                    half_height as int,
                    0,
                );
                lemma_average_clamp(
                    *image,
                    cx as int,
                    bot_y as int,
                    block_width as int,
                    half_height as int,
                    1,
                );
                lemma_average_clamp(
                    *image,
                    cx as int,
                    bot_y as int,
                    block_width as int,
                    half_height as int,
                    2,
                );
                assert(chan(top, 0) == top_color(*image, *view, x as int, y as int, 0));
                assert(chan(top, 1) == top_color(*image, *view, x as int, y as int, 1));
                assert(chan(top, 2) == top_color(*image, *view, x as int, y as int, 2));
                assert(chan(bot, 0) == bottom_color(*image, *view, x as int, y as int, 0));
                assert(chan(bot, 1) == bottom_color(*image, *view, x as int, y as int, 1));
                assert(chan(bot, 2) == bottom_color(*image, *view, x as int, y as int, 2));
            }
            append_cell(&mut output, top, bot);
            x = x + 1;
            proof {
                assert(output@ =~= frame_prefix_chars(*image, *view, y as int) + row_prefix_chars(
                    *image,
                    *view,
                    y as int,
                    x as int,
                ));
            }
        }
        proof {
            reveal_strlit("\u{1b}[0m\n");
            assert("\u{1b}[0m\n"@ =~= row_end_chars());
        }
        output.append("\u{1b}[0m\n");
        y = y + 1;
        proof {
            assert(output@ =~= frame_prefix_chars(*image, *view, y as int));
        }
    }
    proof {
        assert(output@ =~= frame_chars(*image, *view));
    }
    output
}

} // verus!
