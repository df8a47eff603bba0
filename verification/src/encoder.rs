//! The colour and run encoder: from a frame of pixels to rendered text.
//!
//! Cells are written in row-major order. Each cell gives one glyph. The
//! escape that sets the colour is written before a glyph only where the
//! colour differs from that of the cell before it in the same row. Every row
//! that has a colour set is closed with a reset, before the line break or at
//! the end of the text.

use vstd::prelude::*;
use vstd::string::*;
use vstd::arithmetic::div_mod::lemma_fundamental_div_mod_converse;
use crate::escape::{
    color_prefix, color_suffix, decimal, digit, lemma_text_of_concat, lemma_text_of_one, text_of,
    token_text, Token,
};
use crate::luminance::{get_char_for_pixel, glyph_for, max_intensity, max_intensity_in_frame};
use crate::pixel::{Color, Pixel, PixelBuffer};

verus! {

/// `String::push` puts one character at the end of the string.
pub assume_specification[ String::push ](sink: &mut String, ch: char)
    ensures
        final(sink)@ == old(sink)@.push(ch),
;

/// Whether the cell at `index` is the first of a row other than the first.
pub open spec fn starts_row(width: nat, index: int) -> bool
    recommends
        width > 0,
{
    index > 0 && index % (width as int) == 0
}

/// Whether the colour is set anew at the cell at `index`: at the first cell
/// of every row, and wherever the colour differs from that of the cell
/// before.
pub open spec fn starts_run(pixels: Seq<Pixel>, width: nat, index: int) -> bool
    recommends
        width > 0,
        0 <= index < pixels.len(),
{
    index % (width as int) == 0 || pixels[index].color_of() != pixels[index - 1].color_of()
}

/// What is written for the cell at `index`: the end of the row before it if
/// the cell starts a row, the colour if it starts a run, and its glyph.
pub open spec fn cell_tokens(
    pixels: Seq<Pixel>,
    width: nat,
    alpha_threshold: u8,
    maximum: nat,
    index: int,
) -> Seq<Token>
    recommends
        width > 0,
        0 <= index < pixels.len(),
{
    let row_end = if starts_row(width, index) {
        seq![Token::Reset, Token::LineBreak]
    } else {
        Seq::empty()
    };
    let color = if starts_run(pixels, width, index) {
        seq![Token::SetColor(pixels[index].color_of())]
    } else {
        Seq::empty()
    };
    row_end + color + seq![Token::Glyph(glyph_for(pixels[index], alpha_threshold, maximum))]
}

/// What is written for the first `count` cells.
pub open spec fn tokens_before(
    pixels: Seq<Pixel>,
    width: nat,
    alpha_threshold: u8,
    maximum: nat,
    count: nat,
) -> Seq<Token>
    recommends
        width > 0,
        count <= pixels.len(),
    decreases count,
{
    if count == 0 {
        Seq::empty()
    } else {
        tokens_before(pixels, width, alpha_threshold, maximum, (count - 1) as nat) + cell_tokens(
            pixels,
            width,
            alpha_threshold,
            maximum,
            count - 1,
        )
    }
}

/// What is written for a whole frame: every cell in row-major order, the
/// glyphs chosen against the largest intensity of the frame, and a reset
/// that closes the last row. A frame without pixels gives nothing.
///
/// The text ends as every row ends, with a reset and not with the colour
/// set once more: whoever prints it finds the terminal in its normal style
/// afterwards, and there are exactly as many colour escapes as runs.
pub open spec fn frame_tokens(pixels: Seq<Pixel>, width: nat, alpha_threshold: u8) -> Seq<Token>
    recommends
        width > 0 || pixels.len() == 0,
{
    let cells = tokens_before(pixels, width, alpha_threshold, max_intensity(pixels), pixels.len());
    if pixels.len() > 0 {
        cells.push(Token::Reset)
    } else {
        cells
    }
}

/// The rendered text of a frame.
pub open spec fn frame_text(pixels: Seq<Pixel>, width: nat, alpha_threshold: u8) -> Seq<char>
    recommends
        width > 0 || pixels.len() == 0,
{
    text_of(frame_tokens(pixels, width, alpha_threshold))
}

/// What the encoder remembers from one cell to the next.
#[derive(Clone, Copy, Debug)]
pub struct RenderState {
    /// The colour that is set at the moment, if one is.
    pub previous_color: Option<Color>,
    /// The row of the cell written last.
    pub current_row: u32,
}

impl RenderState {
    /// What ends the row before a cell of `row`: where the row is a later
    /// one than the current, a reset if a colour is set, and a line break.
    pub open spec fn row_change_tokens(self, row: u32) -> Seq<Token> {
        if self.current_row < row {
            if self.previous_color is Some {
                seq![Token::Reset, Token::LineBreak]
            } else {
                seq![Token::LineBreak]
            }
        } else {
            Seq::empty()
        }
    }

    /// The colour that is set once the row has changed to `row`.
    pub open spec fn color_in_row(self, row: u32) -> Option<Color> {
        if self.current_row < row {
            None
        } else {
            self.previous_color
        }
    }

    /// What `advance` writes for a cell.
    pub open spec fn step_tokens(self, row: u32, color: Color, glyph: char) -> Seq<Token> {
        let set = if self.color_in_row(row) != Some(color) {
            seq![Token::SetColor(color)]
        } else {
            Seq::empty()
        };
        self.row_change_tokens(row) + set + seq![Token::Glyph(glyph)]
    }

    /// What `finish` writes: a reset if a colour is set.
    pub open spec fn closing_tokens(self) -> Seq<Token> {
        if self.previous_color is Some {
            seq![Token::Reset]
        } else {
            Seq::empty()
        }
    }

    /// The state before the first cell: no colour set, in the first row.
    pub fn new() -> (state: RenderState)
        ensures
            state.previous_color is None,
            state.current_row == 0,
    {
        RenderState { previous_color: None, current_row: 0 }
    }

    /// Writes one cell of `row` to the sink. If the row is a later one than
    /// the current, the current row is ended first: with a reset if a colour
    /// is set, and a line break. The colour is set if it is not the one set
    /// already. Then comes the glyph.
    pub fn advance(&mut self, sink: &mut String, row: u32, color: Color, glyph: char)
        ensures
            final(sink)@ == old(sink)@ + text_of(old(self).step_tokens(row, color, glyph)),
            final(self).previous_color == Some(color),
            final(self).current_row == (if old(self).current_row < row {
                row
            } else {
                old(self).current_row
            }),
    {
        let ghost before = sink@;
        let ghost start = *self;
        let ghost mut written: Seq<Token> = Seq::empty();
        proof {
            assert(text_of(written) =~= Seq::<char>::empty());
            assert(sink@ =~= before + text_of(written));
        }
        if self.current_row < row {
            self.current_row = row;
            if let Some(open) = self.previous_color {
                let reset = color_suffix(open);
                sink.append(reset.as_str());
                self.previous_color = None;
                proof {
                    lemma_written(before, written, Token::Reset, sink@);
                    written = written.push(Token::Reset);
                }
            }
            sink.push('\n');
            proof {
                lemma_written(before, written, Token::LineBreak, sink@);
                written = written.push(Token::LineBreak);
            }
        }
        assert(written =~= start.row_change_tokens(row));
        assert(self.previous_color == start.color_in_row(row));
        let same = match self.previous_color {
            Some(open) => open.r == color.r && open.g == color.g && open.b == color.b,
            None => false,
        };
        if !same {
            let set = color_prefix(color);
            sink.append(set.as_str());
            proof {
                lemma_written(before, written, Token::SetColor(color), sink@);
                written = written.push(Token::SetColor(color));
            }
        }
        self.previous_color = Some(color);
        sink.push(glyph);
        proof {
            lemma_written(before, written, Token::Glyph(glyph), sink@);
            written = written.push(Token::Glyph(glyph));
            assert(written =~= start.step_tokens(row, color, glyph));
        }
    }

    /// Closes the text: writes a reset if a colour is set, after which none
    /// is.
    pub fn finish(&mut self, sink: &mut String)
        ensures
            final(sink)@ == old(sink)@ + text_of(old(self).closing_tokens()),
            final(self).previous_color is None,
            final(self).current_row == old(self).current_row,
    {
        if let Some(open) = self.previous_color {
            let reset = color_suffix(open);
            sink.append(reset.as_str());
            self.previous_color = None;
            proof {
                lemma_text_of_one(Token::Reset);
            }
        } else {
            assert(sink@ =~= sink@ + text_of(Seq::<Token>::empty()));
        }
    }
}

/// Writing the text of one more token after the text of `written` gives
/// the text of `written` with that token at its end.
proof fn lemma_written(before: Seq<char>, written: Seq<Token>, token: Token, now: Seq<char>)
    requires
        now =~= before + text_of(written) + token_text(token),
    ensures
        now == before + text_of(written.push(token)),
{
    assert(written.push(token).drop_last() =~= written);
    assert(now =~= before + text_of(written.push(token)));
}

/// In a grid of rows of `width` cells, the cell in column `column` of row
/// `row` starts a row exactly if its column is the first and its row is not.
proof fn lemma_cell_position(width: nat, row: nat, column: nat)
    requires
        column < width,
    ensures
        (row * width + column) as int % (width as int) == column,
        starts_row(width, (row * width + column) as int) <==> (column == 0 && row > 0),
{
    let index = (row * width + column) as int;
    lemma_fundamental_div_mod_converse(index, width as int, row as int, column as int);
    if column == 0 && row > 0 {
        assert(row * width >= width) by (nonlinear_arith)
            requires
                row >= 1,
        ;
    }
}

/// Renders a frame: every cell in row-major order, glyphs chosen against the
/// largest intensity of the frame, the colour set at the start of each run of
/// one colour within a row, and each row closed with a reset.
pub fn encode(frame: &PixelBuffer, alpha_threshold: u8) -> (text: String)
    ensures
        text@ == frame_text(frame@, frame.width() as nat, alpha_threshold),
{
    let count: usize = frame.len();
    let width: u32 = frame.width();
    let maximum: u64 = max_intensity_in_frame(frame);
    let mut state = RenderState::new();
    let mut sink = String::new();
    let mut index: usize = 0;
    let mut row: u32 = 0;
    let mut column: u32 = 0;
    let ghost pixels = frame@;
    proof {
        assert(sink@ =~= text_of(tokens_before(pixels, width as nat, alpha_threshold, maximum as nat, 0)));
        if count > 0 && width == 0 {
            assert(frame.width() * frame.height() == 0) by (nonlinear_arith)
                requires
                    frame.width() == 0,
            ;
        }
    }
    while index < count
        invariant
            pixels == frame@,
            count == pixels.len(),
            count == frame.width() * frame.height(),
            width == frame.width(),
            maximum == max_intensity(pixels),
            index <= count,
            index == row * width + column,
            count > 0 ==> column < width,
            sink@ == text_of(tokens_before(pixels, width as nat, alpha_threshold, maximum as nat, index as nat)),
            state.previous_color == (if index == 0 {
                None
            } else {
                Some(pixels[index - 1].color_of())
            }),
            state.current_row == (if column > 0 {
                row
            } else if row > 0 {
                (row - 1) as u32
            } else {
                0
            }),
        decreases count - index,
    {
        let pixel = frame.pixel(index);
        let color = pixel.color();
        let glyph = get_char_for_pixel(&pixel, alpha_threshold, maximum);
        proof {
            lemma_cell_position(width as nat, row as nat, column as nat);
            let cell = cell_tokens(pixels, width as nat, alpha_threshold, maximum as nat, index as int);
            assert(state.step_tokens(row, color, glyph) =~= cell);
            lemma_text_of_concat(
                tokens_before(pixels, width as nat, alpha_threshold, maximum as nat, index as nat),
                cell,
            );
            assert(row < frame.height()) by (nonlinear_arith)
                requires
                    row * width + column < frame.width() * frame.height(),
                    width == frame.width(),
            ;
        }
        state.advance(&mut sink, row, color, glyph);
        index += 1;
        column += 1;
        if column == width {
            column = 0;
            row += 1;
            assert(index == row * width + column) by (nonlinear_arith)
                requires
                    index == (row - 1) * width + width,
                    column == 0,
            ;
        }
    }
    state.finish(&mut sink);
    proof {
        let cells = tokens_before(pixels, width as nat, alpha_threshold, maximum as nat, count as nat);
        if count > 0 {
            assert(cells.push(Token::Reset) =~= cells + seq![Token::Reset]);
            lemma_text_of_concat(cells, seq![Token::Reset]);
        } else {
            assert(sink@ =~= text_of(cells));
        }
    }
    sink
}

/// The kinds of token.
#[derive(Clone, Copy, Debug, PartialEq, Eq, Structural)]
pub enum TokenKind {
    SetColor,
    Reset,
    LineBreak,
    Glyph,
}

/// The kind of a token.
pub open spec fn kind_of(token: Token) -> TokenKind {
    match token {
        Token::SetColor(_) => TokenKind::SetColor,
        Token::Reset => TokenKind::Reset,
        Token::LineBreak => TokenKind::LineBreak,
        Token::Glyph(_) => TokenKind::Glyph,
    }
}

/// How many of the tokens are of a kind.
pub open spec fn count_kind(tokens: Seq<Token>, kind: TokenKind) -> nat
    decreases tokens.len(),
{
    if tokens.len() == 0 {
        0
    } else {
        count_kind(tokens.drop_last(), kind) + (if kind_of(tokens.last()) == kind {
            1nat
        } else {
            0nat
        })
    }
}

/// How many of the first `count` cells start a run of one colour.
pub open spec fn run_starts(pixels: Seq<Pixel>, width: nat, count: nat) -> nat
    recommends
        width > 0,
        count <= pixels.len(),
    decreases count,
{
    if count == 0 {
        0
    } else {
        run_starts(pixels, width, (count - 1) as nat) + (if starts_run(pixels, width, count - 1) {
            1nat
        } else {
            0nat
        })
    }
}

/// How many of the first `count` cells start a row other than the first.
pub open spec fn row_starts(width: nat, count: nat) -> nat
    recommends
        width > 0,
    decreases count,
{
    if count == 0 {
        0
    } else {
        row_starts(width, (count - 1) as nat) + (if starts_row(width, count - 1) {
            1nat
        } else {
            0nat
        })
    }
}

/// Counting over two runs of tokens, one after the other, adds up.
pub proof fn lemma_count_concat(front: Seq<Token>, back: Seq<Token>, kind: TokenKind)
    ensures
        count_kind(front + back, kind) == count_kind(front, kind) + count_kind(back, kind),
    decreases back.len(),
{
    if back.len() == 0 {
        assert(front + back =~= front);
    } else {
        assert((front + back).drop_last() =~= front + back.drop_last());
        assert((front + back).last() == back.last());
        lemma_count_concat(front, back.drop_last(), kind);
    }
}

/// A token at the end counts once if it is of the kind.
pub proof fn lemma_count_push(tokens: Seq<Token>, token: Token, kind: TokenKind)
    ensures
        count_kind(tokens.push(token), kind) == count_kind(tokens, kind) + (if kind_of(token)
            == kind {
            1nat
        } else {
            0nat
        }),
{
    assert(tokens.push(token).drop_last() =~= tokens);
}

/// What one cell contributes: exactly one glyph; one colour escape if the
/// cell starts a run and none if not; one reset and one line break if it
/// starts a row and none if not.
pub proof fn lemma_cell_counts(
    pixels: Seq<Pixel>,
    width: nat,
    alpha_threshold: u8,
    maximum: nat,
    index: int,
)
    ensures
        ({
            let cell = cell_tokens(pixels, width, alpha_threshold, maximum, index);
            let run: nat = if starts_run(pixels, width, index) {
                1
            } else {
                0
            };
            let row: nat = if starts_row(width, index) {
                1
            } else {
                0
            };
            &&& count_kind(cell, TokenKind::Glyph) == 1
            &&& count_kind(cell, TokenKind::SetColor) == run
            &&& count_kind(cell, TokenKind::Reset) == row
            &&& count_kind(cell, TokenKind::LineBreak) == row
        }),
{
    let glyph = Token::Glyph(glyph_for(pixels[index], alpha_threshold, maximum));
    let color = Token::SetColor(pixels[index].color_of());
    let none = Seq::<Token>::empty();
    let row_end = if starts_row(width, index) {
        none.push(Token::Reset).push(Token::LineBreak)
    } else {
        none
    };
    let with_color = if starts_run(pixels, width, index) {
        row_end.push(color)
    } else {
        row_end
    };
    assert(cell_tokens(pixels, width, alpha_threshold, maximum, index) =~= with_color.push(glyph));
    assert forall|kind: TokenKind| true implies count_kind(with_color.push(glyph), kind) == (if kind
        == TokenKind::Glyph {
        1nat
    } else {
        0nat
    }) + (if kind == TokenKind::SetColor && starts_run(pixels, width, index) {
        1nat
    } else {
        0nat
    }) + (if (kind == TokenKind::Reset || kind == TokenKind::LineBreak) && starts_row(width, index) {
        1nat
    } else {
        0nat
    }) by {
        lemma_count_push(none, Token::Reset, kind);
        lemma_count_push(none.push(Token::Reset), Token::LineBreak, kind);
        lemma_count_push(row_end, color, kind);
        lemma_count_push(with_color, glyph, kind);
    }
    assert(count_kind(with_color.push(glyph), TokenKind::Glyph) == 1);
    assert(count_kind(with_color.push(glyph), TokenKind::SetColor) == (if starts_run(
        pixels,
        width,
        index,
    ) {
        1nat
    } else {
        0nat
    }));
    assert(count_kind(with_color.push(glyph), TokenKind::Reset) == (if starts_row(width, index) {
        1nat
    } else {
        0nat
    }));
    assert(count_kind(with_color.push(glyph), TokenKind::LineBreak) == (if starts_row(width, index) {
        1nat
    } else {
        0nat
    }));
}

/// What the first `count` cells contribute: a glyph each, a colour escape
/// for each start of a run, a reset and a line break for each start of a row.
pub proof fn lemma_counts_before(
    pixels: Seq<Pixel>,
    width: nat,
    alpha_threshold: u8,
    maximum: nat,
    count: nat,
)
    ensures
        ({
            let tokens = tokens_before(pixels, width, alpha_threshold, maximum, count);
            &&& count_kind(tokens, TokenKind::Glyph) == count
            &&& count_kind(tokens, TokenKind::SetColor) == run_starts(pixels, width, count)
            &&& count_kind(tokens, TokenKind::Reset) == row_starts(width, count)
            &&& count_kind(tokens, TokenKind::LineBreak) == row_starts(width, count)
        }),
    decreases count,
{
    if count > 0 {
        let before = tokens_before(pixels, width, alpha_threshold, maximum, (count - 1) as nat);
        let cell = cell_tokens(pixels, width, alpha_threshold, maximum, count - 1);
        lemma_counts_before(pixels, width, alpha_threshold, maximum, (count - 1) as nat);
        lemma_cell_counts(pixels, width, alpha_threshold, maximum, count - 1);
        lemma_count_concat(before, cell, TokenKind::Glyph);
        lemma_count_concat(before, cell, TokenKind::SetColor);
        lemma_count_concat(before, cell, TokenKind::Reset);
        lemma_count_concat(before, cell, TokenKind::LineBreak);
    }
}

/// The run-length law. In the rendering of a frame there is one glyph for
/// each pixel, and one colour escape for each cell that starts a run: the
/// first cell of each row, and each cell whose colour differs from that of
/// the cell before it. A cell that continues a run gets no escape, so the
/// escapes are fewer than the pixels as soon as one cell does. Each row
/// after the first brings one line break, and there is one reset for each
/// line break and one more at the end.
pub proof fn lemma_escapes_count_runs(pixels: Seq<Pixel>, width: nat, alpha_threshold: u8)
    ensures
        ({
            let tokens = frame_tokens(pixels, width, alpha_threshold);
            let closing: nat = if pixels.len() > 0 {
                1
            } else {
                0
            };
            &&& count_kind(tokens, TokenKind::Glyph) == pixels.len()
            &&& count_kind(tokens, TokenKind::SetColor) == run_starts(pixels, width, pixels.len())
            &&& count_kind(tokens, TokenKind::LineBreak) == row_starts(width, pixels.len())
            &&& count_kind(tokens, TokenKind::Reset) == row_starts(width, pixels.len()) + closing
            &&& run_starts(pixels, width, pixels.len()) <= pixels.len()
            &&& (exists|i: int| 0 <= i < pixels.len() && !starts_run(pixels, width, i))
                ==> run_starts(pixels, width, pixels.len()) < pixels.len()
        }),
{
    let maximum = max_intensity(pixels);
    let cells = tokens_before(pixels, width, alpha_threshold, maximum, pixels.len());
    lemma_counts_before(pixels, width, alpha_threshold, maximum, pixels.len());
    if pixels.len() > 0 {
        lemma_count_push(cells, Token::Reset, TokenKind::Glyph);
        lemma_count_push(cells, Token::Reset, TokenKind::SetColor);
        lemma_count_push(cells, Token::Reset, TokenKind::LineBreak);
        lemma_count_push(cells, Token::Reset, TokenKind::Reset);
    }
    lemma_run_starts_bounded(pixels, width, pixels.len());
    if exists|i: int| 0 <= i < pixels.len() && !starts_run(pixels, width, i) {
        let i = choose|i: int| 0 <= i < pixels.len() && !starts_run(pixels, width, i);
        lemma_run_starts_skip(pixels, width, pixels.len(), i);
    }
}

/// There are no more starts of runs than cells.
pub proof fn lemma_run_starts_bounded(pixels: Seq<Pixel>, width: nat, count: nat)
    ensures
        run_starts(pixels, width, count) <= count,
    decreases count,
{
    if count > 0 {
        lemma_run_starts_bounded(pixels, width, (count - 1) as nat);
    }
}

/// A cell that continues a run is not counted.
proof fn lemma_run_starts_skip(pixels: Seq<Pixel>, width: nat, count: nat, skipped: int)
    requires
        0 <= skipped < count,
        !starts_run(pixels, width, skipped),
    ensures
        run_starts(pixels, width, count) < count,
    decreases count,
{
    if skipped == count - 1 {
        lemma_run_starts_bounded(pixels, width, (count - 1) as nat);
    } else {
        lemma_run_starts_skip(pixels, width, (count - 1) as nat, skipped);
    }
}

/// In a grid of `height` rows of `width` cells, every row but the first
/// starts with a line break: a frame with pixels has one line break fewer
/// than rows.
pub proof fn lemma_row_starts_in_grid(width: nat, height: nat)
    requires
        width > 0,
    ensures
        row_starts(width, width * height) == (if height == 0 {
            0
        } else {
            height - 1
        }),
    decreases height,
{
    if height > 0 {
        let above = (height - 1) as nat;
        lemma_row_starts_in_grid(width, above);
        assert(width * height == width * above + width) by (nonlinear_arith)
            requires
                above == height - 1,
        ;
        lemma_row_starts_in_row(width, above, width);
    }
}

/// The rendering of a grid of `height` rows of `width` cells holds one glyph
/// for each cell, a line break between each row and the next, one reset at
/// the end of each row, and one colour escape for each run.
pub proof fn lemma_grid_counts(pixels: Seq<Pixel>, width: nat, height: nat, alpha_threshold: u8)
    requires
        width > 0,
        height > 0,
        pixels.len() == width * height,
    ensures
        ({
            let tokens = frame_tokens(pixels, width, alpha_threshold);
            &&& count_kind(tokens, TokenKind::Glyph) == width * height
            &&& count_kind(tokens, TokenKind::LineBreak) == height - 1
            &&& count_kind(tokens, TokenKind::Reset) == height
            &&& count_kind(tokens, TokenKind::SetColor) == run_starts(pixels, width, pixels.len())
            &&& height <= count_kind(tokens, TokenKind::SetColor) <= width * height
        }),
{
    lemma_escapes_count_runs(pixels, width, alpha_threshold);
    lemma_row_starts_in_grid(width, height);
    assert(width * height >= 1) by (nonlinear_arith)
        requires
            width >= 1,
            height >= 1,
    ;
    lemma_runs_cover_rows(pixels, width, pixels.len());
}

/// Each cell that starts a row after the first starts a run, and so does
/// the first cell of all.
proof fn lemma_runs_cover_rows(pixels: Seq<Pixel>, width: nat, count: nat)
    requires
        width > 0,
    ensures
        run_starts(pixels, width, count) >= row_starts(width, count) + (if count > 0 {
            1nat
        } else {
            0nat
        }),
    decreases count,
{
    if count > 0 {
        lemma_runs_cover_rows(pixels, width, (count - 1) as nat);
        if count == 1 {
            assert(0int % (width as int) == 0);
        }
    }
}

/// Within the row `row`, only the first cell can start a row, and it does
/// unless the row is the first.
proof fn lemma_row_starts_in_row(width: nat, row: nat, cells: nat)
    requires
        width > 0,
        0 < cells <= width,
    ensures
        row_starts(width, width * row + cells) == row_starts(width, width * row) + (if row > 0 {
            1nat
        } else {
            0nat
        }),
    decreases cells,
{
    let column = (cells - 1) as nat;
    assert(width * row == row * width) by (nonlinear_arith);
    lemma_cell_position(width, row, column);
    if column > 0 {
        lemma_row_starts_in_row(width, row, column);
    }
}

/// How often a character occurs in a text.
pub open spec fn count_char(text: Seq<char>, c: char) -> nat
    decreases text.len(),
{
    if text.len() == 0 {
        0
    } else {
        count_char(text.drop_last(), c) + (if text.last() == c {
            1nat
        } else {
            0nat
        })
    }
}

/// Whether no glyph among the tokens is a line feed.
pub open spec fn glyphs_stay_in_line(tokens: Seq<Token>) -> bool {
    forall|i: int| 0 <= i < tokens.len() ==> #[trigger] tokens[i] != Token::Glyph('\n')
}

/// Counting a character over two texts, one after the other, adds up.
pub proof fn lemma_count_char_concat(front: Seq<char>, back: Seq<char>, c: char)
    ensures
        count_char(front + back, c) == count_char(front, c) + count_char(back, c),
    decreases back.len(),
{
    if back.len() == 0 {
        assert(front + back =~= front);
    } else {
        assert((front + back).drop_last() =~= front + back.drop_last());
        assert((front + back).last() == back.last());
        lemma_count_char_concat(front, back.drop_last(), c);
    }
}

/// A number in decimal holds no line feed.
proof fn lemma_decimal_has_no_line_feed(n: nat)
    ensures
        count_char(decimal(n), '\n') == 0,
    decreases n,
{
    let last = if n < 10 {
        n
    } else {
        n % 10
    };
    assert(digit(last) != '\n') by {
        assert(last == 0 || last == 1 || last == 2 || last == 3 || last == 4 || last == 5 || last
            == 6 || last == 7 || last == 8 || last == 9);
    }
    if n < 10 {
        let one = seq![digit(n)];
        assert(one.drop_last() =~= Seq::<char>::empty());
        assert(one.last() == digit(n));
        assert(count_char(one.drop_last(), '\n') == 0);
    } else {
        lemma_decimal_has_no_line_feed(n / 10);
        let all = decimal(n / 10).push(digit(n % 10));
        assert(all.drop_last() =~= decimal(n / 10));
        assert(all.last() == digit(n % 10));
    }
}

/// The text of a token holds one line feed if the token is a line break,
/// and none if it is an escape or a glyph other than the line feed.
proof fn lemma_line_feeds_of_token(token: Token)
    requires
        token != Token::Glyph('\n'),
    ensures
        count_char(token_text(token), '\n') == (if token is LineBreak {
            1nat
        } else {
            0nat
        }),
{
    let none = Seq::<char>::empty();
    match token {
        Token::SetColor(color) => {
            let head = seq!['\x1b', '[', '3', '8', ';', '2', ';'];
            let sep = seq![';'];
            let tail = seq!['m'];
            assert(token_text(token) == head + decimal(color.r as nat) + sep + decimal(
                color.g as nat,
            ) + sep + decimal(color.b as nat) + tail);
            lemma_literal_has_no_line_feed(head);
            lemma_literal_has_no_line_feed(sep);
            lemma_literal_has_no_line_feed(tail);
            lemma_decimal_has_no_line_feed(color.r as nat);
            lemma_decimal_has_no_line_feed(color.g as nat);
            lemma_decimal_has_no_line_feed(color.b as nat);
            let r = decimal(color.r as nat);
            let g = decimal(color.g as nat);
            let b = decimal(color.b as nat);
            lemma_count_char_concat(head, r, '\n');
            lemma_count_char_concat(head + r, sep, '\n');
            lemma_count_char_concat(head + r + sep, g, '\n');
            lemma_count_char_concat(head + r + sep + g, sep, '\n');
            lemma_count_char_concat(head + r + sep + g + sep, b, '\n');
            lemma_count_char_concat(head + r + sep + g + sep + b, tail, '\n');
        },
        Token::Reset => {
            lemma_literal_has_no_line_feed(seq!['\x1b', '[', '0', 'm']);
        },
        Token::LineBreak => {
            let one = seq!['\n'];
            assert(one.drop_last() =~= none);
            assert(one.last() == '\n');
            assert(count_char(one.drop_last(), '\n') == 0);
        },
        Token::Glyph(glyph) => {
            let one = seq![glyph];
            assert(one.drop_last() =~= none);
            assert(one.last() == glyph);
            assert(count_char(one.drop_last(), '\n') == 0);
        },
    }
}

/// A text without a line feed at any place counts none.
proof fn lemma_literal_has_no_line_feed(text: Seq<char>)
    requires
        forall|i: int| 0 <= i < text.len() ==> text[i] != '\n',
    ensures
        count_char(text, '\n') == 0,
    decreases text.len(),
{
    if text.len() > 0 {
        lemma_literal_has_no_line_feed(text.drop_last());
    }
}

/// In the text of tokens whose glyphs are no line feeds, the line feeds
/// are the line breaks.
pub proof fn lemma_line_feeds_are_line_breaks(tokens: Seq<Token>)
    requires
        glyphs_stay_in_line(tokens),
    ensures
        count_char(text_of(tokens), '\n') == count_kind(tokens, TokenKind::LineBreak),
    decreases tokens.len(),
{
    if tokens.len() > 0 {
        let front = tokens.drop_last();
        assert(glyphs_stay_in_line(front)) by {
            assert forall|i: int| 0 <= i < front.len() implies #[trigger] front[i] != Token::Glyph(
                '\n',
            ) by {
                assert(front[i] == tokens[i]);
            }
        }
        lemma_line_feeds_are_line_breaks(front);
        assert(tokens.last() == tokens[tokens.len() - 1]);
        lemma_line_feeds_of_token(tokens.last());
        lemma_count_char_concat(text_of(front), token_text(tokens.last()), '\n');
    }
}

/// No glyph that a pixel can get is a line feed: it is blank or from the
/// ramp.
pub proof fn lemma_glyph_is_no_line_feed(p: Pixel, alpha_threshold: u8, maximum: nat)
    ensures
        glyph_for(p, alpha_threshold, maximum) != '\n',
        glyph_for(p, alpha_threshold, maximum) == ' ' || crate::ascii::ramp().contains(
            glyph_for(p, alpha_threshold, maximum),
        ),
{
    let place = crate::luminance::glyph_index(crate::luminance::intensity(p), maximum);
    assert(0 <= place < 10);
    assert(crate::ascii::ramp()[place as int] != '\n');
}

/// The glyphs of a rendered frame are no line feeds.
proof fn lemma_frame_stays_in_line(
    pixels: Seq<Pixel>,
    width: nat,
    alpha_threshold: u8,
    maximum: nat,
    count: nat,
)
    ensures
        glyphs_stay_in_line(tokens_before(pixels, width, alpha_threshold, maximum, count)),
    decreases count,
{
    if count > 0 {
        let before = tokens_before(pixels, width, alpha_threshold, maximum, (count - 1) as nat);
        let cell = cell_tokens(pixels, width, alpha_threshold, maximum, count - 1);
        lemma_frame_stays_in_line(pixels, width, alpha_threshold, maximum, (count - 1) as nat);
        lemma_glyph_is_no_line_feed(pixels[count - 1], alpha_threshold, maximum);
        assert forall|i: int| 0 <= i < (before + cell).len() implies #[trigger] (before + cell)[i]
            != Token::Glyph('\n') by {
            if i < before.len() {
                assert((before + cell)[i] == before[i]);
            } else {
                assert((before + cell)[i] == cell[i - before.len()]);
            }
        }
    }
}

/// The rendered text of a grid of `height` rows of `width` cells holds
/// exactly one line feed between each row and the next, `height - 1` in
/// all.
pub proof fn lemma_text_has_a_line_per_row(
    pixels: Seq<Pixel>,
    width: nat,
    height: nat,
    alpha_threshold: u8,
)
    requires
        width > 0,
        height > 0,
        pixels.len() == width * height,
    ensures
        count_char(frame_text(pixels, width, alpha_threshold), '\n') == height - 1,
{
    let maximum = max_intensity(pixels);
    let cells = tokens_before(pixels, width, alpha_threshold, maximum, pixels.len());
    let tokens = frame_tokens(pixels, width, alpha_threshold);
    lemma_frame_stays_in_line(pixels, width, alpha_threshold, maximum, pixels.len());
    assert(width * height >= 1) by (nonlinear_arith)
        requires
            width >= 1,
            height >= 1,
    ;
    assert(tokens == cells.push(Token::Reset));
    assert(glyphs_stay_in_line(tokens)) by {
        assert forall|i: int| 0 <= i < tokens.len() implies #[trigger] tokens[i] != Token::Glyph(
            '\n',
        ) by {
            if i < cells.len() {
                assert(tokens[i] == cells[i]);
            }
        }
    }
    lemma_line_feeds_are_line_breaks(tokens);
    lemma_grid_counts(pixels, width, height, alpha_threshold);
}

} // verus!
