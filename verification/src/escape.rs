//! The pieces that rendered text is made of, and the characters of each.

use vstd::prelude::*;
use crate::pixel::Color;

verus! {

/// One piece of rendered text.
#[derive(Clone, Copy, Debug, PartialEq, Eq, Structural)]
pub enum Token {
    /// The escape that sets the foreground colour.
    SetColor(Color),
    /// The escape that puts the terminal back to its normal style.
    Reset,
    /// The end of a row.
    LineBreak,
    /// The glyph of one cell.
    Glyph(char),
}

/// The character for a decimal digit.
pub open spec fn digit(d: nat) -> char
    recommends
        d < 10,
{
    seq!['0', '1', '2', '3', '4', '5', '6', '7', '8', '9'][d as int]
}

/// A number in decimal, without leading zeros.
pub open spec fn decimal(n: nat) -> Seq<char>
    decreases n,
{
    if n < 10 {
        seq![digit(n)]
    } else {
        decimal(n / 10).push(digit(n % 10))
    }
}

/// The escape that sets the foreground to a 24-bit colour:
/// `ESC [ 38 ; 2 ; R ; G ; B m`, the channels in decimal.
pub open spec fn set_color_text(color: Color) -> Seq<char> {
    seq!['\x1b', '[', '3', '8', ';', '2', ';'] + decimal(color.r as nat) + seq![';'] + decimal(
        color.g as nat,
    ) + seq![';'] + decimal(color.b as nat) + seq!['m']
}

/// The escape that resets the style: `ESC [ 0 m`.
pub open spec fn reset_text() -> Seq<char> {
    seq!['\x1b', '[', '0', 'm']
}

/// The characters of one token.
pub open spec fn token_text(token: Token) -> Seq<char> {
    match token {
        Token::SetColor(color) => set_color_text(color),
        Token::Reset => reset_text(),
        Token::LineBreak => seq!['\n'],
        Token::Glyph(glyph) => seq![glyph],
    }
}

/// The characters of a run of tokens, one token after the other.
pub open spec fn text_of(tokens: Seq<Token>) -> Seq<char>
    decreases tokens.len(),
{
    if tokens.len() == 0 {
        Seq::empty()
    } else {
        text_of(tokens.drop_last()) + token_text(tokens.last())
    }
}

/// The text of two runs of tokens, one after the other, is the text of the
/// first followed by the text of the second.
pub proof fn lemma_text_of_concat(front: Seq<Token>, back: Seq<Token>)
    ensures
        text_of(front + back) == text_of(front) + text_of(back),
    decreases back.len(),
{
    if back.len() == 0 {
        assert(front + back =~= front);
        assert(text_of(front) + text_of(back) =~= text_of(front));
    } else {
        assert((front + back).drop_last() =~= front + back.drop_last());
        assert((front + back).last() == back.last());
        lemma_text_of_concat(front, back.drop_last());
        assert(text_of(front + back) =~= text_of(front) + text_of(back));
    }
}

/// The text of a single token.
pub proof fn lemma_text_of_one(token: Token)
    ensures
        text_of(seq![token]) == token_text(token),
{
    let one = seq![token];
    assert(one.drop_last() =~= Seq::<Token>::empty());
    assert(one.last() == token);
    assert(text_of(one.drop_last()) =~= Seq::<char>::empty());
    assert(text_of(one) =~= token_text(token));
}

/// The escape with which `ansi_term` opens text in an RGB colour, from
/// `Colour::prefix` and the `Display` of what it returns: for a style that
/// has a foreground colour and nothing else, `ESC [`, the foreground code
/// `38;2;R;G;B` with the channels in decimal, and `m`.
#[verifier::external_body]
pub(crate) fn color_prefix(color: Color) -> (text: String)
    ensures
        text@ == set_color_text(color),
{
    format!("{}", ansi_term::Color::RGB(color.r, color.g, color.b).prefix())
}

/// The escape with which `ansi_term` closes text in an RGB colour, from
/// `Colour::suffix` and the `Display` of what it returns: for any style that
/// is not plain, the reset sequence `ESC [ 0 m`, whatever the colour.
#[verifier::external_body]
pub(crate) fn color_suffix(color: Color) -> (text: String)
    ensures
        text@ == reset_text(),
{
    format!("{}", ansi_term::Color::RGB(color.r, color.g, color.b).suffix())
}

} // verus!
