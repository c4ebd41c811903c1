//! What holds of the token stream of every text.

use super::states::{number_literal, State};
use super::token::{
    classify, is_digit, lemma_digits_classify_as_int,
    lemma_number_with_point_classifies_as_float, Literal, TokenKind, TokenView,
};
use super::LexerView;
use crate::source::SourceView;
use vstd::prelude::*;

verus! {

/// The lexemes of `tokens`, one after the other.
pub open spec fn concat_lexemes(tokens: Seq<TokenView>) -> Seq<char>
    decreases tokens.len(),
{
    if tokens.len() == 0 {
        Seq::empty()
    } else {
        tokens[0].lexeme + concat_lexemes(tokens.subrange(1, tokens.len() as int))
    }
}

/// Holds of every character but the carriage return.
pub open spec fn not_carriage_return() -> spec_fn(char) -> bool {
    |c: char| c != '\r'
}

/// `text` with its carriage returns taken out.
pub open spec fn without_carriage_returns(text: Seq<char>) -> Seq<char> {
    text.filter(not_carriage_return())
}

/// The text as the lexer leaves it once it has run to the end: the text it
/// holds now, less the carriage returns it deletes on the way.
pub open spec fn settled_text(lexer: LexerView) -> Seq<char>
    decreases lexer.measure(),
    when lexer.cursor.wf()
    via settled_text_decreases
{
    if lexer.state == State::End {
        lexer.cursor.text()
    } else {
        settled_text(lexer.turn())
    }
}

#[via_fn]
proof fn settled_text_decreases(lexer: LexerView) {
    if lexer.state != State::End {
        lexer.lemma_turn();
    }
}

/// What holds of the lexer between two turns on every run that begins at
/// the start of a text.
pub open spec fn steady(lexer: LexerView) -> bool {
    let cursor = lexer.cursor;
    &&& cursor.wf()
    &&& cursor.location.column_end - cursor.location.column_start == cursor.offset - cursor.index
    &&& lexer.state is Start || lexer.state is EOF || lexer.state is End ==> cursor.index
        == cursor.offset
    &&& lexer.state is EOF || lexer.state is End ==> cursor.is_eof()
    &&& lexer.state is Word ==> cursor.index < cursor.offset && cursor.text()[cursor.index as int]
        != '\n'
    &&& lexer.state is Symbol ==> forall|i: int|
        cursor.index <= i < cursor.offset ==> #[trigger] cursor.text()[i] != '\n'
    &&& lexer.state is Number ==> {
        &&& cursor.index < cursor.offset
        &&& is_digit(cursor.text()[cursor.index as int])
        &&& forall|i: int|
            cursor.index <= i < cursor.offset ==> is_digit(#[trigger] cursor.text()[i])
                || cursor.text()[i] == '.'
    }
}

/// A run that begins at the start of a text is steady from the first turn on.
pub proof fn lemma_steady_start(source: SourceView)
    ensures
        steady(LexerView::start(source)),
{
}

/// A turn keeps the lexer steady.
pub proof fn lemma_steady_turn(lexer: LexerView)
    requires
        steady(lexer),
        lexer.state != State::End,
    ensures
        steady(lexer.turn()),
{
}

/// Deleting a carriage return does not change what is left once all of them
/// are taken out.
proof fn lemma_delete_carriage_return(text: Seq<char>, at: int)
    requires
        0 <= at < text.len(),
        text[at] == '\r',
    ensures
        without_carriage_returns(text.remove(at)) == without_carriage_returns(text),
        text.remove(at).contains('\r') ==> text.contains('\r'),
{
    let keep = not_carriage_return();
    let head = text.subrange(0, at);
    let gone = seq![text[at]];
    let tail = text.subrange(at + 1, text.len() as int);
    assert(text =~= head + gone + tail);
    assert(text.remove(at) =~= head + tail);
    Seq::filter_distributes_over_add(head + gone, tail, keep);
    Seq::filter_distributes_over_add(head, gone, keep);
    Seq::filter_distributes_over_add(head, tail, keep);
    assert(gone.filter(keep) =~= Seq::<char>::empty()) by {
        reveal_with_fuel(Seq::filter, 2);
        assert(gone.drop_last() =~= Seq::<char>::empty());
        assert(!keep(gone.last()));
    }
    assert(head.filter(keep) + Seq::<char>::empty() =~= head.filter(keep));
}

/// The lexemes of a token and of those that follow it.
proof fn lemma_concat_first(first: TokenView, rest: Seq<TokenView>)
    ensures
        concat_lexemes(seq![first] + rest) == first.lexeme + concat_lexemes(rest),
{
    let all = seq![first] + rest;
    assert(all.subrange(1, all.len() as int) =~= rest);
}

/// On a steady run, the tokens still to come spell the text from the start
/// of the pending lexeme on, as the lexer leaves it; what the lexer has
/// read stays as it is; and the text changes by carriage returns only.
pub proof fn lemma_tokens_spell_text(lexer: LexerView)
    requires
        steady(lexer),
    ensures
        lexer.cursor.offset <= settled_text(lexer).len(),
        settled_text(lexer).subrange(0, lexer.cursor.offset as int) == lexer.cursor.text().subrange(
            0,
            lexer.cursor.offset as int,
        ),
        concat_lexemes(lexer.tokens()) == settled_text(lexer).subrange(
            lexer.cursor.index as int,
            settled_text(lexer).len() as int,
        ),
        without_carriage_returns(settled_text(lexer)) == without_carriage_returns(
            lexer.cursor.text(),
        ),
        !lexer.cursor.text().contains('\r') ==> settled_text(lexer) == lexer.cursor.text(),
    decreases lexer.measure(),
{
    let cursor = lexer.cursor;
    let text = cursor.text();
    let settled = settled_text(lexer);
    if lexer.state == State::End {
        assert(settled.subrange(cursor.index as int, settled.len() as int) =~= Seq::<
            char,
        >::empty());
    } else {
        lexer.lemma_turn();
        lemma_steady_turn(lexer);
        let next = lexer.turn();
        lemma_tokens_spell_text(next);
        let seen = lexer.visit().cursor;
        assert(settled == settled_text(next));
        if seen.text() != text {
            assert(cursor.peek() == Some('\r'));
            lemma_delete_carriage_return(text, cursor.offset as int);
        }
        assert(settled.subrange(0, cursor.offset as int) =~= text.subrange(
            0,
            cursor.offset as int,
        )) by {
            assert forall|i: int| 0 <= i < cursor.offset implies settled[i] == text[i] by {
                assert(settled[i] == settled.subrange(0, next.cursor.offset as int)[i]);
                assert(next.cursor.text()[i] == next.cursor.text().subrange(
                    0,
                    next.cursor.offset as int,
                )[i]);
            }
        }
        match lexer.emitted() {
            Some(token) => {
                lemma_concat_first(token, next.tokens());
                assert(token.lexeme =~= settled.subrange(
                    cursor.index as int,
                    next.cursor.index as int,
                )) by {
                    assert forall|i: int| 0 <= i < token.lexeme.len() implies token.lexeme[i]
                        == settled[cursor.index + i] by {
                        assert(settled[cursor.index + i] == settled.subrange(
                            0,
                            next.cursor.offset as int,
                        )[cursor.index + i]);
                        assert(next.cursor.text()[cursor.index + i] == next.cursor.text().subrange(
                            0,
                            next.cursor.offset as int,
                        )[cursor.index + i]);
                    }
                }
                assert(settled.subrange(cursor.index as int, settled.len() as int)
                    =~= settled.subrange(cursor.index as int, next.cursor.index as int)
                    + settled.subrange(next.cursor.index as int, settled.len() as int));
            },
            None => {},
        }
    }
}

/// The lexemes of all the tokens of a text, in order, spell the text with
/// its carriage returns taken out, up to the carriage returns that stand
/// inside string literals, which the lexer keeps. Where no lexeme holds a
/// carriage return the two are equal, and a text without carriage returns
/// comes back unchanged.
pub proof fn lemma_round_trip(source: SourceView)
    ensures
        without_carriage_returns(concat_lexemes(LexerView::start(source).tokens()))
            == without_carriage_returns(source.content),
        !concat_lexemes(LexerView::start(source).tokens()).contains('\r') ==> concat_lexemes(
            LexerView::start(source).tokens(),
        ) == without_carriage_returns(source.content),
        !source.content.contains('\r') ==> concat_lexemes(LexerView::start(source).tokens())
            == source.content,
{
    let lexer = LexerView::start(source);
    lemma_steady_start(source);
    lemma_tokens_spell_text(lexer);
    let settled = settled_text(lexer);
    let lexemes = concat_lexemes(lexer.tokens());
    assert(lexemes =~= settled);
    if !lexemes.contains('\r') {
        lemma_nothing_to_take_out(lexemes);
    }
}

/// Taking the carriage returns out of a text that holds none leaves it as it is.
proof fn lemma_nothing_to_take_out(text: Seq<char>)
    requires
        !text.contains('\r'),
    ensures
        without_carriage_returns(text) == text,
    decreases text.len(),
{
    reveal(Seq::filter);
    if text.len() > 0 {
        let front = text.drop_last();
        assert forall|i: int| 0 <= i < front.len() implies front[i] != '\r' by {
            assert(front[i] == text[i]);
            assert(text.contains(text[i]));
        }
        assert(!front.contains('\r'));
        lemma_nothing_to_take_out(front);
        assert(text.contains(text.last()));
        assert(front.push(text.last()) =~= text);
    }
}

/// Whether `second` sits where a token that comes right after `first` must
/// sit: on the same line, starting at the column where `first` ends; or,
/// after a line break, at the first column of the next line.
pub open spec fn follows(first: TokenView, second: TokenView) -> bool {
    if first.kind == TokenKind::TokenNewLine {
        &&& second.location.line == first.location.line + 1
        &&& second.location.column_start == 0
    } else {
        &&& second.location.line == first.location.line
        &&& second.location.column_start == first.location.column_end
    }
}

/// Whether each token of `tokens` follows the one before it.
pub open spec fn chained(tokens: Seq<TokenView>) -> bool {
    forall|i: int| 0 <= i < tokens.len() - 1 ==> follows(#[trigger] tokens[i], tokens[i + 1])
}

/// Whether the span of `token` is as wide as its lexeme is long. A line
/// break has an empty span: it ends the line it stands on.
pub open spec fn spans_lexeme(token: TokenView) -> bool {
    if token.kind == TokenKind::TokenNewLine {
        token.location.column_end == token.location.column_start
    } else {
        token.location.column_end - token.location.column_start == token.lexeme.len()
    }
}

/// On a steady run, the tokens still to come are chained, the first of them
/// starts where the pending lexeme starts, and each spans its lexeme.
pub proof fn lemma_tokens_chained(lexer: LexerView)
    requires
        steady(lexer),
    ensures
        chained(lexer.tokens()),
        lexer.tokens().len() > 0 ==> {
            &&& lexer.tokens()[0].location.line == lexer.cursor.location.line
            &&& lexer.tokens()[0].location.column_start == lexer.cursor.location.column_start
        },
        forall|i: int| 0 <= i < lexer.tokens().len() ==> spans_lexeme(#[trigger] lexer.tokens()[i]),
    decreases lexer.measure(),
{
    if lexer.state != State::End {
        lexer.lemma_turn();
        lemma_steady_turn(lexer);
        let next = lexer.turn();
        lemma_tokens_chained(next);
        reveal_strlit("\n");
        match lexer.emitted() {
            Some(token) => {
                let rest = next.tokens();
                let all = lexer.tokens();
                assert(all == seq![token] + rest);
                assert(spans_lexeme(token)) by {
                    let pending = lexer.visit().cursor.pending();
                    if pending.len() > 0 {
                        assert(pending[0] == lexer.cursor.text()[lexer.cursor.index as int]);
                    }
                }
                assert forall|i: int| 0 <= i < all.len() - 1 implies follows(
                    #[trigger] all[i],
                    all[i + 1],
                ) by {
                    if i > 0 {
                        assert(all[i] == rest[i - 1]);
                        assert(all[i + 1] == rest[i]);
                    } else {
                        assert(all[1] == rest[0]);
                    }
                }
                assert forall|i: int| 0 <= i < all.len() implies spans_lexeme(
                    #[trigger] all[i],
                ) by {
                    if i > 0 {
                        assert(all[i] == rest[i - 1]);
                    }
                }
            },
            None => {},
        }
    }
}

/// Locations run on without gap or overlap. Of two tokens of a text that
/// come one after the other, the second starts at the column where the first
/// ends, on the same line; unless the first is a line break, after which the
/// second starts at column zero of the next line. The first token of all
/// starts at line zero, column zero.
pub proof fn lemma_locations_monotonic(source: SourceView)
    ensures
        chained(LexerView::start(source).tokens()),
        LexerView::start(source).tokens().len() > 0 ==> {
            &&& LexerView::start(source).tokens()[0].location.line == 0
            &&& LexerView::start(source).tokens()[0].location.column_start == 0
        },
        forall|i: int|
            0 <= i < LexerView::start(source).tokens().len() ==> spans_lexeme(
                #[trigger] LexerView::start(source).tokens()[i],
            ),
{
    lemma_steady_start(source);
    lemma_tokens_chained(LexerView::start(source));
}

/// Whether `tokens` ends with the end-of-file token, which has an empty
/// lexeme, and holds no other.
pub open spec fn ends_at_eof(tokens: Seq<TokenView>) -> bool {
    &&& tokens.len() > 0
    &&& tokens.last().kind == TokenKind::TokenEOF
    &&& tokens.last().lexeme.len() == 0
    &&& forall|i: int| 0 <= i < tokens.len() - 1 ==> (#[trigger] tokens[i]).kind
        != TokenKind::TokenEOF
}

/// From every state but the last, the tokens still to come end with the
/// end-of-file token.
pub proof fn lemma_tokens_end_at_eof(lexer: LexerView)
    requires
        lexer.cursor.wf(),
        lexer.state != State::End,
    ensures
        ends_at_eof(lexer.tokens()),
    decreases lexer.measure(),
{
    lexer.lemma_turn();
    let next = lexer.turn();
    if next.state == State::End {
        assert(next.tokens() =~= Seq::<TokenView>::empty());
        assert(lexer.state == State::EOF);
        assert(lexer.tokens() =~= seq![lexer.emitted()->0]);
    } else {
        lemma_tokens_end_at_eof(next);
        match lexer.emitted() {
            Some(token) => {
                let rest = next.tokens();
                let all = lexer.tokens();
                assert(all == seq![token] + rest);
                assert(all.last() == rest.last());
                assert(token.kind != TokenKind::TokenEOF);
                assert forall|i: int| 0 <= i < all.len() - 1 implies (#[trigger] all[i]).kind
                    != TokenKind::TokenEOF by {
                    if i > 0 {
                        assert(all[i] == rest[i - 1]);
                    }
                }
            },
            None => {},
        }
    }
}

/// Every text has a last token: the end-of-file token, once.
pub proof fn lemma_ends_at_eof(source: SourceView)
    ensures
        ends_at_eof(LexerView::start(source).tokens()),
{
    lemma_tokens_end_at_eof(LexerView::start(source));
}

/// Whether the kind of `token` is the one its lexeme classifies as. Comments,
/// string literals, unknown text and the end of the file are told by the
/// state that reads them, not by their text.
pub open spec fn classified(token: TokenView) -> bool {
    match token.kind {
        TokenKind::TokenComment => true,
        TokenKind::TokenLiteral(Literal::Str) => true,
        TokenKind::TokenUnknown => true,
        TokenKind::TokenEOF => true,
        kind => kind == classify(token.lexeme),
    }
}

/// A blank, a tab and a line break classify as themselves.
proof fn lemma_blanks_classified()
    ensures
        classify(seq![' ']) == TokenKind::TokenSpace,
        classify(seq!['\t']) == TokenKind::TokenTab,
        classify(seq!['\n']) == TokenKind::TokenNewLine,
{
    reveal_strlit("\n");
    reveal_strlit("\t");
    reveal_strlit(" ");
    assert(seq![' '] =~= " "@);
    assert(seq!['\t'] =~= "\t"@);
    assert(seq!['\n'] =~= "\n"@);
    assert(seq![' '][0] != "\n"@[0]);
    assert(seq![' '][0] != "\t"@[0]);
    assert(seq!['\t'][0] != "\n"@[0]);
}

/// A number that the lexer has read classifies as the kind the lexer gives it.
proof fn lemma_number_classified(lexeme: Seq<char>)
    requires
        lexeme.len() > 0,
        is_digit(lexeme[0]),
        forall|i: int| 0 <= i < lexeme.len() ==> is_digit(#[trigger] lexeme[i]) || lexeme[i] == '.',
    ensures
        classify(lexeme) == number_literal(lexeme),
{
    if lexeme.contains('.') {
        lemma_number_with_point_classifies_as_float(lexeme);
    } else {
        assert forall|i: int| 0 <= i < lexeme.len() implies is_digit(#[trigger] lexeme[i]) by {
            assert(lexeme.contains(lexeme[i]));
        }
        lemma_digits_classify_as_int(lexeme);
    }
}

/// On a steady run, every token still to come is of the kind its lexeme
/// classifies as.
pub proof fn lemma_tokens_classified(lexer: LexerView)
    requires
        steady(lexer),
    ensures
        forall|i: int| 0 <= i < lexer.tokens().len() ==> classified(#[trigger] lexer.tokens()[i]),
    decreases lexer.measure(),
{
    if lexer.state != State::End {
        lexer.lemma_turn();
        lemma_steady_turn(lexer);
        let next = lexer.turn();
        lemma_tokens_classified(next);
        match lexer.emitted() {
            Some(token) => {
                let rest = next.tokens();
                let all = lexer.tokens();
                assert(all == seq![token] + rest);
                assert(classified(token)) by {
                    lemma_blanks_classified();
                    let cursor = lexer.cursor;
                    let pending = cursor.pending();
                    if lexer.state is Number {
                        assert(pending[0] == cursor.text()[cursor.index as int]);
                        assert forall|i: int| 0 <= i < pending.len() implies is_digit(
                            #[trigger] pending[i],
                        ) || pending[i] == '.' by {
                            assert(pending[i] == cursor.text()[cursor.index + i]);
                        }
                        lemma_number_classified(pending);
                    }
                    if lexer.state is Start {
                        assert(token.lexeme =~= seq![cursor.text()[cursor.offset as int]]);
                    }
                    if lexer.state is Symbol && cursor.peek() == Some('\n') && pending.len() == 0 {
                        assert(token.lexeme =~= seq!['\n']);
                    }
                }
                assert forall|i: int| 0 <= i < all.len() implies classified(#[trigger] all[i]) by {
                    if i > 0 {
                        assert(all[i] == rest[i - 1]);
                    } else {
                        assert(all[i] == token);
                    }
                }
            },
            None => {
                assert(lexer.tokens() == next.tokens());
            },
        }
    } else {
        assert(lexer.tokens().len() == 0);
    }
}

/// Every token of a text is of the kind its lexeme classifies as, but for
/// comments, string literals, unknown text and the end of the file.
pub proof fn lemma_classified(source: SourceView)
    ensures
        forall|i: int|
            0 <= i < LexerView::start(source).tokens().len() ==> classified(
                #[trigger] LexerView::start(source).tokens()[i],
            ),
{
    lemma_steady_start(source);
    lemma_tokens_classified(LexerView::start(source));
}

} // verus!
