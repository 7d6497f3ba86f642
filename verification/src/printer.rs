//! The canonical text of a term, and the proof that parsing it gives the
//! term back.

use vstd::prelude::*;
use vstd::string::*;
use vstd::utf8::{encode_utf8, is_ascii_chars, is_ascii_chars_encode_utf8};
use crate::adapter::{name_of, token_view};
use crate::ast::{ExprNode, Term};
use crate::canon::{canon, canon_arg, canon_fun, lemma_canon_shape, lemma_parse_canon_stream, spells};
use crate::classifier::{
    Lexeme, ident_end, is_ident_continue, is_ident_start, is_trivia, lambda_bytes,
    lemma_ident_end, lemma_scan_bounds, lemma_skip_trivia, scan, skip_trivia,
};
use crate::grammar::{
    Parsed, class_at, lemma_tokens_from, parse_args, parse_atom, parse_expr, tokens,
    tokens_from,
};
use crate::laws::lemma_stream_scan;
use crate::parser::{OutcomeView, parse_spec};
use crate::token::{LogosToken, Token, TokenView};

verus! {

/// The characters of the keyword.
pub open spec fn lambda_chars() -> Seq<char> {
    seq!['l', 'a', 'm', 'b', 'd', 'a']
}

/// The text of a terminal. The end of the stream has none.
pub open spec fn token_text(t: TokenView) -> Seq<char> {
    match t {
        TokenView::LAMBDA => lambda_chars(),
        TokenView::OPEN => seq!['('],
        TokenView::CLOSE => seq![')'],
        TokenView::DOT => seq!['.'],
        TokenView::ID(name) => name,
        TokenView::EOF => Seq::empty(),
    }
}

/// Whether a blank stands between the terminal `a` and its successor `b`:
/// between two words, between a word and an opening bracket, and behind a
/// closing bracket before a word or an opening bracket.
pub open spec fn spaced(a: TokenView, b: TokenView) -> bool {
    (a is LAMBDA || a is ID || a is CLOSE) && (b is LAMBDA || b is ID || b is OPEN)
}

/// The blank between two terminals, or nothing.
pub open spec fn gap(a: TokenView, b: TokenView) -> Seq<char> {
    if spaced(a, b) {
        seq![' ']
    } else {
        Seq::empty()
    }
}

/// The text of a sequence of terminals: their texts in a row, with a blank
/// wherever `spaced` asks for one.
pub open spec fn render(w: Seq<TokenView>) -> Seq<char>
    decreases w.len(),
{
    if w.len() == 0 {
        Seq::empty()
    } else if w.len() == 1 {
        token_text(w[0])
    } else {
        token_text(w[0]) + gap(w[0], w[1]) + render(w.drop_first())
    }
}

/// The canonical text of a term.
pub open spec fn print(t: Term) -> Seq<char> {
    render(canon(t))
}

/// Whether `name` can be written as an identifier: it starts with an ASCII
/// letter or `_`, goes on with ASCII letters, digits and `_`, and is not the
/// keyword.
pub open spec fn valid_name(name: Seq<char>) -> bool {
    &&& name.len() > 0
    &&& forall|i: int| 0 <= i < name.len() ==> (#[trigger] name[i]) <= '\u{7f}'
    &&& forall|i: int| 0 <= i < name.len() ==> is_ident_continue((#[trigger] name[i]) as u8)
    &&& is_ident_start(name[0] as u8)
    &&& name != lambda_chars()
}

/// Whether every name in a term can be written as an identifier.
pub open spec fn valid_names(t: Term) -> bool
    decreases t,
{
    match t {
        Term::Var(x) => valid_name(x),
        Term::Abs(x, body) => valid_name(x) && valid_names(*body),
        Term::App(fun, arg) => valid_names(*fun) && valid_names(*arg),
    }
}

/// Whether every terminal of `w` has a text that reads as itself: none is
/// the end of the stream, and every identifier has a valid name.
pub open spec fn writable(w: Seq<TokenView>) -> bool {
    forall|i: int|
        0 <= i < w.len() ==> !(#[trigger] w[i] is EOF) && (w[i] matches TokenView::ID(name)
            ==> valid_name(name))
}

/// `s` holds the characters `chars`, one byte for each.
pub open spec fn ascii_bytes_of(s: Seq<u8>, chars: Seq<char>) -> bool {
    &&& s.len() == chars.len()
    &&& forall|i: int| 0 <= i < s.len() ==> #[trigger] s[i] == chars[i] as u8
}

/// `stream` holds one lexeme for each terminal of `w`, in order, each
/// standing for its terminal, and then an `End`.
pub open spec fn lexes_as(stream: Seq<Lexeme>, w: Seq<TokenView>) -> bool {
    &&& stream.len() == w.len() + 1
    &&& forall|i: int| 0 <= i < w.len() ==> #[trigger] w[i] == token_view(stream[i])
    &&& stream[w.len() as int].token == LogosToken::End
}

/// `ident_end` is the first place at or behind `from` that holds no
/// identifier byte.
pub proof fn lemma_ident_end_is(s: Seq<u8>, from: int, to: int)
    requires
        0 <= from <= to <= s.len(),
        forall|i: int| from <= i < to ==> is_ident_continue(#[trigger] s[i]),
        to < s.len() ==> !is_ident_continue(s[to]),
    ensures
        ident_end(s, from) == to,
    decreases to - from,
{
    if from < to {
        lemma_ident_end_is(s, from + 1, to);
    }
}

/// A blank at the place from which a stream is read makes no difference.
pub proof fn lemma_tokens_skip_blank(s: Seq<u8>, pos: int)
    requires
        0 <= pos < s.len(),
        is_trivia(s[pos]),
    ensures
        tokens_from(s, pos) == tokens_from(s, pos + 1),
{
    lemma_scan_bounds(s, pos);
    lemma_scan_bounds(s, pos + 1);
    assert(skip_trivia(s, pos) == skip_trivia(s, pos + 1));
    assert(scan(s, pos) == scan(s, pos + 1));
}

/// The text of a writable terminal is not empty, is ASCII, and starts with
/// a byte that is no blank; a word's text is made of identifier bytes and
/// starts with a letter or `_`; another's is one byte that is none.
pub proof fn lemma_token_text(t: TokenView)
    requires
        !(t is EOF),
        t matches TokenView::ID(name) ==> valid_name(name),
    ensures
        token_text(t).len() >= 1,
        forall|i: int| 0 <= i < token_text(t).len() ==> (#[trigger] token_text(t)[i]) <= '\u{7f}',
        !is_trivia(token_text(t)[0] as u8),
        t is LAMBDA || t is ID ==> is_ident_start(token_text(t)[0] as u8) && forall|i: int|
            0 <= i < token_text(t).len() ==> is_ident_continue((#[trigger] token_text(t)[i]) as u8),
        t is OPEN ==> token_text(t).len() == 1 && token_text(t)[0] as u8 == 0x28,
        t is CLOSE ==> token_text(t).len() == 1 && token_text(t)[0] as u8 == 0x29,
        t is DOT ==> token_text(t).len() == 1 && token_text(t)[0] as u8 == 0x2e,
{
    if t is LAMBDA {
        assert(lambda_chars().len() == 6);
        assert(lambda_chars()[0] == 'l' && lambda_chars()[1] == 'a' && lambda_chars()[2] == 'm'
            && lambda_chars()[3] == 'b' && lambda_chars()[4] == 'd' && lambda_chars()[5] == 'a');
    }
}

/// No character lies below the first one.
pub proof fn lemma_char_floor(c: char)
    ensures
        '\0' <= c,
{
}

/// An ASCII character is the character of its byte.
pub proof fn lemma_ascii_char(c: char)
    requires
        c <= '\u{7f}',
    ensures
        (c as u8) as char == c,
{
}

/// A word that stands in a text, with no identifier byte behind it, is
/// read as one lexeme: the keyword where it spells `lambda`, else an
/// identifier of that name.
pub proof fn lemma_scan_word(s: Seq<u8>, pos: int, x: Seq<char>)
    requires
        0 <= pos,
        x.len() >= 1,
        pos + x.len() <= s.len(),
        forall|j: int| 0 <= j < x.len() ==> s[pos + j] == (#[trigger] x[j]) as u8,
        forall|j: int| 0 <= j < x.len() ==> (#[trigger] x[j]) <= '\u{7f}',
        forall|j: int| 0 <= j < x.len() ==> is_ident_continue((#[trigger] x[j]) as u8),
        is_ident_start(x[0] as u8),
        pos + x.len() < s.len() ==> !is_ident_continue(s[pos + x.len()]),
    ensures
        scan(s, pos).start == pos,
        scan(s, pos).end == pos + x.len(),
        x == lambda_chars() ==> scan(s, pos).token == LogosToken::Lambda,
        x != lambda_chars() ==> scan(s, pos).token == LogosToken::ID,
        name_of(scan(s, pos).text) == x,
{
    let n = x.len() as int;
    let e = pos + n;
    assert(s[pos] == x[0] as u8) by {
        assert(s[pos + 0] == x[0] as u8);
    }
    assert(skip_trivia(s, pos) == pos);
    assert forall|i: int| pos + 1 <= i < e implies is_ident_continue(#[trigger] s[i]) by {
        assert(s[pos + (i - pos)] == x[i - pos] as u8);
    }
    lemma_ident_end_is(s, pos + 1, e);
    let text = s.subrange(pos, e);
    assert(scan(s, pos).text == text);
    assert forall|j: int| 0 <= j < n implies #[trigger] text[j] == x[j] as u8 by {
        assert(s[pos + j] == x[j] as u8);
    }
    lemma_lambda_spelling();
    if x == lambda_chars() {
        assert(text =~= lambda_bytes());
    } else if text == lambda_bytes() {
        assert(n == 6);
        assert forall|j: int| 0 <= j < 6 implies #[trigger] x[j] == lambda_chars()[j] by {
            assert(text[j] == x[j] as u8);
            lemma_ascii_char(x[j]);
            lemma_ascii_char(lambda_chars()[j]);
        }
        assert(x =~= lambda_chars());
    }
    assert(name_of(text) =~= x) by {
        assert forall|j: int| 0 <= j < n implies #[trigger] name_of(text)[j] == x[j] by {
            assert(text[j] == x[j] as u8);
            lemma_ascii_char(x[j]);
        }
    }
}

/// The keyword letter by letter, as characters and as bytes.
pub proof fn lemma_lambda_spelling()
    ensures
        lambda_chars().len() == 6,
        lambda_bytes().len() == 6,
        forall|j: int|
            0 <= j < 6 ==> (#[trigger] lambda_chars()[j]) as u8 == lambda_bytes()[j]
                && lambda_chars()[j] <= '\u{7f}',
{
    assert(lambda_bytes()[0] == 0x6c && lambda_bytes()[1] == 0x61 && lambda_bytes()[2] == 0x6d
        && lambda_bytes()[3] == 0x62 && lambda_bytes()[4] == 0x64 && lambda_bytes()[5] == 0x61);
    assert(lambda_chars()[0] == 'l' && lambda_chars()[1] == 'a' && lambda_chars()[2] == 'm'
        && lambda_chars()[3] == 'b' && lambda_chars()[4] == 'd' && lambda_chars()[5] == 'a');
}

/// `render` writes the first terminal, the blank behind it where there is
/// one, and then the others.
pub proof fn lemma_render_step(w: Seq<TokenView>)
    requires
        w.len() > 0,
    ensures
        render(w) == token_text(w[0]) + gap_after(w) + render(w.drop_first()),
{
    if w.len() == 1 {
        assert(w.drop_first().len() == 0);
        assert(render(w.drop_first()).len() == 0);
        assert(token_text(w[0]) + gap_after(w) + render(w.drop_first()) =~= token_text(w[0]));
    }
}

/// What `render` does with a sequence that is not empty: the text of the
/// first terminal, the blank behind it where there is one, and the text of
/// the rest, which is writable too and starts as its first terminal does.
pub proof fn lemma_render_unfold(w: Seq<TokenView>)
    requires
        w.len() > 0,
        writable(w),
    ensures
        render(w) == token_text(w[0]) + gap_after(w) + render(w.drop_first()),
        render(w).len() == token_text(w[0]).len() + gap_after(w).len() + render(
            w.drop_first(),
        ).len(),
        writable(w.drop_first()),
        w.len() == 1 ==> render(w.drop_first()).len() == 0,
        w.len() >= 2 ==> render(w.drop_first()).len() >= 1 && render(w.drop_first())[0]
            == token_text(w[1])[0],
{
    let rest = w.drop_first();
    assert forall|i: int| 0 <= i < rest.len() implies !(#[trigger] rest[i] is EOF) && (
    rest[i] matches TokenView::ID(name) ==> valid_name(name)) by {
        assert(rest[i] == w[i + 1]);
    }
    if w.len() == 1 {
        assert(rest.len() == 0);
        assert(render(rest).len() == 0);
        assert(token_text(w[0]) + gap_after(w) + render(rest) =~= token_text(w[0]));
    } else {
        assert(rest[0] == w[1]);
        lemma_token_text(rest[0]);
        if rest.len() > 1 {
            assert(render(rest) == token_text(rest[0]) + gap(rest[0], rest[1]) + render(
                rest.drop_first(),
            ));
        }
    }
}

/// The first lexeme of the text of writable terminals stands for the first
/// terminal and covers its text; behind it comes the blank, where there is
/// one, and then the text of the other terminals.
pub proof fn lemma_first_lexeme(s: Seq<u8>, chars: Seq<char>, pos: int, w: Seq<TokenView>)
    requires
        ascii_bytes_of(s, chars),
        0 <= pos <= s.len(),
        chars.skip(pos) == render(w),
        writable(w),
        w.len() > 0,
    ensures
        w[0] == token_view(scan(s, pos)),
        scan(s, pos).token != LogosToken::End,
        scan(s, pos).token != LogosToken::Error,
        scan(s, pos).end == pos + token_text(w[0]).len(),
        scan(s, pos).end + gap_after(w).len() <= s.len(),
        gap_after(w).len() == 1 ==> is_trivia(s[scan(s, pos).end]),
        gap_after(w).len() == 0 || gap_after(w).len() == 1,
        chars.skip(scan(s, pos).end + gap_after(w).len()) == render(w.drop_first()),
{
    let r = render(w);
    let t = w[0];
    let x = token_text(t);
    let n = x.len() as int;
    let g = gap_after(w);
    let rest = w.drop_first();
    let e = pos + n;
    lemma_render_unfold(w);
    lemma_token_text(t);
    assert(pos + r.len() == s.len()) by {
        assert(chars.skip(pos).len() == chars.len() - pos);
    }
    assert forall|j: int| 0 <= j < r.len() implies chars[pos + j] == #[trigger] r[j] by {
        assert(chars.skip(pos)[j] == chars[pos + j]);
    }
    assert forall|j: int| 0 <= j < n implies s[pos + j] == (#[trigger] x[j]) as u8 by {
        assert(r[j] == x[j]);
        assert(chars[pos + j] == r[j]);
    }
    assert(s[pos] == x[0] as u8) by {
        assert(s[pos + 0] == x[0] as u8);
    }
    assert(skip_trivia(s, pos) == pos);
    // the byte behind the text, where there is one
    if e < s.len() {
        if g.len() == 1 {
            assert(g[0] == ' ');
            assert(r[n] == g[0]);
            assert(chars[pos + n] == r[n]);
            assert(s[e] == 0x20u8);
        } else {
            assert(g.len() == 0);
            assert(w.len() >= 2);
            assert(r[n] == render(rest)[0]);
            assert(chars[pos + n] == r[n]);
            assert(s[e] == token_text(w[1])[0] as u8);
            lemma_token_text(w[1]);
        }
    }
    if t is LAMBDA || t is ID {
        lemma_scan_word(s, pos, x);
    }
    assert(chars.skip(e + g.len()) =~= render(rest)) by {
        assert(chars.skip(e + g.len()).len() == render(rest).len());
        assert forall|j: int| 0 <= j < render(rest).len() implies chars.skip(e + g.len())[j]
            == #[trigger] render(rest)[j] by {
            assert(r[n + g.len() + j] == render(rest)[j]);
            assert(chars[pos + (n + g.len() + j)] == r[n + g.len() + j]);
            assert(chars.skip(e + g.len())[j] == chars[e + g.len() + j]);
        }
    }
}

/// Reading the text of a sequence of writable terminals gives one lexeme
/// for each terminal, and then the end.
///
/// `s` holds the bytes of the ASCII text `chars`, and what `chars` holds
/// from `pos` on is the text of `w`.
pub proof fn lemma_lex_render(s: Seq<u8>, chars: Seq<char>, pos: int, w: Seq<TokenView>)
    requires
        ascii_bytes_of(s, chars),
        0 <= pos <= s.len(),
        chars.skip(pos) == render(w),
        writable(w),
    ensures
        lexes_as(tokens_from(s, pos), w),
    decreases w.len(),
{
    lemma_scan_bounds(s, pos);
    lemma_tokens_from(s, pos);
    if w.len() == 0 {
        assert(render(w).len() == 0);
        assert(chars.skip(pos).len() == chars.len() - pos);
        assert(pos == s.len());
    } else {
        let rest = w.drop_first();
        let l = scan(s, pos);
        lemma_first_lexeme(s, chars, pos, w);
        lemma_render_unfold(w);
        let pos2 = l.end + gap_after(w).len();
        if gap_after(w).len() == 1 {
            lemma_tokens_skip_blank(s, l.end);
        }
        lemma_lex_render(s, chars, pos2, rest);
        let tf = tokens_from(s, pos);
        let tf2 = tokens_from(s, pos2);
        assert(tf =~= seq![l] + tf2);
        assert forall|i: int| 0 <= i < w.len() implies #[trigger] w[i] == token_view(tf[i]) by {
            if i > 0 {
                assert(rest[i - 1] == w[i]);
                assert(tf[i] == tf2[i - 1]);
            }
        }
        assert(tf[w.len() as int] == tf2[rest.len() as int]);
    }
}

/// The canonical tokens of a term with valid names are writable.
pub proof fn lemma_canon_writable(t: Term)
    requires
        valid_names(t),
    ensures
        writable(canon(t)),
    decreases t,
{
    lemma_canon_shape(t);
    match t {
        Term::Var(x) => {
            assert(canon(t) =~= seq![TokenView::ID(x)]);
        },
        Term::Abs(x, body) => {
            lemma_canon_writable(*body);
            let head = seq![TokenView::LAMBDA, TokenView::ID(x), TokenView::DOT];
            assert(canon(t) =~= head + canon(*body));
            assert forall|i: int| 0 <= i < canon(t).len() implies (#[trigger] canon(t)[i]
                matches TokenView::ID(name) ==> valid_name(name)) by {
                if i >= 3 {
                    assert(canon(t)[i] == canon(*body)[i - 3]);
                }
            }
        },
        Term::App(fun, arg) => {
            lemma_canon_writable(*fun);
            lemma_canon_writable(*arg);
            let wf = canon_fun(*fun);
            let wa = canon_arg(*arg);
            let cf = canon(*fun);
            let ca = canon(*arg);
            assert(canon(t) =~= wf + wa);
            assert forall|i: int| 0 <= i < canon(t).len() implies (#[trigger] canon(t)[i]
                matches TokenView::ID(name) ==> valid_name(name)) by {
                if i < wf.len() {
                    assert(canon(t)[i] == wf[i]);
                    if *fun is Abs {
                        if 1 <= i <= cf.len() {
                            assert(wf[i] == cf[i - 1]);
                        }
                    } else {
                        assert(wf[i] == cf[i]);
                    }
                } else {
                    let j = i - wf.len();
                    assert(canon(t)[i] == wa[j]);
                    if *arg is Var {
                        assert(wa[j] == ca[j]);
                    } else {
                        if 1 <= j <= ca.len() {
                            assert(wa[j] == ca[j - 1]);
                        }
                    }
                }
            }
        },
    }
}

/// The text of writable terminals is ASCII.
pub proof fn lemma_render_ascii(w: Seq<TokenView>)
    requires
        writable(w),
    ensures
        is_ascii_chars(render(w)),
    decreases w.len(),
{
    if w.len() > 0 {
        let x = token_text(w[0]);
        let rest = w.drop_first();
        lemma_token_text(w[0]);
        lemma_render_unfold(w);
        lemma_render_ascii(rest);
        let r = render(w);
        let g = gap_after(w);
        lemma_render_unfold(w);
        assert forall|i: int| 0 <= i < r.len() implies '\0' <= #[trigger] r[i] <= '\u{7f}' by {
            if i < x.len() {
                assert(r[i] == x[i]);
                assert(x[i] <= '\u{7f}');
                assert(r[i] <= '\u{7f}');
            } else if i < x.len() + g.len() {
                assert(r[i] == g[i - x.len()]);
                assert(g[0] == ' ');
                assert(r[i] <= '\u{7f}');
            } else {
                let k = i - x.len() - g.len();
                assert(r[i] == render(rest)[k]);
                assert(render(rest)[k] <= '\u{7f}');
                assert(r[i] <= '\u{7f}');
            }
            lemma_char_floor(r[i]);
        }
    }
}

/// Parsing the canonical text of a term gives the term back: for every
/// term whose names can be written as identifiers, the outcome of parsing
/// its canonical text, encoded as UTF-8, is that term.
pub proof fn lemma_round_trip(t: Term)
    requires
        valid_names(t),
    ensures
        parse_spec(encode_utf8(print(t))) == OutcomeView::Ast(t),
{
    let w = canon(t);
    let chars = print(t);
    let s = encode_utf8(chars);
    lemma_canon_writable(t);
    lemma_render_ascii(w);
    is_ascii_chars_encode_utf8(chars);
    assert(ascii_bytes_of(s, chars));
    assert(chars.skip(0) =~= render(w));
    lemma_lex_render(s, chars, 0, w);
    let toks = tokens(s);
    assert(spells(toks, 0, w));
    lemma_parse_canon_stream(toks, t);
}

/// The name of an identifier lexeme can be written as an identifier.
pub proof fn lemma_ident_name_valid(s: Seq<u8>, pos: int)
    requires
        0 <= pos <= s.len(),
        scan(s, pos).token == LogosToken::ID,
    ensures
        valid_name(name_of(scan(s, pos).text)),
{
    lemma_scan_bounds(s, pos);
    lemma_skip_trivia(s, pos);
    let l = scan(s, pos);
    let text = l.text;
    let name = name_of(text);
    lemma_ident_end(s, l.start + 1);
    assert forall|j: int| 0 <= j < text.len() implies is_ident_continue(#[trigger] text[j]) by {
        assert(text[j] == s[l.start + j]);
    }
    assert forall|j: int| 0 <= j < name.len() implies (#[trigger] name[j]) <= '\u{7f}'
        && name[j] as u8 == text[j] by {
        assert(is_ident_continue(text[j]));
        assert(name[j] == text[j] as char);
    }
    assert forall|j: int| 0 <= j < name.len() implies is_ident_continue(
        (#[trigger] name[j]) as u8,
    ) by {
        assert(name[j] as u8 == text[j]);
        assert(is_ident_continue(text[j]));
    }
    assert(text[0] == s[l.start + 0]);
    lemma_lambda_spelling();
    if name == lambda_chars() {
        assert forall|j: int| 0 <= j < 6 implies #[trigger] text[j] == lambda_bytes()[j] by {
            assert(name[j] as u8 == text[j]);
            assert(name[j] == lambda_chars()[j]);
        }
        assert(text =~= lambda_bytes());
    }
}

/// Every identifier of the stream has a name that can be written as one.
pub open spec fn valid_stream(toks: Seq<Lexeme>) -> bool {
    forall|i: int|
        0 <= i < toks.len() && (#[trigger] toks[i]).token == LogosToken::ID ==> valid_name(
            name_of(toks[i].text),
        )
}

/// The stream of a text holds valid identifiers only.
pub proof fn lemma_tokens_valid(s: Seq<u8>)
    ensures
        valid_stream(tokens(s)),
{
    let toks = tokens(s);
    assert forall|i: int|
        0 <= i < toks.len() && (#[trigger] toks[i]).token == LogosToken::ID implies valid_name(
        name_of(toks[i].text),
    ) by {
        lemma_stream_scan(s, 0, i);
        let p = choose|p: int| 0 <= p <= s.len() && tokens_from(s, 0)[i] == #[trigger] scan(s, p);
        lemma_ident_name_valid(s, p);
    }
}

/// Whether the term of an accepted phrase has valid names.
pub open spec fn accepts_valid(r: Parsed) -> bool {
    r matches Parsed::Accept { term, next } ==> valid_names(term)
}

/// A term read from a stream of valid identifiers has valid names.
pub proof fn lemma_parsed_names(toks: Seq<Lexeme>, k: int)
    requires
        valid_stream(toks),
        0 <= k,
    ensures
        accepts_valid(parse_atom(toks, k)),
        accepts_valid(parse_expr(toks, k)),
    decreases toks.len() - k, 0int,
{
    if class_at(toks, k) == LogosToken::Lambda {
        if class_at(toks, k + 1) == LogosToken::ID && class_at(toks, k + 2) == LogosToken::Dot {
            lemma_parsed_names(toks, k + 3);
            assert(valid_name(name_of(toks[k + 1].text)));
        }
    } else {
        if class_at(toks, k) == LogosToken::Open {
            lemma_parsed_names(toks, k + 1);
        }
        if class_at(toks, k) == LogosToken::ID {
            assert(valid_name(name_of(toks[k].text)));
        }
        match parse_atom(toks, k) {
            Parsed::Accept { term, next } => {
                if k < next <= toks.len() {
                    lemma_args_names(toks, next, term);
                }
            },
            _ => {},
        }
    }
}

/// An application read from a stream of valid identifiers has valid names
/// where its head has.
pub proof fn lemma_args_names(toks: Seq<Lexeme>, k: int, head: Term)
    requires
        valid_stream(toks),
        valid_names(head),
        0 <= k <= toks.len(),
    ensures
        accepts_valid(parse_args(toks, k, head)),
    decreases toks.len() - k, 1int,
{
    if class_at(toks, k) == LogosToken::ID || class_at(toks, k) == LogosToken::Open {
        lemma_parsed_names(toks, k);
        match parse_atom(toks, k) {
            Parsed::Accept { term, next } => {
                if k < next <= toks.len() {
                    lemma_args_names(toks, next, Term::App(Box::new(head), Box::new(term)));
                }
            },
            _ => {},
        }
    }
}

/// Parsing is idempotent after canonical printing: where a text is
/// accepted as the term `t`, the canonical text of `t` is accepted as `t`
/// too.
pub proof fn lemma_reparse(s: Seq<u8>, t: Term)
    requires
        parse_spec(s) == OutcomeView::Ast(t),
    ensures
        valid_names(t),
        parse_spec(encode_utf8(print(t))) == OutcomeView::Ast(t),
{
    lemma_tokens_valid(s);
    lemma_parsed_names(tokens(s), 0);
    lemma_round_trip(t);
}

/// The blank behind the first terminal of `w`, or nothing.
pub open spec fn gap_after(w: Seq<TokenView>) -> Seq<char> {
    if w.len() >= 2 {
        gap(w[0], w[1])
    } else {
        Seq::empty()
    }
}

/// The terminals that a sequence of tokens stands for.
pub open spec fn views(v: Seq<Token>) -> Seq<TokenView> {
    Seq::new(v.len(), |i: int| v[i]@)
}

fn push_token(out: &mut Vec<Token>, token: Token)
    ensures
        views(final(out)@) == views(old(out)@).push(token@),
{
    out.push(token);
    assert(views(out@) =~= views(old(out)@).push(token@));
}

/// Appends the canonical tokens of `e` to `out`.
fn push_canon(e: &ExprNode, out: &mut Vec<Token>)
    ensures
        views(final(out)@) == views(old(out)@) + canon(e@),
    decreases e,
{
    let ghost before = views(out@);
    match e {
        ExprNode::Var(name) => {
            push_token(out, Token::ID(name.clone()));
            assert(views(out@) =~= before + canon(e@));
        },
        ExprNode::Abs(name, body) => {
            push_token(out, Token::LAMBDA);
            push_token(out, Token::ID(name.clone()));
            push_token(out, Token::DOT);
            push_canon(body, out);
            assert(views(out@) =~= before + canon(e@));
        },
        ExprNode::App(fun, arg) => {
            let f: &ExprNode = &**fun;
            let a: &ExprNode = &**arg;
            if is_abs(f) {
                push_token(out, Token::OPEN);
                push_canon(f, out);
                push_token(out, Token::CLOSE);
            } else {
                push_canon(f, out);
            }
            assert(views(out@) =~= before + canon_fun(f@));
            if is_var(a) {
                push_canon(a, out);
            } else {
                push_token(out, Token::OPEN);
                push_canon(a, out);
                push_token(out, Token::CLOSE);
            }
            assert(views(out@) =~= before + canon_fun(f@) + canon_arg(a@));
            assert(views(out@) =~= before + canon(e@));
        },
    }
}

fn is_abs(e: &ExprNode) -> (r: bool)
    ensures
        r == (e@ is Abs),
{
    match e {
        ExprNode::Abs(_, _) => true,
        _ => false,
    }
}

fn is_var(e: &ExprNode) -> (r: bool)
    ensures
        r == (e@ is Var),
{
    match e {
        ExprNode::Var(_) => true,
        _ => false,
    }
}

/// The canonical tokens of a term.
pub fn canon_tokens(e: &ExprNode) -> (tokens: Vec<Token>)
    ensures
        views(tokens@) == canon(e@),
{
    let mut tokens: Vec<Token> = Vec::new();
    assert(views(tokens@) =~= Seq::<TokenView>::empty());
    push_canon(e, &mut tokens);
    assert(Seq::<TokenView>::empty() + canon(e@) =~= canon(e@));
    tokens
}

/// Whether a blank stands between the token `a` and its successor `b`.
fn needs_gap(a: &Token, b: &Token) -> (r: bool)
    ensures
        r == spaced(a@, b@),
{
    let left = match a {
        Token::LAMBDA => true,
        Token::ID(_) => true,
        Token::CLOSE => true,
        _ => false,
    };
    let right = match b {
        Token::LAMBDA => true,
        Token::ID(_) => true,
        Token::OPEN => true,
        _ => false,
    };
    left && right
}

/// Appends the text of a token to `out`.
fn push_text(out: &mut String, token: &Token)
    ensures
        final(out)@ == old(out)@ + token_text(token@),
{
    match token {
        Token::LAMBDA => {
            proof {
                reveal_strlit("lambda");
                assert("lambda"@ =~= lambda_chars());
            }
            out.append("lambda");
        },
        Token::OPEN => {
            proof {
                reveal_strlit("(");
                assert("("@ =~= seq!['(']);
            }
            out.append("(");
        },
        Token::CLOSE => {
            proof {
                reveal_strlit(")");
                assert(")"@ =~= seq![')']);
            }
            out.append(")");
        },
        Token::DOT => {
            proof {
                reveal_strlit(".");
                assert("."@ =~= seq!['.']);
            }
            out.append(".");
        },
        Token::ID(name) => {
            out.append(name.as_str());
        },
        Token::EOF => {
            assert(out@ + Seq::<char>::empty() =~= out@);
        },
    }
}

/// The text of a sequence of tokens: their texts in a row, with a blank
/// wherever two of them would else run together or read badly.
pub fn render_tokens(tokens: &Vec<Token>) -> (text: String)
    ensures
        text@ == render(views(tokens@)),
{
    let ghost w = views(tokens@);
    let n = tokens.len();
    let mut text = String::new();
    let mut i: usize = 0;
    assert(w.skip(0) =~= w);
    assert(text@ + render(w) =~= render(w));
    while i < n
        invariant
            i <= n,
            n == tokens@.len(),
            w == views(tokens@),
            text@ + render(w.skip(i as int)) == render(w),
        decreases n - i,
    {
        let ghost rest = w.skip(i as int);
        let ghost before = text@;
        proof {
            lemma_render_step(rest);
            assert(rest[0] == w[i as int]);
            assert(rest.drop_first() =~= w.skip(i + 1));
        }
        push_text(&mut text, &tokens[i]);
        if i + 1 < n && needs_gap(&tokens[i], &tokens[i + 1]) {
            proof {
                reveal_strlit(" ");
                assert(" "@ =~= seq![' ']);
                assert(rest[1] == w[i + 1]);
            }
            text.append(" ");
        } else {
            proof {
                if i + 1 < n {
                    assert(rest[1] == w[i + 1]);
                }
                assert(text@ + Seq::<char>::empty() =~= text@);
            }
        }
        assert(text@ == before + token_text(rest[0]) + gap_after(rest));
        assert(text@ + render(w.skip(i + 1)) =~= before + render(rest));
        i += 1;
    }
    assert(render(w.skip(n as int)).len() == 0);
    assert(text@ + render(w.skip(n as int)) =~= text@);
    text
}

impl ExprNode {
    /// The canonical text of this term: `lambda x.body` for an abstraction,
    /// function and argument with a blank between them for an application,
    /// and brackets only round an abstraction that is applied and round an
    /// argument that is no variable.
    pub fn to_text(&self) -> (text: String)
        ensures
            text@ == print(self@),
    {
        let tokens = canon_tokens(self);
        render_tokens(&tokens)
    }
}

} // verus!
