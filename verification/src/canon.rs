//! The canonical token sequence of a term, and the proof that reading it
//! gives the term back.

use vstd::prelude::*;
use crate::adapter::token_view;
use crate::ast::Term;
use crate::classifier::Lexeme;
use crate::grammar::{Parsed, class_at, parse_args, parse_atom, parse_expr, parse_main};
use crate::token::{LogosToken, TokenView};

verus! {

/// `w` between a pair of brackets.
pub open spec fn bracket(w: Seq<TokenView>) -> Seq<TokenView> {
    seq![TokenView::OPEN] + w + seq![TokenView::CLOSE]
}

/// The canonical tokens of a term in function position: an abstraction
/// stands in brackets.
pub open spec fn canon_fun(t: Term) -> Seq<TokenView>
    decreases t, 1int,
{
    if t is Abs {
        bracket(canon(t))
    } else {
        canon(t)
    }
}

/// The canonical tokens of a term in argument position: all but a variable
/// stands in brackets.
pub open spec fn canon_arg(t: Term) -> Seq<TokenView>
    decreases t, 1int,
{
    if t is Var {
        canon(t)
    } else {
        bracket(canon(t))
    }
}

/// The canonical tokens of a term: those that spell it with no bracket
/// more than the grammar needs.
pub open spec fn canon(t: Term) -> Seq<TokenView>
    decreases t, 0int,
{
    match t {
        Term::Var(x) => seq![TokenView::ID(x)],
        Term::Abs(x, body) => seq![TokenView::LAMBDA, TokenView::ID(x), TokenView::DOT] + canon(
            *body,
        ),
        Term::App(fun, arg) => canon_fun(*fun) + canon_arg(*arg),
    }
}

/// The lexemes of `toks` from index `k` on stand for the terminals `w`.
pub open spec fn spells(toks: Seq<Lexeme>, k: int, w: Seq<TokenView>) -> bool {
    &&& 0 <= k
    &&& k + w.len() <= toks.len()
    &&& forall|i: int| 0 <= i < w.len() ==> #[trigger] w[i] == token_view(toks[k + i])
}

/// A canonical token sequence is not empty and holds no end of stream.
pub proof fn lemma_canon_shape(t: Term)
    ensures
        canon(t).len() >= 1,
        forall|i: int| 0 <= i < canon(t).len() ==> !(#[trigger] canon(t)[i] is EOF),
    decreases t,
{
    match t {
        Term::Var(x) => {
            assert(canon(t) =~= seq![TokenView::ID(x)]);
            assert(canon(t)[0] == TokenView::ID(x));
        },
        Term::Abs(x, body) => {
            lemma_canon_shape(*body);
            let head = seq![TokenView::LAMBDA, TokenView::ID(x), TokenView::DOT];
            assert(canon(t) =~= head + canon(*body));
            assert forall|i: int| 0 <= i < canon(t).len() implies !(#[trigger] canon(t)[i]
                is EOF) by {
                if i >= 3 {
                    assert(canon(t)[i] == canon(*body)[i - 3]);
                }
            }
        },
        Term::App(fun, arg) => {
            lemma_canon_shape(*fun);
            lemma_canon_shape(*arg);
            let wf = canon_fun(*fun);
            let wa = canon_arg(*arg);
            let cf = canon(*fun);
            let ca = canon(*arg);
            assert(canon(t) =~= wf + wa);
            assert forall|i: int| 0 <= i < wf.len() implies !(#[trigger] wf[i] is EOF) by {
                if *fun is Abs && 1 <= i <= cf.len() {
                    assert(wf[i] == cf[i - 1]);
                }
            }
            assert forall|i: int| 0 <= i < wa.len() implies !(#[trigger] wa[i] is EOF) by {
                if !(*arg is Var) && 1 <= i <= ca.len() {
                    assert(wa[i] == ca[i - 1]);
                }
            }
            assert forall|i: int| 0 <= i < canon(t).len() implies !(#[trigger] canon(t)[i]
                is EOF) by {
                if i < wf.len() {
                    assert(canon(t)[i] == wf[i]);
                } else {
                    assert(canon(t)[i] == wa[i - wf.len()]);
                }
            }
        },
    }
}

/// Where a stream spells two sequences in a row, it spells the first, and
/// behind it the second.
pub proof fn lemma_spells_split(toks: Seq<Lexeme>, k: int, u: Seq<TokenView>, v: Seq<TokenView>)
    requires
        spells(toks, k, u + v),
    ensures
        spells(toks, k, u),
        spells(toks, k + u.len(), v),
{
    let w = u + v;
    assert forall|i: int| 0 <= i < u.len() implies #[trigger] u[i] == token_view(toks[k + i]) by {
        assert(w[i] == u[i]);
    }
    assert forall|i: int| 0 <= i < v.len() implies #[trigger] v[i] == token_view(
        toks[k + u.len() + i],
    ) by {
        assert(w[u.len() + i] == v[i]);
    }
}

/// Where a stream spells a sequence in brackets, it holds an opening
/// bracket, then spells the sequence, then holds a closing bracket.
pub proof fn lemma_spells_bracket(toks: Seq<Lexeme>, k: int, w: Seq<TokenView>)
    requires
        spells(toks, k, bracket(w)),
    ensures
        class_at(toks, k) == LogosToken::Open,
        spells(toks, k + 1, w),
        class_at(toks, k + 1 + w.len()) == LogosToken::Close,
{
    lemma_spells_split(toks, k, seq![TokenView::OPEN] + w, seq![TokenView::CLOSE]);
    lemma_spells_split(toks, k, seq![TokenView::OPEN], w);
    assert(seq![TokenView::OPEN][0] == token_view(toks[k + 0]));
    assert(seq![TokenView::CLOSE][0] == token_view(toks[k + 1 + w.len() + 0]));
}

/// Reading the canonical tokens of a term gives the term back.
///
/// Where `toks` spells `canon(t)` from index `k`: a term that is no
/// abstraction is read as the head of an application whose arguments start
/// behind it; and where the lexeme behind it starts no argument, `t` is the
/// term read, and it ends there.
pub proof fn lemma_parse_canon(toks: Seq<Lexeme>, k: int, t: Term)
    requires
        spells(toks, k, canon(t)),
    ensures
        !(t is Abs) ==> parse_expr(toks, k) == parse_args(toks, k + canon(t).len(), t),
        class_at(toks, k + canon(t).len()) != LogosToken::ID && class_at(
            toks,
            k + canon(t).len(),
        ) != LogosToken::Open ==> parse_expr(toks, k) == (Parsed::Accept {
            term: t,
            next: k + canon(t).len(),
        }),
    decreases t, 1int,
{
    let n = canon(t).len() as int;
    match t {
        Term::Var(x) => {
            assert(canon(t)[0] == token_view(toks[k + 0]));
            assert(parse_atom(toks, k) == Parsed::Accept { term: t, next: k + 1 });
        },
        Term::Abs(x, body) => {
            let head = seq![TokenView::LAMBDA, TokenView::ID(x), TokenView::DOT];
            lemma_spells_split(toks, k, head, canon(*body));
            assert(head[0] == token_view(toks[k + 0]));
            assert(head[1] == token_view(toks[k + 1]));
            assert(head[2] == token_view(toks[k + 2]));
            lemma_parse_canon(toks, k + 3, *body);
        },
        Term::App(fun, arg) => {
            let wf = canon_fun(*fun);
            let wa = canon_arg(*arg);
            lemma_spells_split(toks, k, wf, wa);
            let k1 = k + wf.len();
            // the function is read as the head
            if *fun is Abs {
                lemma_spells_bracket(toks, k, canon(*fun));
                lemma_parse_canon(toks, k + 1, *fun);
                assert(parse_atom(toks, k) == Parsed::Accept { term: *fun, next: k1 });
            } else {
                lemma_parse_canon(toks, k, *fun);
            }
            assert(parse_expr(toks, k) == parse_args(toks, k1, *fun));
            // the argument is read as one atom
            lemma_parse_canon_arg(toks, k1, *arg);
            assert(parse_args(toks, k1, *fun) == parse_args(toks, k + n, t));
        },
    }
}

/// Reading the canonical tokens of a term in argument position gives the
/// term back, as one atom.
pub proof fn lemma_parse_canon_arg(toks: Seq<Lexeme>, k: int, t: Term)
    requires
        spells(toks, k, canon_arg(t)),
    ensures
        class_at(toks, k) == LogosToken::ID || class_at(toks, k) == LogosToken::Open,
        parse_atom(toks, k) == (Parsed::Accept { term: t, next: k + canon_arg(t).len() }),
    decreases t, 2int,
{
    if t is Var {
        assert(canon(t)[0] == token_view(toks[k + 0]));
    } else {
        lemma_spells_bracket(toks, k, canon(t));
        lemma_parse_canon(toks, k + 1, t);
    }
}

/// A stream that spells the canonical tokens of a term and then ends is
/// accepted as that term.
pub proof fn lemma_parse_canon_stream(toks: Seq<Lexeme>, t: Term)
    requires
        spells(toks, 0, canon(t)),
        class_at(toks, canon(t).len() as int) == LogosToken::End,
    ensures
        parse_main(toks) == (Parsed::Accept { term: t, next: canon(t).len() as int }),
{
    lemma_parse_canon(toks, 0, t);
}

} // verus!
