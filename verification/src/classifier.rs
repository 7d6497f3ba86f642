//! The token classifier: a cursor over the bytes of a source text that
//! reports the lexeme under it and moves on to the next one on request.

use vstd::prelude::*;
use vstd::slice::slice_subrange;
use std::ops::Range;
use crate::token::LogosToken;

verus! {

/// Whether `r` is a span of a text of `len` bytes: a half-open range of
/// byte offsets that starts at or before its end and ends inside the text.
pub open spec fn span_in(r: Range<usize>, len: nat) -> bool {
    r.start <= r.end <= len
}

/// Blank bytes between lexemes: space, tab and form feed.
pub open spec fn is_trivia(b: u8) -> bool {
    b == 0x20 || b == 0x09 || b == 0x0c
}

/// A byte that may start an identifier: an ASCII letter or `_`.
pub open spec fn is_ident_start(b: u8) -> bool {
    (0x61 <= b <= 0x7a) || (0x41 <= b <= 0x5a) || b == 0x5f
}

/// A byte that may continue an identifier: an ASCII letter, a digit or `_`.
pub open spec fn is_ident_continue(b: u8) -> bool {
    is_ident_start(b) || (0x30 <= b <= 0x39)
}

/// A byte that continues a multi-byte UTF-8 character.
pub open spec fn is_continuation(b: u8) -> bool {
    0x80 <= b < 0xc0
}

/// The bytes of the keyword `lambda`.
pub open spec fn lambda_bytes() -> Seq<u8> {
    seq![0x6cu8, 0x61u8, 0x6du8, 0x62u8, 0x64u8, 0x61u8]
}

/// The first position at or after `pos` that holds no blank byte.
pub open spec fn skip_trivia(s: Seq<u8>, pos: int) -> int
    decreases s.len() - pos,
{
    if 0 <= pos < s.len() && is_trivia(s[pos]) {
        skip_trivia(s, pos + 1)
    } else {
        pos
    }
}

/// The first position at or after `pos` that holds no identifier byte.
pub open spec fn ident_end(s: Seq<u8>, pos: int) -> int
    decreases s.len() - pos,
{
    if 0 <= pos < s.len() && is_ident_continue(s[pos]) {
        ident_end(s, pos + 1)
    } else {
        pos
    }
}

/// The first position at or after `pos` where a character may start.
pub open spec fn char_boundary(s: Seq<u8>, pos: int) -> int
    decreases s.len() - pos,
{
    if 0 <= pos < s.len() && is_continuation(s[pos]) {
        char_boundary(s, pos + 1)
    } else {
        pos
    }
}

/// A lexeme: its class, the half-open range of bytes that it covers, and
/// those bytes.
pub struct Lexeme {
    pub token: LogosToken,
    pub start: int,
    pub end: int,
    pub text: Seq<u8>,
}

/// The lexeme of class `token` that covers `start..end` of `s`.
pub open spec fn lexeme(s: Seq<u8>, token: LogosToken, start: int, end: int) -> Lexeme {
    Lexeme { token, start, end, text: s.subrange(start, end) }
}

/// The lexeme found when the classifier looks for one from `pos` on.
///
/// Blanks are passed over. At the end of the input the lexeme is the empty
/// `End`. A bracket or a dot is a lexeme of one byte. An identifier runs as
/// far as identifier bytes go, and is the keyword exactly when it spells
/// `lambda`. Any other character is an `Error` that covers that character.
pub open spec fn scan(s: Seq<u8>, pos: int) -> Lexeme {
    let start = skip_trivia(s, pos);
    if start >= s.len() {
        lexeme(s, LogosToken::End, start, start)
    } else if s[start] == 0x28 {
        lexeme(s, LogosToken::Open, start, start + 1)
    } else if s[start] == 0x29 {
        lexeme(s, LogosToken::Close, start, start + 1)
    } else if s[start] == 0x2e {
        lexeme(s, LogosToken::Dot, start, start + 1)
    } else if is_ident_start(s[start]) {
        let end = ident_end(s, start + 1);
        if s.subrange(start, end) == lambda_bytes() {
            lexeme(s, LogosToken::Lambda, start, end)
        } else {
            lexeme(s, LogosToken::ID, start, end)
        }
    } else {
        lexeme(s, LogosToken::Error, start, char_boundary(s, start + 1))
    }
}

/// `skip_trivia` stops inside the text, on a byte that is not blank or at
/// the end, and passes nothing but blanks.
pub proof fn lemma_skip_trivia(s: Seq<u8>, pos: int)
    requires
        0 <= pos <= s.len(),
    ensures
        pos <= skip_trivia(s, pos) <= s.len(),
        skip_trivia(s, pos) < s.len() ==> !is_trivia(s[skip_trivia(s, pos)]),
        forall|i: int| pos <= i < skip_trivia(s, pos) ==> is_trivia(#[trigger] s[i]),
        skip_trivia(s, skip_trivia(s, pos)) == skip_trivia(s, pos),
    decreases s.len() - pos,
{
    if pos < s.len() && is_trivia(s[pos]) {
        lemma_skip_trivia(s, pos + 1);
    }
}

/// `ident_end` stops inside the text, on a byte that continues no
/// identifier or at the end, and passes nothing but identifier bytes.
pub proof fn lemma_ident_end(s: Seq<u8>, pos: int)
    requires
        0 <= pos <= s.len(),
    ensures
        pos <= ident_end(s, pos) <= s.len(),
        ident_end(s, pos) < s.len() ==> !is_ident_continue(s[ident_end(s, pos)]),
        forall|i: int| pos <= i < ident_end(s, pos) ==> is_ident_continue(#[trigger] s[i]),
    decreases s.len() - pos,
{
    if pos < s.len() && is_ident_continue(s[pos]) {
        lemma_ident_end(s, pos + 1);
    }
}

/// `char_boundary` stops inside the text, on a byte that starts a character
/// or at the end, and passes nothing but continuation bytes.
pub proof fn lemma_char_boundary(s: Seq<u8>, pos: int)
    requires
        0 <= pos <= s.len(),
    ensures
        pos <= char_boundary(s, pos) <= s.len(),
        char_boundary(s, pos) < s.len() ==> !is_continuation(s[char_boundary(s, pos)]),
        forall|i: int| pos <= i < char_boundary(s, pos) ==> is_continuation(#[trigger] s[i]),
    decreases s.len() - pos,
{
    if pos < s.len() && is_continuation(s[pos]) {
        lemma_char_boundary(s, pos + 1);
    }
}

/// Every lexeme lies inside the text, at or after the place where the search
/// for it began; only `End` is empty, and it lies at the end of the text.
pub proof fn lemma_scan_bounds(s: Seq<u8>, pos: int)
    requires
        0 <= pos <= s.len(),
    ensures
        pos <= scan(s, pos).start <= scan(s, pos).end <= s.len(),
        scan(s, pos).token == LogosToken::End <==> scan(s, pos).start == scan(s, pos).end,
        scan(s, pos).token == LogosToken::End ==> scan(s, pos).start == s.len(),
        scan(s, pos).text == s.subrange(scan(s, pos).start, scan(s, pos).end),
        scan(s, scan(s, pos).start) == scan(s, pos),
{
    lemma_skip_trivia(s, pos);
    let start = skip_trivia(s, pos);
    if start < s.len() {
        lemma_ident_end(s, start + 1);
        lemma_char_boundary(s, start + 1);
    }
}

/// The cursor of a lexical analysis: the source bytes, and the class and the
/// range of the lexeme under the cursor.
pub struct TokenClassifier<'a> {
    source: &'a [u8],
    token: LogosToken,
    token_start: usize,
    token_end: usize,
}

impl<'a> TokenClassifier<'a> {
    /// The bytes that are being analysed.
    pub closed spec fn source(&self) -> Seq<u8> {
        self.source@
    }

    /// The lexeme under the cursor.
    pub closed spec fn current(&self) -> Lexeme {
        lexeme(self.source@, self.token, self.token_start as int, self.token_end as int)
    }

    /// The lexeme under the cursor is the one that a search from its own
    /// start finds, and lies inside the source.
    pub closed spec fn wf(&self) -> bool {
        &&& self.token_start <= self.token_end <= self.source@.len()
        &&& self.current() == scan(self.source@, self.token_start as int)
    }

    /// What `wf` says, in terms of the public spec functions.
    pub proof fn lemma_wf(&self)
        requires
            self.wf(),
        ensures
            0 <= self.current().start <= self.current().end <= self.source().len(),
            self.current() == scan(self.source(), self.current().start),
    {
    }

    /// A cursor on the first lexeme of `source`.
    pub fn new(source: &'a [u8]) -> (c: TokenClassifier<'a>)
        ensures
            c.wf(),
            c.source() == source@,
            c.current() == scan(source@, 0),
    {
        let mut c = TokenClassifier { source, token: LogosToken::Error, token_start: 0, token_end: 0 };
        c.scan_from(0);
        c
    }

    /// The class of the lexeme under the cursor.
    pub fn token(&self) -> (t: LogosToken)
        ensures
            t == self.current().token,
    {
        self.token
    }

    /// The range of bytes that the lexeme under the cursor covers.
    pub fn range(&self) -> (r: Range<usize>)
        requires
            self.wf(),
        ensures
            r.start == self.current().start,
            r.end == self.current().end,
            span_in(r, self.source().len()),
    {
        Range { start: self.token_start, end: self.token_end }
    }

    /// The bytes of the lexeme under the cursor.
    pub fn slice(&self) -> (text: &'a [u8])
        requires
            self.wf(),
        ensures
            text@ == self.current().text,
    {
        slice_subrange(self.source, self.token_start, self.token_end)
    }

    /// Moves the cursor to the next lexeme: the one found by a search from
    /// the end of the current one.
    pub fn advance(&mut self)
        requires
            old(self).wf(),
        ensures
            final(self).wf(),
            final(self).source() == old(self).source(),
            final(self).current() == scan(old(self).source(), old(self).current().end),
    {
        let from = self.token_end;
        self.scan_from(from);
    }

    fn scan_from(&mut self, pos: usize)
        requires
            pos <= old(self).source@.len(),
        ensures
            final(self).wf(),
            final(self).source == old(self).source,
            final(self).current() == scan(old(self).source@, pos as int),
    {
        let ghost s = self.source@;
        let n = self.source.len();
        let mut i = pos;
        while i < n && is_trivia_byte(self.source[i])
            invariant
                pos <= i <= n,
                n == s.len(),
                s == self.source@,
                skip_trivia(s, i as int) == skip_trivia(s, pos as int),
            decreases n - i,
        {
            i += 1;
        }
        proof {
            lemma_scan_bounds(s, pos as int);
        }
        self.token_start = i;
        if i >= n {
            self.token = LogosToken::End;
            self.token_end = i;
            return ;
        }
        let b = self.source[i];
        if b == 0x28 {
            self.token = LogosToken::Open;
            self.token_end = i + 1;
        } else if b == 0x29 {
            self.token = LogosToken::Close;
            self.token_end = i + 1;
        } else if b == 0x2e {
            self.token = LogosToken::Dot;
            self.token_end = i + 1;
        } else if is_ident_start_byte(b) {
            let mut j = i + 1;
            while j < n && is_ident_continue_byte(self.source[j])
                invariant
                    i < j <= n,
                    n == s.len(),
                    s == self.source@,
                    ident_end(s, j as int) == ident_end(s, i + 1),
                decreases n - j,
            {
                j += 1;
            }
            self.token_end = j;
            if spells_lambda(self.source, i, j) {
                self.token = LogosToken::Lambda;
            } else {
                self.token = LogosToken::ID;
            }
        } else {
            let mut j = i + 1;
            while j < n && is_continuation_byte(self.source[j])
                invariant
                    i < j <= n,
                    n == s.len(),
                    s == self.source@,
                    char_boundary(s, j as int) == char_boundary(s, i + 1),
                decreases n - j,
            {
                j += 1;
            }
            self.token = LogosToken::Error;
            self.token_end = j;
        }
    }
}

fn is_trivia_byte(b: u8) -> (r: bool)
    ensures
        r == is_trivia(b),
{
    b == 0x20 || b == 0x09 || b == 0x0c
}

fn is_ident_start_byte(b: u8) -> (r: bool)
    ensures
        r == is_ident_start(b),
{
    (0x61 <= b && b <= 0x7a) || (0x41 <= b && b <= 0x5a) || b == 0x5f
}

fn is_ident_continue_byte(b: u8) -> (r: bool)
    ensures
        r == is_ident_continue(b),
{
    is_ident_start_byte(b) || (0x30 <= b && b <= 0x39)
}

fn is_continuation_byte(b: u8) -> (r: bool)
    ensures
        r == is_continuation(b),
{
    0x80 <= b && b < 0xc0
}

/// Whether the bytes `start..end` of `source` spell the keyword.
fn spells_lambda(source: &[u8], start: usize, end: usize) -> (r: bool)
    requires
        start <= end <= source@.len(),
    ensures
        r == (source@.subrange(start as int, end as int) == lambda_bytes()),
{
    let ghost t = source@.subrange(start as int, end as int);
    if end - start != 6 {
        assert(lambda_bytes().len() == 6);
        return false;
    }
    let r = source[start] == 0x6c && source[start + 1] == 0x61 && source[start + 2] == 0x6d
        && source[start + 3] == 0x62 && source[start + 4] == 0x64 && source[start + 5] == 0x61;
    proof {
        assert(t.len() == 6);
        assert(t[0] == source@[start as int]);
        assert(t[1] == source@[start + 1]);
        assert(t[2] == source@[start + 2]);
        assert(t[3] == source@[start + 3]);
        assert(t[4] == source@[start + 4]);
        assert(t[5] == source@[start + 5]);
        if r {
            assert(t =~= lambda_bytes());
        } else {
            assert(lambda_bytes()[0] == 0x6c && lambda_bytes()[1] == 0x61 && lambda_bytes()[2]
                == 0x6d && lambda_bytes()[3] == 0x62 && lambda_bytes()[4] == 0x64
                && lambda_bytes()[5] == 0x61);
        }
    }
    r
}

} // verus!
