use vstd::prelude::*;

use crate::error::{Error, ErrorTy, Loc};

verus! {

/// Whether a character is Unicode whitespace.
pub uninterp spec fn is_whitespace_char(c: char) -> bool;

/// Relies on char::is_whitespace; the result depends on the character alone.
#[verifier::external_body]
fn char_is_whitespace(c: char) -> (r: bool)
    ensures
        r == is_whitespace_char(c),
{
    c.is_whitespace()
}

/// Whether a character is Unicode alphabetic.
pub uninterp spec fn is_alphabetic_char(c: char) -> bool;

/// Relies on char::is_alphabetic; the result depends on the character alone.
#[verifier::external_body]
fn char_is_alphabetic(c: char) -> (r: bool)
    ensures
        r == is_alphabetic_char(c),
{
    c.is_alphabetic()
}

/// Whether a character is Unicode alphanumeric.
pub uninterp spec fn is_alphanumeric_char(c: char) -> bool;

/// Relies on char::is_alphanumeric; the result depends on the character alone.
#[verifier::external_body]
fn char_is_alphanumeric(c: char) -> (r: bool)
    ensures
        r == is_alphanumeric_char(c),
{
    c.is_alphanumeric()
}

/// Whether a character is Unicode lowercase.
pub uninterp spec fn is_lowercase_char(c: char) -> bool;

/// Relies on char::is_lowercase; the result depends on the character alone.
#[verifier::external_body]
pub(crate) fn char_is_lowercase(c: char) -> (r: bool)
    ensures
        r == is_lowercase_char(c),
{
    c.is_lowercase()
}

/// Relies on String::push: appends exactly the one character.
#[verifier::external_body]
pub(crate) fn push_char(s: &mut String, c: char)
    ensures
        final(s)@ == old(s)@.push(c),
{
    s.push(c);
}

/// Where the scanner stands after skipping whitespace and `%` line comments
/// from `pos` on (`in_comment` holds inside a comment): the first position
/// carrying a token character, or the end of the text.
pub open spec fn skip_ws_model(chars: Seq<char>, pos: int, in_comment: bool) -> int
    decreases chars.len() - pos,
{
    if pos >= chars.len() {
        chars.len() as int
    } else {
        let c = chars[pos];
        if in_comment {
            skip_ws_model(chars, pos + 1, c != '\n')
        } else if c == '%' {
            skip_ws_model(chars, pos + 1, true)
        } else if is_whitespace_char(c) {
            skip_ws_model(chars, pos + 1, false)
        } else {
            pos
        }
    }
}

/// Where the run of identifier characters starting at `pos` ends: the first
/// position at or after `pos` carrying a break character, or the end of the
/// text.
pub open spec fn ident_end(chars: Seq<char>, pos: int) -> int
    decreases chars.len() - pos,
{
    if pos >= chars.len() {
        chars.len() as int
    } else if is_break_spec(chars[pos]) {
        pos
    } else {
        ident_end(chars, pos + 1)
    }
}

/// Whether a character ends an identifier.
pub open spec fn is_break_spec(c: char) -> bool {
    !is_alphanumeric_char(c) && c != '_'
}

/// Decide whether a character ends an identifier, as `is_break_spec` states.
pub fn is_break(c: char) -> (r: bool)
    ensures
        r == is_break_spec(c),
{
    !char_is_alphanumeric(c) && c != '_'
}

/// The model of a token kind, with the identifier's text as a character
/// sequence.
#[verifier::ext_equal]
pub enum TokV {
    Ident(Seq<char>),
    Lparen,
    Rparen,
    Pen,
    Period,
    Colon,
    Comma,
    Eof,
}

/// The token standing at position `pos` of the text: blanks and comments are
/// skipped, then one token is read.  Yields the token — `None` for a
/// character no token starts with — and the position just past it.
pub open spec fn scan_model(chars: Seq<char>, pos: int) -> (Option<TokV>, int) {
    let p = skip_ws_model(chars, pos, false);
    if p >= chars.len() {
        (Some(TokV::Eof), p)
    } else {
        let c = chars[p];
        if is_break_spec(c) {
            if c == ':' {
                if p + 1 < chars.len() && chars[p + 1] == '-' {
                    (Some(TokV::Pen), p + 2)
                } else {
                    (Some(TokV::Colon), p + 1)
                }
            } else if c == ',' {
                (Some(TokV::Comma), p + 1)
            } else if c == '.' {
                (Some(TokV::Period), p + 1)
            } else if c == '(' {
                (Some(TokV::Lparen), p + 1)
            } else if c == ')' {
                (Some(TokV::Rparen), p + 1)
            } else {
                (None, p)
            }
        } else if is_alphabetic_char(c) {
            let e = ident_end(chars, p + 1);
            (Some(TokV::Ident(chars.subrange(p, e))), e)
        } else {
            (None, p)
        }
    }
}

/// Skipping blanks and comments never moves backwards nor past the end.
pub proof fn lemma_skip_ws_bounds(chars: Seq<char>, pos: int, in_comment: bool)
    requires
        0 <= pos <= chars.len(),
    ensures
        pos <= skip_ws_model(chars, pos, in_comment) <= chars.len(),
    decreases chars.len() - pos,
{
    if pos < chars.len() {
        let c = chars[pos];
        if in_comment || c == '%' || is_whitespace_char(c) {
            lemma_skip_ws_bounds(
                chars,
                pos + 1,
                if in_comment {
                    c != '\n'
                } else {
                    c == '%'
                },
            );
        }
    }
}

/// An identifier run never moves backwards nor past the end.
pub proof fn lemma_ident_end_bounds(chars: Seq<char>, pos: int)
    requires
        0 <= pos <= chars.len(),
    ensures
        pos <= ident_end(chars, pos) <= chars.len(),
    decreases chars.len() - pos,
{
    if pos < chars.len() && !is_break_spec(chars[pos]) {
        lemma_ident_end_bounds(chars, pos + 1);
    }
}

/// A run of non-break characters ending at a break (or at the end of the
/// text) is exactly what `ident_end` measures.
pub proof fn lemma_ident_end_of_run(chars: Seq<char>, start: int, end: int)
    requires
        0 <= start <= end <= chars.len(),
        forall|j: int| start <= j < end ==> !is_break_spec(#[trigger] chars[j]),
        end == chars.len() || is_break_spec(chars[end]),
    ensures
        ident_end(chars, start) == end,
    decreases end - start,
{
    if start < end {
        lemma_ident_end_of_run(chars, start + 1, end);
    }
}

/// Reading a token never moves backwards nor past the end, and consuming a
/// token other than the end of input strictly advances.
pub proof fn lemma_scan_bounds(chars: Seq<char>, pos: int)
    requires
        0 <= pos <= chars.len(),
    ensures
        pos <= scan_model(chars, pos).1 <= chars.len(),
        scan_model(chars, pos).0 matches Some(tv) && !(tv is Eof) ==> pos < scan_model(
            chars,
            pos,
        ).1,
{
    lemma_skip_ws_bounds(chars, pos, false);
    let p = skip_ws_model(chars, pos, false);
    if p < chars.len() {
        let c = chars[p];
        if !is_break_spec(c) && is_alphabetic_char(c) {
            lemma_ident_end_bounds(chars, p + 1);
        }
    }
}

/// The kind of a token, with the identifier's text where it is one.
#[derive(Debug)]
pub enum TokenTy {
    Ident(String),
    Lparen,
    Rparen,
    /// The `:-` sign separating a rule's head from its body.
    Pen,
    Period,
    Colon,
    Comma,
    Eof,
}

/// The model of a token kind.
pub open spec fn ty_view(t: TokenTy) -> TokV {
    match t {
        TokenTy::Ident(s) => TokV::Ident(s@),
        TokenTy::Lparen => TokV::Lparen,
        TokenTy::Rparen => TokV::Rparen,
        TokenTy::Pen => TokV::Pen,
        TokenTy::Period => TokV::Period,
        TokenTy::Colon => TokV::Colon,
        TokenTy::Comma => TokV::Comma,
        TokenTy::Eof => TokV::Eof,
    }
}

/// The description of a token kind used in error messages.
pub open spec fn desc_of(t: TokV) -> Seq<char> {
    match t {
        TokV::Ident(s) => "identifier `"@ + s + "`"@,
        TokV::Pen => "token `:-`"@,
        TokV::Lparen => "token `(`"@,
        TokV::Rparen => "token `)`"@,
        TokV::Period => "token `.`"@,
        TokV::Colon => "token `:`"@,
        TokV::Comma => "token `,`"@,
        TokV::Eof => "EOF"@,
    }
}

/// Two token kinds match exactly when their models are equal.
pub proof fn lemma_ty_matches_view(a: TokenTy, b: TokenTy)
    ensures
        ty_matches(a, b) == (ty_view(a) == ty_view(b)),
{
}

/// Whether two token kinds match: same kind, and for identifiers the same
/// text.
pub open spec fn ty_matches(a: TokenTy, b: TokenTy) -> bool {
    match (a, b) {
        (TokenTy::Ident(x), TokenTy::Ident(y)) => x@ == y@,
        (TokenTy::Lparen, TokenTy::Lparen) => true,
        (TokenTy::Rparen, TokenTy::Rparen) => true,
        (TokenTy::Pen, TokenTy::Pen) => true,
        (TokenTy::Period, TokenTy::Period) => true,
        (TokenTy::Colon, TokenTy::Colon) => true,
        (TokenTy::Comma, TokenTy::Comma) => true,
        (TokenTy::Eof, TokenTy::Eof) => true,
        _ => false,
    }
}

impl TokenTy {
    /// Decide `ty_matches`.
    pub fn matches_ty(&self, other: &TokenTy) -> (r: bool)
        ensures
            r == ty_matches(*self, *other),
    {
        match (self, other) {
            (TokenTy::Ident(x), TokenTy::Ident(y)) => *x == *y,
            (TokenTy::Lparen, TokenTy::Lparen) => true,
            (TokenTy::Rparen, TokenTy::Rparen) => true,
            (TokenTy::Pen, TokenTy::Pen) => true,
            (TokenTy::Period, TokenTy::Period) => true,
            (TokenTy::Colon, TokenTy::Colon) => true,
            (TokenTy::Comma, TokenTy::Comma) => true,
            (TokenTy::Eof, TokenTy::Eof) => true,
            _ => false,
        }
    }

    /// An exact copy.
    pub fn dup(&self) -> (r: TokenTy)
        ensures
            r == *self,
    {
        match self {
            TokenTy::Ident(x) => TokenTy::Ident(x.clone()),
            TokenTy::Lparen => TokenTy::Lparen,
            TokenTy::Rparen => TokenTy::Rparen,
            TokenTy::Pen => TokenTy::Pen,
            TokenTy::Period => TokenTy::Period,
            TokenTy::Colon => TokenTy::Colon,
            TokenTy::Comma => TokenTy::Comma,
            TokenTy::Eof => TokenTy::Eof,
        }
    }

    /// The description of the token kind used in error messages, as
    /// `desc_of` states.
    pub fn describe(&self) -> (r: String)
        ensures
            r@ == desc_of(ty_view(*self)),
    {
        match self {
            TokenTy::Ident(s) => {
                let r = String::from_str("identifier `").concat(s.as_str());
                r.concat("`")
            },
            TokenTy::Pen => String::from_str("token `:-`"),
            TokenTy::Lparen => String::from_str("token `(`"),
            TokenTy::Rparen => String::from_str("token `)`"),
            TokenTy::Period => String::from_str("token `.`"),
            TokenTy::Colon => String::from_str("token `:`"),
            TokenTy::Comma => String::from_str("token `,`"),
            TokenTy::Eof => String::from_str("EOF"),
        }
    }
}

/// One token, with the position it starts at.
#[derive(Debug)]
pub struct Token {
    pub ty: TokenTy,
    pub loc: Loc,
}

/// Well-formedness of a produced token: an identifier is nonempty, starts
/// with an alphabetic character and holds no break character.
pub open spec fn token_wf(t: Token) -> bool {
    t.ty matches TokenTy::Ident(s) ==> {
        &&& s@.len() > 0
        &&& is_alphabetic_char(s@[0])
        &&& forall|i: int| 0 <= i < s@.len() ==> !is_break_spec(#[trigger] s@[i])
    }
}

impl Token {
    /// The kind of the token.
    pub fn ty(self) -> (r: TokenTy)
        ensures
            r == self.ty,
    {
        self.ty
    }

    /// An exact copy.
    pub fn dup(&self) -> (r: Token)
        ensures
            r == *self,
    {
        Token { ty: self.ty.dup(), loc: self.loc }
    }
}

impl Error {
    /// An exact copy.
    pub fn dup(&self) -> (r: Error)
        ensures
            r == *self,
    {
        Error { loc: self.loc, ty: self.ty, desc: self.desc.clone() }
    }
}

/// Reads the source text one token at a time, with one token of lookahead.
pub struct Scanner<'a> {
    pub src: &'a str,
    pub chars: Vec<char>,
    pub pos: usize,
    pub cur_loc: Loc,
    pub peeked: Option<Result<Token, Error>>,
    /// The position the buffered lookahead was read from.
    pub base: Ghost<int>,
}

impl<'a> Scanner<'a> {
    /// Well-formedness: the character buffer mirrors the source text, the
    /// position is within it, any peeked token is well formed, and the
    /// lookahead buffer holds exactly what `scan_model` reads at the position
    /// it was filled from.
    pub open spec fn wf(self) -> bool {
        &&& self.chars@ == self.src@
        &&& self.pos <= self.chars@.len()
        &&& (self.peeked matches Some(r) ==> {
            &&& (r matches Ok(t) ==> token_wf(t))
            &&& 0 <= self.base@ <= self.pos
            &&& (match r {
                Ok(t) => scan_model(self.chars@, self.base@) == (
                    Some(ty_view(t.ty)),
                    self.pos as int,
                ),
                Err(_) => scan_model(self.chars@, self.base@).0 is None && scan_model(
                    self.chars@,
                    self.base@,
                ).1 == self.pos as int,
            })
        })
    }

    /// The position of the next token to read: where the lookahead was read
    /// from when one is buffered, the raw position otherwise.
    pub open spec fn lpos(self) -> int {
        if self.peeked is Some {
            self.base@
        } else {
            self.pos as int
        }
    }

    /// How much input is left to consume; reading a token never increases it
    /// and consuming a token other than the end of input strictly decreases
    /// it.  A buffered end-of-input token weighs nothing: looking ahead at
    /// the end of the text must not count as progress to undo.
    pub open spec fn measure(self) -> int {
        2 * (self.chars@.len() - self.pos) + if self.peeked matches Some(r) && !(r matches Ok(t)
            && t.ty is Eof) {
            1int
        } else {
            0int
        }
    }

    /// A scanner at the start of the source text `s`.
    pub fn new(s: &'a str) -> (r: Scanner<'a>)
        ensures
            r.wf(),
            r.src@ == s@,
            r.pos == 0,
            r.peeked is None,
    {
        let n = s.unicode_len();
        let mut chars: Vec<char> = Vec::new();
        let mut i: usize = 0;
        while i < n
            invariant
                i <= n,
                n == s@.len(),
                chars@ =~= s@.subrange(0, i as int),
            decreases n - i,
        {
            chars.push(s.get_char(i));
            proof {
                assert(chars@ =~= s@.subrange(0, i + 1 as int));
            }
            i = i + 1;
        }
        proof {
            assert(chars@ =~= s@);
        }
        Scanner { src: s, chars, pos: 0, cur_loc: Loc::new(), peeked: None, base: Ghost(0int) }
    }

    /// The position the scanner is at.
    pub fn loc(&self) -> (l: Loc)
        ensures
            l == self.cur_loc,
    {
        self.cur_loc
    }

    /// A syntax error at `loc` described by `desc`.
    pub fn syntax_err<T>(&self, loc: Loc, desc: String) -> (r: Result<T, Error>)
        ensures
            r matches Err(e) && e.loc == loc && e.ty == ErrorTy::SyntaxError && e.desc@ == desc@,
    {
        self.error(loc, ErrorTy::SyntaxError, desc)
    }

    /// An error of kind `ty` at `loc` described by `desc`.
    pub fn error<T>(&self, loc: Loc, ty: ErrorTy, desc: String) -> (r: Result<T, Error>)
        ensures
            r matches Err(e) && e.loc == loc && e.ty == ty && e.desc@ == desc@,
    {
        Err(Error { loc, ty, desc })
    }

    /// Advance past `len` characters, tracking line and column.
    #[verifier::loop_isolation(false)]
    fn skip(&mut self, len: usize)
        requires
            old(self).wf(),
            old(self).peeked is None,
            old(self).pos + len <= old(self).chars@.len(),
        ensures
            final(self).wf(),
            final(self).pos == old(self).pos + len,
            final(self).chars == old(self).chars,
            final(self).src == old(self).src,
            final(self).peeked == old(self).peeked,
            final(self).measure() == old(self).measure() - 2 * len,
    {
        let mut k: usize = 0;
        while k < len
            invariant
                k <= len,
                self.pos == old(self).pos + k,
                old(self).pos + len <= self.chars@.len(),
                self.chars == old(self).chars,
                self.src == old(self).src,
                self.peeked == old(self).peeked,
            decreases len - k,
        {
            let n: usize = self.chars.len();
            let c = self.chars[self.pos];
            self.cur_loc.col();
            if c == '\n' {
                self.cur_loc.new_line();
            }
            self.pos = self.pos + 1;
            k = k + 1;
        }
    }

    /// Advance past whitespace and `%` line comments, exactly as
    /// `skip_ws_model` states.
    fn skip_whitespace(&mut self)
        requires
            old(self).wf(),
            old(self).peeked is None,
        ensures
            final(self).wf(),
            final(self).pos >= old(self).pos,
            final(self).chars == old(self).chars,
            final(self).src == old(self).src,
            final(self).peeked == old(self).peeked,
            final(self).measure() <= old(self).measure(),
            final(self).pos == skip_ws_model(old(self).chars@, old(self).pos as int, false),
    {
        let mut in_comment = false;
        while self.pos < self.chars.len()
            invariant
                self.wf(),
                self.pos >= old(self).pos,
                self.chars == old(self).chars,
                self.src == old(self).src,
                self.peeked == old(self).peeked,
                skip_ws_model(old(self).chars@, old(self).pos as int, false) == skip_ws_model(
                    self.chars@,
                    self.pos as int,
                    in_comment,
                ),
            decreases self.chars@.len() - self.pos,
        {
            let c = self.chars[self.pos];
            if in_comment {
                if c == '\n' {
                    in_comment = false;
                }
                self.skip(1);
            } else if c == '%' {
                in_comment = true;
                self.skip(1);
            } else if char_is_whitespace(c) {
                self.skip(1);
            } else {
                break;
            }
        }
    }

    /// Read the identifier that starts at the current position and ends at
    /// character index `end`.
    fn ident(&mut self, end: usize) -> (r: TokenTy)
        requires
            old(self).wf(),
            old(self).peeked is None,
            old(self).pos < end <= old(self).chars@.len(),
            is_alphabetic_char(old(self).chars@[old(self).pos as int]),
            forall|i: int|
                old(self).pos <= i < end ==> !is_break_spec(#[trigger] old(self).chars@[i]),
        ensures
            final(self).wf(),
            final(self).pos == end,
            final(self).chars == old(self).chars,
            final(self).src == old(self).src,
            final(self).peeked == old(self).peeked,
            final(self).measure() <= old(self).measure() - 2,
            r matches TokenTy::Ident(s) && s@ == old(self).chars@.subrange(
                old(self).pos as int,
                end as int,
            ),
    {
        let text = self.src.substring_char(self.pos, end).to_owned();
        self.skip(end - self.pos);
        TokenTy::Ident(text)
    }

    /// Scan the next token from the input, ignoring the lookahead buffer.
    fn next_token_internal(&mut self) -> (r: Result<Token, Error>)
        requires
            old(self).wf(),
            old(self).peeked is None,
        ensures
            final(self).wf(),
            final(self).chars == old(self).chars,
            final(self).src == old(self).src,
            final(self).peeked == old(self).peeked,
            final(self).measure() <= old(self).measure(),
            r matches Ok(t) ==> token_wf(t),
            r matches Ok(t) && !(t.ty is Eof) ==> final(self).measure() <= old(self).measure() - 2,
            r matches Ok(t) && t.ty is Eof ==> skip_ws_model(
                old(self).chars@,
                old(self).pos as int,
                false,
            ) == old(self).chars@.len(),
            final(self).pos == scan_model(old(self).chars@, old(self).pos as int).1,
            (r is Ok) == (scan_model(old(self).chars@, old(self).pos as int).0 is Some),
            r matches Ok(t) ==> scan_model(old(self).chars@, old(self).pos as int).0 == Some(
                ty_view(t.ty),
            ),
            r matches Err(e) ==> e.ty == ErrorTy::SyntaxError && e.desc@ == "unrecognized character `"@.push(
                old(self).chars@[scan_model(old(self).chars@, old(self).pos as int).1],
            ) + "`"@,
    {
        proof {
            lemma_skip_ws_bounds(old(self).chars@, old(self).pos as int, false);
        }
        self.skip_whitespace();
        if self.pos == self.chars.len() {
            return Ok(Token { loc: self.loc(), ty: TokenTy::Eof });
        }
        let c = self.chars[self.pos];
        if is_break(c) {
            let loc = self.loc();
            if c == ':' {
                if self.pos + 1 < self.chars.len() && self.chars[self.pos + 1] == '-' {
                    self.skip(2);
                    Ok(Token { loc, ty: TokenTy::Pen })
                } else {
                    self.skip(1);
                    Ok(Token { loc, ty: TokenTy::Colon })
                }
            } else if c == ',' {
                self.skip(1);
                Ok(Token { loc, ty: TokenTy::Comma })
            } else if c == '.' {
                self.skip(1);
                Ok(Token { loc, ty: TokenTy::Period })
            } else if c == '(' {
                self.skip(1);
                Ok(Token { loc, ty: TokenTy::Lparen })
            } else if c == ')' {
                self.skip(1);
                Ok(Token { loc, ty: TokenTy::Rparen })
            } else {
                let mut desc = String::from_str("unrecognized character `");
                push_char(&mut desc, c);
                self.syntax_err(loc, desc.concat("`"))
            }
        } else if char_is_alphabetic(c) {
            let ghost snap = *self;
            let mut i: usize = self.pos + 1;
            while i < self.chars.len() && !is_break(self.chars[i])
                invariant
                    snap.pos < i <= self.chars@.len(),
                    *self == snap,
                    forall|j: int| self.pos <= j < i ==> !is_break_spec(#[trigger] self.chars@[j]),
                decreases self.chars@.len() - i,
            {
                i = i + 1;
            }
            proof {
                lemma_ident_end_of_run(self.chars@, self.pos + 1, i as int);
            }
            let loc = self.loc();
            let ty = self.ident(i);
            Ok(Token { loc, ty })
        } else {
            let mut desc = String::from_str("unrecognized character `");
            push_char(&mut desc, c);
            self.syntax_err(self.loc(), desc.concat("`"))
        }
    }

    /// The next token, consuming it: the lookahead if one is buffered, else a
    /// fresh scan.
    pub fn next_token(&mut self) -> (r: Result<Token, Error>)
        requires
            old(self).wf(),
        ensures
            final(self).wf(),
            final(self).chars == old(self).chars,
            final(self).src == old(self).src,
            final(self).peeked is None,
            r is Ok ==> final(self).measure() <= old(self).measure(),
            r matches Ok(t) ==> token_wf(t),
            r matches Ok(t) && !(t.ty is Eof) ==> final(self).measure() < old(self).measure(),
            old(self).peeked matches Some(p) ==> r == p,
            old(self).peeked is None && (r matches Ok(t) && t.ty is Eof) ==> skip_ws_model(
                old(self).chars@,
                old(self).pos as int,
                false,
            ) == old(self).chars@.len(),
            final(self).pos == scan_model(old(self).chars@, old(self).lpos()).1,
            (r is Ok) == (scan_model(old(self).chars@, old(self).lpos()).0 is Some),
            r matches Ok(t) ==> scan_model(old(self).chars@, old(self).lpos()).0 == Some(
                ty_view(t.ty),
            ),
    {
        let took = self.peeked.take();
        match took {
            Some(r) => r,
            None => self.next_token_internal(),
        }
    }

    /// The next token without consuming it.
    pub fn peek(&mut self) -> (r: Result<Token, Error>)
        requires
            old(self).wf(),
        ensures
            final(self).wf(),
            final(self).chars == old(self).chars,
            final(self).src == old(self).src,
            r is Ok ==> final(self).measure() <= old(self).measure(),
            final(self).peeked == Some(r),
            r matches Ok(t) ==> token_wf(t),
            old(self).peeked is None && (r matches Ok(t) && t.ty is Eof) ==> skip_ws_model(
                old(self).chars@,
                old(self).pos as int,
                false,
            ) == old(self).chars@.len(),
            final(self).lpos() == old(self).lpos(),
            (r is Ok) == (scan_model(old(self).chars@, old(self).lpos()).0 is Some),
            r matches Ok(t) ==> scan_model(old(self).chars@, old(self).lpos()).0 == Some(
                ty_view(t.ty),
            ),
    {
        let ghost lp = self.lpos();
        proof {
            lemma_scan_bounds(self.chars@, lp);
        }
        let r = self.next_token();
        let copy = match &r {
            Ok(t) => Ok(t.dup()),
            Err(e) => Err(e.dup()),
        };
        self.peeked = Some(copy);
        self.base = Ghost(lp);
        r
    }

    /// Whether the next token matches `tok`, consuming it exactly when it
    /// does.
    pub fn is_token(&mut self, tok: TokenTy) -> (r: Result<bool, Error>)
        requires
            old(self).wf(),
        ensures
            final(self).wf(),
            final(self).chars == old(self).chars,
            final(self).src == old(self).src,
            r is Ok ==> final(self).measure() <= old(self).measure(),
            r matches Ok(true) && !(tok is Eof) ==> final(self).measure() < old(self).measure(),
            (r matches Ok(true)) == (scan_model(old(self).chars@, old(self).lpos()).0 == Some(
                ty_view(tok),
            )),
            (r is Err) == (scan_model(old(self).chars@, old(self).lpos()).0 is None),
            r matches Ok(true) ==> final(self).lpos() == scan_model(
                old(self).chars@,
                old(self).lpos(),
            ).1,
            r matches Ok(false) ==> final(self).lpos() == old(self).lpos(),
    {
        let p = self.peek()?;
        if p.ty.matches_ty(&tok) {
            proof {
                lemma_ty_matches_view(p.ty, tok);
            }
            let _ = self.next_token()?;
            Ok(true)
        } else {
            proof {
                lemma_ty_matches_view(p.ty, tok);
            }
            Ok(false)
        }
    }

    /// The next token, which must match `tok`; a syntax error otherwise.
    pub fn expect_token(&mut self, token: TokenTy) -> (r: Result<Token, Error>)
        requires
            old(self).wf(),
        ensures
            final(self).wf(),
            final(self).chars == old(self).chars,
            final(self).src == old(self).src,
            r is Ok ==> final(self).measure() <= old(self).measure(),
            r matches Ok(t) ==> ty_matches(t.ty, token) && token_wf(t),
            r matches Ok(t) && !(token is Eof) ==> final(self).measure() < old(self).measure(),
            (r is Ok) == (scan_model(old(self).chars@, old(self).lpos()).0 == Some(ty_view(token))),
            r is Ok ==> final(self).lpos() == scan_model(old(self).chars@, old(self).lpos()).1,
            ({
                let sm = scan_model(old(self).chars@, old(self).lpos()).0;
                sm is Some && sm->0 != ty_view(token) ==> {
                    &&& r matches Err(e)
                    &&& e.ty == ErrorTy::SyntaxError
                    &&& e.desc@ == "expected "@ + desc_of(ty_view(token)) + ", found "@ + desc_of(
                        sm->0,
                    )
                }
            }),
    {
        let res = self.next_token()?;
        if !res.ty.matches_ty(&token) {
            proof {
                lemma_ty_matches_view(res.ty, token);
            }
            let desc = String::from_str("expected ").concat(token.describe().as_str()).concat(
                ", found ",
            ).concat(res.ty.describe().as_str());
            self.syntax_err(res.loc, desc)
        } else {
            proof {
                lemma_ty_matches_view(res.ty, token);
            }
            Ok(res)
        }
    }

    /// The next token, which must be an identifier; a syntax error otherwise.
    /// Returns its position and nonempty text.
    pub fn expect_identifier(&mut self) -> (r: Result<(Loc, String), Error>)
        requires
            old(self).wf(),
        ensures
            final(self).wf(),
            final(self).chars == old(self).chars,
            final(self).src == old(self).src,
            r is Ok ==> final(self).measure() <= old(self).measure(),
            r matches Ok(p) ==> {
                &&& p.1@.len() > 0
                &&& is_alphabetic_char(p.1@[0])
                &&& final(self).measure() < old(self).measure()
            },
            (r is Ok) == (scan_model(old(self).chars@, old(self).lpos()).0 matches Some(tv)
                && tv is Ident),
            r matches Ok(p) ==> scan_model(old(self).chars@, old(self).lpos()).0 == Some(
                TokV::Ident(p.1@),
            ) && final(self).lpos() == scan_model(old(self).chars@, old(self).lpos()).1,
            ({
                let sm = scan_model(old(self).chars@, old(self).lpos()).0;
                sm is Some && !(sm->0 is Ident) ==> {
                    &&& r matches Err(e)
                    &&& e.ty == ErrorTy::SyntaxError
                    &&& e.desc@ == "expected identifier, found "@ + desc_of(sm->0)
                }
            }),
    {
        let res = self.next_token()?;
        match res.ty {
            TokenTy::Ident(x) => Ok((res.loc, x)),
            other => {
                let desc = String::from_str("expected identifier, found ").concat(
                    other.describe().as_str(),
                );
                self.syntax_err(res.loc, desc)
            },
        }
    }
}

} // verus!
