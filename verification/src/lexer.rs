//! The tokenizer of the schema language: line comments, identifiers,
//! string literals, integer literals in decimal, hex or binary form,
//! and the punctuation of the declaration grammar, each token carrying
//! its one-based line and column.

use crate::text::push_char;
use vstd::prelude::*;
use vstd::string::*;

verus! {

/// The kinds of token the schema grammar uses.
#[derive(Debug, PartialEq)]
pub enum TokenKind {
    /// An identifier or keyword, with its text.
    Ident(String),
    /// An integer literal, with its raw text, sign and prefix included.
    IntLit(String),
    /// A string literal, with its content, quotes excluded.
    StrLit(String),
    /// `{`
    LBrace,
    /// `}`
    RBrace,
    /// `[`
    LBracket,
    /// `]`
    RBracket,
    /// `:`
    Colon,
    /// `;`
    Semi,
    /// `,`
    Comma,
    /// `?`
    Question,
    /// `=`
    Eq,
    /// End of input.
    End,
}

/// One token with its source location.
#[derive(Debug, PartialEq)]
pub struct Token {
    /// The token's kind and text.
    pub kind: TokenKind,
    /// One-based line of the token's first character.
    pub line: usize,
    /// One-based column of the token's first character.
    pub col: usize,
}

/// Mathematical model of a token kind.
pub enum TokenKindView {
    /// Model of [`TokenKind::Ident`].
    Ident(Seq<char>),
    /// Model of [`TokenKind::IntLit`].
    IntLit(Seq<char>),
    /// Model of [`TokenKind::StrLit`].
    StrLit(Seq<char>),
    /// Model of [`TokenKind::LBrace`].
    LBrace,
    /// Model of [`TokenKind::RBrace`].
    RBrace,
    /// Model of [`TokenKind::LBracket`].
    LBracket,
    /// Model of [`TokenKind::RBracket`].
    RBracket,
    /// Model of [`TokenKind::Colon`].
    Colon,
    /// Model of [`TokenKind::Semi`].
    Semi,
    /// Model of [`TokenKind::Comma`].
    Comma,
    /// Model of [`TokenKind::Question`].
    Question,
    /// Model of [`TokenKind::Eq`].
    Eq,
    /// Model of [`TokenKind::End`].
    End,
}

/// Mathematical model of a token.
pub struct TokenView {
    /// The token's kind and text.
    pub kind: TokenKindView,
    /// One-based line of the token's first character.
    pub line: usize,
    /// One-based column of the token's first character.
    pub col: usize,
}

impl View for TokenKind {
    type V = TokenKindView;

    open spec fn view(&self) -> TokenKindView {
        match self {
            TokenKind::Ident(t) => TokenKindView::Ident(t@),
            TokenKind::IntLit(t) => TokenKindView::IntLit(t@),
            TokenKind::StrLit(t) => TokenKindView::StrLit(t@),
            TokenKind::LBrace => TokenKindView::LBrace,
            TokenKind::RBrace => TokenKindView::RBrace,
            TokenKind::LBracket => TokenKindView::LBracket,
            TokenKind::RBracket => TokenKindView::RBracket,
            TokenKind::Colon => TokenKindView::Colon,
            TokenKind::Semi => TokenKindView::Semi,
            TokenKind::Comma => TokenKindView::Comma,
            TokenKind::Question => TokenKindView::Question,
            TokenKind::Eq => TokenKindView::Eq,
            TokenKind::End => TokenKindView::End,
        }
    }
}

impl View for Token {
    type V = TokenView;

    open spec fn view(&self) -> TokenView {
        TokenView { kind: self.kind@, line: self.line, col: self.col }
    }
}

/// The model of a token list.
pub open spec fn tokens_view(ts: Seq<Token>) -> Seq<TokenView> {
    ts.map_values(|t: Token| t@)
}

/// True for the whitespace characters the grammar skips.
pub open spec fn is_ws(c: char) -> bool {
    c == ' ' || c == '\t' || c == '\r' || c == '\n'
}

/// True for a character that may start an identifier.
pub open spec fn is_ident_start(c: char) -> bool {
    ('a' <= c && c <= 'z') || ('A' <= c && c <= 'Z') || c == '_'
}

/// True for a character that may continue an identifier.
pub open spec fn is_ident_char(c: char) -> bool {
    is_ident_start(c) || ('0' <= c && c <= '9')
}

/// True for a decimal digit.
pub open spec fn is_digit(c: char) -> bool {
    '0' <= c && c <= '9'
}

/// The one-based line number of position `i`.
pub open spec fn line_of(s: Seq<char>, i: int) -> int
    decreases i,
{
    if i <= 0 {
        1
    } else if 0 < i <= s.len() && s[i - 1] == '\n' {
        line_of(s, i - 1) + 1
    } else {
        line_of(s, i - 1)
    }
}

/// The one-based column number of position `i`.
pub open spec fn col_of(s: Seq<char>, i: int) -> int
    decreases i,
{
    if i <= 0 {
        1
    } else if 0 < i <= s.len() && s[i - 1] == '\n' {
        1
    } else {
        col_of(s, i - 1) + 1
    }
}

/// The position just past the newline that ends the line holding
/// position `i`, or the end of input.
pub open spec fn skip_line(s: Seq<char>, i: int) -> int
    decreases s.len() - i,
{
    if i < 0 || i >= s.len() {
        s.len() as int
    } else if s[i] == '\n' {
        i + 1
    } else {
        skip_line(s, i + 1)
    }
}

proof fn lemma_skip_line_bounds(s: Seq<char>, i: int)
    requires
        0 <= i <= s.len(),
    ensures
        i <= skip_line(s, i) <= s.len(),
        i < s.len() ==> i < skip_line(s, i),
    decreases s.len() - i,
{
    if 0 <= i < s.len() && s[i] != '\n' {
        lemma_skip_line_bounds(s, i + 1);
    }
}

/// The position of the next character that is neither whitespace nor
/// inside a line comment.
pub open spec fn sk(s: Seq<char>, i: int) -> int
    decreases s.len() - i,
{
    if i < 0 || i >= s.len() {
        i
    } else if is_ws(s[i]) {
        sk(s, i + 1)
    } else if s[i] == '/' && i + 1 < s.len() && s[i + 1] == '/' {
        let j = skip_line(s, i + 2);
        if i < j <= s.len() {
            sk(s, j)
        } else {
            i
        }
    } else {
        i
    }
}

/// The end of an identifier starting at `i`.
pub open spec fn ident_end(s: Seq<char>, i: int) -> int
    decreases s.len() - i,
{
    if i < 0 || i >= s.len() {
        s.len() as int
    } else if is_ident_char(s[i]) {
        ident_end(s, i + 1)
    } else {
        i
    }
}

proof fn lemma_ident_end_bounds(s: Seq<char>, i: int)
    requires
        0 <= i <= s.len(),
    ensures
        i <= ident_end(s, i) <= s.len(),
    decreases s.len() - i,
{
    if 0 <= i < s.len() && is_ident_char(s[i]) {
        lemma_ident_end_bounds(s, i + 1);
    }
}

/// The end of a number token starting at `i`: every following letter,
/// digit or underscore belongs to the token, so that a malformed
/// literal is reported whole.
pub open spec fn num_end(s: Seq<char>, i: int) -> int
    decreases s.len() - i,
{
    if i < 0 || i >= s.len() {
        s.len() as int
    } else if is_ident_char(s[i]) {
        num_end(s, i + 1)
    } else {
        i
    }
}

/// The position of the closing quote of a string literal whose content
/// starts at `i`, or the end of input where the literal is
/// unterminated.  A string literal may not span lines.
pub open spec fn str_end(s: Seq<char>, i: int) -> int
    decreases s.len() - i,
{
    if i < 0 || i >= s.len() {
        s.len() as int
    } else if s[i] == '"' || s[i] == '\n' {
        i
    } else {
        str_end(s, i + 1)
    }
}

proof fn lemma_str_end_bounds(s: Seq<char>, i: int)
    requires
        0 <= i <= s.len(),
    ensures
        i <= str_end(s, i) <= s.len(),
    decreases s.len() - i,
{
    if 0 <= i < s.len() && s[i] != '"' && s[i] != '\n' {
        lemma_str_end_bounds(s, i + 1);
    }
}

proof fn lemma_ident_end_chars(s: Seq<char>, i: int)
    requires
        0 <= i <= s.len(),
    ensures
        forall|k: int| i <= k < ident_end(s, i) ==> is_ident_char(#[trigger] s[k]),
    decreases s.len() - i,
{
    lemma_ident_end_bounds(s, i);
    if 0 <= i < s.len() && is_ident_char(s[i]) {
        lemma_ident_end_chars(s, i + 1);
    }
}

proof fn lemma_num_end_chars(s: Seq<char>, i: int)
    requires
        0 <= i <= s.len(),
    ensures
        i <= num_end(s, i) <= s.len(),
        forall|k: int| i <= k < num_end(s, i) ==> is_ident_char(#[trigger] s[k]),
    decreases s.len() - i,
{
    if 0 <= i < s.len() && is_ident_char(s[i]) {
        lemma_num_end_chars(s, i + 1);
    }
}

proof fn lemma_str_end_chars(s: Seq<char>, i: int)
    requires
        0 <= i <= s.len(),
    ensures
        forall|k: int| i <= k < str_end(s, i) ==> #[trigger] s[k] != '\n' && s[k] != '"',
    decreases s.len() - i,
{
    lemma_str_end_bounds(s, i);
    if 0 <= i < s.len() && s[i] != '"' && s[i] != '\n' {
        lemma_str_end_chars(s, i + 1);
    }
}

/// The token starting at the non-whitespace position `i`, with the
/// position just past it, or nothing where no token can start there.
pub open spec fn tok_at(s: Seq<char>, i: int) -> Option<(TokenKindView, int)>
    recommends
        0 <= i < s.len(),
{
    let c = s[i];
    if c == '{' {
        Some((TokenKindView::LBrace, i + 1))
    } else if c == '}' {
        Some((TokenKindView::RBrace, i + 1))
    } else if c == '[' {
        Some((TokenKindView::LBracket, i + 1))
    } else if c == ']' {
        Some((TokenKindView::RBracket, i + 1))
    } else if c == ':' {
        Some((TokenKindView::Colon, i + 1))
    } else if c == ';' {
        Some((TokenKindView::Semi, i + 1))
    } else if c == ',' {
        Some((TokenKindView::Comma, i + 1))
    } else if c == '?' {
        Some((TokenKindView::Question, i + 1))
    } else if c == '=' {
        Some((TokenKindView::Eq, i + 1))
    } else if is_ident_start(c) {
        let e = ident_end(s, i);
        Some((TokenKindView::Ident(s.subrange(i, e)), e))
    } else if is_digit(c) {
        let e = num_end(s, i);
        Some((TokenKindView::IntLit(s.subrange(i, e)), e))
    } else if c == '-' && i + 1 < s.len() && is_digit(s[i + 1]) {
        let e = num_end(s, i + 1);
        Some((TokenKindView::IntLit(s.subrange(i, e)), e))
    } else if c == '"' {
        let e = str_end(s, i + 1);
        if 0 <= e < s.len() && s[e] == '"' {
            Some((TokenKindView::StrLit(s.subrange(i + 1, e)), e + 1))
        } else {
            None
        }
    } else {
        None
    }
}

/// The tokens of the input from position `i` on, ending with an end
/// marker, or the position of the first character where no token can
/// start.
pub open spec fn sp_tokens(s: Seq<char>, i: int) -> Result<Seq<TokenView>, int>
    decreases s.len() - i,
{
    let j = sk(s, i);
    if !(i <= j <= s.len()) {
        Err(i)
    } else if j == s.len() {
        Ok(
            seq![
                TokenView {
                    kind: TokenKindView::End,
                    line: line_of(s, j) as usize,
                    col: col_of(s, j) as usize,
                },
            ],
        )
    } else {
        match tok_at(s, j) {
            None => Err(j),
            Some((k, e)) => {
                if j < e <= s.len() {
                    match sp_tokens(s, e) {
                        Err(p) => Err(p),
                        Ok(rest) => Ok(
                            seq![
                                TokenView {
                                    kind: k,
                                    line: line_of(s, j) as usize,
                                    col: col_of(s, j) as usize,
                                },
                            ] + rest,
                        ),
                    }
                } else {
                    Err(j)
                }
            },
        }
    }
}

proof fn lemma_line_col_bounds(s: Seq<char>, i: int)
    requires
        0 <= i,
    ensures
        1 <= line_of(s, i) <= i + 1,
        1 <= col_of(s, i) <= i + 1,
    decreases i,
{
    if i > 0 {
        lemma_line_col_bounds(s, i - 1);
    }
}

proof fn lemma_line_col_advance(s: Seq<char>, j: int, e: int)
    requires
        0 <= j <= e <= s.len(),
        forall|k: int| j <= k < e ==> s[k] != '\n',
    ensures
        line_of(s, e) == line_of(s, j),
        col_of(s, e) == col_of(s, j) + (e - j),
    decreases e - j,
{
    if e > j {
        lemma_line_col_advance(s, j, e - 1);
    }
}

/// Extends a token list by one token, in the model.
proof fn lemma_tokens_view_push(ts: Seq<Token>, t: Token)
    ensures
        tokens_view(ts.push(t)) == tokens_view(ts).push(t@),
{
    assert forall|k: int| 0 <= k < ts.push(t).len() implies tokens_view(ts.push(t))[k]
        == tokens_view(ts).push(t@)[k] by {
        if k < ts.len() {
            assert(ts.push(t)[k] == ts[k]);
            assert(tokens_view(ts)[k] == ts[k]@);
        } else {
            assert(ts.push(t)[k] == t);
        }
    }
    assert(tokens_view(ts.push(t)) =~= tokens_view(ts).push(t@));
}

/// The whole token stream, with an already-read prefix put back in
/// front.
pub open spec fn prepend_tokens(pre: Seq<TokenView>, r: Result<Seq<TokenView>, int>) -> Result<
    Seq<TokenView>,
    int,
> {
    match r {
        Ok(ts) => Ok(pre + ts),
        Err(p) => Err(p),
    }
}

fn ws_char(c: char) -> (r: bool)
    ensures
        r == is_ws(c),
{
    c == ' ' || c == '\t' || c == '\r' || c == '\n'
}

fn ident_start_char(c: char) -> (r: bool)
    ensures
        r == is_ident_start(c),
{
    ('a' <= c && c <= 'z') || ('A' <= c && c <= 'Z') || c == '_'
}

fn ident_char(c: char) -> (r: bool)
    ensures
        r == is_ident_char(c),
{
    ident_start_char(c) || ('0' <= c && c <= '9')
}

fn digit_char_test(c: char) -> (r: bool)
    ensures
        r == is_digit(c),
{
    '0' <= c && c <= '9'
}

/// Turns schema source text into its token stream, ending with an end
/// marker, or reports the position of the first character where no
/// token can start.
#[verifier::loop_isolation(false)]
#[verifier::rlimit(100)]
pub fn tokenize(input: &Vec<char>) -> (r: Result<Vec<Token>, usize>)
    requires
        input@.len() < usize::MAX,
    ensures
        match r {
            Ok(toks) => sp_tokens(input@, 0) == Ok::<Seq<TokenView>, int>(tokens_view(toks@)),
            Err(p) => sp_tokens(input@, 0) == Err::<Seq<TokenView>, int>(p as int) && p <= input@.len(),
        },
{
    let ghost s = input@;
    let n = input.len();
    let mut toks: Vec<Token> = Vec::new();
    let mut i: usize = 0;
    let mut line: usize = 1;
    let mut col: usize = 1;
    proof {
        assert(tokens_view(toks@) =~= Seq::<TokenView>::empty());
        match sp_tokens(s, 0) {
            Ok(ts) => {
                assert(tokens_view(toks@) + ts =~= ts);
            },
            Err(_) => {},
        }
    }
    loop
        invariant
            n == s.len(),
            n < usize::MAX,
            0 <= i <= n,
            line as int == line_of(s, i as int),
            col as int == col_of(s, i as int),
            sp_tokens(s, 0) == prepend_tokens(tokens_view(toks@), sp_tokens(s, i as int)),
        decreases n - i,
    {
        let ghost entry = i as int;
        loop
            invariant
                0 <= i <= n,
                entry <= i as int,
                line as int == line_of(s, i as int),
                col as int == col_of(s, i as int),
                sk(s, entry) == sk(s, i as int),
            decreases n - i,
        {
            if i >= n {
                break;
            }
            let c = input[i];
            if ws_char(c) {
                proof {
                    lemma_line_col_bounds(s, i as int);
                }
                if c == '\n' {
                    line = line + 1;
                    col = 1;
                } else {
                    col = col + 1;
                }
                i = i + 1;
            } else if c == '/' && i + 1 < n && input[i + 1] == '/' {
                let ghost p = i as int;
                i = i + 2;
                proof {
                    lemma_line_col_bounds(s, p);
                    assert(forall|k: int| p <= k < p + 2 ==> s[k] != '\n');
                    lemma_line_col_advance(s, p, i as int);
                }
                col = col + 2;
                while i < n && input[i] != '\n'
                    invariant
                        p + 2 <= i <= n,
                        line as int == line_of(s, i as int),
                        col as int == col_of(s, i as int),
                        skip_line(s, p + 2) == skip_line(s, i as int),
                    decreases n - i,
                {
                    proof {
                        lemma_line_col_bounds(s, i as int);
                    }
                    col = col + 1;
                    i = i + 1;
                }
                if i < n {
                    line = line + 1;
                    col = 1;
                    i = i + 1;
                    proof {
                        lemma_line_col_bounds(s, i as int - 1);
                    }
                }
                proof {
                    assert(skip_line(s, p + 2) == i as int);
                    lemma_skip_line_bounds(s, p + 2);
                    assert(sk(s, p) == sk(s, i as int));
                }
            } else {
                break;
            }
        }
        proof {
            assert(sk(s, i as int) == i as int);
            assert(sk(s, entry) == i as int);
        }
        if i >= n {
            let t = Token { kind: TokenKind::End, line, col };
            let ghost pre = toks@;
            toks.push(t);
            proof {
                lemma_tokens_view_push(pre, t);
                assert(sp_tokens(s, entry) == Ok::<Seq<TokenView>, int>(seq![t@]));
                match sp_tokens(s, 0) {
                    Ok(ts) => {
                        assert(ts == tokens_view(pre) + seq![t@]);
                        assert(tokens_view(pre) + seq![t@] =~= tokens_view(pre).push(t@));
                        assert(sp_tokens(s, 0) == Ok::<Seq<TokenView>, int>(tokens_view(toks@)));
                    },
                    Err(_) => {
                        assert(false);
                    },
                }
            }
            return Ok(toks);
        }
        let tok_line = line;
        let tok_col = col;
        let start = i;
        let ghost j = i as int;
        let c = input[i];
        let kind: TokenKind;
        if c == '{' {
            kind = TokenKind::LBrace;
            i = i + 1;
            proof {
                assert(forall|k: int| j <= k < i as int ==> #[trigger] s[k] != '\n');
            }
        } else if c == '}' {
            kind = TokenKind::RBrace;
            i = i + 1;
            proof {
                assert(forall|k: int| j <= k < i as int ==> #[trigger] s[k] != '\n');
            }
        } else if c == '[' {
            kind = TokenKind::LBracket;
            i = i + 1;
            proof {
                assert(forall|k: int| j <= k < i as int ==> #[trigger] s[k] != '\n');
            }
        } else if c == ']' {
            kind = TokenKind::RBracket;
            i = i + 1;
            proof {
                assert(forall|k: int| j <= k < i as int ==> #[trigger] s[k] != '\n');
            }
        } else if c == ':' {
            kind = TokenKind::Colon;
            i = i + 1;
            proof {
                assert(forall|k: int| j <= k < i as int ==> #[trigger] s[k] != '\n');
            }
        } else if c == ';' {
            kind = TokenKind::Semi;
            i = i + 1;
            proof {
                assert(forall|k: int| j <= k < i as int ==> #[trigger] s[k] != '\n');
            }
        } else if c == ',' {
            kind = TokenKind::Comma;
            i = i + 1;
            proof {
                assert(forall|k: int| j <= k < i as int ==> #[trigger] s[k] != '\n');
            }
        } else if c == '?' {
            kind = TokenKind::Question;
            i = i + 1;
            proof {
                assert(forall|k: int| j <= k < i as int ==> #[trigger] s[k] != '\n');
            }
        } else if c == '=' {
            kind = TokenKind::Eq;
            i = i + 1;
            proof {
                assert(forall|k: int| j <= k < i as int ==> #[trigger] s[k] != '\n');
            }
        } else if ident_start_char(c) {
            let mut text = String::new();
            proof {
                assert(text@ =~= s.subrange(j, j));
            }
            while i < n && ident_char(input[i])
                invariant
                    j <= i as int <= n,
                    text@ == s.subrange(j, i as int),
                    ident_end(s, j) == ident_end(s, i as int),
                decreases n - i,
            {
                push_char(&mut text, input[i]);
                proof {
                    assert(text@ =~= s.subrange(j, i as int + 1));
                }
                i = i + 1;
            }
            proof {
                assert(ident_end(s, j) == i as int);
                lemma_ident_end_chars(s, j);
                assert(forall|k: int| j <= k < i as int ==> #[trigger] s[k] != '\n');
            }
            kind = TokenKind::Ident(text);
        } else if digit_char_test(c) || (c == '-' && i + 1 < n && digit_char_test(input[i + 1])) {
            let mut text = String::new();
            proof {
                assert(text@ =~= s.subrange(j, j));
            }
            if c == '-' {
                push_char(&mut text, c);
                i = i + 1;
                proof {
                    assert(text@ =~= s.subrange(j, i as int));
                }
            }
            let ghost d = i as int;
            while i < n && ident_char(input[i])
                invariant
                    j <= d <= i as int <= n,
                    text@ == s.subrange(j, i as int),
                    num_end(s, d) == num_end(s, i as int),
                decreases n - i,
            {
                push_char(&mut text, input[i]);
                proof {
                    assert(text@ =~= s.subrange(j, i as int + 1));
                }
                i = i + 1;
            }
            proof {
                assert(num_end(s, d) == i as int);
                lemma_num_end_chars(s, d);
                assert(forall|k: int| j <= k < i as int ==> #[trigger] s[k] != '\n');
            }
            kind = TokenKind::IntLit(text);
        } else if c == '"' {
            let mut text = String::new();
            i = i + 1;
            proof {
                assert(text@ =~= s.subrange(j + 1, j + 1));
            }
            while i < n && input[i] != '"' && input[i] != '\n'
                invariant
                    j + 1 <= i as int <= n,
                    text@ == s.subrange(j + 1, i as int),
                    str_end(s, j + 1) == str_end(s, i as int),
                decreases n - i,
            {
                push_char(&mut text, input[i]);
                proof {
                    assert(text@ =~= s.subrange(j + 1, i as int + 1));
                }
                i = i + 1;
            }
            proof {
                assert(str_end(s, j + 1) == i as int);
            }
            if i < n && input[i] == '"' {
                i = i + 1;
                proof {
                    lemma_str_end_chars(s, j + 1);
                    assert(forall|k: int| j <= k < i as int ==> #[trigger] s[k] != '\n');
                }
                kind = TokenKind::StrLit(text);
            } else {
                proof {
                    assert(tok_at(s, j) is None);
                    assert(sp_tokens(s, entry) == Err::<Seq<TokenView>, int>(j));
                }
                return Err(start);
            }
        } else {
            proof {
                assert(tok_at(s, j) is None);
                assert(sp_tokens(s, entry) == Err::<Seq<TokenView>, int>(j));
            }
            return Err(start);
        }
        proof {
            assert(forall|k: int| j <= k < i as int ==> s[k] != '\n');
            lemma_line_col_bounds(s, j);
            lemma_line_col_advance(s, j, i as int);
        }
        col = col + (i - start);
        let t = Token { kind, line: tok_line, col: tok_col };
        let ghost pre = toks@;
        toks.push(t);
        proof {
            assert(tok_at(s, j) == Some((t@.kind, i as int)));
            lemma_tokens_view_push(pre, t);
            let rnext = sp_tokens(s, i as int);
            assert(sp_tokens(s, entry) == (match rnext {
                Err(p) => Err::<Seq<TokenView>, int>(p),
                Ok(rest) => Ok(seq![t@] + rest),
            }));
            match rnext {
                Ok(rest) => {
                    assert(tokens_view(pre) + (seq![t@] + rest) =~= tokens_view(pre).push(t@)
                        + rest);
                },
                Err(_) => {},
            }
        }
    }
}

/// The position of the newline (or end of input) that ends the line
/// holding position `i`.
pub open spec fn eol(s: Seq<char>, i: int) -> int
    decreases s.len() - i,
{
    if i < 0 || i >= s.len() {
        s.len() as int
    } else if s[i] == '\n' {
        i
    } else {
        eol(s, i + 1)
    }
}

/// The position of the first character of the line holding position
/// `i`.
pub open spec fn line_start_of(s: Seq<char>, i: int) -> int {
    i - (col_of(s, i) - 1)
}

/// The text of the line holding position `i`, without its newline.
pub open spec fn line_text_at(s: Seq<char>, i: int) -> Seq<char> {
    s.subrange(line_start_of(s, i), eol(s, i))
}

proof fn lemma_col_from_start(s: Seq<char>, k: int, i: int)
    requires
        0 <= k <= i <= s.len(),
        k == 0 || s[k - 1] == '\n',
        forall|m: int| k <= m < i ==> s[m] != '\n',
    ensures
        col_of(s, i) == i - k + 1,
    decreases i - k,
{
    if i > k {
        lemma_col_from_start(s, k, i - 1);
    }
}

proof fn lemma_eol_bounds(s: Seq<char>, i: int)
    requires
        0 <= i <= s.len(),
    ensures
        i <= eol(s, i) <= s.len(),
    decreases s.len() - i,
{
    if 0 <= i < s.len() && s[i] != '\n' {
        lemma_eol_bounds(s, i + 1);
    }
}

/// The text of the line holding position `p`, and the one-based line
/// and column of `p`, as reported in a parse diagnostic.
#[verifier::loop_isolation(false)]
pub fn line_context(input: &Vec<char>, p: usize) -> (r: (String, usize, usize))
    requires
        p <= input@.len(),
        input@.len() < usize::MAX,
    ensures
        r.0@ == line_text_at(input@, p as int),
        r.1 as int == line_of(input@, p as int),
        r.2 as int == col_of(input@, p as int),
{
    let ghost s = input@;
    let n = input.len();
    // line and column by one forward scan
    let mut line: usize = 1;
    let mut col: usize = 1;
    let mut i: usize = 0;
    while i < p
        invariant
            0 <= i <= p <= n,
            n == s.len(),
            line as int == line_of(s, i as int),
            col as int == col_of(s, i as int),
        decreases p - i,
    {
        proof {
            lemma_line_col_bounds(s, i as int);
        }
        if input[i] == '\n' {
            line = line + 1;
            col = 1;
        } else {
            col = col + 1;
        }
        i = i + 1;
    }
    // the start of the line holding p
    let mut st: usize = p;
    while st > 0 && input[st - 1] != '\n'
        invariant
            0 <= st <= p,
            forall|m: int| st <= m < p ==> s[m] != '\n',
        decreases st,
    {
        st = st - 1;
    }
    proof {
        lemma_col_from_start(s, st as int, p as int);
        assert(line_start_of(s, p as int) == st as int);
    }
    // the end of the line holding p
    let mut e: usize = p;
    while e < n && input[e] != '\n'
        invariant
            p <= e <= n,
            eol(s, p as int) == eol(s, e as int),
        decreases n - e,
    {
        e = e + 1;
    }
    proof {
        assert(eol(s, p as int) == e as int);
        lemma_eol_bounds(s, p as int);
    }
    // the line's text
    let mut text = String::new();
    let mut k: usize = st;
    proof {
        assert(text@ =~= s.subrange(st as int, st as int));
    }
    while k < e
        invariant
            st <= k <= e <= n,
            n == s.len(),
            text@ == s.subrange(st as int, k as int),
        decreases e - k,
    {
        push_char(&mut text, input[k]);
        proof {
            assert(text@ =~= s.subrange(st as int, k as int + 1));
        }
        k = k + 1;
    }
    (text, line, col)
}

} // verus!
