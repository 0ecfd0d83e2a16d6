use vstd::prelude::*;

use crate::parsing::{toks_ok, toks_view};
use crate::text::{char_to_string, chars_to_string, string_chars};
use crate::token::{is_op_char, op_char, Token, TokenType, TokenView};

verus! {

pub open spec fn is_digit(c: char) -> bool {
    '0' <= c <= '9'
}

pub open spec fn is_upper(c: char) -> bool {
    'A' <= c <= 'Z'
}

pub open spec fn is_alpha(c: char) -> bool {
    is_upper(c) || ('a' <= c <= 'z') || c == '_'
}

pub open spec fn is_ident_char(c: char) -> bool {
    is_alpha(c) || is_digit(c)
}

pub open spec fn digit_pred() -> spec_fn(char) -> bool {
    |c: char| is_digit(c)
}

pub open spec fn ident_pred() -> spec_fn(char) -> bool {
    |c: char| is_ident_char(c)
}

pub open spec fn op_pred() -> spec_fn(char) -> bool {
    |c: char| is_op_char(c)
}

pub open spec fn not_pred(q: char) -> spec_fn(char) -> bool {
    |c: char| c != q
}

/// The end of the run of characters from `i` on that satisfy `p`.
pub open spec fn scan(cs: Seq<char>, i: int, p: spec_fn(char) -> bool) -> int
    decreases cs.len() - i,
{
    if 0 <= i < cs.len() && p(cs[i]) {
        scan(cs, i + 1, p)
    } else {
        i
    }
}

/// `x + n`, staying at `usize::MAX` once there.
pub open spec fn bump(x: usize, n: int) -> usize {
    if x + n <= usize::MAX {
        (x + n) as usize
    } else {
        usize::MAX
    }
}

pub open spec fn tv(tt: TokenType, value: Seq<char>, line: usize, col: usize) -> TokenView {
    TokenView { tt, value, line, col }
}

/// The kind of a word: a keyword, a boolean, a constructor or an identifier.
pub open spec fn word_tt(v: Seq<char>) -> TokenType {
    if v == seq!['m', 'a', 't', 'c', 'h'] {
        TokenType::Match
    } else if v == seq!['t', 'r', 'u', 'e'] || v == seq!['f', 'a', 'l', 's', 'e'] {
        TokenType::BoolLit
    } else if v.len() > 0 && is_upper(v[0]) {
        TokenType::UppercaseId
    } else {
        TokenType::Id
    }
}

/// The kind of a run of operator characters: `=`, `::`, `->` and `|` are syntax, any
/// other run is an (infix) identifier.
pub open spec fn op_tt(v: Seq<char>) -> TokenType {
    if v == seq!['='] {
        TokenType::Assignment
    } else if v == seq![':', ':'] {
        TokenType::DoubleColon
    } else if v == seq!['-', '>'] {
        TokenType::RArrow
    } else if v == seq!['|'] {
        TokenType::Bar
    } else {
        TokenType::Id
    }
}

/// The kind of a one-character token.
pub open spec fn punct_tt(c: char) -> Option<TokenType> {
    if c == '(' {
        Some(TokenType::LParen)
    } else if c == ')' {
        Some(TokenType::RParen)
    } else if c == '[' {
        Some(TokenType::LBrackets)
    } else if c == ']' {
        Some(TokenType::RBrackets)
    } else if c == '{' {
        Some(TokenType::LBrace)
    } else if c == '}' {
        Some(TokenType::RBrace)
    } else if c == ',' {
        Some(TokenType::Comma)
    } else if c == '.' {
        Some(TokenType::Dot)
    } else if c == '$' {
        Some(TokenType::Dollar)
    } else if c == '\\' {
        Some(TokenType::Lambda)
    } else {
        None
    }
}

/// The tokens of `cs` from position `i` on, the first of them at `line` and `col`;
/// the last token ends the input.
///
/// Blanks separate tokens and `//` starts a comment that runs to the end of the line.
/// A word is a letter or `_` followed by letters, digits and `_`; numbers are digits,
/// with a fraction for a float; operators are runs of operator characters. Quotes
/// delimit literals: one character between single quotes is a character literal, any
/// other text between single or double quotes a string literal.
pub open spec fn sp_lex(cs: Seq<char>, i: int, line: usize, col: usize) -> Seq<TokenView>
    decreases cs.len() - i,
{
    if i < 0 || i >= cs.len() {
        seq![tv(TokenType::EOF, seq![], line, col)]
    } else {
        let c = cs[i];
        if c == ' ' || c == '\t' || c == '\r' {
            sp_lex(cs, i + 1, line, bump(col, 1))
        } else if c == '\n' {
            seq![tv(TokenType::Newline, seq![c], line, col)] + sp_lex(cs, i + 1, bump(line, 1), 1)
        } else if c == '/' && i + 1 < cs.len() && cs[i + 1] == '/' {
            let j = scan(cs, i, not_pred('\n'));
            if i < j <= cs.len() {
                sp_lex(cs, j, line, bump(col, j - i))
            } else {
                seq![]
            }
        } else if punct_tt(c) is Some {
            seq![tv(punct_tt(c)->0, seq![c], line, col)] + sp_lex(cs, i + 1, line, bump(col, 1))
        } else if is_alpha(c) || is_digit(c) || is_op_char(c) {
            let j = if is_alpha(c) {
                scan(cs, i, ident_pred())
            } else if is_op_char(c) {
                scan(cs, i, op_pred())
            } else {
                let j1 = scan(cs, i, digit_pred());
                if j1 + 1 < cs.len() && cs[j1] == '.' && is_digit(cs[j1 + 1]) {
                    scan(cs, j1 + 1, digit_pred())
                } else {
                    j1
                }
            };
            let v = cs.subrange(i, j);
            let tt = if is_alpha(c) {
                word_tt(v)
            } else if is_op_char(c) {
                op_tt(v)
            } else if v.contains('.') {
                TokenType::FloatLit
            } else {
                TokenType::IntLit
            };
            if i < j <= cs.len() {
                seq![tv(tt, v, line, col)] + sp_lex(cs, j, line, bump(col, j - i))
            } else {
                seq![]
            }
        } else if c == '\'' || c == '"' {
            let j = scan(cs, i + 1, not_pred(c));
            let content = cs.subrange(i + 1, j);
            let next = if j < cs.len() {
                j + 1
            } else {
                j
            };
            let tt = if c == '\'' && content.len() == 1 {
                TokenType::CharLit
            } else {
                TokenType::StringLit
            };
            if i < next <= cs.len() && i + 1 <= j <= cs.len() {
                seq![tv(tt, content, line, col)] + sp_lex(cs, next, line, bump(col, next - i))
            } else {
                seq![]
            }
        } else {
            seq![tv(TokenType::Id, seq![c], line, col)] + sp_lex(cs, i + 1, line, bump(col, 1))
        }
    }
}


proof fn lemma_scan(cs: Seq<char>, i: int, p: spec_fn(char) -> bool)
    requires
        0 <= i <= cs.len(),
    ensures
        i <= scan(cs, i, p) <= cs.len(),
        i < cs.len() && p(cs[i]) ==> i < scan(cs, i, p),
    decreases cs.len() - i,
{
    if i < cs.len() && p(cs[i]) {
        lemma_scan(cs, i + 1, p);
    }
}

/// The tokens of any text end with the one end-of-input token.
pub proof fn lemma_lex_ok(cs: Seq<char>, i: int, line: usize, col: usize)
    requires
        0 <= i,
    ensures
        toks_ok(sp_lex(cs, i, line, col)),
    decreases cs.len() - i,
{
    if i >= cs.len() {
        return;
    }
    let c = cs[i];
    if c == ' ' || c == '\t' || c == '\r' {
        lemma_lex_ok(cs, i + 1, line, bump(col, 1));
    } else if c == '\n' {
        lemma_lex_ok(cs, i + 1, bump(line, 1), 1);
        lemma_cons_ok(tv(TokenType::Newline, seq![c], line, col), sp_lex(cs, i + 1, bump(line, 1), 1));
    } else if c == '/' && i + 1 < cs.len() && cs[i + 1] == '/' {
        lemma_scan(cs, i, not_pred('\n'));
        let j = scan(cs, i, not_pred('\n'));
        lemma_lex_ok(cs, j, line, bump(col, j - i));
    } else if punct_tt(c) is Some {
        lemma_lex_ok(cs, i + 1, line, bump(col, 1));
        lemma_cons_ok(tv(punct_tt(c)->0, seq![c], line, col), sp_lex(cs, i + 1, line, bump(col, 1)));
    } else if is_alpha(c) || is_digit(c) || is_op_char(c) {
        lemma_scan(cs, i, ident_pred());
        lemma_scan(cs, i, op_pred());
        lemma_scan(cs, i, digit_pred());
        let j1 = scan(cs, i, digit_pred());
        if j1 + 1 < cs.len() && cs[j1] == '.' && is_digit(cs[j1 + 1]) {
            lemma_scan(cs, j1 + 1, digit_pred());
        }
        let j = if is_alpha(c) {
            scan(cs, i, ident_pred())
        } else if is_op_char(c) {
            scan(cs, i, op_pred())
        } else {
            if j1 + 1 < cs.len() && cs[j1] == '.' && is_digit(cs[j1 + 1]) {
                scan(cs, j1 + 1, digit_pred())
            } else {
                j1
            }
        };
        let v = cs.subrange(i, j);
        let tt = if is_alpha(c) {
            word_tt(v)
        } else if is_op_char(c) {
            op_tt(v)
        } else if v.contains('.') {
            TokenType::FloatLit
        } else {
            TokenType::IntLit
        };
        lemma_lex_ok(cs, j, line, bump(col, j - i));
        lemma_cons_ok(tv(tt, v, line, col), sp_lex(cs, j, line, bump(col, j - i)));
    } else if c == '\'' || c == '"' {
        lemma_scan(cs, i + 1, not_pred(c));
        let j = scan(cs, i + 1, not_pred(c));
        let content = cs.subrange(i + 1, j);
        let next = if j < cs.len() {
            j + 1
        } else {
            j
        };
        let tt = if c == '\'' && content.len() == 1 {
            TokenType::CharLit
        } else {
            TokenType::StringLit
        };
        lemma_lex_ok(cs, next, line, bump(col, next - i));
        lemma_cons_ok(tv(tt, content, line, col), sp_lex(cs, next, line, bump(col, next - i)));
    } else {
        lemma_lex_ok(cs, i + 1, line, bump(col, 1));
        lemma_cons_ok(tv(TokenType::Id, seq![c], line, col), sp_lex(cs, i + 1, line, bump(col, 1)));
    }
}

proof fn lemma_cons_ok(t: TokenView, rest: Seq<TokenView>)
    requires
        t.tt != TokenType::EOF,
        toks_ok(rest),
    ensures
        toks_ok(seq![t] + rest),
{
    let r = seq![t] + rest;
    assert forall|i: int| 0 <= i < r.len() - 1 implies (#[trigger] r[i]).tt != TokenType::EOF by {
        if i > 0 {
            assert(r[i] == rest[i - 1]);
        }
    }
}

fn is_digit_c(c: char) -> (b: bool)
    ensures
        b == is_digit(c),
{
    '0' <= c && c <= '9'
}

fn is_upper_c(c: char) -> (b: bool)
    ensures
        b == is_upper(c),
{
    'A' <= c && c <= 'Z'
}

fn is_alpha_c(c: char) -> (b: bool)
    ensures
        b == is_alpha(c),
{
    is_upper_c(c) || ('a' <= c && c <= 'z') || c == '_'
}

fn is_ident_c(c: char) -> (b: bool)
    ensures
        b == is_ident_char(c),
{
    is_alpha_c(c) || is_digit_c(c)
}

fn bump_c(x: usize, n: usize) -> (r: usize)
    ensures
        r == bump(x, n as int),
{
    if x <= usize::MAX - n {
        x + n
    } else {
        usize::MAX
    }
}

fn scan_digits(cs: &Vec<char>, i: usize) -> (j: usize)
    requires
        i <= cs@.len(),
    ensures
        j == scan(cs@, i as int, digit_pred()),
{
    let mut j = i;
    while j < cs.len() && is_digit_c(cs[j])
        invariant
            i <= j <= cs@.len(),
            scan(cs@, i as int, digit_pred()) == scan(cs@, j as int, digit_pred()),
        decreases cs@.len() - j,
    {
        j = j + 1;
    }
    j
}

fn scan_ident(cs: &Vec<char>, i: usize) -> (j: usize)
    requires
        i <= cs@.len(),
    ensures
        j == scan(cs@, i as int, ident_pred()),
{
    let mut j = i;
    while j < cs.len() && is_ident_c(cs[j])
        invariant
            i <= j <= cs@.len(),
            scan(cs@, i as int, ident_pred()) == scan(cs@, j as int, ident_pred()),
        decreases cs@.len() - j,
    {
        j = j + 1;
    }
    j
}

fn scan_op(cs: &Vec<char>, i: usize) -> (j: usize)
    requires
        i <= cs@.len(),
    ensures
        j == scan(cs@, i as int, op_pred()),
{
    let mut j = i;
    while j < cs.len() && op_char(cs[j])
        invariant
            i <= j <= cs@.len(),
            scan(cs@, i as int, op_pred()) == scan(cs@, j as int, op_pred()),
        decreases cs@.len() - j,
    {
        j = j + 1;
    }
    j
}

fn scan_not(cs: &Vec<char>, i: usize, q: char) -> (j: usize)
    requires
        i <= cs@.len(),
    ensures
        j == scan(cs@, i as int, not_pred(q)),
{
    let mut j = i;
    while j < cs.len() && cs[j] != q
        invariant
            i <= j <= cs@.len(),
            scan(cs@, i as int, not_pred(q)) == scan(cs@, j as int, not_pred(q)),
        decreases cs@.len() - j,
    {
        j = j + 1;
    }
    j
}

fn punct_of(c: char) -> (r: Option<TokenType>)
    ensures
        r == punct_tt(c),
{
    if c == '(' {
        Some(TokenType::LParen)
    } else if c == ')' {
        Some(TokenType::RParen)
    } else if c == '[' {
        Some(TokenType::LBrackets)
    } else if c == ']' {
        Some(TokenType::RBrackets)
    } else if c == '{' {
        Some(TokenType::LBrace)
    } else if c == '}' {
        Some(TokenType::RBrace)
    } else if c == ',' {
        Some(TokenType::Comma)
    } else if c == '.' {
        Some(TokenType::Dot)
    } else if c == '$' {
        Some(TokenType::Dollar)
    } else if c == '\\' {
        Some(TokenType::Lambda)
    } else {
        None
    }
}

fn word_kind(cs: &Vec<char>, i: usize, j: usize) -> (tt: TokenType)
    requires
        i < j <= cs@.len(),
    ensures
        tt == word_tt(cs@.subrange(i as int, j as int)),
{
    let ghost v = cs@.subrange(i as int, j as int);
    let n = j - i;
    if n == 5 && cs[i] == 'm' && cs[i + 1] == 'a' && cs[i + 2] == 't' && cs[i + 3] == 'c' && cs[i + 4] == 'h' {
        assert(v =~= seq!['m', 'a', 't', 'c', 'h']);
        TokenType::Match
    } else if n == 4 && cs[i] == 't' && cs[i + 1] == 'r' && cs[i + 2] == 'u' && cs[i + 3] == 'e' {
        assert(v =~= seq!['t', 'r', 'u', 'e']);
        TokenType::BoolLit
    } else if n == 5 && cs[i] == 'f' && cs[i + 1] == 'a' && cs[i + 2] == 'l' && cs[i + 3] == 's' && cs[i + 4] == 'e' {
        assert(v =~= seq!['f', 'a', 'l', 's', 'e']);
        TokenType::BoolLit
    } else {
        proof {
            if v == seq!['m', 'a', 't', 'c', 'h'] {
                assert(v[0] == 'm' && v[1] == 'a' && v[2] == 't' && v[3] == 'c' && v[4] == 'h');
            }
            if v == seq!['t', 'r', 'u', 'e'] {
                assert(v[0] == 't' && v[1] == 'r' && v[2] == 'u' && v[3] == 'e');
            }
            if v == seq!['f', 'a', 'l', 's', 'e'] {
                assert(v[0] == 'f' && v[1] == 'a' && v[2] == 'l' && v[3] == 's' && v[4] == 'e');
            }
        }
        if is_upper_c(cs[i]) {
            TokenType::UppercaseId
        } else {
            TokenType::Id
        }
    }
}

fn op_kind(cs: &Vec<char>, i: usize, j: usize) -> (tt: TokenType)
    requires
        i < j <= cs@.len(),
    ensures
        tt == op_tt(cs@.subrange(i as int, j as int)),
{
    let ghost v = cs@.subrange(i as int, j as int);
    let n = j - i;
    proof {
        if v == seq!['='] {
            assert(v.len() == 1 && v[0] == '=');
            assert(cs@[i as int] == '=');
        }
        if v == seq![':', ':'] {
            assert(v.len() == 2 && v[0] == ':' && v[1] == ':');
            assert(cs@[i as int] == ':' && cs@[i + 1] == ':');
        }
        if v == seq!['-', '>'] {
            assert(v.len() == 2 && v[0] == '-' && v[1] == '>');
            assert(cs@[i as int] == '-' && cs@[i + 1] == '>');
        }
        if v == seq!['|'] {
            assert(v.len() == 1 && v[0] == '|');
            assert(cs@[i as int] == '|');
        }
    }
    if n == 1 && cs[i] == '=' {
        assert(v =~= seq!['=']);
        TokenType::Assignment
    } else if n == 2 && cs[i] == ':' && cs[i + 1] == ':' {
        assert(v =~= seq![':', ':']);
        TokenType::DoubleColon
    } else if n == 2 && cs[i] == '-' && cs[i + 1] == '>' {
        assert(v =~= seq!['-', '>']);
        TokenType::RArrow
    } else if n == 1 && cs[i] == '|' {
        assert(v =~= seq!['|']);
        TokenType::Bar
    } else {
        TokenType::Id
    }
}

/// Reads what starts at position `i`: a token, or blanks or a comment (no token).
/// Returns the token and where reading goes on, with its line and column.
#[verifier::rlimit(30)]
fn lex_one(cs: &Vec<char>, i: usize, line: usize, col: usize) -> (r: (Option<Token>, usize, usize, usize))
    requires
        i < cs@.len(),
    ensures
        i < r.1 <= cs@.len(),
        sp_lex(cs@, i as int, line, col) == (match r.0 {
            Some(t) => seq![t@],
            None => Seq::<TokenView>::empty(),
        }) + sp_lex(cs@, r.1 as int, r.2, r.3),
{
    let n = cs.len();
    let c = cs[i];
    if c == ' ' || c == '\t' || c == '\r' {
        assert(sp_lex(cs@, i as int, line, col) =~= Seq::<TokenView>::empty() + sp_lex(cs@, i + 1, line, bump(col, 1)));
        (None, i + 1, line, bump_c(col, 1))
    } else if c == '\n' {
        let t = Token { tt: TokenType::Newline, value: char_to_string(c), line, col };
        (Some(t), i + 1, bump_c(line, 1), 1)
    } else if c == '/' && i + 1 < cs.len() && cs[i + 1] == '/' {
        proof {
            lemma_scan(cs@, i as int, not_pred('\n'));
        }
        let j = scan_not(cs, i, '\n');
        assert(sp_lex(cs@, i as int, line, col) =~= Seq::<TokenView>::empty() + sp_lex(cs@, j as int, line, bump(col, j - i)));
        (None, j, line, bump_c(col, j - i))
    } else if punct_of(c).is_some() {
        let tt = match punct_of(c) {
            Some(t) => t,
            None => TokenType::Id,
        };
        (Some(Token { tt, value: char_to_string(c), line, col }), i + 1, line, bump_c(col, 1))
    } else if is_alpha_c(c) || is_digit_c(c) || op_char(c) {
        proof {
            lemma_scan(cs@, i as int, ident_pred());
            lemma_scan(cs@, i as int, op_pred());
            lemma_scan(cs@, i as int, digit_pred());
        }
        let j;
        let tt;
        if is_alpha_c(c) {
            j = scan_ident(cs, i);
            tt = word_kind(cs, i, j);
        } else if op_char(c) {
            j = scan_op(cs, i);
            tt = op_kind(cs, i, j);
        } else {
            let j1 = scan_digits(cs, i);
            if j1 < cs.len() && j1 + 1 < cs.len() && cs[j1] == '.' && is_digit_c(cs[j1 + 1]) {
                proof {
                    lemma_scan(cs@, j1 + 1, digit_pred());
                }
                j = scan_digits(cs, j1 + 1);
                assert(cs@.subrange(i as int, j as int)[j1 - i] == '.');
                tt = TokenType::FloatLit;
            } else {
                j = j1;
                proof {
                    if cs@.subrange(i as int, j as int).contains('.') {
                        let k = choose|k: int|
                            0 <= k < (j - i) && cs@.subrange(i as int, j as int)[k] == '.';
                        lemma_digits(cs@, i as int, i + k);
                    }
                }
                tt = TokenType::IntLit;
            }
        }
        let v = chars_to_string(cs, i, j);
        (Some(Token { tt, value: v, line, col }), j, line, bump_c(col, j - i))
    } else if c == '\'' || c == '"' {
        proof {
            lemma_scan(cs@, i + 1, not_pred(c));
        }
        let j = scan_not(cs, i + 1, c);
        let content = chars_to_string(cs, i + 1, j);
        let next = if j < cs.len() {
            j + 1
        } else {
            j
        };
        let tt = if c == '\'' && j - (i + 1) == 1 {
            TokenType::CharLit
        } else {
            TokenType::StringLit
        };
        (Some(Token { tt, value: content, line, col }), next, line, bump_c(col, next - i))
    } else {
        (Some(Token { tt: TokenType::Id, value: char_to_string(c), line, col }), i + 1, line, bump_c(col, 1))
    }
}

/// Splits `src` into tokens (see `sp_lex`), the first at line 1, column 1.
pub fn lex(src: &String) -> (toks: Vec<Token>)
    ensures
        toks_view(toks@) == sp_lex(src@, 0, 1, 1),
        toks_ok(toks_view(toks@)),
{
    let cs = string_chars(src);
    let ghost all = sp_lex(cs@, 0, 1, 1);
    let mut toks: Vec<Token> = Vec::new();
    let mut i: usize = 0;
    let mut line: usize = 1;
    let mut col: usize = 1;
    assert(toks_view(toks@) =~= Seq::<TokenView>::empty());
    assert(toks_view(toks@) + sp_lex(cs@, 0, 1, 1) =~= all);
    while i < cs.len()
        invariant
            i <= cs@.len(),
            cs@ == src@,
            all == sp_lex(cs@, 0, 1, 1),
            toks_view(toks@) + sp_lex(cs@, i as int, line, col) == all,
        decreases cs@.len() - i,
    {
        let ghost before = toks_view(toks@);
        let ghost (gi, gl, gc) = (i, line, col);
        let (t, ni, nl, nc) = lex_one(&cs, i, line, col);
        match t {
            Some(t) => {
                let ghost tv0 = t@;
                toks.push(t);
                assert(toks_view(toks@) =~= before.push(tv0));
                assert(toks_view(toks@) + sp_lex(cs@, ni as int, nl, nc) =~= before + (seq![tv0] + sp_lex(cs@, ni as int, nl, nc)));
            },
            None => {
                assert(Seq::<TokenView>::empty() + sp_lex(cs@, ni as int, nl, nc) =~= sp_lex(cs@, ni as int, nl, nc));
            },
        }
        i = ni;
        line = nl;
        col = nc;
    }
    let ghost before = toks_view(toks@);
    toks.push(Token { tt: TokenType::EOF, value: String::new(), line, col });
    assert(toks_view(toks@) =~= before.push(tv(TokenType::EOF, seq![], line, col)));
    assert(toks_view(toks@) =~= all);
    proof {
        lemma_lex_ok(cs@, 0, 1, 1);
    }
    toks
}

/// The characters of a run of digits are digits.
proof fn lemma_digits(cs: Seq<char>, i: int, k: int)
    requires
        0 <= i <= k < scan(cs, i, digit_pred()),
    ensures
        is_digit(cs[k]),
    decreases k - i,
{
    if i < k {
        lemma_digits(cs, i + 1, k);
    }
}

} // verus!
