//! Splitting source text into tokens.

use vstd::prelude::*;
use crate::ops::concat;
use crate::text::nat_to_text;

verus! {

#[derive(Debug, Clone, Copy, PartialEq, Eq, Structural)]
pub enum Punct {
    LBrace,
    RBrace,
    LParen,
    RParen,
    LBracket,
    RBracket,
    Comma,
    Semi,
    Dot,
    Assign,
    EqEq,
    NotEq,
    Lt,
    Le,
    Gt,
    Ge,
    Plus,
    Minus,
    Star,
    Slash,
    Bang,
}

/// A token: a word (identifier or keyword), an integer literal, a string
/// literal with its quotes removed and `\"` turned into `"`, or punctuation.
#[derive(Debug)]
pub enum Token {
    Word(String),
    Int(i64),
    Text(String),
    Punct(Punct),
}

/// A token as the grammar sees it: words and string contents by their characters.
pub enum Tok {
    Word(Seq<char>),
    Int(i64),
    Text(Seq<char>),
    Punct(Punct),
}

pub open spec fn tok_model(t: Token) -> Tok {
    match t {
        Token::Word(w) => Tok::Word(w@),
        Token::Int(n) => Tok::Int(n),
        Token::Text(s) => Tok::Text(s@),
        Token::Punct(p) => Tok::Punct(p),
    }
}

pub open spec fn toks_model(v: Seq<Token>) -> Seq<Tok> {
    Seq::new(v.len(), |i: int| tok_model(v[i]))
}

/// Index of the end of the line that starts at or after `i`.
pub open spec fn comment_end(cs: Seq<char>, i: int) -> int
    decreases cs.len() - i,
{
    if i < 0 || i >= cs.len() || cs[i] == '\n' {
        i
    } else {
        comment_end(cs, i + 1)
    }
}

/// Index of the first character at or after `i` that cannot continue an identifier.
pub open spec fn word_end(cs: Seq<char>, i: int) -> int
    decreases cs.len() - i,
{
    if 0 <= i < cs.len() && is_word_char(cs[i]) {
        word_end(cs, i + 1)
    } else {
        i
    }
}

/// Index of the first character at or after `i` that is not a digit.
pub open spec fn digits_end(cs: Seq<char>, i: int) -> int
    decreases cs.len() - i,
{
    if 0 <= i < cs.len() && is_digit(cs[i]) {
        digits_end(cs, i + 1)
    } else {
        i
    }
}

pub proof fn lemma_ends(cs: Seq<char>, i: int)
    requires
        0 <= i <= cs.len(),
    ensures
        i <= comment_end(cs, i) <= cs.len(),
        i <= word_end(cs, i) <= cs.len(),
        i <= digits_end(cs, i) <= cs.len(),
    decreases cs.len() - i,
{
    if i < cs.len() {
        lemma_ends(cs, i + 1);
    }
}

/// The rest of a string literal whose current piece starts at `piece`,
/// scanning from `i`: its content, each `\"` read as `"`, and the index after
/// the closing quote; nothing when the literal is not closed.
pub open spec fn str_body(cs: Seq<char>, piece: int, i: int) -> Option<(Seq<char>, int)>
    decreases cs.len() - i,
{
    if i < 0 || piece < 0 || piece > i || i >= cs.len() {
        None
    } else if cs[i] == '"' {
        Some((cs.subrange(piece, i), i + 1))
    } else if cs[i] == '\\' && i + 1 < cs.len() && cs[i + 1] == '"' {
        match str_body(cs, i + 2, i + 2) {
            Some((rest, e)) => Some((cs.subrange(piece, i) + seq!['"'] + rest, e)),
            None => None,
        }
    } else {
        str_body(cs, piece, i + 1)
    }
}

pub proof fn lemma_str_body_end(cs: Seq<char>, piece: int, i: int)
    ensures
        str_body(cs, piece, i) matches Some((_, e)) ==> i < e <= cs.len(),
    decreases cs.len() - i,
{
    if 0 <= piece <= i < cs.len() {
        if cs[i] == '"' {
        } else if cs[i] == '\\' && i + 1 < cs.len() && cs[i + 1] == '"' {
            lemma_str_body_end(cs, i + 2, i + 2);
        } else {
            lemma_str_body_end(cs, piece, i + 1);
        }
    }
}

/// The punctuation at `i`: the longest of `==`, `!=`, `<=`, `>=` or a single
/// character, with how many characters it takes.
pub open spec fn punct_spec(cs: Seq<char>, i: int) -> Option<(Punct, int)> {
    let c = cs[i];
    let next_eq = i + 1 < cs.len() && cs[i + 1] == '=';
    if c == '{' { Some((Punct::LBrace, 1)) }
    else if c == '}' { Some((Punct::RBrace, 1)) }
    else if c == '(' { Some((Punct::LParen, 1)) }
    else if c == ')' { Some((Punct::RParen, 1)) }
    else if c == '[' { Some((Punct::LBracket, 1)) }
    else if c == ']' { Some((Punct::RBracket, 1)) }
    else if c == ',' { Some((Punct::Comma, 1)) }
    else if c == ';' { Some((Punct::Semi, 1)) }
    else if c == '.' { Some((Punct::Dot, 1)) }
    else if c == '+' { Some((Punct::Plus, 1)) }
    else if c == '-' { Some((Punct::Minus, 1)) }
    else if c == '*' { Some((Punct::Star, 1)) }
    else if c == '/' { Some((Punct::Slash, 1)) }
    else if c == '=' { if next_eq { Some((Punct::EqEq, 2)) } else { Some((Punct::Assign, 1)) } }
    else if c == '!' { if next_eq { Some((Punct::NotEq, 2)) } else { Some((Punct::Bang, 1)) } }
    else if c == '<' { if next_eq { Some((Punct::Le, 2)) } else { Some((Punct::Lt, 1)) } }
    else if c == '>' { if next_eq { Some((Punct::Ge, 2)) } else { Some((Punct::Gt, 1)) } }
    else { None }
}

pub open spec fn prepend(t: Tok, rest: Option<Seq<Tok>>) -> Option<Seq<Tok>> {
    match rest {
        Some(r) => Some(seq![t] + r),
        None => None,
    }
}

pub open spec fn is_space(c: char) -> bool {
    c == ' ' || c == '\t' || c == '\n' || c == '\r'
}

/// The tokens of `cs` from index `i` on; nothing when some character there
/// starts no token.
pub open spec fn lex_from(cs: Seq<char>, i: int) -> Option<Seq<Tok>>
    decreases cs.len() - i,
{
    if i < 0 || i >= cs.len() {
        Some(Seq::empty())
    } else {
        proof {
            lemma_ends(cs, i + 1);
            lemma_str_body_end(cs, i + 1, i + 1);
        }
        let c = cs[i];
        if is_space(c) {
            lex_from(cs, i + 1)
        } else if c == '#' {
            lex_from(cs, comment_end(cs, i + 1))
        } else if is_word_start(c) {
            let e = word_end(cs, i + 1);
            prepend(Tok::Word(cs.subrange(i, e)), lex_from(cs, e))
        } else if is_digit(c) {
            let e = digits_end(cs, i);
            let v = digits_value(cs.subrange(i, e));
            if v <= i64::MAX {
                prepend(Tok::Int(v as i64), lex_from(cs, e))
            } else {
                None
            }
        } else if c == '"' {
            match str_body(cs, i + 1, i + 1) {
                Some((t, e)) => prepend(Tok::Text(t), lex_from(cs, e)),
                None => None,
            }
        } else {
            match punct_spec(cs, i) {
                Some((p, n)) => if n >= 1 && i + n <= cs.len() { prepend(Tok::Punct(p), lex_from(cs, i + n)) } else { None },
                None => None,
            }
        }
    }
}

pub const PARSE_ERROR: &'static str = "Parse error: ";

/// An error message of the parse-error category.
pub open spec fn parse_error_text(m: Seq<char>) -> bool {
    PARSE_ERROR@.len() <= m.len() && m.subrange(0, PARSE_ERROR@.len() as int) == PARSE_ERROR@
}

pub proof fn lemma_parse_error_extend(a: Seq<char>, b: Seq<char>)
    requires
        parse_error_text(a),
    ensures
        parse_error_text(a + b),
{
    assert((a + b).subrange(0, PARSE_ERROR@.len() as int) =~= a.subrange(0, PARSE_ERROR@.len() as int));
}

/// `PARSE_ERROR` followed by `what`.
pub fn parse_error(what: &str) -> (r: String)
    ensures
        r@ == PARSE_ERROR@ + what@,
        parse_error_text(r@),
{
    let r = concat(PARSE_ERROR, what);
    assert(r@.subrange(0, PARSE_ERROR@.len() as int) =~= PARSE_ERROR@);
    r
}

pub open spec fn is_digit(c: char) -> bool {
    '0' <= c && c <= '9'
}

pub open spec fn is_word_start(c: char) -> bool {
    ('a' <= c && c <= 'z') || ('A' <= c && c <= 'Z') || c == '_'
}

pub open spec fn is_word_char(c: char) -> bool {
    is_word_start(c) || is_digit(c)
}

pub open spec fn digit_value(c: char) -> int {
    c as int - '0' as int
}

/// The number that a run of decimal digits denotes.
pub open spec fn digits_value(s: Seq<char>) -> int
    decreases s.len(),
{
    if s.len() == 0 {
        0
    } else {
        digits_value(s.drop_last()) * 10 + digit_value(s.last())
    }
}

pub proof fn lemma_digits_run(cs: Seq<char>, i: int)
    requires
        0 <= i <= cs.len(),
    ensures
        forall|j: int| i <= j < digits_end(cs, i) ==> is_digit(#[trigger] cs[j]),
    decreases cs.len() - i,
{
    if i < cs.len() && is_digit(cs[i]) {
        lemma_digits_run(cs, i + 1);
    }
}

/// A run of digits denotes at least what any of its prefixes denotes.
pub proof fn lemma_digits_prefix(s: Seq<char>, k: int)
    requires
        0 <= k <= s.len(),
        forall|j: int| 0 <= j < s.len() ==> is_digit(#[trigger] s[j]),
    ensures
        0 <= digits_value(s.subrange(0, k)) <= digits_value(s),
    decreases s.len(),
{
    if k == s.len() {
        assert(s.subrange(0, k) =~= s);
        lemma_digits_nonneg(s);
    } else {
        let t = s.drop_last();
        lemma_digits_prefix(t, k);
        assert(t.subrange(0, k) =~= s.subrange(0, k));
        lemma_digits_nonneg(t);
    }
}

pub proof fn lemma_digits_nonneg(s: Seq<char>)
    requires
        forall|j: int| 0 <= j < s.len() ==> is_digit(#[trigger] s[j]),
    ensures
        digits_value(s) >= 0,
    decreases s.len(),
{
    if s.len() > 0 {
        let t = s.drop_last();
        assert forall|j: int| 0 <= j < t.len() implies is_digit(#[trigger] t[j]) by {
            assert(t[j] == s[j]);
        };
        lemma_digits_nonneg(t);
    }
}

/// The characters of `s`.
pub fn chars_of(s: &str) -> (r: Vec<char>)
    ensures
        r@ == s@,
{
    let n = s.unicode_len();
    let mut r: Vec<char> = Vec::new();
    let mut i: usize = 0;
    while i < n
        invariant
            n == s@.len(),
            i <= n,
            r@ == s@.subrange(0, i as int),
        decreases n - i,
    {
        r.push(s.get_char(i));
        i = i + 1;
        assert(r@ =~= s@.subrange(0, i as int));
    }
    assert(s@.subrange(0, n as int) =~= s@);
    r
}

fn char_is_digit(c: char) -> (r: bool)
    ensures
        r == is_digit(c),
{
    '0' <= c && c <= '9'
}

fn char_is_word_start(c: char) -> (r: bool)
    ensures
        r == is_word_start(c),
{
    ('a' <= c && c <= 'z') || ('A' <= c && c <= 'Z') || c == '_'
}

fn char_is_word(c: char) -> (r: bool)
    ensures
        r == is_word_char(c),
{
    char_is_word_start(c) || char_is_digit(c)
}

/// The end of the identifier that starts at `start`.
pub fn scan_word(cs: &Vec<char>, start: usize) -> (end: usize)
    requires
        start < cs.len(),
        is_word_start(cs@[start as int]),
    ensures
        start < end <= cs.len(),
        forall|i: int| start <= i < end ==> is_word_char(#[trigger] cs@[i]),
        end == cs.len() || !is_word_char(cs@[end as int]),
        end as int == word_end(cs@, start + 1),
{
    let mut end = start + 1;
    while end < cs.len() && char_is_word(cs[end])
        invariant
            start < end <= cs.len(),
            word_end(cs@, start + 1) == word_end(cs@, end as int),
            forall|i: int| start <= i < end ==> is_word_char(#[trigger] cs@[i]),
        decreases cs.len() - end,
    {
        end = end + 1;
    }
    end
}

/// The value and end of the run of digits that starts at `start`; an error
/// when the value does not fit in an `i64`.
pub fn scan_number(cs: &Vec<char>, start: usize) -> (r: Result<(i64, usize), String>)
    requires
        start < cs.len(),
        is_digit(cs@[start as int]),
    ensures
        ({
            let e = digits_end(cs@, start as int);
            match r {
                Ok((v, end)) => end as int == e && start < end <= cs.len()
                    && v as int == digits_value(cs@.subrange(start as int, e)),
                Err(m) => digits_value(cs@.subrange(start as int, e)) > i64::MAX && parse_error_text(m@),
            }
        }),
{
    let ghost e = digits_end(cs@, start as int);
    proof {
        lemma_ends(cs@, start as int);
        lemma_digits_run(cs@, start as int);
    }
    let mut end = start;
    let mut v: i64 = 0;
    while end < cs.len() && char_is_digit(cs[end])
        invariant
            start <= end <= cs.len(),
            e == digits_end(cs@, start as int),
            digits_end(cs@, start as int) == digits_end(cs@, end as int),
            forall|i: int| start <= i < end ==> is_digit(#[trigger] cs@[i]),
            forall|j: int| start <= j < e ==> is_digit(#[trigger] cs@[j]),
            end <= e <= cs.len(),
            v as int == digits_value(cs@.subrange(start as int, end as int)),
            v >= 0,
        decreases cs.len() - end,
    {
        proof { lemma_ends(cs@, end + 1); }
        assert(digits_end(cs@, end as int) == digits_end(cs@, end + 1));
        let d = (cs[end] as u32 - '0' as u32) as i64;
        let ghost before = cs@.subrange(start as int, end as int);
        let ghost next = cs@.subrange(start as int, end + 1);
        assert(next.drop_last() =~= before);
        let ghost full = cs@.subrange(start as int, e);
        let overflow = match v.checked_mul(10) {
            Some(t) => match t.checked_add(d) {
                Some(nv) => {
                    v = nv;
                    false
                },
                None => true,
            },
            None => true,
        };
        if overflow {
            proof {
                assert(full.subrange(0, end + 1 - start) =~= next);
                assert forall|j: int| 0 <= j < full.len() implies is_digit(#[trigger] full[j]) by {
                    assert(full[j] == cs@[start + j]);
                };
                lemma_digits_prefix(full, end + 1 - start);
            }
            return Err(parse_error("number too large"));
        }
        end = end + 1;
    }
    Ok((v, end))
}

fn error_at(what: &str, at: usize) -> (r: String)
    ensures
        parse_error_text(r@),
{
    let a = parse_error(what);
    let b = concat(a.as_str(), " at character ");
    let n = nat_to_text(at as u64);
    proof {
        lemma_parse_error_extend(a@, " at character "@);
        lemma_parse_error_extend(b@, n@);
    }
    concat(b.as_str(), n.as_str())
}

/// The content of the string literal whose opening quote is at `start`, and
/// the position after its closing quote.
fn scan_string(src: &str, cs: &Vec<char>, start: usize) -> (r: Result<(String, usize), String>)
    requires
        cs@ == src@,
        start < cs.len(),
        cs@[start as int] == '"',
    ensures
        match r {
            Ok((t, end)) => str_body(cs@, start + 1, start + 1) == Some((t@, end as int)) && start < end <= cs.len(),
            Err(m) => str_body(cs@, start + 1, start + 1) is None && parse_error_text(m@),
        },
{
    let mut out = String::new();
    let mut piece = start + 1;
    let mut i = start + 1;
    while i < cs.len()
        invariant
            cs@ == src@,
            start < piece <= i <= cs.len(),
            str_body(cs@, start + 1, start + 1) == match str_body(cs@, piece as int, i as int) {
                Some((rest, e)) => Some((out@ + rest, e)),
                None => None,
            },
        decreases cs.len() - i,
    {
        let c = cs[i];
        if c == '"' {
            let part = src.substring_char(piece, i);
            out = concat(out.as_str(), part);
            proof { lemma_str_body_end(cs@, piece as int, i as int); }
            return Ok((out, i + 1));
        }
        if c == '\\' && i + 1 < cs.len() && cs[i + 1] == '"' {
            let part = src.substring_char(piece, i);
            let a = concat(out.as_str(), part);
            let ghost before = out@;
            out = concat(a.as_str(), "\"");
            proof { reveal_strlit("\""); }
            assert("\""@ =~= seq!['"']);
            assert(out@ =~= before + cs@.subrange(piece as int, i as int) + seq!['"']);
            proof {
                if let Some((rest, e)) = str_body(cs@, i + 2, i + 2) {
                    assert(before + (cs@.subrange(piece as int, i as int) + seq!['"'] + rest) =~= out@ + rest);
                }
            }
            i = i + 2;
            piece = i;
        } else {
            i = i + 1;
        }
    }
    Err(error_at("unterminated string", start))
}

fn punct_at(cs: &Vec<char>, i: usize) -> (r: Option<(Punct, usize)>)
    requires
        i < cs.len(),
    ensures
        match r {
            Some((p, n)) => 1 <= n <= 2 && i + n <= cs.len() && punct_spec(cs@, i as int) == Some((p, n as int)),
            None => punct_spec(cs@, i as int) is None,
        },
{
    let c = cs[i];
    let next_eq = i + 1 < cs.len() && cs[i + 1] == '=';
    if c == '{' { Some((Punct::LBrace, 1)) }
    else if c == '}' { Some((Punct::RBrace, 1)) }
    else if c == '(' { Some((Punct::LParen, 1)) }
    else if c == ')' { Some((Punct::RParen, 1)) }
    else if c == '[' { Some((Punct::LBracket, 1)) }
    else if c == ']' { Some((Punct::RBracket, 1)) }
    else if c == ',' { Some((Punct::Comma, 1)) }
    else if c == ';' { Some((Punct::Semi, 1)) }
    else if c == '.' { Some((Punct::Dot, 1)) }
    else if c == '+' { Some((Punct::Plus, 1)) }
    else if c == '-' { Some((Punct::Minus, 1)) }
    else if c == '*' { Some((Punct::Star, 1)) }
    else if c == '/' { Some((Punct::Slash, 1)) }
    else if c == '=' { if next_eq { Some((Punct::EqEq, 2)) } else { Some((Punct::Assign, 1)) } }
    else if c == '!' { if next_eq { Some((Punct::NotEq, 2)) } else { Some((Punct::Bang, 1)) } }
    else if c == '<' { if next_eq { Some((Punct::Le, 2)) } else { Some((Punct::Lt, 1)) } }
    else if c == '>' { if next_eq { Some((Punct::Ge, 2)) } else { Some((Punct::Gt, 1)) } }
    else { None }
}

/// `lex_from` of the whole input, given the tokens read so far and
/// `lex_from` of the rest.
pub open spec fn lexed_so_far(done: Seq<Tok>, rest: Option<Seq<Tok>>) -> Option<Seq<Tok>> {
    match rest {
        Some(r) => Some(done + r),
        None => None,
    }
}

pub proof fn lemma_push_token(before: Seq<Token>, after: Seq<Token>, t: Token, rest: Option<Seq<Tok>>)
    requires
        after == before.push(t),
    ensures
        lexed_so_far(toks_model(before), prepend(tok_model(t), rest)) == lexed_so_far(toks_model(after), rest),
{
    assert(toks_model(after) =~= toks_model(before).push(tok_model(t)));
    if let Some(r) = rest {
        assert(toks_model(before) + (seq![tok_model(t)] + r) =~= toks_model(after) + r);
    }
}

/// The tokens of `src`; whitespace and `#` comments separate them.
pub fn tokenize(src: &str) -> (r: Result<Vec<Token>, String>)
    ensures
        match r {
            Ok(toks) => lex_from(src@, 0) == Some(toks_model(toks@)) && toks@.len() <= src@.len(),
            Err(m) => lex_from(src@, 0) is None && parse_error_text(m@),
        },
{
    let cs = chars_of(src);
    let mut toks: Vec<Token> = Vec::new();
    let mut i: usize = 0;
    assert(toks_model(toks@) =~= Seq::<Tok>::empty());
    assert(lexed_so_far(Seq::empty(), lex_from(cs@, 0)) == lex_from(cs@, 0)) by {
        if let Some(r) = lex_from(cs@, 0) {
            assert(Seq::<Tok>::empty() + r =~= r);
        }
    };
    while i < cs.len()
        invariant
            cs@ == src@,
            i <= cs.len(),
            toks@.len() <= i,
            lex_from(cs@, 0) == lexed_so_far(toks_model(toks@), lex_from(cs@, i as int)),
        decreases cs.len() - i,
    {
        let c = cs[i];
        let ghost before = toks@;
        proof {
            lemma_ends(cs@, i + 1);
            lemma_ends(cs@, i as int);
        }
        if c == ' ' || c == '\t' || c == '\n' || c == '\r' {
            i = i + 1;
        } else if c == '#' {
            let comment_start = i;
            i = i + 1;
            while i < cs.len() && cs[i] != '\n'
                invariant
                    comment_start < i <= cs.len(),
                    toks@.len() <= i,
                    comment_end(cs@, comment_start + 1) == comment_end(cs@, i as int),
                decreases cs.len() - i,
            {
                i = i + 1;
            }
        } else if char_is_word_start(c) {
            let end = scan_word(&cs, i);
            let w = src.substring_char(i, end).to_owned();
            let t = Token::Word(w);
            let ghost tg = t;
            toks.push(t);
            proof { lemma_push_token(before, toks@, tg, lex_from(cs@, end as int)); }
            i = end;
        } else if char_is_digit(c) {
            match scan_number(&cs, i) {
                Ok((v, end)) => {
                    let t = Token::Int(v);
                    let ghost tg = t;
                    toks.push(t);
                    proof { lemma_push_token(before, toks@, tg, lex_from(cs@, end as int)); }
                    i = end;
                },
                Err(e) => return Err(e),
            }
        } else if c == '"' {
            match scan_string(src, &cs, i) {
                Ok((st, end)) => {
                    let t = Token::Text(st);
                    let ghost tg = t;
                    toks.push(t);
                    proof { lemma_push_token(before, toks@, tg, lex_from(cs@, end as int)); }
                    i = end;
                },
                Err(e) => return Err(e),
            }
        } else {
            match punct_at(&cs, i) {
                Some((p, n)) => {
                    let t = Token::Punct(p);
                    let ghost tg = t;
                    toks.push(t);
                    proof { lemma_push_token(before, toks@, tg, lex_from(cs@, i + n)); }
                    i = i + n;
                },
                None => return Err(error_at("unexpected character", i)),
            }
        }
    }
    assert(toks_model(toks@) + Seq::<Tok>::empty() =~= toks_model(toks@));
    Ok(toks)
}

} // verus!
