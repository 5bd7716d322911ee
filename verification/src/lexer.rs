//! The SQL tokenizer.
//!
//! Positions are character offsets into the query text. Keywords are matched
//! without regard to ASCII case; identifiers are `[A-Za-z_][A-Za-z0-9_]*`;
//! integers are decimal `u64`; strings are single-quoted, with `''` standing
//! for one quote.

use vstd::prelude::*;
use crate::text::{
    chars_of, is_space, is_whitespace, push_char, string_of_range, to_ascii_upper, upper,
};

verus! {

#[derive(Debug, Clone, PartialEq, Eq)]
pub enum TokenKind {
    Select,
    From,
    Join,
    On,
    Where,
    Order,
    By,
    Limit,
    Asc,
    Desc,
    And,
    Or,
    Not,
    In,
    Like,
    Comma,
    Dot,
    LParen,
    RParen,
    Star,
    Eq,
    NotEq,
    Gt,
    Lt,
    Gte,
    Lte,
    Identifier(String),
    Integer(u64),
    String(String),
}

#[derive(Debug, Clone, PartialEq, Eq)]
pub struct Token {
    pub kind: TokenKind,
    pub start: usize,
}

/// A token kind, with texts as character sequences.
pub enum KindV {
    Select,
    From,
    Join,
    On,
    Where,
    Order,
    By,
    Limit,
    Asc,
    Desc,
    And,
    Or,
    Not,
    In,
    Like,
    Comma,
    Dot,
    LParen,
    RParen,
    Star,
    Eq,
    NotEq,
    Gt,
    Lt,
    Gte,
    Lte,
    Identifier(Seq<char>),
    Integer(u64),
    Text(Seq<char>),
}

pub struct TokenV {
    pub kind: KindV,
    pub start: int,
}

impl TokenKind {
    pub open spec fn view(&self) -> KindV {
        match self {
            TokenKind::Select => KindV::Select,
            TokenKind::From => KindV::From,
            TokenKind::Join => KindV::Join,
            TokenKind::On => KindV::On,
            TokenKind::Where => KindV::Where,
            TokenKind::Order => KindV::Order,
            TokenKind::By => KindV::By,
            TokenKind::Limit => KindV::Limit,
            TokenKind::Asc => KindV::Asc,
            TokenKind::Desc => KindV::Desc,
            TokenKind::And => KindV::And,
            TokenKind::Or => KindV::Or,
            TokenKind::Not => KindV::Not,
            TokenKind::In => KindV::In,
            TokenKind::Like => KindV::Like,
            TokenKind::Comma => KindV::Comma,
            TokenKind::Dot => KindV::Dot,
            TokenKind::LParen => KindV::LParen,
            TokenKind::RParen => KindV::RParen,
            TokenKind::Star => KindV::Star,
            TokenKind::Eq => KindV::Eq,
            TokenKind::NotEq => KindV::NotEq,
            TokenKind::Gt => KindV::Gt,
            TokenKind::Lt => KindV::Lt,
            TokenKind::Gte => KindV::Gte,
            TokenKind::Lte => KindV::Lte,
            TokenKind::Identifier(s) => KindV::Identifier(s@),
            TokenKind::Integer(v) => KindV::Integer(*v),
            TokenKind::String(s) => KindV::Text(s@),
        }
    }
}

impl Token {
    pub open spec fn view(&self) -> TokenV {
        TokenV { kind: self.kind.view(), start: self.start as int }
    }
}

pub open spec fn token_views(t: Seq<Token>) -> Seq<TokenV> {
    t.map_values(|x: Token| x.view())
}

pub open spec fn is_ident_start(c: char) -> bool {
    ('a' <= c && c <= 'z') || ('A' <= c && c <= 'Z') || c == '_'
}

pub open spec fn is_digit(c: char) -> bool {
    '0' <= c && c <= '9'
}

pub open spec fn is_ident_continue(c: char) -> bool {
    is_ident_start(c) || is_digit(c)
}

/// The end of the run of identifier characters that starts at `i`.
pub open spec fn ident_end(s: Seq<char>, i: int) -> int
    decreases s.len() - i,
{
    if 0 <= i < s.len() && is_ident_continue(s[i]) {
        ident_end(s, i + 1)
    } else {
        i
    }
}

/// The end of the run of decimal digits that starts at `i`.
pub open spec fn digits_end(s: Seq<char>, i: int) -> int
    decreases s.len() - i,
{
    if 0 <= i < s.len() && is_digit(s[i]) {
        digits_end(s, i + 1)
    } else {
        i
    }
}

pub open spec fn digit_value(c: char) -> nat {
    (c as nat - '0' as nat) as nat
}

/// The number that the decimal digits `d` denote.
pub open spec fn digits_value(d: Seq<char>) -> nat
    decreases d.len(),
{
    if d.len() == 0 {
        0
    } else {
        digits_value(d.drop_last()) * 10 + digit_value(d.last())
    }
}

/// The keyword that `w` spells, in any ASCII case.
pub open spec fn keyword(w: Seq<char>) -> Option<KindV> {
    let u = upper(w);
    if u == "SELECT"@ {
        Some(KindV::Select)
    } else if u == "FROM"@ {
        Some(KindV::From)
    } else if u == "JOIN"@ {
        Some(KindV::Join)
    } else if u == "ON"@ {
        Some(KindV::On)
    } else if u == "WHERE"@ {
        Some(KindV::Where)
    } else if u == "ORDER"@ {
        Some(KindV::Order)
    } else if u == "BY"@ {
        Some(KindV::By)
    } else if u == "LIMIT"@ {
        Some(KindV::Limit)
    } else if u == "ASC"@ {
        Some(KindV::Asc)
    } else if u == "DESC"@ {
        Some(KindV::Desc)
    } else if u == "AND"@ {
        Some(KindV::And)
    } else if u == "OR"@ {
        Some(KindV::Or)
    } else if u == "NOT"@ {
        Some(KindV::Not)
    } else if u == "IN"@ {
        Some(KindV::In)
    } else if u == "LIKE"@ {
        Some(KindV::Like)
    } else {
        None
    }
}

/// The token that the word `w` forms: a keyword, or else an identifier.
pub open spec fn word_kind(w: Seq<char>) -> KindV {
    match keyword(w) {
        Some(k) => k,
        None => KindV::Identifier(w),
    }
}

/// The body of a quoted string whose text starts at `i` (just past the opening
/// quote): its value, and the index just past the closing quote.
pub open spec fn string_end(s: Seq<char>, i: int) -> Option<(Seq<char>, int)>
    decreases s.len() - i,
{
    if !(0 <= i < s.len()) {
        None
    } else if s[i] == '\'' {
        if i + 1 < s.len() && s[i + 1] == '\'' {
            match string_end(s, i + 2) {
                Some((c, e)) => Some((seq!['\''] + c, e)),
                None => None,
            }
        } else {
            Some((Seq::empty(), i + 1))
        }
    } else {
        match string_end(s, i + 1) {
            Some((c, e)) => Some((seq![s[i]] + c, e)),
            None => None,
        }
    }
}

/// One step of the tokenizer at index `i`.
pub enum Step {
    Skip(int),
    Emit(KindV, int),
    Fail,
}

pub open spec fn next_is(s: Seq<char>, i: int, c: char) -> bool {
    i + 1 < s.len() && s[i + 1] == c
}

pub open spec fn step(s: Seq<char>, i: int) -> Step {
    let c = s[i];
    if is_space(c) {
        Step::Skip(i + 1)
    } else if is_ident_start(c) {
        let j = ident_end(s, i + 1);
        Step::Emit(word_kind(s.subrange(i, j)), j)
    } else if is_digit(c) {
        let j = digits_end(s, i + 1);
        let v = digits_value(s.subrange(i, j));
        if v <= u64::MAX {
            Step::Emit(KindV::Integer(v as u64), j)
        } else {
            Step::Fail
        }
    } else if c == '\'' {
        match string_end(s, i + 1) {
            Some((body, j)) => Step::Emit(KindV::Text(body), j),
            None => Step::Fail,
        }
    } else if c == ',' {
        Step::Emit(KindV::Comma, i + 1)
    } else if c == '.' {
        Step::Emit(KindV::Dot, i + 1)
    } else if c == '(' {
        Step::Emit(KindV::LParen, i + 1)
    } else if c == ')' {
        Step::Emit(KindV::RParen, i + 1)
    } else if c == '*' {
        Step::Emit(KindV::Star, i + 1)
    } else if c == '=' {
        Step::Emit(KindV::Eq, i + 1)
    } else if c == '!' {
        if next_is(s, i, '=') {
            Step::Emit(KindV::NotEq, i + 2)
        } else {
            Step::Fail
        }
    } else if c == '<' {
        if next_is(s, i, '=') {
            Step::Emit(KindV::Lte, i + 2)
        } else if next_is(s, i, '>') {
            Step::Emit(KindV::NotEq, i + 2)
        } else {
            Step::Emit(KindV::Lt, i + 1)
        }
    } else if c == '>' {
        if next_is(s, i, '=') {
            Step::Emit(KindV::Gte, i + 2)
        } else {
            Step::Emit(KindV::Gt, i + 1)
        }
    } else {
        Step::Fail
    }
}

/// The tokens of `s[i..]`, or the position of the first character that starts
/// no token.
pub open spec fn lex_from(s: Seq<char>, i: int) -> Result<Seq<TokenV>, int>
    decreases s.len() - i,
{
    if !(0 <= i < s.len()) {
        Ok(Seq::empty())
    } else {
        match step(s, i) {
            Step::Skip(j) => if i < j <= s.len() {
                lex_from(s, j)
            } else {
                Err(i)
            },
            Step::Emit(k, j) => if i < j <= s.len() {
                match lex_from(s, j) {
                    Ok(rest) => Ok(seq![TokenV { kind: k, start: i }] + rest),
                    Err(p) => Err(p),
                }
            } else {
                Err(i)
            },
            Step::Fail => Err(i),
        }
    }
}

/// The tokens of a whole query text.
pub open spec fn lex_spec(s: Seq<char>) -> Result<Seq<TokenV>, int> {
    lex_from(s, 0)
}

pub proof fn lemma_ident_end(s: Seq<char>, i: int)
    requires
        0 <= i <= s.len(),
    ensures
        i <= ident_end(s, i) <= s.len(),
    decreases s.len() - i,
{
    if i < s.len() && is_ident_continue(s[i]) {
        lemma_ident_end(s, i + 1);
    }
}

pub proof fn lemma_digits_end(s: Seq<char>, i: int)
    requires
        0 <= i <= s.len(),
    ensures
        i <= digits_end(s, i) <= s.len(),
        forall|k: int| i <= k < digits_end(s, i) ==> is_digit(#[trigger] s[k]),
    decreases s.len() - i,
{
    if i < s.len() && is_digit(s[i]) {
        lemma_digits_end(s, i + 1);
    }
}

pub proof fn lemma_string_end(s: Seq<char>, i: int)
    requires
        0 <= i,
    ensures
        string_end(s, i) matches Some((_, e)) ==> i < e <= s.len(),
    decreases s.len() - i,
{
    if 0 <= i < s.len() {
        if s[i] == '\'' {
            if i + 1 < s.len() && s[i + 1] == '\'' {
                lemma_string_end(s, i + 2);
            }
        } else {
            lemma_string_end(s, i + 1);
        }
    }
}

/// A step never stands still and never runs past the end.
pub proof fn lemma_step(s: Seq<char>, i: int)
    requires
        0 <= i < s.len(),
    ensures
        step(s, i) matches Step::Skip(j) ==> i < j <= s.len(),
        step(s, i) matches Step::Emit(_, j) ==> i < j <= s.len(),
{
    lemma_ident_end(s, i + 1);
    lemma_digits_end(s, i + 1);
    lemma_string_end(s, i + 1);
}

/// A longer run of digits denotes a number at least as large.
pub proof fn lemma_digits_value_grows(d: Seq<char>, k: int)
    requires
        0 <= k <= d.len(),
    ensures
        digits_value(d.subrange(0, k)) <= digits_value(d),
    decreases d.len() - k,
{
    if k < d.len() {
        lemma_digits_value_grows(d, k + 1);
        assert(d.subrange(0, k + 1).drop_last() =~= d.subrange(0, k));
    } else {
        assert(d.subrange(0, k) =~= d);
    }
}

fn is_ident_start_exec(c: char) -> (r: bool)
    ensures
        r == is_ident_start(c),
{
    ('a' <= c && c <= 'z') || ('A' <= c && c <= 'Z') || c == '_'
}

fn is_digit_exec(c: char) -> (r: bool)
    ensures
        r == is_digit(c),
{
    '0' <= c && c <= '9'
}

fn scan_ident_end(v: &Vec<char>, i: usize) -> (r: usize)
    requires
        i <= v.len(),
    ensures
        r == ident_end(v@, i as int),
{
    let mut j = i;
    while j < v.len() && (is_ident_start_exec(v[j]) || is_digit_exec(v[j]))
        invariant
            i <= j <= v.len(),
            ident_end(v@, j as int) == ident_end(v@, i as int),
        decreases v.len() - j,
    {
        j = j + 1;
    }
    j
}

fn scan_digits_end(v: &Vec<char>, i: usize) -> (r: usize)
    requires
        i <= v.len(),
    ensures
        r == digits_end(v@, i as int),
{
    let mut j = i;
    while j < v.len() && is_digit_exec(v[j])
        invariant
            i <= j <= v.len(),
            digits_end(v@, j as int) == digits_end(v@, i as int),
        decreases v.len() - j,
    {
        j = j + 1;
    }
    j
}

/// The value of the digits `v[i..j]`, or `None` where it exceeds `u64::MAX`.
fn digits_to_u64(v: &Vec<char>, i: usize, j: usize) -> (r: Option<u64>)
    requires
        i <= j <= v.len(),
        forall|k: int| i <= k < j ==> is_digit(#[trigger] v@[k]),
    ensures
        r matches Some(n) ==> n == digits_value(v@.subrange(i as int, j as int)),
        r is None ==> digits_value(v@.subrange(i as int, j as int)) > u64::MAX,
{
    let ghost d = v@.subrange(i as int, j as int);
    let mut value: u64 = 0;
    let mut k = i;
    while k < j
        invariant
            i <= k <= j <= v.len(),
            d == v@.subrange(i as int, j as int),
            forall|m: int| i <= m < j ==> is_digit(#[trigger] v@[m]),
            value == digits_value(v@.subrange(i as int, k as int)),
        decreases j - k,
    {
        let c = v[k];
        let digit = (c as u32 - '0' as u32) as u64;
        assert(v@.subrange(i as int, k + 1).drop_last() =~= v@.subrange(i as int, k as int));
        assert(digit == digit_value(c));
        if value > (u64::MAX - digit) / 10 {
            proof {
                assert(digits_value(v@.subrange(i as int, k + 1)) > u64::MAX);
                assert(d.subrange(0, k + 1 - i) =~= v@.subrange(i as int, k + 1));
                lemma_digits_value_grows(d, k + 1 - i);
            }
            return None;
        }
        value = value * 10 + digit;
        k = k + 1;
    }
    Some(value)
}

/// Scans the body of a quoted string from `i` (just past the opening quote).
fn scan_string(v: &Vec<char>, i: usize) -> (r: Option<(String, usize)>)
    requires
        i <= v.len(),
    ensures
        match r {
            Some((body, e)) => string_end(v@, i as int) == Some((body@, e as int)),
            None => string_end(v@, i as int) is None,
        },
{
    let mut body = String::new();
    let mut k = i;
    while k < v.len()
        invariant
            i <= k <= v.len(),
            string_end(v@, i as int) == match string_end(v@, k as int) {
                Some((c, e)) => Some((body@ + c, e)),
                None => None,
            },
        decreases v.len() - k,
    {
        if v[k] == '\'' {
            if k + 1 < v.len() && v[k + 1] == '\'' {
                let ghost before = body@;
                push_char(&mut body, '\'');
                proof {
                    match string_end(v@, k + 2) {
                        Some((c, e)) => {
                            assert(before + (seq!['\''] + c) =~= body@ + c);
                        },
                        None => {},
                    }
                }
                k = k + 2;
            } else {
                assert(body@ + Seq::<char>::empty() =~= body@);
                return Some((body, k + 1));
            }
        } else {
            let ghost before = body@;
            let c = v[k];
            push_char(&mut body, c);
            proof {
                match string_end(v@, k + 1) {
                    Some((rest, e)) => {
                        assert(before + (seq![c] + rest) =~= body@ + rest);
                    },
                    None => {},
                }
            }
            k = k + 1;
        }
    }
    None
}

/// Whether `v[i..j]`, in ASCII upper case, is `kw`.
fn word_is(v: &Vec<char>, i: usize, j: usize, kw: &str) -> (r: bool)
    requires
        i <= j <= v.len(),
    ensures
        r == (upper(v@.subrange(i as int, j as int)) == kw@),
{
    let k = chars_of(kw);
    let ghost w = v@.subrange(i as int, j as int);
    if j - i != k.len() {
        assert(upper(w).len() == w.len());
        return false;
    }
    let mut m: usize = 0;
    while m < k.len()
        invariant
            i <= j <= v.len(),
            j - i == k.len(),
            k@ == kw@,
            w == v@.subrange(i as int, j as int),
            m <= k.len(),
            forall|x: int| 0 <= x < m ==> upper(w)[x] == k@[x],
        decreases k.len() - m,
    {
        let c = to_ascii_upper(v[i + m]);
        if c != k[m] {
            assert(upper(w)[m as int] != k@[m as int]);
            return false;
        }
        m = m + 1;
    }
    assert(upper(w) =~= k@);
    true
}

fn word_token(v: &Vec<char>, i: usize, j: usize) -> (r: TokenKind)
    requires
        i <= j <= v.len(),
    ensures
        r.view() == word_kind(v@.subrange(i as int, j as int)),
{
    if word_is(v, i, j, "SELECT") {
        TokenKind::Select
    } else if word_is(v, i, j, "FROM") {
        TokenKind::From
    } else if word_is(v, i, j, "JOIN") {
        TokenKind::Join
    } else if word_is(v, i, j, "ON") {
        TokenKind::On
    } else if word_is(v, i, j, "WHERE") {
        TokenKind::Where
    } else if word_is(v, i, j, "ORDER") {
        TokenKind::Order
    } else if word_is(v, i, j, "BY") {
        TokenKind::By
    } else if word_is(v, i, j, "LIMIT") {
        TokenKind::Limit
    } else if word_is(v, i, j, "ASC") {
        TokenKind::Asc
    } else if word_is(v, i, j, "DESC") {
        TokenKind::Desc
    } else if word_is(v, i, j, "AND") {
        TokenKind::And
    } else if word_is(v, i, j, "OR") {
        TokenKind::Or
    } else if word_is(v, i, j, "NOT") {
        TokenKind::Not
    } else if word_is(v, i, j, "IN") {
        TokenKind::In
    } else if word_is(v, i, j, "LIKE") {
        TokenKind::Like
    } else {
        TokenKind::Identifier(string_of_range(v, i, j))
    }
}

/// One step of the tokenizer at `i`: `Ok(None)` skips one character,
/// `Ok(Some((kind, next)))` emits a token, `Err(())` fails.
fn lex_step(v: &Vec<char>, i: usize) -> (r: Result<Option<(TokenKind, usize)>, ()>)
    requires
        i < v.len(),
    ensures
        match r {
            Ok(None) => step(v@, i as int) == Step::Skip(i + 1),
            Ok(Some((k, j))) => step(v@, i as int) == Step::Emit(k.view(), j as int),
            Err(()) => step(v@, i as int) == Step::Fail,
        },
{
    let c = v[i];
    let ghost s = v@;
    let n = v.len();
    if is_whitespace(c) {
        Ok(None)
    } else if is_ident_start_exec(c) {
        let j = scan_ident_end(v, i + 1);
        proof {
            lemma_ident_end(s, i + 1);
        }
        Ok(Some((word_token(v, i, j), j)))
    } else if is_digit_exec(c) {
        let j = scan_digits_end(v, i + 1);
        proof {
            lemma_digits_end(s, i + 1);
        }
        match digits_to_u64(v, i, j) {
            Some(value) => Ok(Some((TokenKind::Integer(value), j))),
            None => Err(()),
        }
    } else if c == '\'' {
        match scan_string(v, i + 1) {
            Some((body, j)) => Ok(Some((TokenKind::String(body), j))),
            None => Err(()),
        }
    } else if c == ',' {
        Ok(Some((TokenKind::Comma, i + 1)))
    } else if c == '.' {
        Ok(Some((TokenKind::Dot, i + 1)))
    } else if c == '(' {
        Ok(Some((TokenKind::LParen, i + 1)))
    } else if c == ')' {
        Ok(Some((TokenKind::RParen, i + 1)))
    } else if c == '*' {
        Ok(Some((TokenKind::Star, i + 1)))
    } else if c == '=' {
        Ok(Some((TokenKind::Eq, i + 1)))
    } else if c == '!' {
        if i + 1 < n && v[i + 1] == '=' {
            Ok(Some((TokenKind::NotEq, i + 2)))
        } else {
            Err(())
        }
    } else if c == '<' {
        if i + 1 < n && v[i + 1] == '=' {
            Ok(Some((TokenKind::Lte, i + 2)))
        } else if i + 1 < n && v[i + 1] == '>' {
            Ok(Some((TokenKind::NotEq, i + 2)))
        } else {
            Ok(Some((TokenKind::Lt, i + 1)))
        }
    } else if c == '>' {
        if i + 1 < n && v[i + 1] == '=' {
            Ok(Some((TokenKind::Gte, i + 2)))
        } else {
            Ok(Some((TokenKind::Gt, i + 1)))
        }
    } else {
        Err(())
    }
}

/// Splits a query text into tokens, or gives the character offset of the first
/// character that starts no token.
pub fn lex(input: &str) -> (r: Result<Vec<Token>, usize>)
    ensures
        match r {
            Ok(tokens) => lex_spec(input@) == Ok::<Seq<TokenV>, int>(token_views(tokens@)),
            Err(p) => lex_spec(input@) == Err::<Seq<TokenV>, int>(p as int),
        },
{
    let v = chars_of(input);
    let ghost s = input@;
    let mut tokens: Vec<Token> = Vec::new();
    let mut i: usize = 0;
    while i < v.len()
        invariant
            v@ == s,
            s == input@,
            i <= v.len(),
            lex_from(s, 0) == match lex_from(s, i as int) {
                Ok(rest) => Ok(token_views(tokens@) + rest),
                Err(p) => Err(p),
            },
        decreases v.len() - i,
    {
        proof {
            lemma_step(s, i as int);
        }
        match lex_step(&v, i) {
            Ok(None) => {
                i = i + 1;
            },
            Ok(Some((kind, j))) => {
                let ghost before = tokens@;
                let token = Token { kind, start: i };
                tokens.push(token);
                proof {
                    assert(token_views(tokens@) =~= token_views(before).push(token.view()));
                    match lex_from(s, j as int) {
                        Ok(rest) => {
                            assert(token_views(before) + (seq![token.view()] + rest)
                                =~= token_views(tokens@) + rest);
                        },
                        Err(_) => {},
                    }
                }
                i = j;
            },
            Err(()) => {
                assert(lex_from(s, i as int) == Err::<Seq<TokenV>, int>(i as int));
                return Err(i);
            },
        }
    }
    assert(token_views(tokens@) + Seq::<TokenV>::empty() =~= token_views(tokens@));
    Ok(tokens)
}

} // verus!
