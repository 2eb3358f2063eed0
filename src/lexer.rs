use vstd::prelude::*;
use crate::token::{Keyword, Lexeme, Op, Token};

verus! {

/// The characters with the Unicode `White_Space` property.
pub open spec fn white_space(c: char) -> bool {
    let u = c as u32;
    (0x9 <= u && u <= 0xd) || u == 0x20 || u == 0x85 || u == 0xa0 || u == 0x1680
        || (0x2000 <= u && u <= 0x200a) || u == 0x2028 || u == 0x2029 || u == 0x202f
        || u == 0x205f || u == 0x3000
}

/// Whether a character has the Unicode `Alphabetic` property.
pub uninterp spec fn alphabetic(c: char) -> bool;

/// Relies on `char::is_whitespace`: true exactly for the `White_Space` characters.
#[verifier::external_body]
fn is_space(c: char) -> (r: bool)
    ensures
        r == white_space(c),
{
    c.is_whitespace()
}

/// Relies on `char::is_alphabetic`: whether the character is `Alphabetic`.
#[verifier::external_body]
fn is_letter(c: char) -> (r: bool)
    ensures
        r == alphabetic(c),
{
    c.is_alphabetic()
}

/// The views of a sequence of strings.
pub open spec fn views(v: Seq<String>) -> Seq<Seq<char>> {
    v.map_values(|w: String| w@)
}

/// Splitting a prefix of a line: the words already closed, and the word in progress.
pub open spec fn split_state(s: Seq<char>) -> (Seq<Seq<char>>, Seq<char>)
    decreases s.len(),
{
    if s.len() == 0 {
        (seq![], seq![])
    } else {
        let (ws, cur) = split_state(s.drop_last());
        if white_space(s.last()) {
            if cur.len() > 0 {
                (ws.push(cur), seq![])
            } else {
                (ws, seq![])
            }
        } else {
            (ws, cur.push(s.last()))
        }
    }
}

/// The maximal runs of non-whitespace characters of a line, in order.
pub open spec fn words(s: Seq<char>) -> Seq<Seq<char>> {
    let (ws, cur) = split_state(s);
    if cur.len() > 0 {
        ws.push(cur)
    } else {
        ws
    }
}

/// Splits a line into its whitespace-separated words.
pub fn split_words(line: &str) -> (r: Vec<String>)
    ensures
        views(r@) == words(line@),
{
    let n = line.unicode_len();
    let mut out: Vec<String> = Vec::new();
    let mut start: usize = 0;
    let mut i: usize = 0;
    while i < n
        invariant
            n == line@.len(),
            start <= i <= n,
            split_state(line@.subrange(0, i as int)).0 == views(out@),
            split_state(line@.subrange(0, i as int)).1 == line@.subrange(start as int, i as int),
        decreases n - i,
    {
        let c = line.get_char(i);
        assert(line@.subrange(0, i + 1).drop_last() =~= line@.subrange(0, i as int));
        if is_space(c) {
            if start < i {
                let w = String::from_str(line.substring_char(start, i));
                let ghost before = out@;
                out.push(w);
                assert(views(out@) =~= views(before).push(line@.subrange(start as int, i as int)));
            }
            start = i + 1;
            assert(line@.subrange(start as int, i + 1) =~= Seq::<char>::empty());
        } else {
            assert(line@.subrange(start as int, i + 1) =~= line@.subrange(
                start as int,
                i as int,
            ).push(c));
        }
        i = i + 1;
    }
    assert(line@.subrange(0, n as int) =~= line@);
    if start < n {
        let w = String::from_str(line.substring_char(start, n));
        let ghost before = out@;
        out.push(w);
        assert(views(out@) =~= views(before).push(line@.subrange(start as int, n as int)));
    }
    out
}


/// Whether a character is an ASCII decimal digit.
pub open spec fn is_digit(c: char) -> bool {
    48 <= c as u32 && c as u32 <= 57
}

/// The value of a string of decimal digits.
pub open spec fn digits_value(ds: Seq<char>) -> int
    decreases ds.len(),
{
    if ds.len() == 0 {
        0
    } else {
        digits_value(ds.drop_last()) * 10 + (ds.last() as u32 - 48)
    }
}

/// An optional leading sign, split off: whether it was `-`, and the rest.
pub open spec fn split_sign(w: Seq<char>) -> (bool, Seq<char>) {
    if w.len() > 0 && w[0] == '-' {
        (true, w.drop_first())
    } else if w.len() > 0 && w[0] == '+' {
        (false, w.drop_first())
    } else {
        (false, w)
    }
}

/// A decimal `i32` literal: an optional sign, then one or more digits, within range.
pub open spec fn literal_value(w: Seq<char>) -> Option<i32> {
    let (neg, ds) = split_sign(w);
    if ds.len() > 0 && (forall|k: int| 0 <= k < ds.len() ==> is_digit(#[trigger] ds[k])) {
        let v = if neg {
            -digits_value(ds)
        } else {
            digits_value(ds)
        };
        if i32::MIN <= v <= i32::MAX {
            Some(v as i32)
        } else {
            None
        }
    } else {
        None
    }
}

proof fn lemma_digits_nonneg(ds: Seq<char>)
    requires
        forall|k: int| 0 <= k < ds.len() ==> is_digit(#[trigger] ds[k]),
    ensures
        digits_value(ds) >= 0,
    decreases ds.len(),
{
    if ds.len() > 0 {
        lemma_digits_nonneg(ds.drop_last());
    }
}

proof fn lemma_digits_prefix(ds: Seq<char>, k: int)
    requires
        0 <= k <= ds.len(),
        forall|j: int| 0 <= j < ds.len() ==> is_digit(#[trigger] ds[j]),
    ensures
        digits_value(ds.subrange(0, k)) <= digits_value(ds),
    decreases ds.len(),
{
    if k < ds.len() {
        let d = ds.drop_last();
        lemma_digits_nonneg(d);
        lemma_digits_prefix(d, k);
        assert(d.subrange(0, k) =~= ds.subrange(0, k));
    } else {
        assert(ds.subrange(0, k) =~= ds);
    }
}

/// Reads a decimal `i32` literal.
pub fn parse_int(w: &str) -> (r: Option<i32>)
    ensures
        r == literal_value(w@),
{
    let n = w.unicode_len();
    if n == 0 {
        return None;
    }
    let first = w.get_char(0);
    let neg = first == '-';
    let k0: usize = if first == '-' || first == '+' {
        1
    } else {
        0
    };
    let ghost ds = w@.subrange(k0 as int, n as int);
    assert(split_sign(w@).1 =~= ds);
    if k0 == n {
        return None;
    }
    let mut acc: u64 = 0;
    let mut k: usize = k0;
    while k < n
        invariant
            n == w@.len(),
            k0 <= k <= n,
            ds == w@.subrange(k0 as int, n as int),
            split_sign(w@).1 == ds,
            split_sign(w@).0 == neg,
            acc == digits_value(w@.subrange(k0 as int, k as int)),
            acc <= 0x8000_0000,
            forall|j: int| k0 <= j < k ==> is_digit(#[trigger] w@[j]),
        decreases n - k,
    {
        let c = w.get_char(k);
        if !(48 <= c as u32 && c as u32 <= 57) {
            assert(!is_digit(ds[k - k0]));
            return None;
        }
        let ghost prev = w@.subrange(k0 as int, k as int);
        assert(w@.subrange(k0 as int, k + 1).drop_last() =~= prev);
        let next = acc * 10 + (c as u32 - 48) as u64;
        if next > 0x8000_0000 {
            proof {
                if forall|j: int| 0 <= j < ds.len() ==> is_digit(#[trigger] ds[j]) {
                    lemma_digits_prefix(ds, k + 1 - k0);
                    assert(ds.subrange(0, k + 1 - k0) =~= w@.subrange(k0 as int, k + 1));
                    assert(digits_value(ds) > 0x8000_0000);
                }
            }
            return None;
        }
        acc = next;
        k = k + 1;
    }
    assert(forall|j: int| 0 <= j < ds.len() ==> is_digit(#[trigger] ds[j])) by {
        assert forall|j: int| 0 <= j < ds.len() implies is_digit(#[trigger] ds[j]) by {
            assert(ds[j] == w@[j + k0]);
        }
    }
    if neg {
        Some((0 - acc as i64) as i32)
    } else if acc <= 0x7fff_ffff {
        Some(acc as i32)
    } else {
        None
    }
}


/// The token that a word of the fixed symbol set stands for.
pub open spec fn fixed_symbol(w: Seq<char>) -> Option<Lexeme> {
    if w == seq!['l', 'e', 't'] {
        Some(Lexeme::Let)
    } else if w == seq!['+'] {
        Some(Lexeme::Op(Op::Add))
    } else if w == seq!['-'] {
        Some(Lexeme::Op(Op::Sub))
    } else if w == seq!['*'] {
        Some(Lexeme::Op(Op::Mul))
    } else if w == seq!['/'] {
        Some(Lexeme::Op(Op::Div))
    } else if w == seq!['='] {
        Some(Lexeme::Op(Op::Assign))
    } else {
        None
    }
}

/// The token of a word, given whether all its characters are alphabetic:
/// a fixed symbol, else a variable name, else an integer literal; `None` if none fits.
pub open spec fn classify_with(w: Seq<char>, letters_only: bool) -> Option<Lexeme> {
    match fixed_symbol(w) {
        Some(t) => Some(t),
        None => if letters_only {
            Some(Lexeme::Name(w))
        } else {
            match literal_value(w) {
                Some(v) => Some(Lexeme::Int(v)),
                None => None,
            }
        },
    }
}

/// Whether every character of a word is alphabetic.
pub open spec fn all_alphabetic(w: Seq<char>) -> bool {
    forall|k: int| 0 <= k < w.len() ==> alphabetic(#[trigger] w[k])
}

/// The token of a word.
pub open spec fn classify_word(w: Seq<char>) -> Option<Lexeme> {
    classify_with(w, all_alphabetic(w))
}

/// The tokens of a sequence of words, or the first word that is no token.
pub open spec fn lex_words(ws: Seq<Seq<char>>) -> Result<Seq<Lexeme>, Seq<char>>
    decreases ws.len(),
{
    if ws.len() == 0 {
        Ok(seq![])
    } else {
        match lex_words(ws.drop_last()) {
            Err(w) => Err(w),
            Ok(ts) => match classify_word(ws.last()) {
                Some(t) => Ok(ts.push(t)),
                None => Err(ws.last()),
            },
        }
    }
}

proof fn lemma_lex_error_kept(ws: Seq<Seq<char>>, k: int)
    requires
        0 <= k <= ws.len(),
        lex_words(ws.subrange(0, k)) is Err,
    ensures
        lex_words(ws) == lex_words(ws.subrange(0, k)),
    decreases ws.len(),
{
    if k < ws.len() {
        assert(ws.drop_last().subrange(0, k) =~= ws.subrange(0, k));
        lemma_lex_error_kept(ws.drop_last(), k);
    } else {
        assert(ws.subrange(0, k) =~= ws);
    }
}

/// The tokens of a line, or the first word that is no token.
pub open spec fn lex(s: Seq<char>) -> Result<Seq<Lexeme>, Seq<char>> {
    lex_words(words(s))
}

/// The views of a sequence of tokens.
pub open spec fn lexemes(v: Seq<Token>) -> Seq<Lexeme> {
    v.map_values(|t: Token| t@)
}

fn is_single(w: &str, c: char) -> (r: bool)
    ensures
        r == (w@ == seq![c]),
{
    if w.unicode_len() == 1 && w.get_char(0) == c {
        assert(w@ =~= seq![c]);
        true
    } else {
        false
    }
}

fn is_let(w: &str) -> (r: bool)
    ensures
        r == (w@ == seq!['l', 'e', 't']),
{
    if w.unicode_len() == 3 && w.get_char(0) == 'l' && w.get_char(1) == 'e' && w.get_char(2)
        == 't' {
        assert(w@ =~= seq!['l', 'e', 't']);
        true
    } else {
        false
    }
}

/// Whether every character of a word is alphabetic.
pub fn all_letters(w: &str) -> (r: bool)
    ensures
        r == all_alphabetic(w@),
{
    let n = w.unicode_len();
    let mut k: usize = 0;
    while k < n
        invariant
            n == w@.len(),
            k <= n,
            forall|j: int| 0 <= j < k ==> alphabetic(#[trigger] w@[j]),
        decreases n - k,
    {
        if !is_letter(w.get_char(k)) {
            return false;
        }
        k = k + 1;
    }
    true
}

/// The token of a word, given whether all its characters are alphabetic.
pub fn classify(w: &str, letters_only: bool) -> (r: Option<Token>)
    ensures
        r matches Some(t) ==> classify_with(w@, letters_only) == Some(t@),
        r is None ==> classify_with(w@, letters_only) is None,
{
    if is_let(w) {
        Some(Token::Keyword(Keyword::Let))
    } else if is_single(w, '+') {
        Some(Token::Op(Op::Add))
    } else if is_single(w, '-') {
        Some(Token::Op(Op::Sub))
    } else if is_single(w, '*') {
        Some(Token::Op(Op::Mul))
    } else if is_single(w, '/') {
        Some(Token::Op(Op::Div))
    } else if is_single(w, '=') {
        Some(Token::Op(Op::Assign))
    } else if letters_only {
        Some(Token::Keyword(Keyword::VarName(String::from_str(w))))
    } else {
        match parse_int(w) {
            Some(v) => Some(Token::Int(v)),
            None => None,
        }
    }
}

/// Splits a line into tokens; the error is the first word that is no token.
pub fn tokenize(line: &str) -> (r: Result<Vec<Token>, String>)
    ensures
        r matches Ok(ts) ==> lex(line@) == Ok::<Seq<Lexeme>, Seq<char>>(lexemes(ts@)),
        r matches Err(w) ==> lex(line@) == Err::<Seq<Lexeme>, Seq<char>>(w@),
{
    let ws = split_words(line);
    let mut tokens: Vec<Token> = Vec::new();
    let mut j: usize = 0;
    assert(views(ws@).subrange(0, 0) =~= Seq::<Seq<char>>::empty());
    assert(lexemes(tokens@) =~= Seq::<Lexeme>::empty());
    while j < ws.len()
        invariant
            j <= ws@.len(),
            views(ws@) == words(line@),
            lex_words(views(ws@).subrange(0, j as int)) == Ok::<Seq<Lexeme>, Seq<char>>(
                lexemes(tokens@),
            ),
        decreases ws@.len() - j,
    {
        let w = ws[j].as_str();
        assert(views(ws@).subrange(0, j + 1).drop_last() =~= views(ws@).subrange(0, j as int));
        assert(views(ws@)[j as int] == w@);
        match classify(w, all_letters(w)) {
            Some(t) => {
                let ghost before = tokens@;
                tokens.push(t);
                assert(lexemes(tokens@) =~= lexemes(before).push(t@));
            },
            None => {
                proof {
                    lemma_lex_error_kept(views(ws@), j + 1);
                }
                return Err(String::from_str(w));
            },
        }
        j = j + 1;
    }
    assert(views(ws@).subrange(0, ws@.len() as int) =~= views(ws@));
    Ok(tokens)
}

} // verus!
