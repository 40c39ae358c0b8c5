use vstd::prelude::*;

use crate::token::{is_lexed_operator, is_operator_symbol, Token};

verus! {

/// Why a line could not be split into tokens.
#[derive(Debug, PartialEq, Eq)]
pub enum LexError {
    /// A run of digits whose value does not fit in an `i64`; holds the run.
    InvalidNumber(String),
    /// A one-character word that is no operator symbol.
    InvalidOperator(char),
    /// A longer word that is not a run of digits.
    UnknownInput(String),
}

/// What a [`LexError`] says, with its text as a sequence of characters.
pub enum LexFailure {
    InvalidNumber(Seq<char>),
    InvalidOperator(char),
    UnknownInput(Seq<char>),
}

impl View for LexError {
    type V = LexFailure;

    open spec fn view(&self) -> LexFailure {
        match self {
            LexError::InvalidNumber(s) => LexFailure::InvalidNumber(s@),
            LexError::InvalidOperator(c) => LexFailure::InvalidOperator(*c),
            LexError::UnknownInput(s) => LexFailure::UnknownInput(s@),
        }
    }
}

/// The characters with the Unicode `White_Space` property, which separate words.
pub open spec fn is_space(c: char) -> bool {
    let n = c as u32;
    ||| 0x09 <= n <= 0x0D
    ||| n == 0x20
    ||| n == 0x85
    ||| n == 0xA0
    ||| n == 0x1680
    ||| 0x2000 <= n <= 0x200A
    ||| n == 0x2028
    ||| n == 0x2029
    ||| n == 0x202F
    ||| n == 0x205F
    ||| n == 0x3000
}

pub open spec fn is_digit(c: char) -> bool {
    '0' <= c <= '9'
}

pub open spec fn all_digits(w: Seq<char>) -> bool {
    forall|i: int| 0 <= i < w.len() ==> #[trigger] is_digit(w[i])
}

/// The value of a run of decimal digits.
pub open spec fn digits_value(w: Seq<char>) -> nat
    decreases w.len(),
{
    if w.len() == 0 {
        0
    } else {
        digits_value(w.drop_last()) * 10 + ((w.last() as u32) - ('0' as u32)) as nat
    }
}

/// The maximal runs of non-space characters of `s`, in order.
pub open spec fn words(s: Seq<char>) -> Seq<Seq<char>>
    decreases s.len(),
{
    if s.len() == 0 {
        Seq::empty()
    } else {
        let p = s.drop_last();
        let c = s.last();
        let ws = words(p);
        if is_space(c) {
            ws
        } else if p.len() > 0 && !is_space(p.last()) {
            ws.update(ws.len() - 1, ws.last().push(c))
        } else {
            ws.push(seq![c])
        }
    }
}

/// The token that one word gives, or why it gives none.
pub open spec fn lex_word_spec(w: Seq<char>) -> Result<Token, LexFailure> {
    if all_digits(w) {
        if digits_value(w) <= i64::MAX {
            Ok(Token::Number(digits_value(w) as i64))
        } else {
            Err(LexFailure::InvalidNumber(w))
        }
    } else if w.len() == 1 {
        if is_lexed_operator(w[0]) {
            Ok(Token::Operator(w[0]))
        } else {
            Err(LexFailure::InvalidOperator(w[0]))
        }
    } else {
        Err(LexFailure::UnknownInput(w))
    }
}

/// The tokens of a sequence of words, or the failure of the first word that fails.
pub open spec fn lex_words(ws: Seq<Seq<char>>) -> Result<Seq<Token>, LexFailure>
    decreases ws.len(),
{
    if ws.len() == 0 {
        Ok(Seq::empty())
    } else {
        match lex_words(ws.drop_last()) {
            Err(e) => Err(e),
            Ok(ts) => match lex_word_spec(ws.last()) {
                Ok(t) => Ok(ts.push(t)),
                Err(e) => Err(e),
            },
        }
    }
}

/// The tokens of a line.
pub open spec fn lex_spec(s: Seq<char>) -> Result<Seq<Token>, LexFailure> {
    lex_words(words(s))
}

/// Whether `c` separates words.
pub fn is_space_char(c: char) -> (r: bool)
    ensures
        r == is_space(c),
{
    let n = c as u32;
    (0x09 <= n && n <= 0x0D) || n == 0x20 || n == 0x85 || n == 0xA0 || n == 0x1680 || (0x2000
        <= n && n <= 0x200A) || n == 0x2028 || n == 0x2029 || n == 0x202F || n == 0x205F || n
        == 0x3000
}

/// Splits `s` into its words.
pub fn split_words(s: &str) -> (r: Vec<&str>)
    ensures
        r@.len() == words(s@).len(),
        forall|k: int| 0 <= k < r@.len() ==> (#[trigger] r@[k])@ == words(s@)[k],
{
    let n = s.unicode_len();
    let mut out: Vec<&str> = Vec::new();
    let mut start: usize = 0;
    let mut in_word = false;
    let mut i: usize = 0;
    while i < n
        invariant
            n == s@.len(),
            i <= n,
            in_word == (i > 0 && !is_space(s@[i - 1])),
            in_word ==> start < i,
            !in_word ==> out@.len() == words(s@.take(i as int)).len(),
            in_word ==> out@.len() + 1 == words(s@.take(i as int)).len(),
            forall|k: int| 0 <= k < out@.len() ==> (#[trigger] out@[k])@ == words(s@.take(i as int))[k],
            in_word ==> words(s@.take(i as int)).last() == s@.subrange(start as int, i as int),
        decreases n - i,
    {
        let c = s.get_char(i);
        let ghost pre = s@.take(i as int);
        let ghost next = s@.take(i + 1);
        assert(next.drop_last() =~= pre);
        assert(next.last() == c);
        if is_space_char(c) {
            if in_word {
                out.push(s.substring_char(start, i));
                in_word = false;
            }
        } else {
            if in_word {
                assert(s@.subrange(start as int, i + 1) =~= s@.subrange(start as int, i as int).push(c));
            } else {
                start = i;
                in_word = true;
                assert(s@.subrange(start as int, i + 1) =~= seq![c]);
            }
        }
        i = i + 1;
    }
    if in_word {
        out.push(s.substring_char(start, n));
    }
    assert(s@.take(n as int) =~= s@);
    out
}

/// A longer run of digits is worth at least as much as any of its prefixes.
proof fn lemma_digits_value_prefix(w: Seq<char>, j: int)
    requires
        0 <= j <= w.len(),
    ensures
        digits_value(w.take(j)) <= digits_value(w),
    decreases w.len(),
{
    if j < w.len() {
        let p = w.drop_last();
        lemma_digits_value_prefix(p, j);
        assert(p.take(j) =~= w.take(j));
    } else {
        assert(w.take(j) =~= w);
    }
}

/// Whether every character of `w` is an ASCII digit.
fn is_digit_run(w: &str) -> (r: bool)
    ensures
        r == all_digits(w@),
{
    let n = w.unicode_len();
    let mut i: usize = 0;
    while i < n
        invariant
            n == w@.len(),
            i <= n,
            forall|k: int| 0 <= k < i ==> #[trigger] is_digit(w@[k]),
        decreases n - i,
    {
        let c = w.get_char(i);
        if !('0' <= c && c <= '9') {
            assert(!is_digit(w@[i as int]));
            return false;
        }
        i = i + 1;
    }
    true
}

/// The value of a run of digits, or `None` where it does not fit in an `i64`.
pub fn digit_run_value(w: &str) -> (r: Option<i64>)
    requires
        all_digits(w@),
    ensures
        match r {
            Some(v) => digits_value(w@) <= i64::MAX && v == digits_value(w@),
            None => digits_value(w@) > i64::MAX,
        },
{
    let n = w.unicode_len();
    let mut acc: i64 = 0;
    let mut i: usize = 0;
    while i < n
        invariant
            n == w@.len(),
            i <= n,
            all_digits(w@),
            acc == digits_value(w@.take(i as int)),
        decreases n - i,
    {
        let c = w.get_char(i);
        let ghost next = w@.take(i + 1);
        assert(next.drop_last() =~= w@.take(i as int));
        assert(is_digit(w@[i as int]));
        let d: i64 = ((c as u32) - ('0' as u32)) as i64;
        assert(digits_value(next) == acc * 10 + d);
        if acc > (i64::MAX - d) / 10 {
            proof {
                lemma_digits_value_prefix(w@, i + 1);
            }
            return None;
        }
        acc = acc * 10 + d;
        i = i + 1;
    }
    assert(w@.take(n as int) =~= w@);
    Some(acc)
}

/// The token that one word gives.
pub fn lex_word(w: &str) -> (r: Result<Token, LexError>)
    ensures
        match r {
            Ok(t) => lex_word_spec(w@) == Ok::<Token, LexFailure>(t),
            Err(e) => lex_word_spec(w@) == Err::<Token, LexFailure>(e@),
        },
{
    if is_digit_run(w) {
        match digit_run_value(w) {
            Some(v) => Ok(Token::Number(v)),
            None => Err(LexError::InvalidNumber(String::from_str(w))),
        }
    } else if w.unicode_len() == 1 {
        let c = w.get_char(0);
        if is_operator_symbol(c) {
            Ok(Token::Operator(c))
        } else {
            Err(LexError::InvalidOperator(c))
        }
    } else {
        Err(LexError::UnknownInput(String::from_str(w)))
    }
}

/// Splits a line on whitespace and turns each word into a token; the first word that
/// gives no token fails the whole line.
pub fn lex(src: &str) -> (r: Result<Vec<Token>, LexError>)
    ensures
        match r {
            Ok(ts) => lex_spec(src@) == Ok::<Seq<Token>, LexFailure>(ts@),
            Err(e) => lex_spec(src@) == Err::<Seq<Token>, LexFailure>(e@),
        },
{
    let ws = split_words(src);
    let ghost all = words(src@);
    let mut tokens: Vec<Token> = Vec::new();
    let mut k: usize = 0;
    while k < ws.len()
        invariant
            all == words(src@),
            ws@.len() == all.len(),
            forall|j: int| 0 <= j < ws@.len() ==> (#[trigger] ws@[j])@ == all[j],
            k <= ws@.len(),
            lex_words(all.take(k as int)) == Ok::<Seq<Token>, LexFailure>(tokens@),
        decreases ws@.len() - k,
    {
        let ghost next = all.take(k + 1);
        assert(next.drop_last() =~= all.take(k as int));
        assert(next.last() == ws@[k as int]@);
        match lex_word(ws[k]) {
            Ok(t) => tokens.push(t),
            Err(e) => {
                proof {
                    assert(lex_words(next) == Err::<Seq<Token>, LexFailure>(e@));
                    lemma_lex_words_fails_on(all, k + 1);
                }
                return Err(e);
            }
        }
        k = k + 1;
    }
    assert(all.take(k as int) =~= all);
    Ok(tokens)
}

/// Once a prefix of the words fails, the whole sequence fails the same way.
proof fn lemma_lex_words_fails_on(ws: Seq<Seq<char>>, j: int)
    requires
        0 <= j <= ws.len(),
        lex_words(ws.take(j)) is Err,
    ensures
        lex_words(ws) == lex_words(ws.take(j)),
    decreases ws.len(),
{
    if j < ws.len() {
        let p = ws.drop_last();
        assert(p.take(j) =~= ws.take(j));
        lemma_lex_words_fails_on(p, j);
    } else {
        assert(ws.take(j) =~= ws);
    }
}

/// A non-empty run of non-space characters is a single word.
pub proof fn lemma_single_word(w: Seq<char>)
    requires
        w.len() > 0,
        forall|i: int| 0 <= i < w.len() ==> !#[trigger] is_space(w[i]),
    ensures
        words(w) == seq![w],
    decreases w.len(),
{
    let p = w.drop_last();
    assert(!is_space(w[w.len() - 1]));
    if p.len() == 0 {
        assert(words(p) =~= Seq::<Seq<char>>::empty());
        assert(w =~= seq![w.last()]);
        assert(Seq::<Seq<char>>::empty().push(seq![w.last()]) =~= seq![w]);
    } else {
        assert(!is_space(w[p.len() - 1]));
        assert forall|i: int| 0 <= i < p.len() implies !#[trigger] is_space(p[i]) by {
            assert(p[i] == w[i]);
        }
        lemma_single_word(p);
        assert(p.push(w.last()) =~= w);
        assert(seq![p].update(0, p.push(w.last())) =~= seq![w]);
    }
}

/// A line that is one word lexes as that word does.
pub proof fn lemma_lex_single_word(w: Seq<char>)
    requires
        w.len() > 0,
        forall|i: int| 0 <= i < w.len() ==> !#[trigger] is_space(w[i]),
    ensures
        lex_spec(w) == match lex_word_spec(w) {
            Ok(t) => Ok::<Seq<Token>, LexFailure>(seq![t]),
            Err(e) => Err::<Seq<Token>, LexFailure>(e),
        },
{
    lemma_single_word(w);
    let ws = seq![w];
    assert(ws.drop_last() =~= Seq::<Seq<char>>::empty());
    assert(ws.last() == w);
    assert(lex_words(ws.drop_last()) == Ok::<Seq<Token>, LexFailure>(Seq::empty()));
    if let Ok(t) = lex_word_spec(w) {
        assert(Seq::<Token>::empty().push(t) =~= seq![t]);
    }
}

/// A word of ASCII digits lexes as the number it spells, or fails as an invalid number
/// where that number does not fit in an `i64`.
pub proof fn lemma_lex_digit_word(w: Seq<char>)
    requires
        w.len() > 0,
        all_digits(w),
    ensures
        digits_value(w) <= i64::MAX ==> lex_spec(w) == Ok::<Seq<Token>, LexFailure>(
            seq![Token::Number(digits_value(w) as i64)],
        ),
        digits_value(w) > i64::MAX ==> lex_spec(w) == Err::<Seq<Token>, LexFailure>(
            LexFailure::InvalidNumber(w),
        ),
{
    assert forall|i: int| 0 <= i < w.len() implies !#[trigger] is_space(w[i]) by {
        assert(is_digit(w[i]));
    }
    lemma_lex_single_word(w);
}

/// A one-character word lexes as an operator token where the character is `+`, `-`, `*`
/// or `/`, and fails as an invalid operator where it is any other non-digit.
pub proof fn lemma_lex_symbol_word(c: char)
    requires
        !is_space(c),
        !is_digit(c),
    ensures
        is_lexed_operator(c) ==> lex_spec(seq![c]) == Ok::<Seq<Token>, LexFailure>(
            seq![Token::Operator(c)],
        ),
        !is_lexed_operator(c) ==> lex_spec(seq![c]) == Err::<Seq<Token>, LexFailure>(
            LexFailure::InvalidOperator(c),
        ),
{
    let w = seq![c];
    assert(!is_digit(w[0]));
    lemma_lex_single_word(w);
}

/// A word of two or more characters that is not all digits fails as unknown input.
pub proof fn lemma_lex_unknown_word(w: Seq<char>)
    requires
        w.len() > 1,
        forall|i: int| 0 <= i < w.len() ==> !#[trigger] is_space(w[i]),
        !all_digits(w),
    ensures
        lex_spec(w) == Err::<Seq<Token>, LexFailure>(LexFailure::UnknownInput(w)),
{
    lemma_lex_single_word(w);
}

} // verus!
