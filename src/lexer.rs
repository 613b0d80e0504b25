//! The lexer: text to tokens.
use vstd::prelude::*;
use crate::error::CalcError;
use crate::expr::TrigKind;
use crate::num::{NumOp, num_result, is_arith, apply, ZERO, PI};
use crate::token::{Token, Lexeme};

verus! {

broadcast use vstd::std_specs::vec::group_vec_axioms, vstd::seq::group_seq_axioms;

/// Whether Unicode counts `c` as alphabetic.
pub uninterp spec fn alphabetic(c: char) -> bool;

/// Whether `c` has the Unicode property White_Space.
pub open spec fn white_space(c: char) -> bool {
    ('\u{9}' <= c <= '\u{d}') || c == ' ' || c == '\u{85}' || c == '\u{a0}' || c == '\u{1680}'
        || ('\u{2000}' <= c <= '\u{200a}') || c == '\u{2028}' || c == '\u{2029}' || c
        == '\u{202f}' || c == '\u{205f}' || c == '\u{3000}'
}

/// Relies on `char::is_alphabetic`: whether `c` has the Unicode property
/// Alphabetic, a fact of `c` alone.
#[verifier::external_body]
fn is_letter(c: char) -> (r: bool)
    ensures
        r == alphabetic(c),
{
    c.is_alphabetic()
}

/// Whether `c` is white space.
fn is_space(c: char) -> (r: bool)
    ensures
        r == white_space(c),
{
    ('\u{9}' <= c && c <= '\u{d}') || c == ' ' || c == '\u{85}' || c == '\u{a0}' || c
        == '\u{1680}' || ('\u{2000}' <= c && c <= '\u{200a}') || c == '\u{2028}' || c
        == '\u{2029}' || c == '\u{202f}' || c == '\u{205f}' || c == '\u{3000}'
}

pub open spec fn is_digit(c: char) -> bool {
    '0' <= c <= '9'
}

/// A character of a word: an ASCII letter, or any other alphabetic
/// character that is no ASCII digit or operator (Unicode counts none of
/// those as alphabetic, so this is exactly the alphabetic characters).
pub open spec fn is_word_char(c: char) -> bool {
    ('a' <= c <= 'z') || ('A' <= c <= 'Z') || (alphabetic(c) && !is_digit(c) && !is_op_char(c))
}

pub open spec fn is_op_char(c: char) -> bool {
    c == '+' || c == '-' || c == '*' || c == '/' || c == '^' || c == '(' || c == ')' || c == ','
        || c == '='
}

/// The first position at or after `i` where the run of letters (or, if
/// `letters` is false, of decimal digits) that starts at `i` ends.
pub open spec fn run_end(s: Seq<char>, i: int, letters: bool) -> int
    decreases s.len() - i,
{
    if 0 <= i < s.len() && (if letters {
        is_word_char(s[i])
    } else {
        is_digit(s[i])
    }) {
        run_end(s, i + 1, letters)
    } else {
        i
    }
}

/// A run ends within the text, and every character before its end
/// belongs to it.
pub proof fn lemma_run_end(s: Seq<char>, i: int, letters: bool)
    requires
        0 <= i <= s.len(),
    ensures
        i <= run_end(s, i, letters) <= s.len(),
        forall|k: int| i <= k < run_end(s, i, letters) ==> (if letters {
            is_word_char(#[trigger] s[k])
        } else {
            is_digit(s[k])
        }),
    decreases s.len() - i,
{
    if i < s.len() && (if letters {
        is_word_char(s[i])
    } else {
        is_digit(s[i])
    }) {
        lemma_run_end(s, i + 1, letters);
    }
}

/// The value of a string of decimal digits.
pub open spec fn numeral(d: Seq<char>) -> int
    decreases d.len(),
{
    if d.len() == 0 {
        0
    } else {
        numeral(d.drop_last()) * 10 + (d.last() as int - '0' as int)
    }
}

/// The token that a word of letters is.
pub open spec fn keyword(w: Seq<char>) -> Lexeme {
    if w == "log"@ {
        Lexeme::Log
    } else if w == "sin"@ {
        Lexeme::Trig(TrigKind::Sin)
    } else if w == "cos"@ {
        Lexeme::Trig(TrigKind::Cos)
    } else if w == "tan"@ {
        Lexeme::Trig(TrigKind::Tan)
    } else if w == "arcsin"@ {
        Lexeme::Trig(TrigKind::Arcsin)
    } else if w == "arccos"@ {
        Lexeme::Trig(TrigKind::Arccos)
    } else if w == "arctan"@ {
        Lexeme::Trig(TrigKind::Arctan)
    } else if w == "csc"@ {
        Lexeme::Trig(TrigKind::Csc)
    } else if w == "sec"@ {
        Lexeme::Trig(TrigKind::Sec)
    } else if w == "cot"@ {
        Lexeme::Trig(TrigKind::Cot)
    } else if w == "pi"@ {
        Lexeme::Num(PI)
    } else {
        Lexeme::Ident(w)
    }
}

pub open spec fn prepend(l: Lexeme, rest: Result<Seq<Lexeme>, CalcError>) -> Result<
    Seq<Lexeme>,
    CalcError,
> {
    match rest {
        Ok(ls) => Ok(seq![l] + ls),
        Err(e) => Err(e),
    }
}

/// The tokens of `s` from position `i` on.  An operator is a token of its
/// own, a run of digits a constant, a word of letters a keyword or an
/// identifier; white space separates tokens, and any other character is an
/// error.
pub open spec fn lex_from<F: Fn(NumOp, u64, u64) -> u64>(s: Seq<char>, i: int, f: F) -> Result<
    Seq<Lexeme>,
    CalcError,
>
    decreases s.len() - i,
{
    if i < 0 || i >= s.len() {
        Ok(Seq::empty())
    } else if is_op_char(s[i]) {
        prepend(Lexeme::Op(s[i]), lex_from(s, i + 1, f))
    } else if is_digit(s[i]) {
        let j = run_end(s, i, false);
        proof {
            lemma_run_end(s, i + 1, false);
        }
        let n = numeral(s.subrange(i, j));
        if n > u64::MAX {
            Err(CalcError::NumberTooLarge)
        } else {
            prepend(Lexeme::Num(num_result(f, NumOp::FromInt, n as u64, ZERO)), lex_from(s, j, f))
        }
    } else if is_word_char(s[i]) {
        let j = run_end(s, i, true);
        proof {
            lemma_run_end(s, i + 1, true);
        }
        prepend(keyword(s.subrange(i, j)), lex_from(s, j, f))
    } else if white_space(s[i]) {
        lex_from(s, i + 1, f)
    } else {
        Err(CalcError::UnknownCharacter)
    }
}

/// The models of a sequence of tokens.
pub open spec fn lexemes(ts: Seq<Token>) -> Seq<Lexeme> {
    ts.map_values(|t: Token| t@)
}

/// Splits a line of text into tokens.
pub struct Tokenlizer {
    orig_text: String,
    i: usize,
}

fn is_op(c: char) -> (r: bool)
    ensures
        r == is_op_char(c),
{
    c == '+' || c == '-' || c == '*' || c == '/' || c == '^' || c == '(' || c == ')' || c == ','
        || c == '='
}

fn word_char(c: char) -> (r: bool)
    ensures
        r == is_word_char(c),
{
    ('a' <= c && c <= 'z') || ('A' <= c && c <= 'Z') || (is_letter(c) && !('0' <= c && c <= '9')
        && !is_op(c))
}

fn is_word(w: &String, lit: &str) -> (r: bool)
    ensures
        r == (w@ == lit@),
{
    *w == String::from_str(lit)
}

fn keyword_token(w: String) -> (t: Token)
    ensures
        t@ == keyword(w@),
{
    if is_word(&w, "log") {
        Token::Log
    } else if is_word(&w, "sin") {
        Token::Trig(TrigKind::Sin)
    } else if is_word(&w, "cos") {
        Token::Trig(TrigKind::Cos)
    } else if is_word(&w, "tan") {
        Token::Trig(TrigKind::Tan)
    } else if is_word(&w, "arcsin") {
        Token::Trig(TrigKind::Arcsin)
    } else if is_word(&w, "arccos") {
        Token::Trig(TrigKind::Arccos)
    } else if is_word(&w, "arctan") {
        Token::Trig(TrigKind::Arctan)
    } else if is_word(&w, "csc") {
        Token::Trig(TrigKind::Csc)
    } else if is_word(&w, "sec") {
        Token::Trig(TrigKind::Sec)
    } else if is_word(&w, "cot") {
        Token::Trig(TrigKind::Cot)
    } else if is_word(&w, "pi") {
        Token::Const(PI)
    } else {
        Token::Identifier(w)
    }
}

impl Tokenlizer {
    fn at_run(&self, j: usize, letters: bool) -> (r: bool)
        requires
            j < self.orig_text@.len(),
        ensures
            r == (if letters {
                is_word_char(self.orig_text@[j as int])
            } else {
                is_digit(self.orig_text@[j as int])
            }),
    {
        let c = self.orig_text.as_str().get_char(j);
        if letters {
            word_char(c)
        } else {
            '0' <= c && c <= '9'
        }
    }

    /// Where the run of letters or digits from `i` ends.
    fn run_end(&self, i: usize, letters: bool) -> (r: usize)
        requires
            i <= self.orig_text@.len(),
        ensures
            r == run_end(self.orig_text@, i as int, letters),
    {
        let n = self.orig_text.as_str().unicode_len();
        let mut j = i;
        while j < n && self.at_run(j, letters)
            invariant
                n == self.orig_text@.len(),
                i <= j <= n,
                run_end(self.orig_text@, i as int, letters) == run_end(
                    self.orig_text@,
                    j as int,
                    letters,
                ),
            decreases n - j,
        {
            j += 1;
        }
        j
    }

    pub fn new(text: &String) -> (r: Tokenlizer)
        ensures
            r.text() == text@,
            r.pos() == 0,
    {
        Tokenlizer { orig_text: text.clone(), i: 0 }
    }

    /// The text being split.
    pub closed spec fn text(&self) -> Seq<char> {
        self.orig_text@
    }

    /// The position reached.
    pub closed spec fn pos(&self) -> int {
        self.i as int
    }

    /// The tokens of the text from the position reached on.  Constants are
    /// converted to doubles by `arith`.
    pub fn tokenlize<F: Fn(NumOp, u64, u64) -> u64>(&mut self, arith: &F) -> (r: Result<
        Vec<Token>,
        CalcError,
    >)
        requires
            is_arith(*arith),
        ensures
            final(self).text() == old(self).text(),
            match r {
                Ok(ts) => lex_from(old(self).text(), old(self).pos(), *arith) == Ok::<
                    Seq<Lexeme>,
                    CalcError,
                >(lexemes(ts@)),
                Err(e) => lex_from(old(self).text(), old(self).pos(), *arith) == Err::<
                    Seq<Lexeme>,
                    CalcError,
                >(e),
            },
    {
        let ghost s = self.orig_text@;
        let ghost i0 = self.i as int;
        let n = self.orig_text.as_str().unicode_len();
        let mut tokens: Vec<Token> = Vec::new();
        if self.i >= n {
            assert(lexemes(tokens@) =~= Seq::<Lexeme>::empty());
            return Ok(tokens);
        }
        while self.i < n
            invariant
                is_arith(*arith),
                s == self.orig_text@,
                s == old(self).orig_text@,
                i0 == old(self).i as int,
                n == s.len(),
                lex_from(s, i0, *arith) == match lex_from(s, self.i as int, *arith) {
                    Ok(rest) => Ok(lexemes(tokens@) + rest),
                    Err(e) => Err::<Seq<Lexeme>, CalcError>(e),
                },
            decreases n - self.i,
        {
            let i = self.i;
            let c = self.orig_text.as_str().get_char(i);
            let ghost before = tokens@;
            if is_op(c) {
                tokens.push(Token::Operator(c));
                self.i = i + 1;
                proof {
                    assert(lexemes(tokens@) =~= lexemes(before) + seq![Lexeme::Op(c)]);
                    assert(lexemes(tokens@) + lex_from(s, i + 1, *arith)->Ok_0 =~= lexemes(before) + (seq![Lexeme::Op(c)] + lex_from(s, i + 1, *arith)->Ok_0));
                }
            } else if '0' <= c && c <= '9' {
                proof {
                    lemma_run_end(s, i as int, false);
                    lemma_run_end(s, i + 1, false);
                }
                let e = self.run_end(i, false);
                assert(e > i);
                let mut j = i;
                let mut v: u64 = 0;
                #[verifier::loop_isolation(false)]
                while j < e
                    invariant
                        s == self.orig_text@,
                        n == s.len(),
                        i <= j <= e,
                        e == run_end(s, i as int, false),
                        e <= n,
                        forall|k: int| i <= k < e ==> is_digit(#[trigger] s[k]),
                        v as int == numeral(s.subrange(i as int, j as int)),
                    decreases e - j,
                {
                    let d = self.orig_text.as_str().get_char(j);
                    let digit = (d as u32 - '0' as u32) as u64;
                    assert(s.subrange(i as int, j + 1).drop_last() =~= s.subrange(i as int, j as int));
                    match v.checked_mul(10) {
                        Some(t) => match t.checked_add(digit) {
                            Some(u) => {
                                v = u;
                            },
                            None => {
                                proof {
                                    lemma_numeral_grows(s, i as int, j + 1);
                                }
                                return Err(CalcError::NumberTooLarge);
                            },
                        },
                        None => {
                            proof {
                                lemma_numeral_grows(s, i as int, j + 1);
                            }
                            return Err(CalcError::NumberTooLarge);
                        },
                    }
                    j += 1;
                }
                let bits = apply(arith, NumOp::FromInt, v, ZERO);
                tokens.push(Token::Const(bits));
                self.i = j;
                proof {
                    let l = Lexeme::Num(num_result(*arith, NumOp::FromInt, v, ZERO));
                    assert(lexemes(tokens@) =~= lexemes(before) + seq![l]);
                    assert(lexemes(tokens@) + lex_from(s, j as int, *arith)->Ok_0 =~= lexemes(before) + (seq![l] + lex_from(s, j as int, *arith)->Ok_0));
                }
            } else if word_char(c) {
                proof {
                    lemma_run_end(s, i + 1, true);
                }
                let j = self.run_end(i + 1, true);
                let w = String::from_str(self.orig_text.as_str().substring_char(i, j));
                tokens.push(keyword_token(w));
                self.i = j;
                proof {
                    assert(lexemes(tokens@) =~= lexemes(before) + seq![keyword(s.subrange(i as int, j as int))]);
                    assert(lexemes(tokens@) + lex_from(s, j as int, *arith)->Ok_0 =~= lexemes(before) + (seq![keyword(s.subrange(i as int, j as int))] + lex_from(s, j as int, *arith)->Ok_0));
                }
            } else if is_space(c) {
                self.i = i + 1;
            } else {
                return Err(CalcError::UnknownCharacter);
            }
        }
        assert(lexemes(tokens@) + Seq::<Lexeme>::empty() =~= lexemes(tokens@));
        Ok(tokens)
    }
}

/// Once the digits from `i` to `j` spell a number too large for 64 bits, so
/// does the whole run of digits.
proof fn lemma_numeral_grows(s: Seq<char>, i: int, j: int)
    requires
        0 <= i < j <= run_end(s, i, false),
        run_end(s, i, false) <= s.len(),
        numeral(s.subrange(i, j)) > u64::MAX,
    ensures
        numeral(s.subrange(i, run_end(s, i, false))) > u64::MAX,
    decreases run_end(s, i, false) - j,
{
    let k = run_end(s, i, false);
    if j < k {
        lemma_run_end(s, i, false);
        assert(s.subrange(i, j + 1).drop_last() =~= s.subrange(i, j));
        assert(is_digit(s[j]));
        lemma_numeral_grows(s, i, j + 1);
    }
}

} // verus!
