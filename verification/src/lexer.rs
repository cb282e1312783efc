//! Tokenizer: turns the text of an infix arithmetic expression into tokens.
//!
//! The meaning of the tokenizer is the state machine [`LexState`]: a scan from
//! left to right that keeps the digits read so far, a pending sign, and the
//! balance of parentheses. [`lexer`] is proved to compute exactly
//! [`lex_spec`].
//!
//! A minus sign is binary when a value has just ended (digits are pending, or
//! the last token is a number or a closing parenthesis), and unary otherwise.
//! A unary minus toggles the pending sign. The pending sign is applied to the
//! next number; in front of an opening parenthesis it negates the whole
//! group, which is tokenized as `(0-(` ... `))`.
use crate::lexer_laws::lemma_lex_text;
use crate::parser::Node;
use vstd::prelude::*;

verus! {

/// A lexical unit of an infix arithmetic expression.
#[derive(Debug, PartialEq, Eq, Clone, Copy, Structural)]
pub enum Token {
    Num(i32),
    Add,
    Minus,
    Multi,
    Div,
    LeftPar,
    RightPar,
}

impl Token {
    /// The precedence class of a token: `1` for the additive operators, `2`
    /// for the multiplicative ones, `0` for a number. Parentheses get the
    /// sentinel `-1`; they are never ordered against operators.
    pub open spec fn rank(self) -> int {
        match self {
            Token::Num(_) => 0,
            Token::Add | Token::Minus => 1,
            Token::Multi | Token::Div => 2,
            Token::LeftPar | Token::RightPar => -1,
        }
    }

    /// Whether the token is one of the four binary operators.
    pub open spec fn is_operator(self) -> bool {
        self is Add || self is Minus || self is Multi || self is Div
    }

    /// The precedence class of the token, as [`Token::rank`] gives it.
    pub fn order(&self) -> (r: i32)
        ensures
            r == self.rank(),
    {
        match self {
            Token::Num(_) => 0,
            Token::Add | Token::Minus => 1,
            Token::Multi | Token::Div => 2,
            Token::LeftPar | Token::RightPar => -1,
        }
    }
}

/// Why a text is not a sequence of tokens.
#[derive(Debug, PartialEq, Eq, Clone, Copy, Structural)]
pub enum LexError {
    /// A character that is no digit, operator, parenthesis or blank.
    UnknownChar(char),
    /// A run of digits whose signed value does not fit in an `i32`.
    InvalidNumber,
    /// The text has more `(` than `)`, or more `)` than `(`.
    UnbalancedParen,
}

/// Whether `c` is one of the ten decimal digits.
pub open spec fn is_digit(c: char) -> bool {
    '0' <= c <= '9'
}

/// Whether `c` is a space, a tab, a line feed or a carriage return.
pub open spec fn is_blank(c: char) -> bool {
    c == ' ' || c == '\t' || c == '\n' || c == '\r'
}

/// The characters that the tokenizer accepts.
pub open spec fn is_known(c: char) -> bool {
    is_digit(c) || is_blank(c) || c == '+' || c == '-' || c == '*' || c == '/' || c == '('
        || c == ')'
}

/// The number that the digit `c` denotes.
pub open spec fn digit_value(c: char) -> nat
    recommends
        is_digit(c),
{
    (c as int - '0' as int) as nat
}

/// Whether `s` holds digits only.
pub open spec fn all_digits(s: Seq<char>) -> bool {
    forall|i: int| 0 <= i < s.len() ==> is_digit(#[trigger] s[i])
}

/// The number that a run of decimal digits denotes.
pub open spec fn digits_value(s: Seq<char>) -> nat
    decreases s.len(),
{
    if s.len() == 0 {
        0
    } else {
        digits_value(s.drop_last()) * 10 + digit_value(s.last())
    }
}

/// Whether `v` is in the range of `i32`.
pub open spec fn fits_i32(v: int) -> bool {
    i32::MIN <= v <= i32::MAX
}

/// The token for a run of digits `s` under the sign factor `sgn`.
pub open spec fn number_token(s: Seq<char>, sgn: int) -> Result<Token, LexError> {
    if s.len() > 0 && all_digits(s) && fits_i32(sgn * digits_value(s)) {
        Ok(Token::Num((sgn * digits_value(s)) as i32))
    } else {
        Err(LexError::InvalidNumber)
    }
}

/// The state of a scan.
pub struct LexState {
    /// The tokens emitted so far.
    pub tokens: Seq<Token>,
    /// The digits of the number being read.
    pub digits: Seq<char>,
    /// Whether an odd number of unary minus signs awaits the next value.
    pub negative: bool,
    /// The count of `(` read so far minus that of `)`.
    pub depth: int,
    /// For each group that is open, whether a unary minus negates it.
    pub groups: Seq<bool>,
}

impl LexState {
    /// The state before the first character.
    pub open spec fn start() -> LexState {
        LexState {
            tokens: Seq::empty(),
            digits: Seq::empty(),
            negative: false,
            depth: 0,
            groups: Seq::empty(),
        }
    }

    /// The pending sign as a factor.
    pub open spec fn sign(self) -> int {
        if self.negative {
            -1
        } else {
            1
        }
    }

    /// The state with the token `t` emitted.
    pub open spec fn emit(self, t: Token) -> LexState {
        LexState { tokens: self.tokens.push(t), ..self }
    }

    /// Ends the number being read, if there is one: it becomes a token that
    /// carries the pending sign, and the sign is used up.
    pub open spec fn flush(self) -> Result<LexState, LexError> {
        if self.digits.len() == 0 {
            Ok(self)
        } else if fits_i32(self.sign() * digits_value(self.digits)) {
            Ok(
                LexState {
                    tokens: self.tokens.push(
                        Token::Num((self.sign() * digits_value(self.digits)) as i32),
                    ),
                    digits: Seq::empty(),
                    negative: false,
                    ..self
                },
            )
        } else {
            Err(LexError::InvalidNumber)
        }
    }

    /// Whether a value has just ended, so that a minus sign is binary.
    pub open spec fn value_ended(self) -> bool {
        self.digits.len() > 0 || (self.tokens.len() > 0 && (self.tokens.last() is Num
            || self.tokens.last() is RightPar))
    }

    /// Reads `(`. Under a pending minus the group is negated: its value is
    /// subtracted from zero inside a group of its own.
    pub open spec fn open_group(self) -> LexState {
        if self.negative {
            LexState {
                tokens: self.tokens.push(Token::LeftPar).push(Token::Num(0)).push(
                    Token::Minus,
                ).push(Token::LeftPar),
                negative: false,
                depth: self.depth + 1,
                groups: self.groups.push(true),
                ..self
            }
        } else {
            LexState {
                tokens: self.tokens.push(Token::LeftPar),
                depth: self.depth + 1,
                groups: self.groups.push(false),
                ..self
            }
        }
    }

    /// Reads `)`. Where it ends a negated group, the group around the
    /// subtraction is closed too.
    pub open spec fn close_group(self) -> LexState {
        if self.groups.len() > 0 && self.groups.last() {
            LexState {
                tokens: self.tokens.push(Token::RightPar).push(Token::RightPar),
                depth: self.depth - 1,
                groups: self.groups.drop_last(),
                ..self
            }
        } else if self.groups.len() > 0 {
            LexState {
                tokens: self.tokens.push(Token::RightPar),
                depth: self.depth - 1,
                groups: self.groups.drop_last(),
                ..self
            }
        } else {
            LexState { tokens: self.tokens.push(Token::RightPar), depth: self.depth - 1, ..self }
        }
    }

    /// Reads one character.
    pub open spec fn step(self, c: char) -> Result<LexState, LexError> {
        if is_digit(c) {
            Ok(LexState { digits: self.digits.push(c), ..self })
        } else if c == '-' && !self.value_ended() {
            Ok(LexState { negative: !self.negative, ..self })
        } else {
            match self.flush() {
                Err(e) => Err(e),
                Ok(st) => if is_blank(c) {
                    Ok(st)
                } else if c == '+' {
                    Ok(st.emit(Token::Add))
                } else if c == '-' {
                    Ok(st.emit(Token::Minus))
                } else if c == '*' {
                    Ok(st.emit(Token::Multi))
                } else if c == '/' {
                    Ok(st.emit(Token::Div))
                } else if c == '(' {
                    Ok(st.open_group())
                } else if c == ')' {
                    Ok(st.close_group())
                } else {
                    Err(LexError::UnknownChar(c))
                },
            }
        }
    }

    /// Reads the characters of `s` in order. The first error ends the scan.
    pub open spec fn run(self, s: Seq<char>) -> Result<LexState, LexError>
        decreases s.len(),
    {
        if s.len() == 0 {
            Ok(self)
        } else {
            match self.step(s.first()) {
                Ok(st) => st.run(s.drop_first()),
                Err(e) => Err(e),
            }
        }
    }

    /// Ends the scan: the last number is flushed, and the parentheses must
    /// balance.
    pub open spec fn finish(self) -> Result<Seq<Token>, LexError> {
        match self.flush() {
            Err(e) => Err(e),
            Ok(st) => if st.depth == 0 {
                Ok(st.tokens)
            } else {
                Err(LexError::UnbalancedParen)
            },
        }
    }
}

/// The tokens of the text `s`, or the first error of its scan.
pub open spec fn lex_spec(s: Seq<char>) -> Result<Seq<Token>, LexError> {
    match LexState::start().run(s) {
        Ok(st) => st.finish(),
        Err(e) => Err(e),
    }
}

/// A scan of `a` followed by `b` is a scan of `a` continued by one of `b`.
pub proof fn lemma_run_concat(st: LexState, a: Seq<char>, b: Seq<char>)
    ensures
        st.run(a + b) == match st.run(a) {
            Ok(mid) => mid.run(b),
            Err(e) => Err(e),
        },
    decreases a.len(),
{
    if a.len() > 0 {
        assert((a + b).drop_first() =~= a.drop_first() + b);
        match st.step(a.first()) {
            Ok(next) => lemma_run_concat(next, a.drop_first(), b),
            Err(_) => {},
        }
    }
}

/// A scan of `s` followed by the character `c` is a scan of `s` and one step.
pub proof fn lemma_run_push(st: LexState, s: Seq<char>, c: char)
    ensures
        st.run(s.push(c)) == match st.run(s) {
            Ok(mid) => mid.step(c),
            Err(e) => Err(e),
        },
{
    lemma_run_concat(st, s, seq![c]);
    assert(s.push(c) =~= s + seq![c]);
    match st.run(s) {
        Ok(mid) => {
            assert(seq![c].drop_first() =~= Seq::<char>::empty());
            match mid.step(c) {
                Ok(next) => {
                    assert(next.run(Seq::<char>::empty()) == Ok::<LexState, LexError>(next));
                },
                Err(_) => {},
            }
        },
        Err(_) => {},
    }
}

/// Appending a digit to a run of digits multiplies its value by ten and adds
/// the digit.
pub proof fn lemma_digits_value_push(s: Seq<char>, c: char)
    ensures
        digits_value(s.push(c)) == digits_value(s) * 10 + digit_value(c),
{
    assert(s.push(c).drop_last() =~= s);
}

/// The number that `c` denotes, where it is a digit.
fn digit_of(c: char) -> (r: Option<u64>)
    ensures
        r is Some <==> is_digit(c),
        r matches Some(d) ==> d == digit_value(c) && d <= 9,
{
    if c >= '0' && c <= '9' {
        Some((c as u32 - '0' as u32) as u64)
    } else {
        None
    }
}

/// Turns a run of digits and a sign factor into a number token. It is an
/// invalid number where the run is empty, where it holds anything but
/// digits, or where its value times `sgn` does not fit in an `i32`.
pub fn str_2_num_token(s: &Vec<char>, sgn: i32) -> (r: Result<Token, LexError>)
    ensures
        r == number_token(s@, sgn as int),
{
    if s.len() == 0 {
        return Err(LexError::InvalidNumber);
    }
    // every value above this bound is out of range under any sign but zero
    let cap: u64 = 0x8000_0001;
    let mut acc: u64 = 0;
    let mut i: usize = 0;
    while i < s.len()
        invariant
            0 <= i <= s.len(),
            cap == 0x8000_0001,
            all_digits(s@.take(i as int)),
            acc <= cap,
            acc < cap ==> acc == digits_value(s@.take(i as int)),
            acc == cap ==> digits_value(s@.take(i as int)) >= cap,
        decreases s.len() - i,
    {
        proof {
            assert(s@.take(i as int + 1) =~= s@.take(i as int).push(s@[i as int]));
            lemma_digits_value_push(s@.take(i as int), s@[i as int]);
        }
        match digit_of(s[i]) {
            None => {
                return Err(LexError::InvalidNumber);
            },
            Some(d) => {
                let next = acc * 10 + d;
                acc = if next < cap {
                    next
                } else {
                    cap
                };
            },
        }
        i = i + 1;
    }
    proof {
        assert(s@.take(i as int) =~= s@);
    }
    let ghost v = digits_value(s@) as int;
    if acc < cap {
        let wide: i64 = sgn as i64;
        assert(-0x8000_0000 * 0x8000_0000 <= wide * acc <= 0x8000_0000 * 0x8000_0000)
            by (nonlinear_arith)
            requires
                -0x8000_0000 <= wide <= 0x7fff_ffff,
                0 <= acc <= 0x8000_0000,
        ;
        let prod: i64 = wide * (acc as i64);
        if prod < -0x8000_0000 || prod > 0x7fff_ffff {
            Err(LexError::InvalidNumber)
        } else {
            Ok(Token::Num(prod as i32))
        }
    } else if sgn == 0 {
        assert(sgn as int * v == 0) by (nonlinear_arith)
            requires
                sgn == 0,
        ;
        Ok(Token::Num(0))
    } else {
        assert(!fits_i32(sgn as int * v)) by (nonlinear_arith)
            requires
                sgn != 0,
                v >= 0x8000_0001,
        ;
        Err(LexError::InvalidNumber)
    }
}

/// The tokenizer at work: a [`LexState`] held in vectors and machine
/// integers.
struct Scanner {
    tokens: Vec<Token>,
    curr: Vec<char>,
    sgn: i32,
    opens: usize,
    closes: usize,
    groups: Vec<bool>,
}

impl Scanner {
    /// The state that the scanner holds.
    spec fn state(&self) -> LexState {
        LexState {
            tokens: self.tokens@,
            digits: self.curr@,
            negative: self.sgn == -1,
            depth: self.opens - self.closes,
            groups: self.groups@,
        }
    }

    /// The sign is a unit, the buffer holds digits only, and each
    /// parenthesis counted has left a token.
    spec fn wf(&self) -> bool {
        &&& self.sgn == 1 || self.sgn == -1
        &&& all_digits(self.curr@)
        &&& self.opens <= self.tokens.len()
        &&& self.closes <= self.tokens.len()
    }

    /// A scanner before the first character.
    fn new() -> (sc: Scanner)
        ensures
            sc.wf(),
            sc.state() == LexState::start(),
    {
        Scanner {
            tokens: Vec::new(),
            curr: Vec::new(),
            sgn: 1,
            opens: 0,
            closes: 0,
            groups: Vec::new(),
        }
    }

    /// Ends the number being read, if there is one.
    fn push_num(&mut self) -> (r: Result<(), LexError>)
        requires
            old(self).wf(),
        ensures
            match old(self).state().flush() {
                Ok(st) => r is Ok && final(self).wf() && final(self).state() == st,
                Err(e) => r == Err::<(), LexError>(e),
            },
    {
        if self.curr.len() != 0 {
            match str_2_num_token(&self.curr, self.sgn) {
                Ok(t) => {
                    self.tokens.push(t);
                    self.curr = Vec::new();
                    self.sgn = 1;
                    Ok(())
                },
                Err(e) => Err(e),
            }
        } else {
            Ok(())
        }
    }

    /// Whether a minus sign read now is binary.
    fn value_ended(&self) -> (b: bool)
        ensures
            b == self.state().value_ended(),
    {
        if self.curr.len() > 0 {
            true
        } else if self.tokens.len() > 0 {
            match self.tokens[self.tokens.len() - 1] {
                Token::Num(_) | Token::RightPar => true,
                _ => false,
            }
        } else {
            false
        }
    }

    /// Reads `(`.
    fn open_group(&mut self)
        requires
            old(self).wf(),
        ensures
            final(self).wf(),
            final(self).state() == old(self).state().open_group(),
    {
        if self.sgn == -1 {
            self.tokens.push(Token::LeftPar);
            self.tokens.push(Token::Num(0));
            self.tokens.push(Token::Minus);
            self.sgn = 1;
            self.groups.push(true);
        } else {
            self.groups.push(false);
        }
        self.tokens.push(Token::LeftPar);
        // the parenthesis has left a token, so the count cannot overflow
        let emitted = self.tokens.len();
        assert(self.opens < emitted);
        self.opens = self.opens + 1;
    }

    /// Reads `)`.
    fn close_group(&mut self)
        requires
            old(self).wf(),
        ensures
            final(self).wf(),
            final(self).state() == old(self).state().close_group(),
    {
        self.tokens.push(Token::RightPar);
        // the parenthesis has left a token, so the count cannot overflow
        let emitted = self.tokens.len();
        assert(self.closes < emitted);
        self.closes = self.closes + 1;
        match self.groups.pop() {
            Some(negated) => {
                if negated {
                    self.tokens.push(Token::RightPar);
                }
            },
            None => {},
        }
    }

    /// Reads one character.
    fn feed(&mut self, c: char) -> (r: Result<(), LexError>)
        requires
            old(self).wf(),
        ensures
            match old(self).state().step(c) {
                Ok(st) => r is Ok && final(self).wf() && final(self).state() == st,
                Err(e) => r == Err::<(), LexError>(e),
            },
    {
        if c >= '0' && c <= '9' {
            self.curr.push(c);
            return Ok(());
        }
        if c == '-' && !self.value_ended() {
            self.sgn = -self.sgn;
            return Ok(());
        }
        match self.push_num() {
            Err(e) => {
                return Err(e);
            },
            Ok(()) => {},
        }
        if c == ' ' || c == '\t' || c == '\n' || c == '\r' {
        } else if c == '+' {
            self.tokens.push(Token::Add);
        } else if c == '-' {
            self.tokens.push(Token::Minus);
        } else if c == '*' {
            self.tokens.push(Token::Multi);
        } else if c == '/' {
            self.tokens.push(Token::Div);
        } else if c == '(' {
            self.open_group();
        } else if c == ')' {
            self.close_group();
        } else {
            return Err(LexError::UnknownChar(c));
        }
        Ok(())
    }

    /// Ends the scan and hands out the tokens.
    fn finish(self) -> (r: Result<Vec<Token>, LexError>)
        requires
            self.wf(),
        ensures
            match self.state().finish() {
                Ok(ts) => r matches Ok(v) && v@ == ts,
                Err(e) => r matches Err(x) && x == e,
            },
    {
        let mut sc = self;
        match sc.push_num() {
            Err(e) => {
                return Err(e);
            },
            Ok(()) => {},
        }
        if sc.opens == sc.closes {
            Ok(sc.tokens)
        } else {
            Err(LexError::UnbalancedParen)
        }
    }
}

/// Tokenizes `expr`: the result is [`lex_spec`] of its characters. Where
/// `expr` is the text of a tree, the tokens are its infix notation.
pub fn lexer(expr: &str) -> (r: Result<Vec<Token>, LexError>)
    ensures
        match lex_spec(expr@) {
            Ok(ts) => r matches Ok(v) && v@ == ts,
            Err(e) => r matches Err(x) && x == e,
        },
        forall|t: Node| #[trigger] t.text() == expr@ ==> (r matches Ok(v) && v@ == t.infix()),
{
    proof {
        assert forall|t: Node| #[trigger] t.text() == expr@ implies lex_spec(expr@) == Ok::<
            Seq<Token>,
            LexError,
        >(t.infix()) by {
            lemma_lex_text(t);
        }
    }
    let mut sc = Scanner::new();
    for c in it: expr.chars()
        invariant
            it.seq() == expr@,
            sc.wf(),
            LexState::start().run(expr@.take(it.index())) == Ok::<LexState, LexError>(sc.state()),
            forall|t: Node| #[trigger]
                t.text() == expr@ ==> lex_spec(expr@) == Ok::<Seq<Token>, LexError>(t.infix()),
    {
        let ghost i = it.index();
        proof {
            assert(expr@.take(i + 1) =~= expr@.take(i).push(c));
            lemma_run_push(LexState::start(), expr@.take(i), c);
        }
        match sc.feed(c) {
            Ok(()) => {},
            Err(e) => {
                proof {
                    assert(expr@ =~= expr@.take(i + 1) + expr@.skip(i + 1));
                    lemma_run_concat(LexState::start(), expr@.take(i + 1), expr@.skip(i + 1));
                }
                return Err(e);
            },
        }
    }
    proof {
        assert(expr@.take(expr@.len() as int) =~= expr@);
    }
    sc.finish()
}

} // verus!
