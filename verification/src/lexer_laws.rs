//! What holds of every scan: numbers are read back, blanks between tokens
//! change nothing, unknown characters and unbalanced parentheses fail.
use crate::decimal::{decimal, decimal_digits, lemma_decimal_digits};
use crate::grammar::{operator_char, Shape};
use crate::lexer::{
    all_digits, is_blank, is_digit, is_known, lemma_run_concat, lemma_run_push, lex_spec,
    LexError, LexState, Token,
};
use crate::parser::Node;
use vstd::prelude::*;

verus! {

/// A scan of one character is one step.
pub proof fn lemma_run_one(st: LexState, c: char)
    ensures
        st.run(seq![c]) == st.step(c),
{
    assert(seq![c].drop_first() =~= Seq::<char>::empty());
    match st.step(c) {
        Ok(next) => {
            assert(next.run(Seq::<char>::empty()) == Ok::<LexState, LexError>(next));
        },
        Err(_) => {},
    }
}

/// A run of digits is read into the digit buffer, and nothing else changes.
pub proof fn lemma_run_digits(st: LexState, ds: Seq<char>)
    requires
        all_digits(ds),
    ensures
        st.run(ds) == Ok::<LexState, LexError>(LexState { digits: st.digits + ds, ..st }),
    decreases ds.len(),
{
    if ds.len() > 0 {
        let next = LexState { digits: st.digits.push(ds.first()), ..st };
        assert forall|i: int| 0 <= i < ds.drop_first().len() implies is_digit(
            #[trigger] ds.drop_first()[i],
        ) by {}
        lemma_run_digits(next, ds.drop_first());
        assert(next.digits + ds.drop_first() =~= st.digits + ds);
    }
}

impl LexState {
    /// Whether the scan awaits a value: no digits and no sign are pending,
    /// and a minus sign would be unary.
    pub open spec fn awaits_value(self) -> bool {
        self.digits.len() == 0 && !self.negative && !self.value_ended()
    }

    /// The state with the tokens `ts` emitted.
    pub open spec fn emit_all(self, ts: Seq<Token>) -> LexState {
        LexState { tokens: self.tokens + ts, ..self }
    }
}

/// The magnitude of `n`.
pub open spec fn magnitude(n: int) -> nat {
    if n < 0 {
        (-n) as nat
    } else {
        n as nat
    }
}

/// Where a minus sign would be unary, the decimal notation of any `i32` is
/// read into the pending sign and the pending digits: a negative number
/// toggles the sign, and the digits are those of the magnitude.
pub proof fn lemma_run_signed_digits(st: LexState, n: i32)
    requires
        st.digits.len() == 0,
        !st.value_ended(),
    ensures
        st.run(decimal(n as int)) == Ok::<LexState, LexError>(
            LexState {
                negative: st.negative != (n < 0),
                digits: decimal_digits(magnitude(n as int)),
                ..st
            },
        ),
{
    let ds = decimal_digits(magnitude(n as int));
    lemma_decimal_digits(magnitude(n as int));
    let signed = LexState { negative: st.negative != (n < 0), ..st };
    if n < 0 {
        lemma_run_concat(st, seq!['-'], ds);
        lemma_run_one(st, '-');
    }
    lemma_run_digits(signed, ds);
}

/// Where a value is awaited, the decimal notation of any `i32` is read as
/// that number: ending it emits its token.
pub proof fn lemma_run_decimal(st: LexState, n: i32)
    requires
        st.awaits_value(),
    ensures
        st.run(decimal(n as int)) matches Ok(end) && end.flush() == Ok::<LexState, LexError>(
            st.emit_all(seq![Token::Num(n)]),
        ),
{
    lemma_decimal_digits(magnitude(n as int));
    lemma_run_signed_digits(st, n);
    assert(st.tokens.push(Token::Num(n)) =~= st.tokens + seq![Token::Num(n)]);
    assert(st.digits =~= Seq::<char>::empty());
}

/// The decimal notation of any `i32` is tokenized to that one number.
pub proof fn lemma_lex_decimal(n: i32)
    ensures
        lex_spec(decimal(n as int)) == Ok::<Seq<Token>, LexError>(seq![Token::Num(n)]),
{
    lemma_run_decimal(LexState::start(), n);
}

/// The infix notation of a tree ends in a number or a closing parenthesis.
pub proof fn lemma_infix_ends_in_value(t: Node)
    ensures
        t.infix().len() > 0,
        t.infix().last() is Num || t.infix().last() is RightPar,
    decreases t,
{
    match t.shape() {
        Shape::Literal(_) => {},
        Shape::Group(_) => {},
        Shape::Binary(_, _, r) => {
            lemma_infix_ends_in_value(r);
        },
    }
}

/// Where a value is awaited, the text of a tree is read as the tokens of
/// its infix notation, once the last number is ended.
pub proof fn lemma_run_text(t: Node, st: LexState)
    requires
        st.awaits_value(),
    ensures
        st.run(t.text()) matches Ok(end) && end.flush() == Ok::<LexState, LexError>(
            st.emit_all(t.infix()),
        ),
    decreases t,
{
    match t.shape() {
        Shape::Literal(n) => {
            lemma_run_decimal(st, n);
        },
        Shape::Group(inner) => {
            let opened = st.open_group();
            lemma_run_concat(st, seq!['('] + inner.text(), seq![')']);
            lemma_run_concat(st, seq!['('], inner.text());
            lemma_run_one(st, '(');
            assert(st.step('(') == Ok::<LexState, LexError>(opened));
            lemma_run_text(inner, opened);
            let mid = opened.run(inner.text())->Ok_0;
            let flushed = opened.emit_all(inner.infix());
            lemma_run_one(mid, ')');
            lemma_flush_before_step(mid, ')');
            let end = flushed.close_group();
            assert(flushed.step(')') == Ok::<LexState, LexError>(end));
            assert(end.groups =~= st.groups);
            assert(end.tokens =~= st.tokens + t.infix());
        },
        Shape::Binary(op, l, r) => {
            let c = operator_char(op);
            lemma_run_concat(st, l.text() + seq![c], r.text());
            lemma_run_concat(st, l.text(), seq![c]);
            lemma_run_text(l, st);
            lemma_infix_ends_in_value(l);
            let mid = st.run(l.text())->Ok_0;
            let flushed = st.emit_all(l.infix());
            lemma_run_one(mid, c);
            let after = flushed.emit(op);
            lemma_run_text(r, after);
            assert(after.tokens + r.infix() =~= st.tokens + t.infix());
        },
    }
}

/// The text of any tree is tokenized to its infix notation.
pub proof fn lemma_lex_text(t: Node)
    ensures
        lex_spec(t.text()) == Ok::<Seq<Token>, LexError>(t.infix()),
{
    lemma_run_text(t, LexState::start());
}

/// A minus sign in front of a number negates it: the text of `n` behind a
/// minus sign is tokenized to the number `-n`, and is refused where `-n`
/// does not fit in an `i32`.
pub proof fn lemma_lex_minus_decimal(n: i32)
    ensures
        lex_spec(seq!['-'] + decimal(n as int)) == if n == i32::MIN {
            Err::<Seq<Token>, LexError>(LexError::InvalidNumber)
        } else {
            Ok::<Seq<Token>, LexError>(seq![Token::Num((-n) as i32)])
        },
{
    let start = LexState::start();
    let signed = LexState { negative: true, ..start };
    lemma_decimal_digits(magnitude(n as int));
    lemma_run_concat(start, seq!['-'], decimal(n as int));
    lemma_run_one(start, '-');
    lemma_run_signed_digits(signed, n);
}

/// A minus sign in front of a group negates the group: the text of `t` in
/// parentheses behind a minus sign is tokenized to the infix notation of
/// the negation of `t`, in which the group is subtracted from zero.
pub proof fn lemma_lex_minus_group(t: Node)
    ensures
        lex_spec(seq!['-', '('] + t.text() + seq![')']) == Ok::<Seq<Token>, LexError>(
            t.negation().infix(),
        ),
{
    let start = LexState::start();
    let signed = LexState { negative: true, ..start };
    let opened = signed.open_group();
    lemma_run_concat(start, seq!['-', '('] + t.text(), seq![')']);
    lemma_run_concat(start, seq!['-', '('], t.text());
    assert(seq!['-', '('] =~= seq!['-'].push('('));
    lemma_run_push(start, seq!['-'], '(');
    lemma_run_one(start, '-');
    assert(signed.step('(') == Ok::<LexState, LexError>(opened));
    lemma_run_text(t, opened);
    let mid = opened.run(t.text())->Ok_0;
    let flushed = opened.emit_all(t.infix());
    lemma_run_one(mid, ')');
    lemma_flush_before_step(mid, ')');
    let end = flushed.close_group();
    assert(flushed.step(')') == Ok::<LexState, LexError>(end));
    let inner = Node::binary(Token::Minus, Node::literal(0), Node::group(t));
    assert(inner.infix() == Node::literal(0).infix() + seq![Token::Minus] + Node::group(
        t,
    ).infix());
    assert(end.tokens =~= t.negation().infix());
}

/// After a scan that began with an empty digit buffer, digits are pending
/// exactly when the text ends in a digit.
pub proof fn lemma_pending_digits(st: LexState, s: Seq<char>)
    requires
        st.digits.len() == 0,
    ensures
        st.run(s) matches Ok(end) ==> (end.digits.len() > 0 <==> s.len() > 0 && is_digit(
            s.last(),
        )),
{
    if s.len() > 0 {
        let head = s.drop_last();
        assert(s =~= head.push(s.last()));
        lemma_run_push(st, head, s.last());
    }
}

/// In front of a character that is no digit, ending the pending number
/// first changes nothing.
pub proof fn lemma_flush_before_step(st: LexState, c: char)
    requires
        !is_digit(c),
    ensures
        st.step(c) == match st.flush() {
            Ok(flushed) => flushed.step(c),
            Err(e) => Err(e),
        },
{
}

/// The text `s` with the character `b` put in at position `i`.
pub open spec fn insert_at(s: Seq<char>, i: int, b: char) -> Seq<char>
    recommends
        0 <= i <= s.len(),
{
    s.take(i).push(b) + s.skip(i)
}

/// Blanks are insignificant: a blank put in anywhere but between two digits
/// leaves the result of the tokenizer as it was, tokens and errors alike.
pub proof fn lemma_blank_is_insignificant(s: Seq<char>, i: int, b: char)
    requires
        0 <= i <= s.len(),
        is_blank(b),
        !(0 < i < s.len() && is_digit(s[i - 1]) && is_digit(s[i])),
    ensures
        lex_spec(insert_at(s, i, b)) == lex_spec(s),
{
    let start = LexState::start();
    let head = s.take(i);
    let tail = s.skip(i);
    assert(s =~= head + tail);
    lemma_run_concat(start, head, tail);
    lemma_run_concat(start, head.push(b), tail);
    lemma_run_push(start, head, b);
    lemma_pending_digits(start, head);
    // where digits are pending at `i`, the text ends there or goes on with
    // a character that ends the number as the blank does
    match start.run(head) {
        Ok(mid) => {
            if mid.digits.len() > 0 && tail.len() > 0 {
                lemma_flush_before_step(mid, tail.first());
            }
        },
        Err(_) => {},
    }
}

/// A scan of known characters can fail on a number only.
pub proof fn lemma_known_chars_scan(st: LexState, s: Seq<char>)
    requires
        forall|j: int| 0 <= j < s.len() ==> is_known(#[trigger] s[j]),
    ensures
        st.run(s) is Ok || st.run(s) == Err::<LexState, LexError>(LexError::InvalidNumber),
    decreases s.len(),
{
    if s.len() > 0 {
        match st.step(s.first()) {
            Ok(next) => {
                assert forall|j: int| 0 <= j < s.drop_first().len() implies is_known(
                    #[trigger] s.drop_first()[j],
                ) by {}
                lemma_known_chars_scan(next, s.drop_first());
            },
            Err(_) => {},
        }
    }
}

/// An unknown character always fails the tokenizer. Where `i` is the place
/// of the first one, the error names that character, unless a number in
/// front of it is out of range: then that number is the error.
pub proof fn lemma_unknown_char_fails(s: Seq<char>, i: int)
    requires
        0 <= i < s.len(),
        !is_known(s[i]),
        forall|j: int| 0 <= j < i ==> is_known(#[trigger] s[j]),
    ensures
        lex_spec(s) == Err::<Seq<Token>, LexError>(LexError::UnknownChar(s[i])) || lex_spec(s)
            == Err::<Seq<Token>, LexError>(LexError::InvalidNumber),
        lex_spec(s) == Err::<Seq<Token>, LexError>(LexError::UnknownChar(s[i])) <==> lex_spec(
            s.take(i),
        ) != Err::<Seq<Token>, LexError>(LexError::InvalidNumber),
{
    let start = LexState::start();
    let head = s.take(i);
    let tail = s.skip(i + 1);
    assert(s =~= head.push(s[i]) + tail);
    lemma_run_concat(start, head.push(s[i]), tail);
    lemma_run_push(start, head, s[i]);
    lemma_known_chars_scan(start, head);
}

/// An unknown character anywhere in the text fails the tokenizer, whatever
/// stands before and after it.
pub proof fn lemma_any_unknown_char_fails(s: Seq<char>, i: int)
    requires
        0 <= i < s.len(),
        !is_known(s[i]),
    ensures
        lex_spec(s) is Err,
        lex_spec(s) != Err::<Seq<Token>, LexError>(LexError::UnbalancedParen),
    decreases i,
{
    if forall|j: int| 0 <= j < i ==> is_known(#[trigger] s[j]) {
        lemma_unknown_char_fails(s, i);
    } else {
        let j = choose|j: int| 0 <= j < i && !is_known(#[trigger] s[j]);
        lemma_any_unknown_char_fails(s, j);
    }
}

/// The count of `(` in `s` minus that of `)`.
pub open spec fn paren_balance(s: Seq<char>) -> int
    decreases s.len(),
{
    if s.len() == 0 {
        0
    } else if s.last() == '(' {
        paren_balance(s.drop_last()) + 1
    } else if s.last() == ')' {
        paren_balance(s.drop_last()) - 1
    } else {
        paren_balance(s.drop_last())
    }
}

/// The depth of a scan follows the parentheses of the text.
pub proof fn lemma_depth_is_balance(st: LexState, s: Seq<char>)
    ensures
        st.run(s) matches Ok(end) ==> end.depth == st.depth + paren_balance(s),
    decreases s.len(),
{
    if s.len() > 0 {
        let head = s.drop_last();
        assert(s =~= head.push(s.last()));
        lemma_run_push(st, head, s.last());
        lemma_depth_is_balance(st, head);
    }
}

/// A scan never fails for want of balance: that is judged at the end.
pub proof fn lemma_scan_ignores_balance(st: LexState, s: Seq<char>)
    ensures
        st.run(s) != Err::<LexState, LexError>(LexError::UnbalancedParen),
    decreases s.len(),
{
    if s.len() > 0 {
        match st.step(s.first()) {
            Ok(next) => lemma_scan_ignores_balance(next, s.drop_first()),
            Err(_) => {},
        }
    }
}

/// Unbalanced parentheses always fail the tokenizer, and a text whose
/// parentheses balance never fails for that reason.
pub proof fn lemma_unbalanced_fails(s: Seq<char>)
    ensures
        paren_balance(s) != 0 ==> lex_spec(s) is Err,
        lex_spec(s) == Err::<Seq<Token>, LexError>(LexError::UnbalancedParen) ==> paren_balance(s)
            != 0,
        paren_balance(s) != 0 && (forall|j: int| 0 <= j < s.len() ==> is_known(#[trigger] s[j]))
            ==> lex_spec(s) == Err::<Seq<Token>, LexError>(LexError::UnbalancedParen)
            || lex_spec(s) == Err::<Seq<Token>, LexError>(LexError::InvalidNumber),
{
    lemma_depth_is_balance(LexState::start(), s);
    lemma_scan_ignores_balance(LexState::start(), s);
    if forall|j: int| 0 <= j < s.len() ==> is_known(#[trigger] s[j]) {
        lemma_known_chars_scan(LexState::start(), s);
    }
}

} // verus!
