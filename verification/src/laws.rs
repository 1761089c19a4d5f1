//! Laws of the language, stated and proved against the specification
//! functions that the lexer's and interpreter's contracts use.

use vstd::prelude::*;

use crate::interpreter::{
    drop_bytes, dup_bytes, spec_lookup_word, spec_run, spec_step, spec_word, swap_bytes, BinOp,
    ErrorView, MachineView, ValueView, Word,
};
use crate::lexer::{
    digits_acc, is_digit, is_token_start, lemma_run_end, pow10_clamp, run_end, spec_next_token,
    spec_tokens_from, token_start_from, ByteClass, TokenView, B_DOT, B_MINUS,
};
use crate::number::{lemma_ten_pow_mono, lemma_ten_pow_pos, spec_div, ten_pow, Number, DEN_LIMIT, NUM_LIMIT};

verus! {

/// The machine before any token has run: empty stack, no output.
pub open spec fn empty_machine() -> MachineView {
    MachineView { stack: Seq::empty(), output: Seq::empty() }
}

/// Running a number `a`, a number `b` other than zero, and `/` on the empty
/// machine succeeds and leaves exactly the quotient `a / b` on the stack,
/// printing nothing.
pub proof fn lemma_division_runs(a: Number, b: Number)
    requires
        a.wf(),
        b.wf(),
        !b.is_zero(),
    ensures
        spec_run(
            empty_machine(),
            seq![
                TokenView::NumberLiteral(a),
                TokenView::NumberLiteral(b),
                TokenView::Slash,
            ],
        ).1 == Ok::<(), ErrorView>(()),
        spec_run(
            empty_machine(),
            seq![
                TokenView::NumberLiteral(a),
                TokenView::NumberLiteral(b),
                TokenView::Slash,
            ],
        ).0.stack == seq![ValueView::Number(spec_div(a, b))],
        spec_run(
            empty_machine(),
            seq![
                TokenView::NumberLiteral(a),
                TokenView::NumberLiteral(b),
                TokenView::Slash,
            ],
        ).0.output == Seq::<Seq<u8>>::empty(),
{
    reveal_with_fuel(spec_run, 5);
    let ts = seq![TokenView::NumberLiteral(a), TokenView::NumberLiteral(b), TokenView::Slash];
    let s1 = spec_step(empty_machine(), ts[0])->Ok_0;
    let s2 = spec_step(s1, ts[1])->Ok_0;
    assert(ts.drop_first() =~= seq![TokenView::NumberLiteral(b), TokenView::Slash]);
    assert(ts.drop_first().drop_first() =~= seq![TokenView::Slash]);
    assert(ts.drop_first().drop_first().drop_first() =~= Seq::<TokenView>::empty());
    assert(s2.stack.len() == 2);
    assert(s2.stack[0] == ValueView::Number(a));
    assert(s2.stack.last() == ValueView::Number(b));
    let s3 = spec_word(s2, Word::Arith(BinOp::Div))->Ok_0;
    assert(s3.stack =~= seq![ValueView::Number(spec_div(a, b))]);
    assert(s3.output =~= Seq::<Seq<u8>>::empty());
}

/// Running a number `a`, the number zero, and `/` fails with division by
/// zero: execution halts with both operands still on the stack, no quotient
/// pushed and nothing printed.
pub proof fn lemma_division_by_zero_halts(a: Number, b: Number)
    requires
        a.wf(),
        b.wf(),
        b.is_zero(),
    ensures
        spec_run(
            empty_machine(),
            seq![
                TokenView::NumberLiteral(a),
                TokenView::NumberLiteral(b),
                TokenView::Slash,
            ],
        ).1 == Err::<(), ErrorView>(ErrorView::DivisionByZero),
        spec_run(
            empty_machine(),
            seq![
                TokenView::NumberLiteral(a),
                TokenView::NumberLiteral(b),
                TokenView::Slash,
            ],
        ).0.stack == seq![ValueView::Number(a), ValueView::Number(b)],
        spec_run(
            empty_machine(),
            seq![
                TokenView::NumberLiteral(a),
                TokenView::NumberLiteral(b),
                TokenView::Slash,
            ],
        ).0.output == Seq::<Seq<u8>>::empty(),
{
    reveal_with_fuel(spec_run, 5);
    let ts = seq![TokenView::NumberLiteral(a), TokenView::NumberLiteral(b), TokenView::Slash];
    let s1 = spec_step(empty_machine(), ts[0])->Ok_0;
    let s2 = spec_step(s1, ts[1])->Ok_0;
    assert(ts.drop_first() =~= seq![TokenView::NumberLiteral(b), TokenView::Slash]);
    assert(ts.drop_first().drop_first() =~= seq![TokenView::Slash]);
    assert(s2.stack.len() == 2);
    assert(s2.stack[0] == ValueView::Number(a));
    assert(s2.stack.last() == ValueView::Number(b));
    assert(s2.stack =~= seq![ValueView::Number(a), ValueView::Number(b)]);
    assert(s2.output =~= Seq::<Seq<u8>>::empty());
}

/// `dup` followed by `drop`, run through the word table, restores any
/// single-value stack exactly, whatever output has accumulated.
pub proof fn lemma_dup_then_drop_restores(v: ValueView, out: Seq<Seq<u8>>)
    ensures
        spec_run(
            MachineView { stack: seq![v], output: out },
            seq![TokenView::Identifier(dup_bytes()), TokenView::Identifier(drop_bytes())],
        ).1 == Ok::<(), ErrorView>(()),
        spec_run(
            MachineView { stack: seq![v], output: out },
            seq![TokenView::Identifier(dup_bytes()), TokenView::Identifier(drop_bytes())],
        ).0.stack == seq![v],
        spec_run(
            MachineView { stack: seq![v], output: out },
            seq![TokenView::Identifier(dup_bytes()), TokenView::Identifier(drop_bytes())],
        ).0.output == out,
{
    reveal_with_fuel(spec_run, 4);
    let m = MachineView { stack: seq![v], output: out };
    let ts = seq![TokenView::Identifier(dup_bytes()), TokenView::Identifier(drop_bytes())];
    assert(ts.drop_first() =~= seq![TokenView::Identifier(drop_bytes())]);
    assert(ts.drop_first().drop_first() =~= Seq::<TokenView>::empty());
    assert(spec_lookup_word(dup_bytes()) == Some(Word::Dup));
    assert(spec_lookup_word(drop_bytes()) == Some(Word::Drop));
    let s1 = spec_step(m, ts[0])->Ok_0;
    assert(s1.stack =~= seq![v, v]);
    let s2 = spec_step(s1, ts[1])->Ok_0;
    assert(s2.stack =~= seq![v]);
}

/// `swap` is its own inverse: running it twice through the word table
/// restores any stack of at least two values exactly.
pub proof fn lemma_swap_twice_restores(m: MachineView)
    requires
        m.stack.len() >= 2,
    ensures
        spec_run(
            m,
            seq![TokenView::Identifier(swap_bytes()), TokenView::Identifier(swap_bytes())],
        ).1 == Ok::<(), ErrorView>(()),
        spec_run(
            m,
            seq![TokenView::Identifier(swap_bytes()), TokenView::Identifier(swap_bytes())],
        ).0.stack == m.stack,
        spec_run(
            m,
            seq![TokenView::Identifier(swap_bytes()), TokenView::Identifier(swap_bytes())],
        ).0.output == m.output,
{
    reveal_with_fuel(spec_run, 4);
    let ts = seq![TokenView::Identifier(swap_bytes()), TokenView::Identifier(swap_bytes())];
    assert(ts.drop_first() =~= seq![TokenView::Identifier(swap_bytes())]);
    assert(ts.drop_first().drop_first() =~= Seq::<TokenView>::empty());
    assert(spec_lookup_word(swap_bytes()) == Some(Word::Swap));
    let s1 = spec_word(m, Word::Swap)->Ok_0;
    assert(s1.stack.len() == m.stack.len());
    let s2 = spec_word(s1, Word::Swap)->Ok_0;
    assert(s2.stack =~= m.stack);
}

/// An identifier that names no word fails with that name, before the stack
/// is inspected: the error is the same on every machine, the empty one
/// included, and never a stack underflow.
pub proof fn lemma_unknown_word_halts(m: MachineView, name: Seq<u8>)
    requires
        spec_lookup_word(name) is None,
    ensures
        spec_step(m, TokenView::Identifier(name)) == Err::<MachineView, ErrorView>(
            ErrorView::UnknownWord(name),
        ),
        spec_run(m, seq![TokenView::Identifier(name)]).1 == Err::<(), ErrorView>(
            ErrorView::UnknownWord(name),
        ),
        spec_run(m, seq![TokenView::Identifier(name)]).0.stack == m.stack,
        spec_run(m, seq![TokenView::Identifier(name)]).0.output == m.output,
{
}

/// On an empty stack every word — `print`, `dup`, `drop`, `swap` and each
/// binary operator — fails with a stack underflow and changes neither the
/// stack nor the output.
pub proof fn lemma_empty_stack_underflows(m: MachineView, w: Word)
    requires
        m.stack.len() == 0,
    ensures
        spec_word(m, w) == Err::<MachineView, ErrorView>(ErrorView::StackUnderflow),
{
}


/// The exact (unclamped) value of a run of ASCII digits.
pub open spec fn digits_math(s: Seq<u8>) -> int
    decreases s.len(),
{
    if s.len() == 0 {
        0
    } else {
        digits_math(s.drop_last()) * 10 + (s.last() - 48)
    }
}

/// Whether the literal carries a leading minus sign.
pub open spec fn lit_neg(s: Seq<u8>) -> bool {
    s.len() > 0 && s[0] == B_MINUS
}

/// The index of the literal's first digit.
pub open spec fn lit_start(s: Seq<u8>) -> nat {
    if lit_neg(s) {
        1
    } else {
        0
    }
}

/// The end of the literal's integer digit run.
pub open spec fn lit_int_end(s: Seq<u8>) -> nat {
    run_end(s, lit_start(s), ByteClass::Digit)
}

/// Whether the literal carries a fraction part after a dot.
pub open spec fn lit_has_frac(s: Seq<u8>) -> bool {
    lit_int_end(s) < s.len()
}

/// A well-formed number literal standing alone: an optional minus sign, at
/// least one digit, and optionally a dot followed by digits to the end.
pub open spec fn is_number_literal(s: Seq<u8>) -> bool {
    &&& lit_start(s) < s.len()
    &&& is_digit(s[lit_start(s) as int])
    &&& (lit_int_end(s) == s.len() || (s[lit_int_end(s) as int] == B_DOT && run_end(
        s,
        (lit_int_end(s) + 1) as nat,
        ByteClass::Digit,
    ) == s.len()))
}

/// The literal's mantissa: its integer and fraction digits, joined.
pub open spec fn lit_mant_bytes(s: Seq<u8>) -> Seq<u8> {
    if lit_has_frac(s) {
        s.subrange(lit_start(s) as int, lit_int_end(s) as int) + s.subrange(
            lit_int_end(s) as int + 1,
            s.len() as int,
        )
    } else {
        s.subrange(lit_start(s) as int, lit_int_end(s) as int)
    }
}

/// How many fraction digits the literal has.
pub open spec fn lit_frac_len(s: Seq<u8>) -> nat {
    if lit_has_frac(s) {
        (s.len() - (lit_int_end(s) + 1)) as nat
    } else {
        0
    }
}

/// The value of a digit run is never negative.
proof fn lemma_digits_math_nonneg(s: Seq<u8>)
    requires
        forall|i: int| 0 <= i < s.len() ==> is_digit(#[trigger] s[i]),
    ensures
        digits_math(s) >= 0,
    decreases s.len(),
{
    if s.len() > 0 {
        assert(forall|i: int|
            0 <= i < s.drop_last().len() ==> is_digit(#[trigger] s.drop_last()[i]));
        lemma_digits_math_nonneg(s.drop_last());
    }
}

/// Saturated accumulation agrees with the exact value whenever that value is
/// in range.
proof fn lemma_digits_acc_exact(s: Seq<u8>)
    requires
        forall|i: int| 0 <= i < s.len() ==> is_digit(#[trigger] s[i]),
        digits_math(s) <= NUM_LIMIT as int,
    ensures
        digits_acc(s) == digits_math(s),
    decreases s.len(),
{
    if s.len() > 0 {
        let t = s.drop_last();
        assert(forall|i: int| 0 <= i < t.len() ==> is_digit(#[trigger] t[i]));
        lemma_digits_math_nonneg(t);
        lemma_digits_acc_exact(t);
    }
}

/// The saturated power of ten agrees with the exact one for exponents up to
/// eighteen, where it still fits the denominator bound.
proof fn lemma_pow10_exact(k: nat)
    requires
        k <= 18,
    ensures
        pow10_clamp(k) == ten_pow(k),
        1 <= ten_pow(k) <= DEN_LIMIT as int,
    decreases k,
{
    reveal_with_fuel(ten_pow, 19);
    assert(ten_pow(18) == 1_000_000_000_000_000_000);
    lemma_ten_pow_pos(k);
    lemma_ten_pow_mono(k, 18);
    if k > 0 {
        lemma_pow10_exact((k - 1) as nat);
        lemma_ten_pow_mono((k - 1) as nat, 18);
    }
}

/// Lexing a well-formed number literal that stands alone, and whose value
/// and fraction length are within the representable range, yields exactly
/// one number token whose value is the literal's exact value: the joined
/// digits over ten to the number of fraction digits, negated under a leading
/// minus sign.
pub proof fn lemma_number_literal_lexes(s: Seq<u8>)
    requires
        is_number_literal(s),
        digits_math(lit_mant_bytes(s)) <= NUM_LIMIT as int,
        lit_frac_len(s) <= 18,
    ensures
        spec_tokens_from(s, 0) == seq![
            TokenView::NumberLiteral(
                Number {
                    num: (if lit_neg(s) {
                        -digits_math(lit_mant_bytes(s))
                    } else {
                        digits_math(lit_mant_bytes(s))
                    }) as i64,
                    den: ten_pow(lit_frac_len(s)) as u64,
                },
            )
        ],
{
    reveal_with_fuel(spec_tokens_from, 3);
    let st = lit_start(s);
    let d1 = lit_int_end(s);
    let mant = lit_mant_bytes(s);
    lemma_run_end(s, st, ByteClass::Digit);
    if lit_has_frac(s) {
        lemma_run_end(s, (d1 + 1) as nat, ByteClass::Digit);
    }
    assert forall|i: int| 0 <= i < mant.len() implies is_digit(#[trigger] mant[i]) by {
        let ilen = d1 - st;
        if i < ilen {
            assert(mant[i] == s[st + i]);
        } else {
            assert(mant[i] == s[d1 + 1 + (i - ilen)]);
        }
    }
    lemma_digits_math_nonneg(mant);
    lemma_digits_acc_exact(mant);
    lemma_pow10_exact(lit_frac_len(s));
    assert(is_token_start(s[0]));
    assert(token_start_from(s, 0) == 0);
    let tok = TokenView::NumberLiteral(
        Number {
            num: (if lit_neg(s) {
                -digits_math(mant)
            } else {
                digits_math(mant)
            }) as i64,
            den: ten_pow(lit_frac_len(s)) as u64,
        },
    );
    if lit_has_frac(s) {
        assert(s.subrange(st as int, d1 as int) + s.subrange(d1 as int + 1, s.len() as int)
            == mant);
    } else {
        assert(s.subrange(st as int, d1 as int) == mant);
    }
    assert(spec_next_token(s, 0) == (tok, s.len() as nat));
    assert(token_start_from(s, s.len() as nat) == s.len());
    assert(spec_tokens_from(s, s.len() as nat) =~= Seq::<TokenView>::empty());
    assert(spec_tokens_from(s, 0) =~= seq![tok] + Seq::<TokenView>::empty());
    assert(seq![tok] + Seq::<TokenView>::empty() =~= seq![tok]);
}


/// When the exact quotient fits the representation, the number that `/`
/// pushes denotes exactly `a / b`: cross-multiplied, `r.num / r.den` equals
/// `(a.num * b.den) / (a.den * b.num)`.
pub proof fn lemma_division_exact(a: Number, b: Number)
    requires
        a.wf(),
        b.wf(),
        !b.is_zero(),
        -(NUM_LIMIT as int) <= (a.num as int) * (b.den as int) <= NUM_LIMIT as int,
        (a.den as int) * (if b.num >= 0 {
            b.num as int
        } else {
            -(b.num as int)
        }) <= DEN_LIMIT as int,
    ensures
        (spec_div(a, b).num as int) * ((a.den as int) * (b.num as int)) == ((a.num as int) * (
        b.den as int)) * (spec_div(a, b).den as int),
{
    let an = a.num as int;
    let ad = a.den as int;
    let bn = b.num as int;
    let bd = b.den as int;
    if b.num >= 0 {
        assert(ad * bn >= 1) by (nonlinear_arith)
            requires
                ad >= 1,
                bn >= 1,
        ;
        let r = spec_div(a, b);
        assert(r.num as int == an * bd && r.den as int == ad * bn);
    } else {
        assert(ad * (-bn) >= 1) by (nonlinear_arith)
            requires
                ad >= 1,
                -bn >= 1,
        ;
        let r = spec_div(a, b);
        assert(r.num as int == -(an * bd) && r.den as int == ad * (-bn));
        assert((-(an * bd)) * (ad * bn) == (an * bd) * (ad * (-bn))) by (nonlinear_arith);
    }
}

} // verus!
