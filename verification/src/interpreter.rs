//! The interpreter: executes a finite token stream against a value stack.
//!
//! Literal tokens push values; operator tokens and identifiers resolve to the
//! same built-in words, so `3 4 +` and a lookup of the word `+` behave
//! identically.  Execution halts on the first error, and — a deliberate
//! design decision of this machine — every failing word leaves the stack and
//! the output exactly as they stood when the failing token was reached: a
//! type mismatch or a zero divisor consumes no operand, where a machine that
//! popped before checking would discard them.  The `print` word
//! appends one rendered line to the machine's output; callers decide what to
//! do with the collected lines.  The function [`spec_run`] is the complete
//! mathematical description of a run; [`Interpreter::interpret`] is proved to
//! match it exactly.

use vstd::prelude::*;

use crate::lexer::{false_bytes, token_wf, tokens_model, true_bytes, Token, TokenView};
use crate::number::{spec_add, spec_div, spec_mul, spec_render_number, spec_sub, Number};

verus! {

/// A fully evaluated runtime value on the stack.
#[derive(Clone, PartialEq, Debug)]
pub enum StackValue {
    /// A number.
    Number(Number),
    /// A boolean.
    Boolean(bool),
    /// A string's bytes.
    String(Vec<u8>),
}

/// The mathematical shape of a stack value.
pub enum ValueView {
    /// A number.
    Number(Number),
    /// A boolean.
    Boolean(bool),
    /// A string's bytes.
    String(Seq<u8>),
}

impl View for StackValue {
    type V = ValueView;

    open spec fn view(&self) -> ValueView {
        match self {
            StackValue::Number(n) => ValueView::Number(*n),
            StackValue::Boolean(b) => ValueView::Boolean(*b),
            StackValue::String(s) => ValueView::String(s@),
        }
    }
}

/// The kind a value can have, used to report a type mismatch.
#[derive(Clone, Copy, PartialEq, Eq, Structural, Debug)]
pub enum ValueKind {
    /// The number kind.
    Number,
    /// The boolean kind.
    Boolean,
    /// The string kind.
    String,
}

/// The ways a run can fail.  The first failure halts execution.
#[derive(Clone, PartialEq, Debug)]
pub enum InterpreterError {
    /// A word needed more operands than the stack holds.
    StackUnderflow,
    /// An operand was present but of the wrong kind.
    TypeMismatch(ValueKind),
    /// The divisor of `/` was zero.
    DivisionByZero,
    /// An identifier named no registered word.
    UnknownWord(Vec<u8>),
}

/// The mathematical shape of an interpreter error.
pub enum ErrorView {
    /// A word needed more operands than the stack holds.
    StackUnderflow,
    /// An operand was present but of the wrong kind.
    TypeMismatch(ValueKind),
    /// The divisor of `/` was zero.
    DivisionByZero,
    /// An identifier named no registered word.
    UnknownWord(Seq<u8>),
}

impl View for InterpreterError {
    type V = ErrorView;

    open spec fn view(&self) -> ErrorView {
        match self {
            InterpreterError::StackUnderflow => ErrorView::StackUnderflow,
            InterpreterError::TypeMismatch(k) => ErrorView::TypeMismatch(*k),
            InterpreterError::DivisionByZero => ErrorView::DivisionByZero,
            InterpreterError::UnknownWord(s) => ErrorView::UnknownWord(s@),
        }
    }
}

/// A binary arithmetic word.
#[derive(Clone, Copy, PartialEq, Eq, Structural, Debug)]
pub enum BinOp {
    /// The word `+`.
    Add,
    /// The word `-`.
    Sub,
    /// The word `*`.
    Mul,
    /// The word `/`.
    Div,
}

/// A built-in word of the language.  The word table maps names to these.
#[derive(Clone, Copy, PartialEq, Eq, Structural, Debug)]
pub enum Word {
    /// Pop one value and append its textual form to the output.
    Print,
    /// Push a copy of the top value.
    Dup,
    /// Pop and discard the top value.
    Drop,
    /// Exchange the top two values.
    Swap,
    /// Pop two numbers and push the result of the operation.
    Arith(BinOp),
}

/// The state of the machine: the value stack (top last) and the lines
/// printed so far.
pub struct MachineView {
    /// The value stack; the last element is the top.
    pub stack: Seq<ValueView>,
    /// The lines printed so far, oldest first.
    pub output: Seq<Seq<u8>>,
}

/// Number values on the stack are well formed; other values always are.
pub open spec fn value_wf(v: ValueView) -> bool {
    match v {
        ValueView::Number(n) => n.wf(),
        _ => true,
    }
}

/// The views of a vector of stack values.
pub open spec fn stack_model(s: Seq<StackValue>) -> Seq<ValueView> {
    s.map_values(|v: StackValue| v@)
}

/// The views of a vector of output lines.
pub open spec fn output_model(s: Seq<Vec<u8>>) -> Seq<Seq<u8>> {
    s.map_values(|l: Vec<u8>| l@)
}

/// The bytes of the word name `print`.
pub open spec fn print_bytes() -> Seq<u8> {
    seq![112u8, 114u8, 105u8, 110u8, 116u8]
}

/// The bytes of the word name `dup`.
pub open spec fn dup_bytes() -> Seq<u8> {
    seq![100u8, 117u8, 112u8]
}

/// The bytes of the word name `drop`.
pub open spec fn drop_bytes() -> Seq<u8> {
    seq![100u8, 114u8, 111u8, 112u8]
}

/// The bytes of the word name `swap`.
pub open spec fn swap_bytes() -> Seq<u8> {
    seq![115u8, 119u8, 97u8, 112u8]
}

/// The word table: each built-in word under its name.  Operator tokens reach
/// the same entries through their one-byte names, so the two routes cannot
/// diverge.
pub open spec fn spec_lookup_word(name: Seq<u8>) -> Option<Word> {
    if name == print_bytes() {
        Some(Word::Print)
    } else if name == dup_bytes() {
        Some(Word::Dup)
    } else if name == drop_bytes() {
        Some(Word::Drop)
    } else if name == swap_bytes() {
        Some(Word::Swap)
    } else if name == seq![43u8] {
        Some(Word::Arith(BinOp::Add))
    } else if name == seq![45u8] {
        Some(Word::Arith(BinOp::Sub))
    } else if name == seq![42u8] {
        Some(Word::Arith(BinOp::Mul))
    } else if name == seq![47u8] {
        Some(Word::Arith(BinOp::Div))
    } else {
        None
    }
}

/// The textual form of a value, as `print` renders it: a number in its
/// fraction form, a boolean as `true` or `false`, a string as its raw bytes.
pub open spec fn spec_render_value(v: ValueView) -> Seq<u8> {
    match v {
        ValueView::Number(n) => spec_render_number(n),
        ValueView::Boolean(b) => if b {
            true_bytes()
        } else {
            false_bytes()
        },
        ValueView::String(s) => s,
    }
}

/// The arithmetic word `op` applied to `a` and `b`, in that order.
pub open spec fn spec_apply(op: BinOp, a: Number, b: Number) -> Number {
    match op {
        BinOp::Add => spec_add(a, b),
        BinOp::Sub => spec_sub(a, b),
        BinOp::Mul => spec_mul(a, b),
        BinOp::Div => spec_div(a, b),
    }
}

/// One word applied to the machine.  An error leaves the machine unchanged:
/// underflow when operands are missing (checked first), a type mismatch when
/// an arithmetic operand is not a number, division by zero when the divisor
/// is zero.
pub open spec fn spec_word(s: MachineView, w: Word) -> Result<MachineView, ErrorView> {
    match w {
        Word::Print => if s.stack.len() == 0 {
            Err(ErrorView::StackUnderflow)
        } else {
            Ok(
                MachineView {
                    stack: s.stack.drop_last(),
                    output: s.output.push(spec_render_value(s.stack.last())),
                },
            )
        },
        Word::Dup => if s.stack.len() == 0 {
            Err(ErrorView::StackUnderflow)
        } else {
            Ok(MachineView { stack: s.stack.push(s.stack.last()), output: s.output })
        },
        Word::Drop => if s.stack.len() == 0 {
            Err(ErrorView::StackUnderflow)
        } else {
            Ok(MachineView { stack: s.stack.drop_last(), output: s.output })
        },
        Word::Swap => if s.stack.len() < 2 {
            Err(ErrorView::StackUnderflow)
        } else {
            Ok(
                MachineView {
                    stack: s.stack.drop_last().drop_last().push(s.stack.last()).push(
                        s.stack[s.stack.len() - 2],
                    ),
                    output: s.output,
                },
            )
        },
        Word::Arith(op) => if s.stack.len() < 2 {
            Err(ErrorView::StackUnderflow)
        } else {
            match (s.stack[s.stack.len() - 2], s.stack.last()) {
                (ValueView::Number(a), ValueView::Number(b)) => if op == BinOp::Div
                    && b.is_zero() {
                    Err(ErrorView::DivisionByZero)
                } else {
                    Ok(
                        MachineView {
                            stack: s.stack.drop_last().drop_last().push(
                                ValueView::Number(spec_apply(op, a, b)),
                            ),
                            output: s.output,
                        },
                    )
                },
                _ => Err(ErrorView::TypeMismatch(ValueKind::Number)),
            }
        },
    }
}

/// One token applied to the machine.  Literals push their value; identifiers
/// are looked up before the stack is touched, so an unknown word never
/// reports underflow; operator tokens run the word of the same name; the
/// end-of-input token changes nothing.
pub open spec fn spec_step(s: MachineView, t: TokenView) -> Result<MachineView, ErrorView> {
    match t {
        TokenView::NumberLiteral(n) => Ok(
            MachineView { stack: s.stack.push(ValueView::Number(n)), output: s.output },
        ),
        TokenView::StringLiteral(text) => Ok(
            MachineView { stack: s.stack.push(ValueView::String(text)), output: s.output },
        ),
        TokenView::BooleanLiteral(b) => Ok(
            MachineView { stack: s.stack.push(ValueView::Boolean(b)), output: s.output },
        ),
        TokenView::Identifier(name) => match spec_lookup_word(name) {
            Some(w) => spec_word(s, w),
            None => Err(ErrorView::UnknownWord(name)),
        },
        TokenView::Plus => spec_word(s, Word::Arith(BinOp::Add)),
        TokenView::Minus => spec_word(s, Word::Arith(BinOp::Sub)),
        TokenView::Asterisk => spec_word(s, Word::Arith(BinOp::Mul)),
        TokenView::Slash => spec_word(s, Word::Arith(BinOp::Div)),
        TokenView::EOF => Ok(s),
    }
}

/// A whole run: tokens are executed left to right until the end of the
/// stream, an end-of-input token, or the first error, which halts execution
/// with the machine as it stood when the failing token was reached.
pub open spec fn spec_run(s: MachineView, ts: Seq<TokenView>) -> (MachineView, Result<
    (),
    ErrorView,
>)
    decreases ts.len(),
{
    if ts.len() == 0 {
        (s, Ok(()))
    } else if ts[0] == TokenView::EOF {
        (s, Ok(()))
    } else {
        match spec_step(s, ts[0]) {
            Ok(s2) => spec_run(s2, ts.drop_first()),
            Err(e) => (s, Err(e)),
        }
    }
}

/// The view of an execution result.
pub open spec fn result_model(r: Result<(), InterpreterError>) -> Result<(), ErrorView> {
    match r {
        Ok(_) => Ok(()),
        Err(e) => Err(e@),
    }
}

/// The interpreter: a value stack and the output printed so far.
pub struct Interpreter {
    /// The value stack; the last element is the top.
    pub stack: Vec<StackValue>,
    /// The lines printed by `print`, oldest first.
    pub output: Vec<Vec<u8>>,
}

impl View for Interpreter {
    type V = MachineView;

    open spec fn view(&self) -> MachineView {
        MachineView { stack: stack_model(self.stack@), output: output_model(self.output@) }
    }
}

/// Copies a byte vector.
fn copy_bytes(v: &Vec<u8>) -> (r: Vec<u8>)
    ensures
        r@ == v@,
{
    let mut r: Vec<u8> = Vec::new();
    let mut i: usize = 0;
    while i < v.len()
        invariant
            i <= v@.len(),
            r@ == v@.subrange(0, i as int),
        decreases v@.len() - i,
    {
        r.push(v[i]);
        proof {
            assert(r@ =~= v@.subrange(0, i as int + 1));
        }
        i = i + 1;
    }
    proof {
        assert(r@ =~= v@);
    }
    r
}

/// Copies a stack value; string bytes are copied into a fresh vector.
fn clone_value(v: &StackValue) -> (r: StackValue)
    ensures
        r@ == v@,
{
    match v {
        StackValue::Number(n) => StackValue::Number(*n),
        StackValue::Boolean(b) => StackValue::Boolean(*b),
        StackValue::String(s) => StackValue::String(copy_bytes(s)),
    }
}

/// Renders a value in its textual form.
fn render_value(v: &StackValue) -> (r: Vec<u8>)
    requires
        value_wf(v@),
    ensures
        r@ == spec_render_value(v@),
{
    match v {
        StackValue::Number(n) => n.render(),
        StackValue::Boolean(b) => {
            let mut r: Vec<u8> = Vec::new();
            if *b {
                r.push(116);
                r.push(114);
                r.push(117);
                r.push(101);
                proof {
                    assert(r@ =~= true_bytes());
                }
            } else {
                r.push(102);
                r.push(97);
                r.push(108);
                r.push(115);
                r.push(101);
                proof {
                    assert(r@ =~= false_bytes());
                }
            }
            r
        },
        StackValue::String(s) => copy_bytes(s),
    }
}

/// Looks a name up in the word table.
pub fn lookup_word(name: &Vec<u8>) -> (r: Option<Word>)
    ensures
        r == spec_lookup_word(name@),
{
    let n = name.len();
    if n == 5 && name[0] == 112 && name[1] == 114 && name[2] == 105 && name[3] == 110 && name[4]
        == 116 {
        proof {
            assert(name@ =~= print_bytes());
        }
        Some(Word::Print)
    } else if n == 3 && name[0] == 100 && name[1] == 117 && name[2] == 112 {
        proof {
            assert(name@ =~= dup_bytes());
        }
        Some(Word::Dup)
    } else if n == 4 && name[0] == 100 && name[1] == 114 && name[2] == 111 && name[3] == 112 {
        proof {
            assert(name@ =~= drop_bytes());
        }
        Some(Word::Drop)
    } else if n == 4 && name[0] == 115 && name[1] == 119 && name[2] == 97 && name[3] == 112 {
        proof {
            assert(name@ =~= swap_bytes());
        }
        Some(Word::Swap)
    } else if n == 1 && name[0] == 43 {
        proof {
            assert(name@ =~= seq![43u8]);
        }
        Some(Word::Arith(BinOp::Add))
    } else if n == 1 && name[0] == 45 {
        proof {
            assert(name@ =~= seq![45u8]);
        }
        Some(Word::Arith(BinOp::Sub))
    } else if n == 1 && name[0] == 42 {
        proof {
            assert(name@ =~= seq![42u8]);
        }
        Some(Word::Arith(BinOp::Mul))
    } else if n == 1 && name[0] == 47 {
        proof {
            assert(name@ =~= seq![47u8]);
        }
        Some(Word::Arith(BinOp::Div))
    } else {
        proof {
            if name@ == print_bytes() {
                assert(name@.len() == 5 && name@[0] == 112 && name@[1] == 114 && name@[2] == 105
                    && name@[3] == 110 && name@[4] == 116);
            }
            if name@ == dup_bytes() {
                assert(name@.len() == 3 && name@[0] == 100 && name@[1] == 117 && name@[2] == 112);
            }
            if name@ == drop_bytes() {
                assert(name@.len() == 4 && name@[0] == 100 && name@[1] == 114 && name@[2] == 111
                    && name@[3] == 112);
            }
            if name@ == swap_bytes() {
                assert(name@.len() == 4 && name@[0] == 115 && name@[1] == 119 && name@[2] == 97
                    && name@[3] == 112);
            }
            if name@ == seq![43u8] {
                assert(name@.len() == 1 && name@[0] == 43);
            }
            if name@ == seq![45u8] {
                assert(name@.len() == 1 && name@[0] == 45);
            }
            if name@ == seq![42u8] {
                assert(name@.len() == 1 && name@[0] == 42);
            }
            if name@ == seq![47u8] {
                assert(name@.len() == 1 && name@[0] == 47);
            }
        }
        None
    }
}

impl Interpreter {
    /// Every number on the stack is well formed.
    pub open spec fn wf(&self) -> bool {
        forall|i: int| 0 <= i < self@.stack.len() ==> value_wf(#[trigger] self@.stack[i])
    }

    /// A fresh machine: empty stack, no output, the word table in place.
    pub fn new() -> (r: Interpreter)
        ensures
            r@.stack == Seq::<ValueView>::empty(),
            r@.output == Seq::<Seq<u8>>::empty(),
            r.wf(),
    {
        let r = Interpreter { stack: Vec::new(), output: Vec::new() };
        proof {
            assert(r@.stack =~= Seq::<ValueView>::empty());
            assert(r@.output =~= Seq::<Seq<u8>>::empty());
        }
        r
    }

    /// Pops the top value, or reports underflow and leaves the machine
    /// unchanged.
    pub fn pop(&mut self) -> (r: Result<StackValue, InterpreterError>)
        ensures
            old(self)@.stack.len() == 0 ==> final(self)@ == old(self)@ && (r matches Err(e)
                && e@ == ErrorView::StackUnderflow),
            old(self)@.stack.len() > 0 ==> (r matches Ok(v) && v@ == old(self)@.stack.last())
                && final(self)@.stack == old(self)@.stack.drop_last() && final(self)@.output
                == old(self)@.output,
    {
        match self.stack.pop() {
            Some(v) => {
                proof {
                    assert(stack_model(self.stack@) =~= stack_model(old(self).stack@).drop_last());
                }
                Ok(v)
            },
            None => Err(InterpreterError::StackUnderflow),
        }
    }

    /// Borrows the top value without removing it, or reports underflow.
    pub fn peek(&self) -> (r: Result<&StackValue, InterpreterError>)
        ensures
            self@.stack.len() == 0 ==> (r matches Err(e) && e@ == ErrorView::StackUnderflow),
            self@.stack.len() > 0 ==> (r matches Ok(v) && v@ == self@.stack.last()),
    {
        let n = self.stack.len();
        if n == 0 {
            Err(InterpreterError::StackUnderflow)
        } else {
            Ok(&self.stack[n - 1])
        }
    }

    /// Pops the top value when it is a number; underflow and type mismatch
    /// leave the machine unchanged — a mismatched value stays on the stack
    /// rather than being popped and discarded.
    pub fn pop_number(&mut self) -> (r: Result<Number, InterpreterError>)
        ensures
            old(self)@.stack.len() == 0 ==> final(self)@ == old(self)@ && (r matches Err(e)
                && e@ == ErrorView::StackUnderflow),
            old(self)@.stack.len() > 0 && !(old(self)@.stack.last() is Number) ==> final(self)@
                == old(self)@ && (r matches Err(e) && e@ == ErrorView::TypeMismatch(
                ValueKind::Number,
            )),
            old(self)@.stack.len() > 0 && old(self)@.stack.last() is Number ==> (r matches Ok(x)
                && ValueView::Number(x) == old(self)@.stack.last()) && final(self)@.stack == old(self)@.stack.drop_last() && final(self)@.output == old(self)@.output,
    {
        let n = self.stack.len();
        if n == 0 {
            return Err(InterpreterError::StackUnderflow);
        }
        let is_number = matches!(&self.stack[n - 1], StackValue::Number(_));
        if !is_number {
            return Err(InterpreterError::TypeMismatch(ValueKind::Number));
        }
        match self.stack.pop() {
            Some(StackValue::Number(x)) => {
                proof {
                    assert(stack_model(self.stack@) =~= stack_model(old(self).stack@).drop_last());
                }
                Ok(x)
            },
            _ => Err(InterpreterError::TypeMismatch(ValueKind::Number)),
        }
    }

    /// Runs the word `print`: pops one value and appends its textual form to
    /// the output.
    fn word_print(&mut self) -> (r: Result<(), InterpreterError>)
        requires
            old(self).wf(),
        ensures
            final(self).wf(),
            match spec_word(old(self)@, Word::Print) {
                Ok(s2) => (r matches Ok(v)) && final(self)@.stack == s2.stack && final(self)@.output == s2.output,
                Err(e) => (r matches Err(x) && x@ == e) && final(self)@ == old(self)@,
            },
    {
        let v = match self.pop() {
            Ok(v) => v,
            Err(e) => {
                return Err(e);
            },
        };
        let line = render_value(&v);
        self.output.push(line);
        proof {
            assert(output_model(self.output@) =~= output_model(old(self).output@).push(
                spec_render_value(v@),
            ));
        }
        Ok(())
    }

    /// Runs the word `dup`: pushes a copy of the top value.
    fn word_dup(&mut self) -> (r: Result<(), InterpreterError>)
        requires
            old(self).wf(),
        ensures
            final(self).wf(),
            match spec_word(old(self)@, Word::Dup) {
                Ok(s2) => (r matches Ok(v)) && final(self)@.stack == s2.stack && final(self)@.output == s2.output,
                Err(e) => (r matches Err(x) && x@ == e) && final(self)@ == old(self)@,
            },
    {
        let n = self.stack.len();
        if n == 0 {
            return Err(InterpreterError::StackUnderflow);
        }
        let v = clone_value(&self.stack[n - 1]);
        self.stack.push(v);
        proof {
            assert(stack_model(self.stack@) =~= stack_model(old(self).stack@).push(
                old(self)@.stack.last(),
            ));
        }
        Ok(())
    }

    /// Runs the word `drop`: pops and discards the top value.
    fn word_drop(&mut self) -> (r: Result<(), InterpreterError>)
        requires
            old(self).wf(),
        ensures
            final(self).wf(),
            match spec_word(old(self)@, Word::Drop) {
                Ok(s2) => (r matches Ok(v)) && final(self)@.stack == s2.stack && final(self)@.output == s2.output,
                Err(e) => (r matches Err(x) && x@ == e) && final(self)@ == old(self)@,
            },
    {
        match self.pop() {
            Ok(_) => Ok(()),
            Err(e) => Err(e),
        }
    }

    /// Runs the word `swap`: exchanges the top two values.
    fn word_swap(&mut self) -> (r: Result<(), InterpreterError>)
        requires
            old(self).wf(),
        ensures
            final(self).wf(),
            match spec_word(old(self)@, Word::Swap) {
                Ok(s2) => (r matches Ok(v)) && final(self)@.stack == s2.stack && final(self)@.output == s2.output,
                Err(e) => (r matches Err(x) && x@ == e) && final(self)@ == old(self)@,
            },
    {
        let n = self.stack.len();
        if n < 2 {
            return Err(InterpreterError::StackUnderflow);
        }
        let b = match self.stack.pop() {
            Some(v) => v,
            None => {
                return Err(InterpreterError::StackUnderflow);
            },
        };
        let a = match self.stack.pop() {
            Some(v) => v,
            None => {
                return Err(InterpreterError::StackUnderflow);
            },
        };
        self.stack.push(b);
        self.stack.push(a);
        proof {
            assert(stack_model(self.stack@) =~= stack_model(old(self).stack@).drop_last()
                .drop_last().push(old(self)@.stack.last()).push(
                old(self)@.stack[old(self)@.stack.len() - 2],
            ));
        }
        Ok(())
    }

    /// Runs a binary arithmetic word: pops the right then the left operand,
    /// both numbers, and pushes the result; `/` first checks its divisor.
    fn binary_op(&mut self, op: BinOp) -> (r: Result<(), InterpreterError>)
        requires
            old(self).wf(),
        ensures
            final(self).wf(),
            match spec_word(old(self)@, Word::Arith(op)) {
                Ok(s2) => (r matches Ok(v)) && final(self)@.stack == s2.stack && final(self)@.output == s2.output,
                Err(e) => (r matches Err(x) && x@ == e) && final(self)@ == old(self)@,
            },
    {
        let n = self.stack.len();
        if n < 2 {
            return Err(InterpreterError::StackUnderflow);
        }
        let b_ok = matches!(&self.stack[n - 1], StackValue::Number(_));
        let a_ok = matches!(&self.stack[n - 2], StackValue::Number(_));
        if !b_ok || !a_ok {
            return Err(InterpreterError::TypeMismatch(ValueKind::Number));
        }
        if op == BinOp::Div {
            match &self.stack[n - 1] {
                StackValue::Number(x) => {
                    if x.num == 0 {
                        return Err(InterpreterError::DivisionByZero);
                    }
                },
                _ => {},
            }
        }
        let b = match self.pop_number() {
            Ok(x) => x,
            Err(e) => {
                return Err(e);
            },
        };
        let a = match self.pop_number() {
            Ok(x) => x,
            Err(e) => {
                return Err(e);
            },
        };
        let result = match op {
            BinOp::Add => a.add(b),
            BinOp::Sub => a.sub(b),
            BinOp::Mul => a.mul(b),
            BinOp::Div => a.div(b),
        };
        self.stack.push(StackValue::Number(result));
        proof {
            assert(stack_model(self.stack@) =~= stack_model(old(self).stack@).drop_last()
                .drop_last().push(ValueView::Number(spec_apply(op, a, b))));
        }
        Ok(())
    }

    /// Runs one built-in word against the machine.
    fn run_word(&mut self, w: Word) -> (r: Result<(), InterpreterError>)
        requires
            old(self).wf(),
        ensures
            final(self).wf(),
            match spec_word(old(self)@, w) {
                Ok(s2) => (r matches Ok(v)) && final(self)@.stack == s2.stack && final(self)@.output == s2.output,
                Err(e) => (r matches Err(x) && x@ == e) && final(self)@ == old(self)@,
            },
    {
        match w {
            Word::Print => self.word_print(),
            Word::Dup => self.word_dup(),
            Word::Drop => self.word_drop(),
            Word::Swap => self.word_swap(),
            Word::Arith(op) => self.binary_op(op),
        }
    }

    /// Executes one token against the machine.
    fn step(&mut self, t: &Token) -> (r: Result<(), InterpreterError>)
        requires
            old(self).wf(),
            token_wf(t@),
        ensures
            final(self).wf(),
            match spec_step(old(self)@, t@) {
                Ok(s2) => (r matches Ok(v)) && final(self)@.stack == s2.stack && final(self)@.output == s2.output,
                Err(e) => (r matches Err(x) && x@ == e) && final(self)@ == old(self)@,
            },
    {
        match t {
            Token::NumberLiteral(x) => {
                self.stack.push(StackValue::Number(*x));
                proof {
                    assert(stack_model(self.stack@) =~= stack_model(old(self).stack@).push(
                        ValueView::Number(*x),
                    ));
                }
                Ok(())
            },
            Token::StringLiteral(text) => {
                let bytes = copy_bytes(text);
                self.stack.push(StackValue::String(bytes));
                proof {
                    assert(stack_model(self.stack@) =~= stack_model(old(self).stack@).push(
                        ValueView::String(text@),
                    ));
                }
                Ok(())
            },
            Token::BooleanLiteral(b) => {
                self.stack.push(StackValue::Boolean(*b));
                proof {
                    assert(stack_model(self.stack@) =~= stack_model(old(self).stack@).push(
                        ValueView::Boolean(*b),
                    ));
                }
                Ok(())
            },
            Token::Identifier(name) => {
                match lookup_word(name) {
                    Some(w) => self.run_word(w),
                    None => Err(InterpreterError::UnknownWord(copy_bytes(name))),
                }
            },
            Token::Plus => self.run_word(Word::Arith(BinOp::Add)),
            Token::Minus => self.run_word(Word::Arith(BinOp::Sub)),
            Token::Asterisk => self.run_word(Word::Arith(BinOp::Mul)),
            Token::Slash => self.run_word(Word::Arith(BinOp::Div)),
            Token::EOF => Ok(()),
        }
    }

    /// Executes a token stream left to right, as [`spec_run`] describes:
    /// literals push values, words run, an end-of-input token stops the run
    /// successfully, and the first error halts it with the machine as it
    /// stood when the failing token was reached.
    pub fn interpret(&mut self, tokens: Vec<Token>) -> (r: Result<(), InterpreterError>)
        requires
            old(self).wf(),
            forall|i: int| 0 <= i < tokens@.len() ==> token_wf(#[trigger] tokens@[i]@),
        ensures
            final(self).wf(),
            final(self)@.stack == spec_run(old(self)@, tokens_model(tokens@)).0.stack,
            final(self)@.output == spec_run(old(self)@, tokens_model(tokens@)).0.output,
            result_model(r) == spec_run(old(self)@, tokens_model(tokens@)).1,
    {
        let ghost s0 = self@;
        let ghost tv = tokens_model(tokens@);
        proof {
            assert(tv.skip(0) =~= tv);
        }
        let n = tokens.len();
        let mut i: usize = 0;
        while i < n
            invariant
                s0 == old(self)@,
                0 <= i <= n,
                n == tokens@.len(),
                forall|j: int| 0 <= j < tokens@.len() ==> token_wf(#[trigger] tokens@[j]@),
                tv == tokens_model(tokens@),
                self.wf(),
                spec_run(s0, tv) == spec_run(self@, tv.skip(i as int)),
            decreases n - i,
        {
            let t = &tokens[i];
            proof {
                assert(tv.skip(i as int)[0] == t@);
                assert(tv.skip(i as int).len() > 0);
            }
            if matches!(t, Token::EOF) {
                proof {
                    assert(t@ == TokenView::EOF);
                }
                return Ok(());
            }
            proof {
                assert(t@ != TokenView::EOF);
                assert(tv.skip(i as int).drop_first() =~= tv.skip(i as int + 1));
            }
            let res = self.step(t);
            match res {
                Ok(_) => {},
                Err(e) => {
                    return Err(e);
                },
            }
            i = i + 1;
        }
        proof {
            assert(tv.skip(n as int) =~= Seq::<TokenView>::empty());
        }
        Ok(())
    }
}

} // verus!
