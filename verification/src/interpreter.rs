//! The evaluator: owns the numeric stack and the fixed word table, and
//! evaluates a line of text by tokenizing it and acting on each token in
//! order, left to right, in a single pass. Numbers are pushed; words are
//! looked up and run against the stack; end of input stops the pass.
//!
//! The stack persists across calls to `eval` — a session is cumulative and
//! the stack is never implicitly cleared. Every failure is line-scoped: it
//! stops the current pass at the failing step and leaves the stack exactly as
//! it was just before that step.
//!
//! The spec-level interpreter `spec_eval` is the reference model: `eval` is
//! proved to leave the stack and the output exactly as `spec_eval` says, and
//! to return the outcome `spec_eval` names.

use crate::error::EvalError;
use crate::lexer::{dot_count, spec_scan, lemma_scan_progress, Lexer, SpecToken, Token};
use crate::value::{add_bits, div_bits, mul_bits, numeral_value, sub_bits, val_add, val_div, val_mul, val_sub};
use vstd::prelude::*;

verus! {

/// A built-in operation of the word table. The table is fixed: these six
/// words, and nothing else, are defined.
#[derive(Debug, Clone, Copy, PartialEq, Eq, Structural)]
pub enum Builtin {
    /// `+`: pop two, push their sum.
    Add,
    /// `-`: pop two, push the lower minus the top.
    Sub,
    /// `*`: pop two, push their product.
    Mul,
    /// `/`: pop two, push the lower divided by the top.
    Div,
    /// `.`: pop one, emit it to the output.
    Print,
    /// `exit`: ask the caller to end the session.
    Exit,
}

/// How `eval` came out when no failure stopped it: the pass ran to end of
/// input, or a built-in asked for the session to end.
#[derive(Debug, Clone, Copy, PartialEq, Eq, Structural)]
pub enum Status {
    Completed,
    ExitRequested,
}

/// The word table: the built-in a name denotes, if any. Names are
/// case-sensitive and matched whole.
pub open spec fn spec_lookup(name: Seq<char>) -> Option<Builtin> {
    if name == "+"@ {
        Some(Builtin::Add)
    } else if name == "-"@ {
        Some(Builtin::Sub)
    } else if name == "*"@ {
        Some(Builtin::Mul)
    } else if name == "/"@ {
        Some(Builtin::Div)
    } else if name == "."@ {
        Some(Builtin::Print)
    } else if name == "exit"@ {
        Some(Builtin::Exit)
    } else {
        None
    }
}

/// How many stack entries a built-in pops.
pub open spec fn arity(b: Builtin) -> nat {
    match b {
        Builtin::Add => 2,
        Builtin::Sub => 2,
        Builtin::Mul => 2,
        Builtin::Div => 2,
        Builtin::Print => 1,
        Builtin::Exit => 0,
    }
}

/// What one built-in does to the stack and the output, when the stack is deep
/// enough: its pops and its push, as one step. The top of the stack is the
/// last element of the sequence.
pub open spec fn apply_builtin(b: Builtin, stack: Seq<u64>, out: Seq<u64>) -> (Seq<u64>, Seq<u64>)
    recommends
        stack.len() >= arity(b),
{
    let n = stack.len() as int;
    match b {
        Builtin::Add => (stack.subrange(0, n - 2).push(add_bits(stack[n - 2], stack[n - 1])), out),
        Builtin::Sub => (stack.subrange(0, n - 2).push(sub_bits(stack[n - 2], stack[n - 1])), out),
        Builtin::Mul => (stack.subrange(0, n - 2).push(mul_bits(stack[n - 1], stack[n - 2])), out),
        Builtin::Div => (stack.subrange(0, n - 2).push(div_bits(stack[n - 2], stack[n - 1])), out),
        Builtin::Print => (stack.subrange(0, n - 1), out.push(stack[n - 1])),
        Builtin::Exit => (stack, out),
    }
}

/// A spec-level evaluation failure, mirroring `EvalError` over sequences.
pub enum ErrSpec {
    Parse { span: Seq<char> },
    Underflow { word: Seq<char>, needed: nat, available: nat },
    Unknown { name: Seq<char> },
}

/// How a spec-level pass ends.
pub enum EvalResult {
    Done,
    ExitRequested,
    Failed(ErrSpec),
}

/// Where a spec-level pass leaves the evaluator: the stack, the output
/// emitted so far, and how the pass ended.
pub struct EvalState {
    pub stack: Seq<u64>,
    pub out: Seq<u64>,
    pub res: EvalResult,
}

/// Whether an exec-level error carries exactly the spec-level failure.
pub open spec fn err_matches(e: EvalError, se: ErrSpec) -> bool {
    match (e, se) {
        (EvalError::ParseError { span }, ErrSpec::Parse { span: sp }) => span@ == sp,
        (
            EvalError::Underflow { word, needed, available },
            ErrSpec::Underflow { word: w, needed: nd, available: av },
        ) => word@ == w && needed == nd && available == av,
        (EvalError::UnknownWord { name }, ErrSpec::Unknown { name: nm }) => name@ == nm,
        _ => false,
    }
}

/// The reference interpreter: evaluate `s` from position `i` against the
/// given stack and output, one scanned token at a time, and say where that
/// leaves the evaluator. A failing step leaves the stack and output exactly
/// as they were before it; `exit` stops the pass at once.
pub open spec fn spec_eval(s: Seq<char>, i: nat, stack: Seq<u64>, out: Seq<u64>) -> EvalState
    decreases s.len() - i,
{
    let (t, p) = spec_scan(s, i);
    match t {
        SpecToken::Eof => EvalState { stack, out, res: EvalResult::Done },
        SpecToken::Number(span) => {
            if dot_count(span) > 1 {
                EvalState { stack, out, res: EvalResult::Failed(ErrSpec::Parse { span }) }
            } else if i < p <= s.len() {
                spec_eval(s, p, stack.push(numeral_value(span)), out)
            } else {
                arbitrary()
            }
        },
        SpecToken::Word(w) => match spec_lookup(w) {
            None => EvalState { stack, out, res: EvalResult::Failed(ErrSpec::Unknown { name: w }) },
            Some(Builtin::Exit) => EvalState { stack, out, res: EvalResult::ExitRequested },
            Some(b) => {
                if stack.len() < arity(b) {
                    EvalState {
                        stack,
                        out,
                        res: EvalResult::Failed(
                            ErrSpec::Underflow { word: w, needed: arity(b), available: stack.len() },
                        ),
                    }
                } else if i < p <= s.len() {
                    let (stack2, out2) = apply_builtin(b, stack, out);
                    spec_eval(s, p, stack2, out2)
                } else {
                    arbitrary()
                }
            },
        },
    }
}

/// Look a word up in the (fixed) word table.
pub fn lookup_word(name: &String) -> (r: Option<Builtin>)
    ensures
        r == spec_lookup(name@),
{
    if *name == "+".to_owned() {
        Some(Builtin::Add)
    } else if *name == "-".to_owned() {
        Some(Builtin::Sub)
    } else if *name == "*".to_owned() {
        Some(Builtin::Mul)
    } else if *name == "/".to_owned() {
        Some(Builtin::Div)
    } else if *name == ".".to_owned() {
        Some(Builtin::Print)
    } else if *name == "exit".to_owned() {
        Some(Builtin::Exit)
    } else {
        None
    }
}

/// The evaluator: the persistent numeric stack and the output emitted by `.`
/// since the caller last drained it. Values are IEEE-754 binary64 bit
/// patterns; index 0 of the stack is its bottom.
pub struct Interpreter {
    stack: Vec<u64>,
    out: Vec<u64>,
}

impl Interpreter {
    /// The stack's contents, bottom first.
    pub closed spec fn stack_view(&self) -> Seq<u64> {
        self.stack@
    }

    /// The values emitted by `.` and not yet drained, in evaluated order.
    pub closed spec fn out_view(&self) -> Seq<u64> {
        self.out@
    }

    /// A fresh evaluator: an empty stack, the standard word table, nothing
    /// emitted.
    pub fn new() -> (r: Interpreter)
        ensures
            r.stack_view() == Seq::<u64>::empty(),
            r.out_view() == Seq::<u64>::empty(),
    {
        Interpreter { stack: Vec::new(), out: Vec::new() }
    }

    /// Evaluate one line: tokenize `code` and act on each token against the
    /// persistent stack, exactly as the reference interpreter `spec_eval`
    /// says. On failure the pass stops at the failing step, the stack and
    /// output hold everything applied before it, and the error says what
    /// happened; the process is never terminated from here — even `exit`
    /// only asks, through the returned status.
    pub fn eval(&mut self, code: String) -> (r: Result<Status, EvalError>)
        ensures
            ({
                let end = spec_eval(code@, 0, old(self).stack_view(), old(self).out_view());
                &&& final(self).stack_view() == end.stack
                &&& final(self).out_view() == end.out
                &&& match r {
                    Ok(Status::Completed) => end.res == EvalResult::Done,
                    Ok(Status::ExitRequested) => end.res == EvalResult::ExitRequested,
                    Err(e) => end.res matches EvalResult::Failed(se) && err_matches(e, se),
                }
            }),
    {
        let ghost s0: Seq<u64> = self.stack@;
        let ghost o0: Seq<u64> = self.out@;
        let mut lexer = Lexer::new(code.as_str());
        loop
            invariant
                lexer.wf(),
                lexer.src() == code@,
                s0 == old(self).stack_view(),
                o0 == old(self).out_view(),
                spec_eval(code@, 0, s0, o0) == spec_eval(
                    code@,
                    lexer.pos(),
                    self.stack@,
                    self.out@,
                ),
            decreases code@.len() - lexer.pos(),
        {
            let ghost i: nat = lexer.pos();
            let ghost st_pre: Seq<u64> = self.stack@;
            let ghost out_pre: Seq<u64> = self.out@;
            let t = lexer.lex();
            proof {
                lemma_scan_progress(code@, i);
            }
            match t {
                Err(e) => {
                    return Err(e);
                },
                Ok(Token::Eof) => {
                    return Ok(Status::Completed);
                },
                Ok(Token::Number(v)) => {
                    self.stack.push(v);
                },
                Ok(Token::Word(name)) => {
                    match lookup_word(&name) {
                        None => {
                            return Err(EvalError::UnknownWord { name });
                        },
                        Some(Builtin::Exit) => {
                            return Ok(Status::ExitRequested);
                        },
                        Some(Builtin::Print) => {
                            if self.stack.len() < 1 {
                                return Err(EvalError::Underflow {
                                    word: name,
                                    needed: 1,
                                    available: self.stack.len(),
                                });
                            }
                            let v = self.stack.pop().unwrap();
                            self.out.push(v);
                        },
                        Some(Builtin::Add) => {
                            if self.stack.len() < 2 {
                                return Err(EvalError::Underflow {
                                    word: name,
                                    needed: 2,
                                    available: self.stack.len(),
                                });
                            }
                            let n1 = self.stack.pop().unwrap();
                            let n2 = self.stack.pop().unwrap();
                            self.stack.push(val_add(n2, n1));
                            proof {
                                assert(self.stack@ =~= st_pre.subrange(
                                    0,
                                    st_pre.len() - 2,
                                ).push(add_bits(st_pre[st_pre.len() - 2], st_pre[st_pre.len() - 1])));
                            }
                        },
                        Some(Builtin::Sub) => {
                            if self.stack.len() < 2 {
                                return Err(EvalError::Underflow {
                                    word: name,
                                    needed: 2,
                                    available: self.stack.len(),
                                });
                            }
                            let n1 = self.stack.pop().unwrap();
                            let n2 = self.stack.pop().unwrap();
                            self.stack.push(val_sub(n2, n1));
                            proof {
                                assert(self.stack@ =~= st_pre.subrange(
                                    0,
                                    st_pre.len() - 2,
                                ).push(sub_bits(st_pre[st_pre.len() - 2], st_pre[st_pre.len() - 1])));
                            }
                        },
                        Some(Builtin::Mul) => {
                            if self.stack.len() < 2 {
                                return Err(EvalError::Underflow {
                                    word: name,
                                    needed: 2,
                                    available: self.stack.len(),
                                });
                            }
                            let n1 = self.stack.pop().unwrap();
                            let n2 = self.stack.pop().unwrap();
                            self.stack.push(val_mul(n1, n2));
                            proof {
                                assert(self.stack@ =~= st_pre.subrange(
                                    0,
                                    st_pre.len() - 2,
                                ).push(mul_bits(st_pre[st_pre.len() - 1], st_pre[st_pre.len() - 2])));
                            }
                        },
                        Some(Builtin::Div) => {
                            if self.stack.len() < 2 {
                                return Err(EvalError::Underflow {
                                    word: name,
                                    needed: 2,
                                    available: self.stack.len(),
                                });
                            }
                            let n1 = self.stack.pop().unwrap();
                            let n2 = self.stack.pop().unwrap();
                            self.stack.push(val_div(n2, n1));
                            proof {
                                assert(self.stack@ =~= st_pre.subrange(
                                    0,
                                    st_pre.len() - 2,
                                ).push(div_bits(st_pre[st_pre.len() - 2], st_pre[st_pre.len() - 1])));
                            }
                        },
                    }
                },
            }
        }
    }

    /// Read the current stack, bottom (oldest) first. Reading does not change
    /// anything: without an intervening `eval`, every read returns the same
    /// snapshot.
    pub fn stack(&self) -> (r: &Vec<u64>)
        ensures
            r@ == self.stack_view(),
    {
        &self.stack
    }

    /// Drain the output emitted by `.` since the last drain, in evaluated
    /// order. The stack is untouched.
    pub fn take_output(&mut self) -> (r: Vec<u64>)
        ensures
            r@ == old(self).out_view(),
            final(self).out_view() == Seq::<u64>::empty(),
            final(self).stack_view() == old(self).stack_view(),
    {
        let mut o: Vec<u64> = Vec::new();
        core::mem::swap(&mut o, &mut self.out);
        o
    }
}

} // verus!
