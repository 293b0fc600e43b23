//! The stack machine that executes an instruction stream.
//!
//! Instructions act on a stack of values. An instruction whose operands are
//! missing or of the wrong type leaves the stack unchanged and execution
//! continues — with one exception: a swap on fewer than two elements is a
//! stack underflow fault, which stops the run and is reported as an error.
//! After the last instruction, the top of the stack (if any) is popped and
//! returned as the program's result.
//!
//! Integer operations wrap: increment, add and negate act modulo 2^64 on the
//! two's-complement representation, and shifts use only the low six bits of
//! the shift count, as the host's native 64-bit shift does.

use vstd::prelude::*;
use vstd::wrapping::i64_specs;

use crate::lexer::{mode_after_byte, rem, token_of, Instruction, Lexer, LexerMode};
use crate::value::{
    obj_insert, object_insert, unique_keys, value_view, view_wf, Value, ValueView,
};

verus! {

/// A fault that stops a run.
#[derive(Clone, Copy, Debug, PartialEq, Eq, Structural)]
pub enum VmError {
    /// A swap was executed with fewer than two elements on the stack.
    StackUnderflow,
}

/// The model of an executable stack: the models of its values, bottom first.
pub open spec fn stack_model(s: Seq<Value>) -> Seq<ValueView> {
    Seq::new(s.len(), |i: int| value_view(s[i]))
}

/// Negation modulo 2^64 on the two's-complement representation.
pub open spec fn wrap_neg(i: i64) -> i64 {
    if i == i64::MIN {
        i64::MIN
    } else {
        (-i) as i64
    }
}

/// What one instruction does to the stack: `None` is the one fatal case, a
/// swap on fewer than two elements. Every other shortfall — missing operands
/// or operands of the wrong runtime type — leaves the stack unchanged.
pub open spec fn step(s: Seq<ValueView>, inst: Instruction) -> Option<Seq<ValueView>> {
    match inst {
        Instruction::Inew => Some(s.push(ValueView::Int(0))),
        Instruction::Iinc => Some(
            if s.len() >= 1 {
                match s.last() {
                    ValueView::Int(i) => s.update(
                        s.len() - 1,
                        ValueView::Int(i64_specs::wrapping_add(i, 1)),
                    ),
                    _ => s,
                }
            } else {
                s
            },
        ),
        Instruction::Ishl => Some(
            if s.len() >= 1 {
                match s.last() {
                    ValueView::Int(i) => s.update(
                        s.len() - 1,
                        ValueView::Int(i64_specs::wrapping_shl(i, 1)),
                    ),
                    _ => s,
                }
            } else {
                s
            },
        ),
        Instruction::Iadd => Some(
            if s.len() >= 2 {
                match (s[s.len() - 2], s[s.len() - 1]) {
                    (ValueView::Int(a), ValueView::Int(b)) => {
                        let t = s.drop_last();
                        t.update(t.len() - 1, ValueView::Int(i64_specs::wrapping_add(a, b)))
                    },
                    _ => s,
                }
            } else {
                s
            },
        ),
        Instruction::Ineg => Some(
            if s.len() >= 1 {
                match s.last() {
                    ValueView::Int(i) => s.update(s.len() - 1, ValueView::Int(wrap_neg(i))),
                    _ => s,
                }
            } else {
                s
            },
        ),
        Instruction::Isht => Some(
            if s.len() >= 2 {
                match (s[s.len() - 2], s[s.len() - 1]) {
                    (ValueView::Int(a), ValueView::Int(b)) => {
                        let t = s.drop_last();
                        t.update(
                            t.len() - 1,
                            ValueView::Int(i64_specs::wrapping_shl(a, b as u32)),
                        )
                    },
                    _ => s,
                }
            } else {
                s
            },
        ),
        Instruction::Itof => Some(
            if s.len() >= 1 {
                match s.last() {
                    ValueView::Int(i) => s.update(s.len() - 1, ValueView::Float(i as u64)),
                    _ => s,
                }
            } else {
                s
            },
        ),
        Instruction::Itou => Some(
            if s.len() >= 1 {
                match s.last() {
                    ValueView::Int(i) => s.update(s.len() - 1, ValueView::Uint(i as u64)),
                    _ => s,
                }
            } else {
                s
            },
        ),
        Instruction::Finf => Some(s.push(ValueView::Float(0x7FF0000000000000u64))),
        Instruction::Fnan => Some(s.push(ValueView::Float(0x7FF8000000000000u64))),
        Instruction::Fneg => Some(
            if s.len() >= 1 {
                match s.last() {
                    ValueView::Float(bits) => s.update(
                        s.len() - 1,
                        ValueView::Float(bits ^ 0x8000000000000000u64),
                    ),
                    _ => s,
                }
            } else {
                s
            },
        ),
        Instruction::Snew => Some(s.push(ValueView::Str(Seq::<u8>::empty()))),
        Instruction::Sadd => Some(
            if s.len() >= 2 {
                match (s[s.len() - 2], s[s.len() - 1]) {
                    (ValueView::Str(bs), ValueView::Int(i)) => {
                        let t = s.drop_last();
                        t.update(t.len() - 1, ValueView::Str(bs.push(i as u8)))
                    },
                    _ => s,
                }
            } else {
                s
            },
        ),
        Instruction::Onew => Some(s.push(ValueView::Obj(Seq::<(Seq<u8>, ValueView)>::empty()))),
        Instruction::Oadd => Some(
            if s.len() >= 3 {
                match (s[s.len() - 3], s[s.len() - 2]) {
                    (ValueView::Obj(entries), ValueView::Str(key)) => {
                        let t = s.take(s.len() - 3);
                        t.push(ValueView::Obj(obj_insert(entries, key, s[s.len() - 1])))
                    },
                    _ => s,
                }
            } else {
                s
            },
        ),
        Instruction::Anew => Some(s.push(ValueView::Arr(Seq::<ValueView>::empty()))),
        Instruction::Aadd => Some(
            if s.len() >= 2 {
                match s[s.len() - 2] {
                    ValueView::Arr(elems) => {
                        let t = s.drop_last();
                        t.update(t.len() - 1, ValueView::Arr(elems.push(s[s.len() - 1])))
                    },
                    _ => s,
                }
            } else {
                s
            },
        ),
        Instruction::Bnew => Some(s.push(ValueView::Bool(false))),
        Instruction::Bneg => Some(
            if s.len() >= 1 {
                match s.last() {
                    ValueView::Bool(b) => s.update(s.len() - 1, ValueView::Bool(!b)),
                    _ => s,
                }
            } else {
                s
            },
        ),
        Instruction::Nnew => Some(s.push(ValueView::Nil)),
        Instruction::Gdup => Some(
            if s.len() >= 1 {
                s.push(s.last())
            } else {
                s
            },
        ),
        Instruction::Gpop => Some(
            if s.len() >= 1 {
                s.drop_last()
            } else {
                s
            },
        ),
        Instruction::Gswp => if s.len() >= 2 {
            Some(s.update(s.len() - 1, s[s.len() - 2]).update(s.len() - 2, s[s.len() - 1]))
        } else {
            None
        },
    }
}

/// What a whole byte sequence does to the stack, scanning from mode `m`:
/// unrecognized bytes are skipped, recognized ones are executed in order.
/// `None` means the run hits the fatal swap underflow.
pub open spec fn run_bytes(m: LexerMode, s: Seq<ValueView>, input: Seq<u8>) -> Option<
    Seq<ValueView>,
>
    decreases input.len(),
{
    if input.len() == 0 {
        Some(s)
    } else {
        let m2 = mode_after_byte(m, input[0]);
        match token_of(m, input[0]) {
            None => run_bytes(m2, s, input.drop_first()),
            Some(inst) => match step(s, inst) {
                Some(s2) => run_bytes(m2, s2, input.drop_first()),
                None => None,
            },
        }
    }
}

/// Executes one instruction against the stack. Returns `false` exactly on
/// the fatal swap underflow, leaving the stack as it was.
fn apply_instruction(stack: &mut Vec<Value>, inst: Instruction) -> (ok: bool)
    ensures
        match step(stack_model(old(stack)@), inst) {
            Some(s2) => ok && stack_model(final(stack)@) == s2,
            None => !ok && final(stack)@ == old(stack)@,
        },
{
    let ghost s0 = stack_model(old(stack)@);
    match inst {
        Instruction::Inew => {
            stack.push(Value::Int(0));
            proof {
                assert(stack_model(stack@) =~= s0.push(ValueView::Int(0)));
            }
            true
        },
        Instruction::Iinc => {
            if stack.len() >= 1 {
                let v = stack.pop().unwrap();
                match v {
                    Value::Int(i) => {
                        stack.push(Value::Int(i.wrapping_add(1)));
                        proof {
                            assert(stack_model(stack@) =~= s0.update(
                                s0.len() - 1,
                                ValueView::Int(i64_specs::wrapping_add(i, 1)),
                            ));
                        }
                    },
                    other => {
                        stack.push(other);
                        proof {
                            assert(stack_model(stack@) =~= s0);
                        }
                    },
                }
            }
            true
        },
        Instruction::Ishl => {
            if stack.len() >= 1 {
                let v = stack.pop().unwrap();
                match v {
                    Value::Int(i) => {
                        stack.push(Value::Int(i.wrapping_shl(1)));
                        proof {
                            assert(stack_model(stack@) =~= s0.update(
                                s0.len() - 1,
                                ValueView::Int(i64_specs::wrapping_shl(i, 1)),
                            ));
                        }
                    },
                    other => {
                        stack.push(other);
                        proof {
                            assert(stack_model(stack@) =~= s0);
                        }
                    },
                }
            }
            true
        },
        Instruction::Iadd => {
            if stack.len() >= 2 {
                let y = stack.pop().unwrap();
                let x = stack.pop().unwrap();
                match (x, y) {
                    (Value::Int(a), Value::Int(b)) => {
                        stack.push(Value::Int(a.wrapping_add(b)));
                        proof {
                            assert(stack_model(stack@) =~= s0.drop_last().update(
                                s0.len() - 2,
                                ValueView::Int(i64_specs::wrapping_add(a, b)),
                            ));
                        }
                    },
                    (x2, y2) => {
                        stack.push(x2);
                        stack.push(y2);
                        proof {
                            assert(stack_model(stack@) =~= s0);
                        }
                    },
                }
            }
            true
        },
        Instruction::Ineg => {
            if stack.len() >= 1 {
                let v = stack.pop().unwrap();
                match v {
                    Value::Int(i) => {
                        let n: i64 = if i == i64::MIN {
                            i64::MIN
                        } else {
                            -i
                        };
                        stack.push(Value::Int(n));
                        proof {
                            assert(stack_model(stack@) =~= s0.update(
                                s0.len() - 1,
                                ValueView::Int(wrap_neg(i)),
                            ));
                        }
                    },
                    other => {
                        stack.push(other);
                        proof {
                            assert(stack_model(stack@) =~= s0);
                        }
                    },
                }
            }
            true
        },
        Instruction::Isht => {
            if stack.len() >= 2 {
                let y = stack.pop().unwrap();
                let x = stack.pop().unwrap();
                match (x, y) {
                    (Value::Int(a), Value::Int(b)) => {
                        let sh: u32 = #[verifier::truncate] (b as u32);
                        stack.push(Value::Int(a.wrapping_shl(sh)));
                        proof {
                            assert(stack_model(stack@) =~= s0.drop_last().update(
                                s0.len() - 2,
                                ValueView::Int(i64_specs::wrapping_shl(a, b as u32)),
                            ));
                        }
                    },
                    (x2, y2) => {
                        stack.push(x2);
                        stack.push(y2);
                        proof {
                            assert(stack_model(stack@) =~= s0);
                        }
                    },
                }
            }
            true
        },
        Instruction::Itof => {
            if stack.len() >= 1 {
                let v = stack.pop().unwrap();
                match v {
                    Value::Int(i) => {
                        let bits: u64 = #[verifier::truncate] (i as u64);
                        stack.push(Value::Float(bits));
                        proof {
                            assert(stack_model(stack@) =~= s0.update(
                                s0.len() - 1,
                                ValueView::Float(i as u64),
                            ));
                        }
                    },
                    other => {
                        stack.push(other);
                        proof {
                            assert(stack_model(stack@) =~= s0);
                        }
                    },
                }
            }
            true
        },
        Instruction::Itou => {
            if stack.len() >= 1 {
                let v = stack.pop().unwrap();
                match v {
                    Value::Int(i) => {
                        let u: u64 = #[verifier::truncate] (i as u64);
                        stack.push(Value::Uint(u));
                        proof {
                            assert(stack_model(stack@) =~= s0.update(
                                s0.len() - 1,
                                ValueView::Uint(i as u64),
                            ));
                        }
                    },
                    other => {
                        stack.push(other);
                        proof {
                            assert(stack_model(stack@) =~= s0);
                        }
                    },
                }
            }
            true
        },
        Instruction::Finf => {
            stack.push(Value::Float(0x7FF0000000000000u64));
            proof {
                assert(stack_model(stack@) =~= s0.push(ValueView::Float(0x7FF0000000000000u64)));
            }
            true
        },
        Instruction::Fnan => {
            stack.push(Value::Float(0x7FF8000000000000u64));
            proof {
                assert(stack_model(stack@) =~= s0.push(ValueView::Float(0x7FF8000000000000u64)));
            }
            true
        },
        Instruction::Fneg => {
            if stack.len() >= 1 {
                let v = stack.pop().unwrap();
                match v {
                    Value::Float(bits) => {
                        stack.push(Value::Float(bits ^ 0x8000000000000000u64));
                        proof {
                            assert(stack_model(stack@) =~= s0.update(
                                s0.len() - 1,
                                ValueView::Float(bits ^ 0x8000000000000000u64),
                            ));
                        }
                    },
                    other => {
                        stack.push(other);
                        proof {
                            assert(stack_model(stack@) =~= s0);
                        }
                    },
                }
            }
            true
        },
        Instruction::Snew => {
            stack.push(Value::String(Vec::new()));
            proof {
                assert(stack_model(stack@) =~= s0.push(ValueView::Str(Seq::<u8>::empty())));
            }
            true
        },
        Instruction::Sadd => {
            if stack.len() >= 2 {
                let y = stack.pop().unwrap();
                let x = stack.pop().unwrap();
                match (x, y) {
                    (Value::String(mut bs), Value::Int(i)) => {
                        let low: u8 = #[verifier::truncate] (i as u8);
                        bs.push(low);
                        stack.push(Value::String(bs));
                        proof {
                            assert(stack_model(stack@) =~= s0.drop_last().update(
                                s0.len() - 2,
                                ValueView::Str(
                                    match s0[s0.len() - 2] {
                                        ValueView::Str(b0) => b0.push(i as u8),
                                        _ => Seq::<u8>::empty(),
                                    },
                                ),
                            ));
                        }
                    },
                    (x2, y2) => {
                        stack.push(x2);
                        stack.push(y2);
                        proof {
                            assert(stack_model(stack@) =~= s0);
                        }
                    },
                }
            }
            true
        },
        Instruction::Onew => {
            stack.push(Value::Object(Vec::new()));
            proof {
                assert(stack_model(stack@) =~= s0.push(
                    ValueView::Obj(Seq::<(Seq<u8>, ValueView)>::empty()),
                ));
            }
            true
        },
        Instruction::Oadd => {
            if stack.len() >= 3 {
                let z = stack.pop().unwrap();
                let y = stack.pop().unwrap();
                let x = stack.pop().unwrap();
                match (x, y) {
                    (Value::Object(mut entries), Value::String(key)) => {
                        object_insert(&mut entries, key, z);
                        stack.push(Value::Object(entries));
                        proof {
                            assert(stack_model(stack@) =~= s0.take(s0.len() - 3).push(
                                ValueView::Obj(
                                    match (s0[s0.len() - 3], s0[s0.len() - 2]) {
                                        (ValueView::Obj(e0), ValueView::Str(k0)) => obj_insert(
                                            e0,
                                            k0,
                                            s0[s0.len() - 1],
                                        ),
                                        _ => Seq::<(Seq<u8>, ValueView)>::empty(),
                                    },
                                ),
                            ));
                        }
                    },
                    (x2, y2) => {
                        stack.push(x2);
                        stack.push(y2);
                        stack.push(z);
                        proof {
                            assert(stack_model(stack@) =~= s0);
                        }
                    },
                }
            }
            true
        },
        Instruction::Anew => {
            stack.push(Value::Array(Vec::new()));
            proof {
                assert(stack_model(stack@) =~= s0.push(ValueView::Arr(Seq::<ValueView>::empty())));
            }
            true
        },
        Instruction::Aadd => {
            if stack.len() >= 2 {
                let y = stack.pop().unwrap();
                let x = stack.pop().unwrap();
                match x {
                    Value::Array(mut elems) => {
                        proof {
                            crate::value::lemma_arr_view(elems@);
                            crate::value::lemma_arr_view(elems@.push(y));
                        }
                        let ghost pre = elems@;
                        elems.push(y);
                        proof {
                            crate::value::lemma_arr_view(elems@);
                            assert(crate::value::arr_view(elems@) =~= crate::value::arr_view(
                                pre,
                            ).push(value_view(y)));
                        }
                        stack.push(Value::Array(elems));
                        proof {
                            assert(stack_model(stack@) =~= s0.drop_last().update(
                                s0.len() - 2,
                                ValueView::Arr(
                                    match s0[s0.len() - 2] {
                                        ValueView::Arr(a0) => a0.push(s0[s0.len() - 1]),
                                        _ => Seq::<ValueView>::empty(),
                                    },
                                ),
                            ));
                        }
                    },
                    x2 => {
                        stack.push(x2);
                        stack.push(y);
                        proof {
                            assert(stack_model(stack@) =~= s0);
                        }
                    },
                }
            }
            true
        },
        Instruction::Bnew => {
            stack.push(Value::Bool(false));
            proof {
                assert(stack_model(stack@) =~= s0.push(ValueView::Bool(false)));
            }
            true
        },
        Instruction::Bneg => {
            if stack.len() >= 1 {
                let v = stack.pop().unwrap();
                match v {
                    Value::Bool(b) => {
                        stack.push(Value::Bool(!b));
                        proof {
                            assert(stack_model(stack@) =~= s0.update(
                                s0.len() - 1,
                                ValueView::Bool(!b),
                            ));
                        }
                    },
                    other => {
                        stack.push(other);
                        proof {
                            assert(stack_model(stack@) =~= s0);
                        }
                    },
                }
            }
            true
        },
        Instruction::Nnew => {
            stack.push(Value::Nil);
            proof {
                assert(stack_model(stack@) =~= s0.push(ValueView::Nil));
            }
            true
        },
        Instruction::Gdup => {
            if stack.len() >= 1 {
                let v = stack.pop().unwrap();
                let c = v.deep_clone();
                stack.push(v);
                stack.push(c);
                proof {
                    assert(stack_model(stack@) =~= s0.push(s0.last()));
                }
            }
            true
        },
        Instruction::Gpop => {
            if stack.len() >= 1 {
                stack.pop();
                proof {
                    assert(stack_model(stack@) =~= s0.drop_last());
                }
            }
            true
        },
        Instruction::Gswp => {
            if stack.len() >= 2 {
                let x = stack.pop().unwrap();
                let y = stack.pop().unwrap();
                stack.push(x);
                stack.push(y);
                proof {
                    assert(stack_model(stack@) =~= s0.update(s0.len() - 1, s0[s0.len() - 2]).update(
                        s0.len() - 2,
                        s0[s0.len() - 1],
                    ));
                }
                true
            } else {
                false
            }
        },
    }
}

/// The interpreter: a value stack plus the lexer it pulls instructions from.
pub struct Vm<'a> {
    pub stack: Vec<Value>,
    pub lexer: Lexer<'a>,
}

/// The outcome a machine's remaining input prescribes for its stack.
pub open spec fn vm_outcome<'a>(v: Vm<'a>) -> Option<Seq<ValueView>> {
    run_bytes(v.lexer.mode, stack_model(v.stack@), rem(v.lexer.input@, v.lexer.pos as int))
}

impl<'a> Vm<'a> {
    /// A fresh machine over the whole buffer: empty stack, lexer at the
    /// start in the primary mode.
    pub fn new(input: &'a [u8]) -> (r: Self)
        ensures
            r.stack@.len() == 0,
            r.lexer.input@ == input@,
            r.lexer.pos == 0,
            r.lexer.mode == LexerMode::A,
    {
        Vm { stack: Vec::new(), lexer: Lexer::new(input) }
    }

    /// Runs the program: scans the remaining bytes once, executes every
    /// instruction in order, then pops and returns the final top of the
    /// stack (`None` for an empty stack). A swap underflow stops the run
    /// with `VmError::StackUnderflow`. The lexer itself is left untouched,
    /// so the machine can be run again from the same position.
    #[verifier::loop_isolation(false)]
    pub fn run(&mut self) -> (r: Result<Option<Value>, VmError>)
        ensures
            final(self).lexer == old(self).lexer,
            match vm_outcome(*old(self)) {
                Some(fin) => match r {
                    Ok(Some(v)) => fin.len() > 0 && value_view(v) == fin.last() && stack_model(
                        final(self).stack@,
                    ) == fin.drop_last(),
                    Ok(None) => fin.len() == 0 && stack_model(final(self).stack@) == fin,
                    Err(_) => false,
                },
                None => r is Err,
            },
    {
        let ghost orig = *self;
        let input: &[u8] = self.lexer.input;
        let mut pos: usize = self.lexer.pos;
        let mut mode: LexerMode = self.lexer.mode;
        while pos < input.len()
            invariant
                self.lexer == orig.lexer,
                run_bytes(mode, stack_model(self.stack@), rem(input@, pos as int)) == vm_outcome(
                    orig,
                ),
            decreases input@.len() - pos,
        {
            let c = input[pos];
            let ghost m_pre = mode;
            let ghost s_pre = stack_model(self.stack@);
            let ghost r_pre = rem(input@, pos as int);
            proof {
                assert(r_pre[0] == c);
                assert(r_pre.drop_first() =~= rem(input@, pos as int + 1));
            }
            let tok = mode.byte_to_instruction(c);
            match tok {
                None => {
                    proof {
                        assert(run_bytes(m_pre, s_pre, r_pre) == run_bytes(
                            mode,
                            s_pre,
                            rem(input@, pos as int + 1),
                        ));
                    }
                },
                Some(inst) => {
                    let ok = apply_instruction(&mut self.stack, inst);
                    if !ok {
                        proof {
                            assert(run_bytes(m_pre, s_pre, r_pre) is None);
                        }
                        return Err(VmError::StackUnderflow);
                    }
                    proof {
                        assert(run_bytes(m_pre, s_pre, r_pre) == run_bytes(
                            mode,
                            stack_model(self.stack@),
                            rem(input@, pos as int + 1),
                        ));
                    }
                },
            }
            pos = pos + 1;
        }
        proof {
            if pos as int <= input@.len() {
                assert(rem(input@, pos as int) =~= Seq::<u8>::empty());
            }
            assert(vm_outcome(orig) == Some(stack_model(self.stack@)));
        }
        let ghost fin = stack_model(self.stack@);
        match self.stack.pop() {
            Some(v) => {
                proof {
                    assert(value_view(v) == fin.last());
                    assert(stack_model(self.stack@) =~= fin.drop_last());
                }
                Ok(Some(v))
            },
            None => Ok(None),
        }
    }
}

/// Every value on the stack is well formed: every object held anywhere in
/// it, at any nesting depth, has unique keys.
pub open spec fn stack_wf(s: Seq<ValueView>) -> bool {
    forall|i: int| 0 <= i < s.len() ==> view_wf(#[trigger] s[i])
}

/// One instruction keeps the stack well formed (when it does not fault):
/// in particular, inserting into an object never duplicates a key.
pub proof fn lemma_step_preserves_wf(s: Seq<ValueView>, inst: Instruction)
    requires
        stack_wf(s),
    ensures
        match step(s, inst) {
            Some(s2) => stack_wf(s2),
            None => true,
        },
{
    match inst {
        Instruction::Oadd => {
            if s.len() >= 3 {
                match (s[s.len() - 3], s[s.len() - 2]) {
                    (ValueView::Obj(entries), ValueView::Str(key)) => {
                        let z = s[s.len() - 1];
                        assert(view_wf(s[s.len() - 3]));
                        assert(view_wf(z));
                        assert(unique_keys(entries));
                        crate::value::lemma_obj_insert(entries, key, z);
                        crate::value::lemma_obj_insert_wf(entries, key, z);
                        assert(view_wf(ValueView::Obj(obj_insert(entries, key, z))));
                        assert(stack_wf(step(s, inst).unwrap()));
                    },
                    _ => {},
                }
            }
        },
        Instruction::Aadd => {
            if s.len() >= 2 {
                match s[s.len() - 2] {
                    ValueView::Arr(elems) => {
                        assert(view_wf(s[s.len() - 2]));
                        assert(view_wf(s[s.len() - 1]));
                        let e2 = elems.push(s[s.len() - 1]);
                        assert forall|i: int| 0 <= i < e2.len() implies view_wf(
                            #[trigger] e2[i],
                        ) by {
                            if i < elems.len() {
                                assert(e2[i] == elems[i]);
                            }
                        }
                        assert(view_wf(ValueView::Arr(e2)));
                        assert(stack_wf(step(s, inst).unwrap()));
                    },
                    _ => {},
                }
            }
        },
        _ => {
            match step(s, inst) {
                Some(s2) => {
                    assert(stack_wf(s2));
                },
                None => {},
            }
        },
    }
}

/// A whole run from a well-formed stack leaves a well-formed stack: the
/// unique-keys invariant of every object holds at every point of every run.
pub proof fn lemma_run_preserves_wf(m: LexerMode, s: Seq<ValueView>, input: Seq<u8>)
    requires
        stack_wf(s),
    ensures
        match run_bytes(m, s, input) {
            Some(s2) => stack_wf(s2),
            None => true,
        },
    decreases input.len(),
{
    if input.len() > 0 {
        let m2 = mode_after_byte(m, input[0]);
        match token_of(m, input[0]) {
            None => {
                lemma_run_preserves_wf(m2, s, input.drop_first());
            },
            Some(inst) => {
                lemma_step_preserves_wf(s, inst);
                match step(s, inst) {
                    Some(s2) => {
                        lemma_run_preserves_wf(m2, s2, input.drop_first());
                    },
                    None => {},
                }
            },
        }
    }
}

/// A program made solely of bytes the current dialect does not recognize
/// yields no instruction and never changes the stack or the mode; from an
/// empty stack it therefore produces no value.
pub proof fn lemma_unrecognized_no_effect(m: LexerMode, s: Seq<ValueView>, input: Seq<u8>)
    requires
        forall|i: int| 0 <= i < input.len() ==> token_of(m, #[trigger] input[i]) is None,
    ensures
        run_bytes(m, s, input) == Some(s),
    decreases input.len(),
{
    if input.len() > 0 {
        assert(token_of(m, input[0]) is None);
        assert(mode_after_byte(m, input[0]) == m);
        assert forall|i: int| 0 <= i < input.drop_first().len() implies token_of(
            m,
            #[trigger] input.drop_first()[i],
        ) is None by {
            assert(input.drop_first()[i] == input[i + 1]);
        }
        lemma_unrecognized_no_effect(m, s, input.drop_first());
    }
}

} // verus!
