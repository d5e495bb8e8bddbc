//! The virtual machine: a fetch-decode-dispatch loop over one shared
//! operand stack and an explicit call-frame stack.
//!
//! The machine's behaviour is defined by a reference interpreter in
//! the logic: `step_model` gives the exact effect of one instruction,
//! and `run_model` iterates it under a fuel bound. The executable
//! machine is proved to follow the reference interpreter step by step.

use vstd::prelude::*;

use crate::arith::binop_model;
use crate::arith::operate;
use crate::arith::apply_unary;
use crate::arith::unop_model;
use crate::code::CodeModel;
use crate::code::CodeObject;
use crate::code::FnEntry;
use crate::code::ParamModel;
use crate::code::child_lookup;
use crate::code::children_model;
use crate::code::clone_code;
use crate::code::lemma_children_model;
use crate::convert::convert;
use crate::convert::convert_model;
use crate::convert::render;
use crate::convert::render_value;
use crate::env::Locals;
use crate::env::env_insert;
use crate::env::env_lookup;
use crate::error::InternalError;
use crate::error::RuntimeError;
use crate::error::VmErrModel;
use crate::error::VmError;
use crate::instr::Instruction;
use crate::value::Value;
use crate::value::ValueModel;
use crate::value::arr_model;
use crate::value::clone_value;
use crate::value::lemma_arr_model;
use crate::value::truthy;
use crate::value::value_model;

verus! {

broadcast use vstd::std_specs::vec::group_vec_axioms, vstd::seq::group_seq_axioms;

/// One call frame: the locals of one active invocation, and where to
/// resume in the caller once it returns.
pub struct Frame {
    pub locals: Locals,
    /// The caller's program unit.
    pub ret_code: CodeObject,
    /// The caller's resume address: the instruction after its call.
    pub ret_ip: usize,
}

/// The machine state. The frame at position zero is the global frame;
/// its locals are the globals.
pub struct Vm {
    /// The program unit being executed.
    pub program: CodeObject,
    /// The next instruction's index.
    pub ip: usize,
    /// The shared operand stack.
    pub stack: Vec<Value>,
    /// The call-frame stack.
    pub frames: Vec<Frame>,
    /// The top-level function table, consulted when a name is not
    /// among the current unit's own children.
    pub global_fns: Vec<FnEntry>,
    /// The lines the printing primitive has produced, in order.
    pub output: Vec<String>,
}

/// The model of one call frame.
pub struct FrameModel {
    pub locals: Seq<(Seq<char>, ValueModel)>,
    pub ret_code: CodeModel,
    pub ret_ip: int,
}

/// The model of the machine state.
pub struct VmModel {
    pub program: CodeModel,
    pub ip: int,
    pub stack: Seq<ValueModel>,
    pub frames: Seq<FrameModel>,
    pub global_fns: Seq<(Seq<char>, CodeModel)>,
    pub output: Seq<Seq<char>>,
}

/// The models of the frames of `s` from position `i` on.
pub open spec fn frames_from(s: Seq<Frame>, i: int) -> Seq<FrameModel>
    decreases s.len() - i,
{
    if i < 0 || i >= s.len() {
        Seq::empty()
    } else {
        seq![
            FrameModel {
                locals: s[i].locals@,
                ret_code: s[i].ret_code@,
                ret_ip: s[i].ret_ip as int,
            },
        ] + frames_from(s, i + 1)
    }
}

/// The model of a frame stack.
pub open spec fn frames_model(s: Seq<Frame>) -> Seq<FrameModel> {
    frames_from(s, 0)
}

proof fn lemma_frames_from(s: Seq<Frame>, i: int)
    requires
        0 <= i <= s.len(),
    ensures
        frames_from(s, i).len() == s.len() - i,
        forall|j: int|
            i <= j < s.len() ==> frames_from(s, i)[j - i] == (FrameModel {
                locals: s[j].locals@,
                ret_code: s[j].ret_code@,
                ret_ip: s[j].ret_ip as int,
            }),
    decreases s.len() - i,
{
    if i < s.len() {
        lemma_frames_from(s, i + 1);
    }
}

/// A frame stack's model has one entry per frame.
pub broadcast proof fn lemma_frames_model(s: Seq<Frame>)
    ensures
        (#[trigger] frames_model(s)).len() == s.len(),
        forall|j: int|
            0 <= j < s.len() ==> frames_model(s)[j] == (FrameModel {
                locals: s[j].locals@,
                ret_code: s[j].ret_code@,
                ret_ip: s[j].ret_ip as int,
            }),
{
    lemma_frames_from(s, 0);
}

/// The models of the output lines of `s` from position `i` on.
pub open spec fn out_from(s: Seq<String>, i: int) -> Seq<Seq<char>>
    decreases s.len() - i,
{
    if i < 0 || i >= s.len() {
        Seq::empty()
    } else {
        seq![s[i]@] + out_from(s, i + 1)
    }
}

/// The model of the output: each line's characters, in order.
pub open spec fn out_model(s: Seq<String>) -> Seq<Seq<char>> {
    out_from(s, 0)
}

proof fn lemma_out_from(s: Seq<String>, i: int)
    requires
        0 <= i <= s.len(),
    ensures
        out_from(s, i).len() == s.len() - i,
        forall|j: int| i <= j < s.len() ==> out_from(s, i)[j - i] == s[j]@,
    decreases s.len() - i,
{
    if i < s.len() {
        lemma_out_from(s, i + 1);
    }
}

/// The output's model has one entry per line.
pub broadcast proof fn lemma_out_model(s: Seq<String>)
    ensures
        (#[trigger] out_model(s)).len() == s.len(),
        forall|j: int| 0 <= j < s.len() ==> out_model(s)[j] == s[j]@,
{
    lemma_out_from(s, 0);
}

impl View for Vm {
    type V = VmModel;

    open spec fn view(&self) -> VmModel {
        VmModel {
            program: self.program@,
            ip: self.ip as int,
            stack: arr_model(self.stack@),
            frames: frames_model(self.frames@),
            global_fns: children_model(self.global_fns@),
            output: out_model(self.output@),
        }
    }
}

/// What one step of the machine yields: a successor state, a final
/// value with the output produced, or a terminal error with the output
/// produced.
pub enum StepModel {
    Next(VmModel),
    Done(ValueModel, Seq<Seq<char>>),
    Fault(VmErrModel, Seq<Seq<char>>),
}

/// What a whole bounded run yields: a final value or error with the
/// output, or the state reached when the step bound ran out.
pub enum RunModel {
    Done(ValueModel, Seq<Seq<char>>),
    Fault(VmErrModel, Seq<Seq<char>>),
    Out(VmModel),
}

/// The name a name operand denotes: the string constant at the given
/// pool index.
pub open spec fn name_at(p: CodeModel, idx: int) -> Result<Seq<char>, InternalError> {
    if idx < 0 || idx >= p.constants.len() {
        Result::Err(InternalError::BadConstantIndex)
    } else {
        match p.constants[idx] {
            ValueModel::Str(s) => Result::Ok(s),
            _ => Result::Err(InternalError::BadNameConstant),
        }
    }
}

/// The locals of a fresh callee frame: each parameter bound
/// positionally, in declaration order, a later duplicate overwriting
/// an earlier one.
pub open spec fn bind_acc(
    params: Seq<ParamModel>,
    args: Seq<ValueModel>,
    i: int,
    acc: Seq<(Seq<char>, ValueModel)>,
) -> Seq<(Seq<char>, ValueModel)>
    decreases params.len() - i,
{
    if i < 0 || i >= params.len() {
        acc
    } else {
        bind_acc(params, args, i + 1, env_insert(acc, params[i].name, args[i]))
    }
}

/// The line the printing primitive renders for its arguments: each
/// argument's rendering followed by one space.
pub open spec fn writeln_from(args: Seq<ValueModel>, i: int) -> Seq<char>
    decreases args.len() - i,
{
    if i < 0 || i >= args.len() {
        Seq::empty()
    } else {
        render(args[i]) + " "@ + writeln_from(args, i + 1)
    }
}

/// Leaving the current invocation with result `v`: at the bottom of
/// the frame stack the whole run is done; otherwise the frame is
/// popped, the caller's unit and resume address are restored, and the
/// result is pushed for the caller.
pub open spec fn ret_step(st: VmModel, v: ValueModel, rest: Seq<ValueModel>) -> StepModel {
    if st.frames.len() <= 1 {
        StepModel::Done(v, st.output)
    } else {
        let fr = st.frames.last();
        StepModel::Next(
            VmModel {
                program: fr.ret_code,
                ip: fr.ret_ip,
                stack: rest.push(v),
                frames: st.frames.drop_last(),
                ..st
            },
        )
    }
}

/// The exact effect of one machine step on a state: the fetched
/// instruction's semantics, or the implicit return once the
/// instruction pointer runs past the end of the code.
pub open spec fn step_model(st: VmModel) -> StepModel {
    if st.ip < 0 || st.ip >= st.program.code.len() {
        ret_step(st, ValueModel::Unit, st.stack)
    } else {
        match st.program.code[st.ip] {
            Instruction::LoadConst(ci) => if ci >= st.program.constants.len() {
                StepModel::Fault(
                    VmErrModel::Internal(InternalError::BadConstantIndex),
                    st.output,
                )
            } else {
                StepModel::Next(
                    VmModel {
                        stack: st.stack.push(st.program.constants[ci as int]),
                        ip: st.ip + 1,
                        ..st
                    },
                )
            },
            Instruction::LoadBuiltinValue(t) => if t == 0 {
                StepModel::Next(
                    VmModel { stack: st.stack.push(ValueModel::Unit), ip: st.ip + 1, ..st },
                )
            } else if t == 1 {
                StepModel::Next(
                    VmModel {
                        stack: st.stack.push(ValueModel::Bool(true)),
                        ip: st.ip + 1,
                        ..st
                    },
                )
            } else if t == 2 {
                StepModel::Next(
                    VmModel {
                        stack: st.stack.push(ValueModel::Bool(false)),
                        ip: st.ip + 1,
                        ..st
                    },
                )
            } else {
                StepModel::Fault(VmErrModel::Internal(InternalError::BadBuiltinTag), st.output)
            },
            Instruction::LoadVariable(ni) => match name_at(st.program, ni as int) {
                Result::Err(e) => StepModel::Fault(VmErrModel::Internal(e), st.output),
                Result::Ok(n) => match env_lookup(st.frames.last().locals, n) {
                    Option::Some(v) => StepModel::Next(
                        VmModel { stack: st.stack.push(v), ip: st.ip + 1, ..st },
                    ),
                    Option::None => match env_lookup(st.frames[0].locals, n) {
                        Option::Some(v) => StepModel::Next(
                            VmModel { stack: st.stack.push(v), ip: st.ip + 1, ..st },
                        ),
                        Option::None => StepModel::Fault(
                            VmErrModel::Runtime(crate::error::ErrModel::UnboundVariable(n)),
                            st.output,
                        ),
                    },
                },
            },
            Instruction::AssignVariable(ni) => match name_at(st.program, ni as int) {
                Result::Err(e) => StepModel::Fault(VmErrModel::Internal(e), st.output),
                Result::Ok(n) => if st.stack.len() < 1 {
                    StepModel::Fault(
                        VmErrModel::Internal(InternalError::StackUnderflow),
                        st.output,
                    )
                } else {
                    let fr = st.frames.last();
                    StepModel::Next(
                        VmModel {
                            stack: st.stack.drop_last(),
                            frames: st.frames.update(
                                st.frames.len() - 1,
                                FrameModel {
                                    locals: env_insert(fr.locals, n, st.stack.last()),
                                    ..fr
                                },
                            ),
                            ip: st.ip + 1,
                            ..st
                        },
                    )
                },
            },
            Instruction::Jump(t) => StepModel::Next(VmModel { ip: t as int, ..st }),
            Instruction::JumpIfTrue(t) => if st.stack.len() < 1 {
                StepModel::Fault(VmErrModel::Internal(InternalError::StackUnderflow), st.output)
            } else {
                StepModel::Next(
                    VmModel {
                        stack: st.stack.drop_last(),
                        ip: if truthy(st.stack.last()) {
                            t as int
                        } else {
                            st.ip + 1
                        },
                        ..st
                    },
                )
            },
            Instruction::JumpIfFalse(t) => if st.stack.len() < 1 {
                StepModel::Fault(VmErrModel::Internal(InternalError::StackUnderflow), st.output)
            } else {
                StepModel::Next(
                    VmModel {
                        stack: st.stack.drop_last(),
                        ip: if !truthy(st.stack.last()) {
                            t as int
                        } else {
                            st.ip + 1
                        },
                        ..st
                    },
                )
            },
            Instruction::CallFunction(ni, argc) => match name_at(st.program, ni as int) {
                Result::Err(e) => StepModel::Fault(VmErrModel::Internal(e), st.output),
                Result::Ok(n) => if st.stack.len() < argc {
                    StepModel::Fault(
                        VmErrModel::Internal(InternalError::StackUnderflow),
                        st.output,
                    )
                } else {
                    let args = st.stack.subrange(
                        st.stack.len() - argc,
                        st.stack.len() as int,
                    );
                    let rest = st.stack.take(st.stack.len() - argc);
                    let resolved = match child_lookup(st.program.children, n) {
                        Option::Some(c) => Option::Some(c),
                        Option::None => child_lookup(st.global_fns, n),
                    };
                    match resolved {
                        Option::None => StepModel::Fault(
                            VmErrModel::Runtime(crate::error::ErrModel::UnknownFunction(n)),
                            st.output,
                        ),
                        Option::Some(callee) => if callee.parameters.len() != argc {
                            StepModel::Fault(
                                VmErrModel::Runtime(
                                    crate::error::ErrModel::ArityMismatch {
                                        expected: callee.parameters.len() as int,
                                        got: argc as int,
                                    },
                                ),
                                st.output,
                            )
                        } else {
                            StepModel::Next(
                                VmModel {
                                    program: callee,
                                    ip: 0,
                                    stack: rest,
                                    frames: st.frames.push(
                                        FrameModel {
                                            locals: bind_acc(
                                                callee.parameters,
                                                args,
                                                0,
                                                Seq::empty(),
                                            ),
                                            ret_code: st.program,
                                            ret_ip: st.ip + 1,
                                        },
                                    ),
                                    ..st
                                },
                            )
                        },
                    }
                },
            },
            Instruction::CallPrimitive(pid, argc) => if st.stack.len() < argc {
                StepModel::Fault(VmErrModel::Internal(InternalError::StackUnderflow), st.output)
            } else {
                let args = st.stack.subrange(st.stack.len() - argc, st.stack.len() as int);
                let rest = st.stack.take(st.stack.len() - argc);
                if pid == 0 {
                    StepModel::Next(
                        VmModel {
                            stack: rest.push(ValueModel::Unit),
                            output: st.output.push(writeln_from(args, 0)),
                            ip: st.ip + 1,
                            ..st
                        },
                    )
                } else if pid == 1 {
                    StepModel::Done(ValueModel::Unit, st.output)
                } else {
                    StepModel::Fault(
                        VmErrModel::Internal(InternalError::BadPrimitive),
                        st.output,
                    )
                }
            },
            Instruction::BuildArray(n) => if st.stack.len() < n {
                StepModel::Fault(VmErrModel::Internal(InternalError::StackUnderflow), st.output)
            } else {
                StepModel::Next(
                    VmModel {
                        stack: st.stack.take(st.stack.len() - n).push(
                            ValueModel::Arr(
                                st.stack.subrange(st.stack.len() - n, st.stack.len() as int),
                            ),
                        ),
                        ip: st.ip + 1,
                        ..st
                    },
                )
            },
            Instruction::ConvertTo(tag) => if st.stack.len() < 1 {
                StepModel::Fault(VmErrModel::Internal(InternalError::StackUnderflow), st.output)
            } else {
                match convert_model(st.stack.last(), tag) {
                    Result::Ok(v) => StepModel::Next(
                        VmModel { stack: st.stack.drop_last().push(v), ip: st.ip + 1, ..st },
                    ),
                    Result::Err(e) => StepModel::Fault(VmErrModel::Runtime(e), st.output),
                }
            },
            Instruction::Return => if st.stack.len() < 1 {
                StepModel::Fault(VmErrModel::Internal(InternalError::StackUnderflow), st.output)
            } else {
                ret_step(st, st.stack.last(), st.stack.drop_last())
            },
            Instruction::ReturnNone => ret_step(st, ValueModel::Unit, st.stack),
            Instruction::Not | Instruction::Negate | Instruction::Typeof => if st.stack.len()
                < 1 {
                StepModel::Fault(VmErrModel::Internal(InternalError::StackUnderflow), st.output)
            } else {
                match unop_model(st.program.code[st.ip], st.stack.last()) {
                    Result::Ok(v) => StepModel::Next(
                        VmModel { stack: st.stack.drop_last().push(v), ip: st.ip + 1, ..st },
                    ),
                    Result::Err(e) => StepModel::Fault(VmErrModel::Runtime(e), st.output),
                }
            },
            _ => if st.stack.len() < 2 {
                StepModel::Fault(VmErrModel::Internal(InternalError::StackUnderflow), st.output)
            } else {
                match binop_model(
                    st.program.code[st.ip],
                    st.stack[st.stack.len() - 2],
                    st.stack.last(),
                ) {
                    Result::Ok(v) => StepModel::Next(
                        VmModel {
                            stack: st.stack.take(st.stack.len() - 2).push(v),
                            ip: st.ip + 1,
                            ..st
                        },
                    ),
                    Result::Err(e) => StepModel::Fault(VmErrModel::Runtime(e), st.output),
                }
            },
        }
    }
}

/// What a bounded run from a state yields: the reference interpreter
/// iterated until it halts, faults, or the step bound runs out.
pub open spec fn run_model(st: VmModel, fuel: nat) -> RunModel
    decreases fuel,
{
    if fuel == 0 {
        RunModel::Out(st)
    } else {
        match step_model(st) {
            StepModel::Next(st2) => run_model(st2, (fuel - 1) as nat),
            StepModel::Done(v, o) => RunModel::Done(v, o),
            StepModel::Fault(e, o) => RunModel::Fault(e, o),
        }
    }
}

/// The machine state a run starts from: the given unit at its first
/// instruction, an empty operand stack, one global frame holding the
/// preset globals, and no output yet.
pub open spec fn init_model(
    program: CodeModel,
    globals: Seq<(Seq<char>, ValueModel)>,
    table: Seq<(Seq<char>, CodeModel)>,
) -> VmModel {
    VmModel {
        program,
        ip: 0,
        stack: Seq::empty(),
        frames: seq![FrameModel { locals: globals, ret_code: program, ret_ip: 0 }],
        global_fns: table,
        output: Seq::empty(),
    }
}

/// What one executable step reports.
pub enum StepResult {
    Next,
    Done(Value),
    Fault(VmError),
}

/// What a whole executable run reports.
#[derive(Debug, PartialEq)]
pub enum Outcome {
    /// The program halted with this value.
    Done(Value),
    /// The program was aborted by this error.
    Fault(VmError),
    /// The step bound ran out before the program halted.
    OutOfFuel,
}


/// Pushes a value; the stack's model grows by the value's model.
fn push_val(s: &mut Vec<Value>, v: Value)
    ensures
        arr_model(final(s)@) == arr_model(old(s)@).push(value_model(v)),
{
    broadcast use lemma_arr_model;

    s.push(v);
    proof {
        assert(arr_model(final(s)@) =~= arr_model(old(s)@).push(value_model(v)));
    }
}

/// Pops a value; the stack's model loses its last element.
fn pop_val(s: &mut Vec<Value>) -> (r: Option<Value>)
    ensures
        match r {
            Option::Some(v) => old(s)@.len() > 0 && value_model(v) == arr_model(
                old(s)@,
            ).last() && arr_model(final(s)@) == arr_model(old(s)@).drop_last(),
            Option::None => old(s)@.len() == 0 && final(s)@ == old(s)@,
        },
{
    broadcast use lemma_arr_model;

    let r = s.pop();
    proof {
        if old(s)@.len() > 0 {
            assert(final(s)@ =~= old(s)@.drop_last());
            assert(arr_model(final(s)@) =~= arr_model(old(s)@).drop_last());
            assert(arr_model(old(s)@).last() == arr_model(old(s)@)[old(s)@.len() - 1]);
            assert(old(s)@[old(s)@.len() - 1] == old(s)@.last());
        }
    }
    r
}

/// Resolves a name operand: the string constant at the given pool
/// index.
fn fetch_name(p: &CodeObject, idx: usize) -> (r: Result<String, InternalError>)
    ensures
        match r {
            Result::Ok(s) => name_at(p@, idx as int) == Result::<Seq<char>, InternalError>::Ok(
                s@,
            ),
            Result::Err(e) => name_at(p@, idx as int) == Result::<
                Seq<char>,
                InternalError,
            >::Err(e),
        },
{
    broadcast use crate::code::lemma_pool_model;

    if idx >= p.constants.len() {
        return Result::Err(InternalError::BadConstantIndex);
    }
    match &p.constants[idx] {
        Value::Str(s) => Result::Ok(s.clone()),
        _ => Result::Err(InternalError::BadNameConstant),
    }
}

/// Performs the return protocol with result `v`, on a state whose
/// operand stack already had the result removed.
fn ret_exec(vm: &mut Vm, v: Value) -> (r: StepResult)
    requires
        old(vm)@.frames.len() >= 1,
    ensures
        match r {
            StepResult::Next => ret_step(old(vm)@, value_model(v), old(vm)@.stack)
                == StepModel::Next(final(vm)@) && final(vm)@.frames.len() >= 1,
            StepResult::Done(rv) => ret_step(old(vm)@, value_model(v), old(vm)@.stack)
                == StepModel::Done(value_model(rv), old(vm)@.output) && final(vm)@.output
                == old(vm)@.output,
            StepResult::Fault(_) => false,
        },
{
    broadcast use lemma_frames_model;

    if vm.frames.len() <= 1 {
        return StepResult::Done(v);
    }
    let fr = vm.frames.pop().unwrap();
    proof {
        assert(vm.frames@ =~= old(vm).frames@.drop_last());
        assert(frames_model(vm.frames@) =~= frames_model(old(vm).frames@).drop_last());
        assert(old(vm).frames@[old(vm).frames@.len() - 1] == old(vm).frames@.last());
    }
    vm.program = fr.ret_code;
    vm.ip = fr.ret_ip;
    push_val(&mut vm.stack, v);
    proof {
        let st = old(vm)@;
        let frm = st.frames.last();
        assert(frm.ret_code == fr.ret_code@);
        assert(frm.ret_ip == fr.ret_ip as int);
        assert(frm.locals == fr.locals@);
        assert(final(vm)@ == (VmModel {
            program: frm.ret_code,
            ip: frm.ret_ip,
            stack: st.stack.push(value_model(v)),
            frames: st.frames.drop_last(),
            ..st
        }));
    }
    StepResult::Next
}

/// Executes one instruction, exactly as `step_model` describes; on a
/// halt or a fault, the output is left as it stood.
#[verifier::rlimit(100)]
pub fn step(vm: &mut Vm) -> (r: StepResult)
    requires
        old(vm)@.frames.len() >= 1,
    ensures
        match r {
            StepResult::Next => step_model(old(vm)@) == StepModel::Next(final(vm)@)
                && final(vm)@.frames.len() >= 1,
            StepResult::Done(v) => step_model(old(vm)@) == StepModel::Done(
                value_model(v),
                old(vm)@.output,
            ) && final(vm)@.output == old(vm)@.output,
            StepResult::Fault(e) => step_model(old(vm)@) == StepModel::Fault(
                crate::error::vm_err_model(e),
                old(vm)@.output,
            ) && final(vm)@.output == old(vm)@.output,
        },
{
    broadcast use lemma_arr_model, lemma_frames_model, crate::code::lemma_pool_model;

    if vm.ip >= vm.program.code.len() {
        return ret_exec(vm, Value::Nothing);
    }
    let ins = vm.program.code[vm.ip];
    match ins {
        Instruction::LoadConst(ci) => {
            if ci >= vm.program.constants.len() {
                return StepResult::Fault(VmError::Internal(InternalError::BadConstantIndex));
            }
            let v = clone_value(&vm.program.constants[ci]);
            let ip2 = vm.ip + 1;
            vm.ip = ip2;
            push_val(&mut vm.stack, v);
            StepResult::Next
        },
        Instruction::LoadBuiltinValue(t) => {
            if t == 0 {
                vm.ip = vm.ip + 1;
                push_val(&mut vm.stack, Value::Nothing);
                StepResult::Next
            } else if t == 1 {
                vm.ip = vm.ip + 1;
                push_val(&mut vm.stack, Value::Bool(true));
                StepResult::Next
            } else if t == 2 {
                vm.ip = vm.ip + 1;
                push_val(&mut vm.stack, Value::Bool(false));
                StepResult::Next
            } else {
                StepResult::Fault(VmError::Internal(InternalError::BadBuiltinTag))
            }
        },
        Instruction::LoadVariable(ni) => {
            let name = match fetch_name(&vm.program, ni) {
                Result::Ok(n) => n,
                Result::Err(e) => {
                    return StepResult::Fault(VmError::Internal(e));
                },
            };
            let last = vm.frames.len() - 1;
            let found: Option<Value> = match vm.frames[last].locals.get(&name) {
                Option::Some(v) => Option::Some(clone_value(v)),
                Option::None => match vm.frames[0].locals.get(&name) {
                    Option::Some(v) => Option::Some(clone_value(v)),
                    Option::None => Option::None,
                },
            };
            match found {
                Option::Some(v) => {
                    vm.ip = vm.ip + 1;
                    push_val(&mut vm.stack, v);
                    StepResult::Next
                },
                Option::None => StepResult::Fault(
                    VmError::Runtime(RuntimeError::UnboundVariable(name)),
                ),
            }
        },
        Instruction::AssignVariable(ni) => {
            let name = match fetch_name(&vm.program, ni) {
                Result::Ok(n) => n,
                Result::Err(e) => {
                    return StepResult::Fault(VmError::Internal(e));
                },
            };
            let v = match pop_val(&mut vm.stack) {
                Option::Some(v) => v,
                Option::None => {
                    return StepResult::Fault(VmError::Internal(InternalError::StackUnderflow));
                },
            };
            let mut fr = vm.frames.pop().unwrap();
            fr.locals.insert(name, v);
            vm.frames.push(fr);
            vm.ip = vm.ip + 1;
            proof {
                let st = old(vm)@;
                let frm = st.frames.last();
                assert(frames_model(final(vm).frames@) =~= st.frames.update(
                    st.frames.len() - 1,
                    FrameModel { locals: env_insert(frm.locals, name@, st.stack.last()), ..frm },
                ));
            }
            StepResult::Next
        },
        Instruction::Jump(t) => {
            vm.ip = t;
            StepResult::Next
        },
        Instruction::JumpIfTrue(t) => {
            let v = match pop_val(&mut vm.stack) {
                Option::Some(v) => v,
                Option::None => {
                    return StepResult::Fault(VmError::Internal(InternalError::StackUnderflow));
                },
            };
            if v.istruthy() {
                vm.ip = t;
            } else {
                vm.ip = vm.ip + 1;
            }
            StepResult::Next
        },
        Instruction::JumpIfFalse(t) => {
            let v = match pop_val(&mut vm.stack) {
                Option::Some(v) => v,
                Option::None => {
                    return StepResult::Fault(VmError::Internal(InternalError::StackUnderflow));
                },
            };
            if !v.istruthy() {
                vm.ip = t;
            } else {
                vm.ip = vm.ip + 1;
            }
            StepResult::Next
        },
        Instruction::CallFunction(ni, argc) => {
            let name = match fetch_name(&vm.program, ni) {
                Result::Ok(n) => n,
                Result::Err(e) => {
                    return StepResult::Fault(VmError::Internal(e));
                },
            };
            if vm.stack.len() < argc {
                return StepResult::Fault(VmError::Internal(InternalError::StackUnderflow));
            }
            let split_at = vm.stack.len() - argc;
            let args = vm.stack.split_off(split_at);
            proof {
                assert(arr_model(args@) =~= arr_model(old(vm).stack@).subrange(
                    old(vm)@.stack.len() - argc,
                    old(vm)@.stack.len() as int,
                ));
                assert(arr_model(vm.stack@) =~= arr_model(old(vm).stack@).take(
                    old(vm)@.stack.len() - argc,
                ));
            }
            let found: Option<CodeObject> = match vm.program.find_child(&name) {
                Option::Some(c) => Option::Some(clone_code(c)),
                Option::None => match crate::code::table_find(&vm.global_fns, &name) {
                    Option::Some(c) => Option::Some(clone_code(c)),
                    Option::None => Option::None,
                },
            };
            let callee = match found {
                Option::Some(c) => c,
                Option::None => {
                    return StepResult::Fault(
                        VmError::Runtime(RuntimeError::UnknownFunction(name)),
                    );
                },
            };
            if callee.parameters.len() != argc {
                return StepResult::Fault(
                    VmError::Runtime(
                        RuntimeError::ArityMismatch {
                            expected: callee.parameters.len(),
                            got: argc,
                        },
                    ),
                );
            }
            let ghost params_m = callee@.parameters;
            let ghost args_m = arr_model(args@);
            let mut locals = Locals::new();
            let mut j: usize = 0;
            while j < callee.parameters.len()
                invariant
                    j <= callee.parameters@.len(),
                    params_m == callee@.parameters,
                    args_m == arr_model(args@),
                    args@.len() == callee.parameters@.len(),
                    bind_acc(params_m, args_m, j as int, locals@) == bind_acc(
                        params_m,
                        args_m,
                        0,
                        Seq::empty(),
                    ),
                decreases callee.parameters@.len() - j,
            {
                broadcast use lemma_arr_model;

                let pname = callee.parameters[j].name.clone();
                let pval = clone_value(&args[j]);
                proof {
                    assert(params_m[j as int].name == pname@);
                    assert(args_m[j as int] == value_model(pval));
                }
                locals.insert(pname, pval);
                j = j + 1;
            }
            let ret_code = clone_code(&vm.program);
            let ret_ip = vm.ip + 1;
            let fr = Frame { locals, ret_code, ret_ip };
            vm.frames.push(fr);
            proof {
                assert(frames_model(vm.frames@) =~= frames_model(old(vm).frames@).push(
                    FrameModel {
                        locals: bind_acc(params_m, args_m, 0, Seq::empty()),
                        ret_code: old(vm)@.program,
                        ret_ip: old(vm)@.ip + 1,
                    },
                ));
            }
            vm.program = callee;
            vm.ip = 0;
            StepResult::Next
        },
        Instruction::CallPrimitive(pid, argc) => {
            if vm.stack.len() < argc {
                return StepResult::Fault(VmError::Internal(InternalError::StackUnderflow));
            }
            let split_at = vm.stack.len() - argc;
            if pid == 0 {
                let args = vm.stack.split_off(split_at);
                proof {
                    assert(arr_model(args@) =~= arr_model(old(vm).stack@).subrange(
                        old(vm)@.stack.len() - argc,
                        old(vm)@.stack.len() as int,
                    ));
                    assert(arr_model(vm.stack@) =~= arr_model(old(vm).stack@).take(
                        old(vm)@.stack.len() - argc,
                    ));
                }
                let ghost args_m = arr_model(args@);
                let mut line = String::new();
                let mut j: usize = 0;
                while j < args.len()
                    invariant
                        j <= args@.len(),
                        args_m == arr_model(args@),
                        line@ + writeln_from(args_m, j as int) == writeln_from(args_m, 0),
                    decreases args@.len() - j,
                {
                    broadcast use lemma_arr_model;

                    let ghost pre = line@;
                    let piece = render_value(&args[j]);
                    line.append(piece.as_str());
                    line.append(" ");
                    proof {
                        assert(line@ =~= pre + render(args_m[j as int]) + " "@);
                        assert(line@ + writeln_from(args_m, j + 1) =~= pre + writeln_from(
                            args_m,
                            j as int,
                        ));
                    }
                    j = j + 1;
                }
                proof {
                    assert(writeln_from(args_m, args_m.len() as int) =~= Seq::<char>::empty());
                    assert(line@ =~= writeln_from(args_m, 0));
                }
                vm.output.push(line);
                proof {
                    assert(out_model(vm.output@) =~= out_model(old(vm).output@).push(
                        writeln_from(args_m, 0),
                    )) by {
                        broadcast use lemma_out_model;

                    }
                }
                vm.ip = vm.ip + 1;
                push_val(&mut vm.stack, Value::Nothing);
                StepResult::Next
            } else if pid == 1 {
                StepResult::Done(Value::Nothing)
            } else {
                StepResult::Fault(VmError::Internal(InternalError::BadPrimitive))
            }
        },
        Instruction::BuildArray(n) => {
            if vm.stack.len() < n {
                return StepResult::Fault(VmError::Internal(InternalError::StackUnderflow));
            }
            let split_at = vm.stack.len() - n;
            let args = vm.stack.split_off(split_at);
            proof {
                assert(arr_model(args@) =~= arr_model(old(vm).stack@).subrange(
                    old(vm)@.stack.len() - n,
                    old(vm)@.stack.len() as int,
                ));
                assert(arr_model(vm.stack@) =~= arr_model(old(vm).stack@).take(
                    old(vm)@.stack.len() - n,
                ));
            }
            vm.ip = vm.ip + 1;
            push_val(&mut vm.stack, Value::Array(args));
            StepResult::Next
        },
        Instruction::ConvertTo(tag) => {
            let v = match pop_val(&mut vm.stack) {
                Option::Some(v) => v,
                Option::None => {
                    return StepResult::Fault(VmError::Internal(InternalError::StackUnderflow));
                },
            };
            match convert(&v, tag) {
                Result::Ok(w) => {
                    vm.ip = vm.ip + 1;
                    push_val(&mut vm.stack, w);
                    StepResult::Next
                },
                Result::Err(e) => StepResult::Fault(VmError::Runtime(e)),
            }
        },
        Instruction::Return => {
            let v = match pop_val(&mut vm.stack) {
                Option::Some(v) => v,
                Option::None => {
                    return StepResult::Fault(VmError::Internal(InternalError::StackUnderflow));
                },
            };
            ret_exec(vm, v)
        },
        Instruction::ReturnNone => ret_exec(vm, Value::Nothing),
        Instruction::Not | Instruction::Negate | Instruction::Typeof => {
            let v = match pop_val(&mut vm.stack) {
                Option::Some(v) => v,
                Option::None => {
                    return StepResult::Fault(VmError::Internal(InternalError::StackUnderflow));
                },
            };
            match apply_unary(&v, ins) {
                Result::Ok(w) => {
                    vm.ip = vm.ip + 1;
                    push_val(&mut vm.stack, w);
                    StepResult::Next
                },
                Result::Err(e) => StepResult::Fault(VmError::Runtime(e)),
            }
        },
        // every remaining instruction is a binary operation: it pops the
        // right operand, then the left, and pushes one result
        _ => {
            let b = match pop_val(&mut vm.stack) {
                Option::Some(v) => v,
                Option::None => {
                    return StepResult::Fault(VmError::Internal(InternalError::StackUnderflow));
                },
            };
            let a = match pop_val(&mut vm.stack) {
                Option::Some(v) => v,
                Option::None => {
                    return StepResult::Fault(VmError::Internal(InternalError::StackUnderflow));
                },
            };
            proof {
                assert(value_model(a) == old(vm)@.stack[old(vm)@.stack.len() - 2]);
                assert(arr_model(vm.stack@) =~= old(vm)@.stack.take(old(vm)@.stack.len() - 2));
            }
            match operate(&a, &b, ins) {
                Result::Ok(w) => {
                    vm.ip = vm.ip + 1;
                    push_val(&mut vm.stack, w);
                    StepResult::Next
                },
                Result::Err(e) => StepResult::Fault(VmError::Runtime(e)),
            }
        },
    }
}


/// Copies a function table; the copy has the same model.
fn clone_table(t: &Vec<FnEntry>) -> (r: Vec<FnEntry>)
    ensures
        children_model(r@) == children_model(t@),
{
    broadcast use lemma_children_model;

    let mut out: Vec<FnEntry> = Vec::new();
    let mut i: usize = 0;
    while i < t.len()
        invariant
            i <= t@.len(),
            out@.len() == i,
            forall|j: int|
                0 <= j < i ==> (#[trigger] out@[j]).name@ == t@[j].name@ && out@[j].code@
                    == t@[j].code@,
        decreases t@.len() - i,
    {
        let entry = FnEntry { name: t[i].name.clone(), code: clone_code(&t[i].code) };
        out.push(entry);
        i = i + 1;
    }
    proof {
        assert(children_model(out@) =~= children_model(t@));
    }
    out
}

/// Whether an executable outcome and its output agree with what the
/// reference interpreter yields.
pub open spec fn run_matches(outcome: Outcome, out: Seq<Seq<char>>, m: RunModel) -> bool {
    match m {
        RunModel::Done(v, o) => match outcome {
            Outcome::Done(rv) => value_model(rv) == v && out == o,
            _ => false,
        },
        RunModel::Fault(e, o) => match outcome {
            Outcome::Fault(re) => crate::error::vm_err_model(re) == e && out == o,
            _ => false,
        },
        RunModel::Out(st) => match outcome {
            Outcome::OutOfFuel => out == st.output,
            _ => false,
        },
    }
}

/// Runs a compiled unit to completion under a step bound: at most
/// `fuel` instructions are executed. Yields the program's value or
/// terminal error together with every line the printing primitive
/// produced, exactly as the reference interpreter describes; the
/// bound, when exhausted, is reported as such. When no function table
/// is given, the unit's own children serve as the top-level table.
pub fn run(code: &CodeObject, globals: Locals, global_fns: Option<&Vec<FnEntry>>, fuel: u64) -> (r:
    (Outcome, Vec<String>))
    ensures
        ({
            let table = match global_fns {
                Option::Some(t) => children_model(t@),
                Option::None => code@.children,
            };
            run_matches(r.0, out_model(r.1@), run_model(init_model(code@, globals@, table), fuel as nat))
        }),
{
    broadcast use lemma_frames_model;

    let table: Vec<FnEntry> = match global_fns {
        Option::Some(t) => clone_table(t),
        Option::None => clone_table(&code.children),
    };
    let program = clone_code(code);
    let ret_dummy = clone_code(code);
    let mut frames_v: Vec<Frame> = Vec::new();
    frames_v.push(Frame { locals: globals, ret_code: ret_dummy, ret_ip: 0 });
    let mut vm = Vm {
        program,
        ip: 0,
        stack: Vec::new(),
        frames: frames_v,
        global_fns: table,
        output: Vec::new(),
    };
    let ghost table_m = match global_fns {
        Option::Some(t) => children_model(t@),
        Option::None => code@.children,
    };
    proof {
        assert(arr_model(vm.stack@) =~= Seq::<ValueModel>::empty());
        assert(out_model(vm.output@) =~= Seq::<Seq<char>>::empty());
        assert(frames_model(vm.frames@) =~= seq![
            FrameModel { locals: globals@, ret_code: code@, ret_ip: 0 },
        ]);
        assert(vm@ == init_model(code@, globals@, table_m));
    }
    let ghost init = vm@;
    let mut k: u64 = fuel;
    loop
        invariant
            vm@.frames.len() >= 1,
            init == init_model(
                code@,
                globals@,
                match global_fns {
                    Option::Some(t) => children_model(t@),
                    Option::None => code@.children,
                },
            ),
            run_model(init, fuel as nat) == run_model(vm@, k as nat),
        decreases k,
    {
        if k == 0 {
            proof {
                assert(run_model(vm@, 0) == RunModel::Out(vm@));
            }
            return (Outcome::OutOfFuel, vm.output);
        }
        let ghost pre = vm@;
        let res = step(&mut vm);
        match res {
            StepResult::Next => {
                proof {
                    assert(run_model(pre, k as nat) == run_model(vm@, (k - 1) as nat));
                }
                k = k - 1;
            },
            StepResult::Done(v) => {
                proof {
                    assert(run_model(pre, k as nat) == RunModel::Done(value_model(v), pre.output));
                }
                return (Outcome::Done(v), vm.output);
            },
            StepResult::Fault(e) => {
                proof {
                    assert(run_model(pre, k as nat) == RunModel::Fault(
                        crate::error::vm_err_model(e),
                        pre.output,
                    ));
                }
                return (Outcome::Fault(e), vm.output);
            },
        }
    }
}

} // verus!
