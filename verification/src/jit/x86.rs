use crate::dmo::Operator;
use crate::le::{u32_le_bytes, u64_le_bytes};
use vstd::prelude::*;

verus! {

/// The general-purpose registers that the emitter loads.
#[derive(Clone, Copy, Debug, PartialEq, Eq, Structural)]
pub enum Reg {
    Rax,
    Rcx,
    Rdx,
    Rsi,
    Rdi,
    R8,
}

impl Reg {
    /// The register's number in the instruction encoding.
    pub open spec fn number(self) -> nat {
        match self {
            Reg::Rax => 0,
            Reg::Rcx => 1,
            Reg::Rdx => 2,
            Reg::Rsi => 6,
            Reg::Rdi => 7,
            Reg::R8 => 8,
        }
    }
}

/// The calling convention of the host.
#[derive(Clone, Copy, Debug, PartialEq, Eq, Structural)]
pub enum Abi {
    /// System V AMD64, used on Linux and macOS.
    SysV64,
    /// Microsoft x64.
    Win64,
}

impl Abi {
    /// The register that carries integer argument `slot` of a call.
    pub open spec fn int_arg(self, slot: nat) -> Reg
        recommends
            slot < 3,
    {
        match self {
            Abi::SysV64 => if slot == 0 {
                Reg::Rdi
            } else if slot == 1 {
                Reg::Rsi
            } else {
                Reg::Rdx
            },
            Abi::Win64 => if slot == 0 {
                Reg::Rcx
            } else if slot == 1 {
                Reg::Rdx
            } else {
                Reg::R8
            },
        }
    }

    /// The xmm register that carries a float which is the only float argument
    /// of a call and stands at position `slot` among all its arguments.
    pub open spec fn float_arg(self, slot: nat) -> nat
        recommends
            slot < 4,
    {
        match self {
            Abi::SysV64 => 0,
            Abi::Win64 => slot,
        }
    }

    /// The bytes that open the compiled function.
    pub open spec fn prologue(self) -> Seq<u8> {
        match self {
            Abi::SysV64 => push_rbp_code() + mov_rbp_rsp_code(),
            Abi::Win64 => sub_rsp_code(8),
        }
    }

    /// The bytes that close the compiled function.
    pub open spec fn epilogue(self) -> Seq<u8> {
        match self {
            Abi::SysV64 => mov_rsp_rbp_code() + pop_rbp_code() + ret_code(),
            Abi::Win64 => add_rsp_code(8) + ret_code(),
        }
    }
}

/// The addresses that the compiled function refers to: the context it works
/// on and the four helpers it calls.
#[derive(Clone, Copy, Debug, PartialEq, Eq, Structural)]
pub struct CallTable {
    pub context: u64,
    pub print: u64,
    pub exit: u64,
    pub draw: u64,
    pub clear: u64,
}

/// `ret`
pub open spec fn ret_code() -> Seq<u8> {
    seq![0xc3u8]
}

/// `push rax`
pub open spec fn push_rax_code() -> Seq<u8> {
    seq![0x50u8]
}

/// `pop rax`
pub open spec fn pop_rax_code() -> Seq<u8> {
    seq![0x58u8]
}

/// `push rbp`
pub open spec fn push_rbp_code() -> Seq<u8> {
    seq![0x55u8]
}

/// `pop rbp`
pub open spec fn pop_rbp_code() -> Seq<u8> {
    seq![0x5du8]
}

/// `mov rbp, rsp`
pub open spec fn mov_rbp_rsp_code() -> Seq<u8> {
    seq![0x48u8, 0x89u8, 0xe5u8]
}

/// `mov rsp, rbp`
pub open spec fn mov_rsp_rbp_code() -> Seq<u8> {
    seq![0x48u8, 0x89u8, 0xecu8]
}

/// `add rsp, imm8`
pub open spec fn add_rsp_code(value: u8) -> Seq<u8> {
    seq![0x48u8, 0x83u8, 0xc4u8, value]
}

/// `sub rsp, imm8`
pub open spec fn sub_rsp_code(value: u8) -> Seq<u8> {
    seq![0x48u8, 0x83u8, 0xecu8, value]
}

/// `call rax`
pub open spec fn call_rax_code() -> Seq<u8> {
    seq![0xffu8, 0xd0u8]
}

/// `mov rax, imm32`, the immediate sign-extended to 64 bits.
pub open spec fn mov_rax_u32_code(value: u32) -> Seq<u8> {
    seq![0x48u8, 0xc7u8, 0xc0u8] + u32_le_bytes(value)
}

/// `movabs reg, imm64`: a REX.W prefix, with REX.B set for `r8`, the opcode
/// `B8` plus the low three bits of the register number, and the immediate.
pub open spec fn movabs_code(reg: Reg, value: u64) -> Seq<u8> {
    seq![(0x48 + reg.number() / 8) as u8, (0xb8 + reg.number() % 8) as u8] + u64_le_bytes(value)
}

/// `push imm32`, which pushes the immediate as a sign-extended quadword.
pub open spec fn push_imm32_code(value: u32) -> Seq<u8> {
    seq![0x68u8] + u32_le_bytes(value)
}

/// `movss xmm<n>, [rsp]`
pub open spec fn movss_load_code(xmm_n: nat) -> Seq<u8>
    recommends
        xmm_n <= 7,
{
    seq![0xf3u8, 0x0fu8, 0x10u8, (0x04 + 8 * xmm_n) as u8, 0x24u8]
}

/// Loads the float with bit pattern `value` into `xmm<n>` by way of the
/// stack: push the pattern, load from the top of the stack, drop the slot.
pub open spec fn movss_code(xmm_n: nat, value: u32) -> Seq<u8>
    recommends
        xmm_n <= 7,
{
    push_imm32_code(value) + movss_load_code(xmm_n) + add_rsp_code(8)
}

/// The calling sequence of one operator.
pub open spec fn op_code(abi: Abi, t: CallTable, op: Operator) -> Seq<u8> {
    match op {
        Operator::NOOP => Seq::empty(),
        Operator::Exit(limit) => movabs_code(abi.int_arg(0), t.context) + movss_code(
            abi.float_arg(1),
            limit,
        ) + movabs_code(Reg::Rax, t.exit) + call_rax_code(),
        Operator::Print => movabs_code(abi.int_arg(0), t.context) + movabs_code(Reg::Rax, t.print)
            + call_rax_code(),
        Operator::Draw(sprite_idx, offset, speed) => movabs_code(abi.int_arg(0), t.context)
            + movabs_code(abi.int_arg(1), sprite_idx as u64) + movabs_code(
            abi.int_arg(2),
            offset as u64,
        ) + movss_code(abi.float_arg(3), speed) + movabs_code(Reg::Rax, t.draw) + call_rax_code(),
        Operator::Clear(charcode) => movabs_code(abi.int_arg(0), t.context) + movabs_code(
            abi.int_arg(1),
            charcode as u64,
        ) + movabs_code(Reg::Rax, t.clear) + call_rax_code(),
    }
}

/// The calling sequences of a program's operators, in order.
pub open spec fn body_code(abi: Abi, t: CallTable, ops: Seq<Operator>) -> Seq<u8> {
    ops.flat_map(|op: Operator| op_code(abi, t, op))
}

/// The whole compiled function.
pub open spec fn program_code(abi: Abi, t: CallTable, ops: Seq<Operator>) -> Seq<u8> {
    abi.prologue() + body_code(abi, t, ops) + abi.epilogue()
}

/// The length of the calling sequence of one operator.
pub open spec fn op_len(op: Operator) -> nat {
    match op {
        Operator::NOOP => 0,
        Operator::Exit(_) => 36,
        Operator::Print => 22,
        Operator::Draw(_, _, _) => 56,
        Operator::Clear(_) => 32,
    }
}

/// The length of the calling sequences of a program's operators.
pub open spec fn body_len(ops: Seq<Operator>) -> nat
    decreases ops.len(),
{
    if ops.len() == 0 {
        0
    } else {
        body_len(ops.drop_last()) + op_len(ops.last())
    }
}

/// The length of the whole compiled function.
pub open spec fn program_len(ops: Seq<Operator>) -> nat {
    9 + body_len(ops)
}

/// An operator's calling sequence has the same length under both calling
/// conventions and for all addresses.
pub proof fn lemma_op_code_len(abi: Abi, t: CallTable, op: Operator)
    ensures
        op_code(abi, t, op).len() == op_len(op),
{
}

/// The body is as long as its operators' calling sequences together.
pub proof fn lemma_body_code_len(abi: Abi, t: CallTable, ops: Seq<Operator>)
    ensures
        body_code(abi, t, ops).len() == body_len(ops),
    decreases ops.len(),
{
    let f = |op: Operator| op_code(abi, t, op);
    if ops.len() == 0 {
        assert(ops.map_values(f) =~= Seq::empty());
    } else {
        lemma_body_code_len(abi, t, ops.drop_last());
        ops.drop_last().lemma_flat_map_push(f, ops.last());
        assert(ops.drop_last().push(ops.last()) =~= ops);
        lemma_op_code_len(abi, t, ops.last());
    }
}

/// A program's first `i` operators take no more room than the first `i + 1`,
/// and all of them take `body_len` of the program.
pub proof fn lemma_body_len_take(ops: Seq<Operator>, i: int)
    requires
        0 <= i <= ops.len(),
    ensures
        body_len(ops.take(i)) <= body_len(ops),
        i < ops.len() ==> body_len(ops.take(i + 1)) == body_len(ops.take(i)) + op_len(ops[i]),
    decreases ops.len() - i,
{
    if i < ops.len() {
        assert(ops.take(i + 1).drop_last() =~= ops.take(i));
        lemma_body_len_take(ops, i + 1);
    } else {
        assert(ops.take(i) =~= ops);
    }
}

/// The compiled function is as long as `program_len` says.
pub proof fn lemma_program_code_len(abi: Abi, t: CallTable, ops: Seq<Operator>)
    ensures
        program_code(abi, t, ops).len() == program_len(ops),
{
    lemma_body_code_len(abi, t, ops);
}

} // verus!
