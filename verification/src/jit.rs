use crate::dmo::Operator;
use crate::jit::x86::{
    add_rsp_code, body_len, call_rax_code, lemma_body_code_len, lemma_body_len_take,
    lemma_program_code_len, mov_rax_u32_code, mov_rbp_rsp_code, mov_rsp_rbp_code, movabs_code,
    movss_code, op_code, op_len, pop_rax_code, pop_rbp_code, program_code, program_len,
    push_rax_code, push_rbp_code, ret_code, sub_rsp_code, Abi, CallTable, Reg,
};
use crate::le::{u32_byte, u32_le_bytes, u64_byte, u64_le_bytes};
use vstd::prelude::*;

pub mod x86;

verus! {

/// Regions are sized in pages of this many bytes.
pub const PAGE_SIZE: usize = 4096;

/// The byte that fills a fresh region: the `ret` instruction.
pub const FILL: u8 = 0xc3;

/// What the pages of a region may be used for.
#[derive(Clone, Copy, Debug, PartialEq, Eq, Structural)]
pub enum Protection {
    ReadWrite,
    ReadExecute,
}

impl Protection {
    pub open spec fn writable(self) -> bool {
        self == Protection::ReadWrite
    }

    pub open spec fn executable(self) -> bool {
        self == Protection::ReadExecute
    }
}

/// A read-write region that is filled with the bytes of `x86` instructions.
pub struct JitMemory {
    /// the bytes written so far; the next byte goes behind them
    code: Vec<u8>,
    /// the size of the region in bytes
    size: usize,
}

/// The finished, executable image of a region: what the pages hold when the
/// compiled function is run. Nothing can be written to it any more.
pub struct JitFn {
    code: Vec<u8>,
}

/// Why no compiled function could be built.
#[derive(Clone, Copy, Debug, PartialEq, Eq, Structural)]
pub enum JitError {
    /// A region of the size asked for cannot exist.
    Allocation,
    /// The program needs more bytes than the region holds.
    Overrun,
}

/// A region is never writable and executable at once.
pub proof fn lemma_write_xor_execute(p: Protection)
    ensures
        !(p.writable() && p.executable()),
{
}

/// The contents of a region of `capacity` bytes to which `emitted` was
/// written: those bytes, then `ret` up to the end.
pub open spec fn region_image(emitted: Seq<u8>, capacity: nat) -> Seq<u8> {
    Seq::new(
        capacity,
        |i: int|
            if i < emitted.len() {
                emitted[i]
            } else {
                FILL
            },
    )
}

pub trait JitAssembler: Sized {
    /// The bytes written so far.
    spec fn emitted(&self) -> Seq<u8>;

    /// The size of the region in bytes.
    spec fn capacity(&self) -> nat;

    /// Makes the region executable and hands its image on. The region is
    /// given up by this: nothing can be written to it afterwards.
    fn to_jit_fn(self) -> (f: JitFn)
        ensures
            f.image() == region_image(self.emitted(), self.capacity()),
    ;

    /// Writes the compiled function for `operators`: the prologue of the
    /// calling convention, the calling sequence of each operator in order, and
    /// the epilogue.
    fn fill_jit(&mut self, abi: Abi, targets: &CallTable, operators: &Vec<Operator>)
        requires
            old(self).emitted().len() + program_len(operators@) <= old(self).capacity(),
        ensures
            final(self).emitted() == old(self).emitted() + program_code(abi, *targets, operators@),
            final(self).emitted().len() == old(self).emitted().len() + program_len(operators@),
            final(self).capacity() == old(self).capacity(),
    ;

    /// Writes one byte at the cursor and moves the cursor past it.
    fn push_u8(&mut self, value: u8)
        requires
            old(self).emitted().len() + 1 <= old(self).capacity(),
        ensures
            final(self).emitted() == old(self).emitted().push(value),
            final(self).capacity() == old(self).capacity(),
    ;

    /// Writes a 4-byte value, least significant byte first.
    fn push_u32(&mut self, value: u32)
        requires
            old(self).emitted().len() + 4 <= old(self).capacity(),
        ensures
            final(self).emitted() == old(self).emitted() + u32_le_bytes(value),
            final(self).capacity() == old(self).capacity(),
    ;

    /// Writes an 8-byte value, least significant byte first.
    fn push_u64(&mut self, value: u64)
        requires
            old(self).emitted().len() + 8 <= old(self).capacity(),
        ensures
            final(self).emitted() == old(self).emitted() + u64_le_bytes(value),
            final(self).capacity() == old(self).capacity(),
    ;
}

impl JitMemory {
    /// A region of `num_pages` pages with nothing written to it yet.
    pub fn new(num_pages: usize) -> (mem: JitMemory)
        requires
            num_pages * PAGE_SIZE <= usize::MAX,
        ensures
            mem.emitted() == Seq::<u8>::empty(),
            mem.capacity() == num_pages * PAGE_SIZE,
    {
        JitMemory { code: Vec::new(), size: num_pages * PAGE_SIZE }
    }

    /// The contents of the region's pages: what was written, then `ret` up
    /// to the end.
    pub open spec fn image(&self) -> Seq<u8> {
        region_image(self.emitted(), self.capacity())
    }

    /// The protection of the region while it is filled: it can be written,
    /// not run.
    pub fn protection(&self) -> (p: Protection)
        ensures
            p == Protection::ReadWrite,
            p.writable(),
            !p.executable(),
    {
        Protection::ReadWrite
    }

    /// The number of bytes that the calling sequence of `op` takes.
    pub fn op_size(op: &Operator) -> (n: usize)
        ensures
            n == op_len(*op),
    {
        match *op {
            Operator::NOOP => 0,
            Operator::Exit(_) => 36,
            Operator::Print => 22,
            Operator::Draw(_, _, _) => 56,
            Operator::Clear(_) => 32,
        }
    }

    /// Whether the compiled function for `operators` fits into what is left
    /// of the region.
    pub fn has_room_for(&self, operators: &Vec<Operator>) -> (fits: bool)
        ensures
            fits == (self.emitted().len() + program_len(operators@) <= self.capacity()),
    {
        if self.code.len() > self.size || self.size - self.code.len() < 9 {
            return false;
        }
        let mut left: usize = self.size - self.code.len() - 9;
        let mut i: usize = 0;
        proof {
            lemma_body_len_take(operators@, 0);
        }
        while i < operators.len()
            invariant
                i <= operators.len(),
                self.code.len() + 9 <= self.size,
                left + body_len(operators@.take(i as int)) == self.size - self.code.len() - 9,
            decreases operators.len() - i,
        {
            proof {
                lemma_body_len_take(operators@, i as int);
                lemma_body_len_take(operators@, i + 1);
            }
            let n = Self::op_size(&operators[i]);
            if n > left {
                return false;
            }
            left -= n;
            i += 1;
        }
        assert(operators@.take(i as int) =~= operators@);
        true
    }

    pub fn get_size(&self) -> (size: usize)
        ensures
            size == self.capacity(),
    {
        self.size
    }

    pub fn get_offset(&self) -> (offset: usize)
        ensures
            offset == self.emitted().len(),
    {
        self.code.len()
    }
}

impl JitAssembler for JitMemory {
    closed spec fn emitted(&self) -> Seq<u8> {
        self.code@
    }

    closed spec fn capacity(&self) -> nat {
        self.size as nat
    }

    fn to_jit_fn(self) -> (f: JitFn) {
        let ghost emitted = self.code@;
        let size = self.size;
        let mut code = self.code;
        code.truncate(size);
        while code.len() < size
            invariant
                code.len() <= size,
                emitted.len() <= code.len() || code.len() == size,
                forall|i: int|
                    0 <= i < code.len() ==> code[i] == region_image(emitted, size as nat)[i],
            decreases size - code.len(),
        {
            code.push(FILL);
        }
        assert(code@ =~= region_image(emitted, size as nat));
        JitFn { code }
    }

    fn fill_jit(&mut self, abi: Abi, targets: &CallTable, operators: &Vec<Operator>) {
        let ghost ops = operators@;
        let ghost code = |op: Operator| op_code(abi, *targets, op);
        proof {
            assert(ops.take(0).map_values(code) =~= Seq::empty());
            assert(ops.take(ops.len() as int) =~= ops);
            lemma_body_len_take(ops, 0);
        }
        self.emit_prologue(abi);
        let mut i: usize = 0;
        while i < operators.len()
            invariant
                i <= operators.len(),
                ops == operators@,
                code == |op: Operator| op_code(abi, *targets, op),
                self.capacity() == old(self).capacity(),
                self.emitted() == old(self).emitted() + abi.prologue() + ops.take(i as int).flat_map(
                    code,
                ),
                old(self).emitted().len() + program_len(ops) <= old(self).capacity(),
            decreases operators.len() - i,
        {
            proof {
                lemma_body_len_take(ops, i as int);
                lemma_body_len_take(ops, i + 1);
                lemma_body_code_len(abi, *targets, ops.take(i as int));
                ops.lemma_flat_map_take_append(code, i as int);
            }
            self.emit_op(abi, targets, &operators[i]);
            i += 1;
        }
        proof {
            lemma_body_code_len(abi, *targets, ops);
        }
        self.emit_epilogue(abi);
        assert(self.emitted() =~= old(self).emitted() + program_code(abi, *targets, ops));
        proof {
            lemma_program_code_len(abi, *targets, ops);
        }
    }

    fn push_u8(&mut self, value: u8) {
        self.code.push(value);
    }

    fn push_u32(&mut self, value: u32) {
        self.push_u8(u32_byte(value, 0));
        self.push_u8(u32_byte(value, 1));
        self.push_u8(u32_byte(value, 2));
        self.push_u8(u32_byte(value, 3));
        assert(self.emitted() =~= old(self).emitted() + u32_le_bytes(value));
    }

    fn push_u64(&mut self, value: u64) {
        self.push_u8(u64_byte(value, 0));
        self.push_u8(u64_byte(value, 1));
        self.push_u8(u64_byte(value, 2));
        self.push_u8(u64_byte(value, 3));
        self.push_u8(u64_byte(value, 4));
        self.push_u8(u64_byte(value, 5));
        self.push_u8(u64_byte(value, 6));
        self.push_u8(u64_byte(value, 7));
        assert(self.emitted() =~= old(self).emitted() + u64_le_bytes(value));
    }
}

impl JitMemory {
    /// `ret`
    pub fn ret(&mut self)
        requires
            old(self).emitted().len() + 1 <= old(self).capacity(),
        ensures
            final(self).emitted() == old(self).emitted() + ret_code(),
            final(self).capacity() == old(self).capacity(),
    {
        self.push_u8(0xc3);
        assert(self.emitted() =~= old(self).emitted() + ret_code());
    }

    /// `mov rax, imm32`
    pub fn mov_rax_u32(&mut self, value: u32)
        requires
            old(self).emitted().len() + 7 <= old(self).capacity(),
        ensures
            final(self).emitted() == old(self).emitted() + mov_rax_u32_code(value),
            final(self).capacity() == old(self).capacity(),
    {
        self.push_u8(0x48);
        self.push_u8(0xc7);
        self.push_u8(0xc0);
        self.push_u32(value);
        assert(self.emitted() =~= old(self).emitted() + mov_rax_u32_code(value));
    }

    /// `movabs rax, imm64`
    pub fn movabs_rax_u64(&mut self, value: u64)
        requires
            old(self).emitted().len() + 10 <= old(self).capacity(),
        ensures
            final(self).emitted() == old(self).emitted() + movabs_code(Reg::Rax, value),
            final(self).capacity() == old(self).capacity(),
    {
        self.push_u8(0x48);
        self.push_u8(0xb8);
        self.push_u64(value);
        assert(self.emitted() =~= old(self).emitted() + movabs_code(Reg::Rax, value));
    }

    /// `movabs rdi, imm64`
    pub fn movabs_rdi_u64(&mut self, value: u64)
        requires
            old(self).emitted().len() + 10 <= old(self).capacity(),
        ensures
            final(self).emitted() == old(self).emitted() + movabs_code(Reg::Rdi, value),
            final(self).capacity() == old(self).capacity(),
    {
        self.push_u8(0x48);
        self.push_u8(0xbf);
        self.push_u64(value);
        assert(self.emitted() =~= old(self).emitted() + movabs_code(Reg::Rdi, value));
    }

    /// `movabs rsi, imm64`
    pub fn movabs_rsi_u64(&mut self, value: u64)
        requires
            old(self).emitted().len() + 10 <= old(self).capacity(),
        ensures
            final(self).emitted() == old(self).emitted() + movabs_code(Reg::Rsi, value),
            final(self).capacity() == old(self).capacity(),
    {
        self.push_u8(0x48);
        self.push_u8(0xbe);
        self.push_u64(value);
        assert(self.emitted() =~= old(self).emitted() + movabs_code(Reg::Rsi, value));
    }

    /// `movabs rdx, imm64`
    pub fn movabs_rdx_u64(&mut self, value: u64)
        requires
            old(self).emitted().len() + 10 <= old(self).capacity(),
        ensures
            final(self).emitted() == old(self).emitted() + movabs_code(Reg::Rdx, value),
            final(self).capacity() == old(self).capacity(),
    {
        self.push_u8(0x48);
        self.push_u8(0xba);
        self.push_u64(value);
        assert(self.emitted() =~= old(self).emitted() + movabs_code(Reg::Rdx, value));
    }

    /// `movabs rcx, imm64`
    pub fn movabs_rcx_u64(&mut self, value: u64)
        requires
            old(self).emitted().len() + 10 <= old(self).capacity(),
        ensures
            final(self).emitted() == old(self).emitted() + movabs_code(Reg::Rcx, value),
            final(self).capacity() == old(self).capacity(),
    {
        self.push_u8(0x48);
        self.push_u8(0xb9);
        self.push_u64(value);
        assert(self.emitted() =~= old(self).emitted() + movabs_code(Reg::Rcx, value));
    }

    /// `movabs r8, imm64`
    pub fn movabs_r8_u64(&mut self, value: u64)
        requires
            old(self).emitted().len() + 10 <= old(self).capacity(),
        ensures
            final(self).emitted() == old(self).emitted() + movabs_code(Reg::R8, value),
            final(self).capacity() == old(self).capacity(),
    {
        self.push_u8(0x49);
        self.push_u8(0xb8);
        self.push_u64(value);
        assert(self.emitted() =~= old(self).emitted() + movabs_code(Reg::R8, value));
    }

    /// Loads the float with bit pattern `value` into `xmm<xmm_n>`: pushes the
    /// pattern, loads it from the top of the stack, and drops the stack slot.
    pub fn movss_xmm_n_f32(&mut self, xmm_n: usize, value: u32)
        requires
            xmm_n <= 7,
            old(self).emitted().len() + 14 <= old(self).capacity(),
        ensures
            final(self).emitted() == old(self).emitted() + movss_code(xmm_n as nat, value),
            final(self).capacity() == old(self).capacity(),
    {
        // push imm32
        self.push_u8(0x68);
        self.push_u32(value);

        // movss xmm<n>, [rsp]
        self.push_u8(0xf3);
        self.push_u8(0x0f);
        self.push_u8(0x10);
        let modrm: u8 = if xmm_n == 0 {
            0x04
        } else if xmm_n == 1 {
            0x0c
        } else if xmm_n == 2 {
            0x14
        } else if xmm_n == 3 {
            0x1c
        } else if xmm_n == 4 {
            0x24
        } else if xmm_n == 5 {
            0x2c
        } else if xmm_n == 6 {
            0x34
        } else {
            0x3c
        };
        self.push_u8(modrm);
        self.push_u8(0x24);

        self.add_rsp_u8(8);
        assert(self.emitted() =~= old(self).emitted() + movss_code(xmm_n as nat, value));
    }

    /// `push rax`
    pub fn push_rax(&mut self)
        requires
            old(self).emitted().len() + 1 <= old(self).capacity(),
        ensures
            final(self).emitted() == old(self).emitted() + push_rax_code(),
            final(self).capacity() == old(self).capacity(),
    {
        self.push_u8(0x50);
        assert(self.emitted() =~= old(self).emitted() + push_rax_code());
    }

    /// `call rax`
    pub fn call_rax(&mut self)
        requires
            old(self).emitted().len() + 2 <= old(self).capacity(),
        ensures
            final(self).emitted() == old(self).emitted() + call_rax_code(),
            final(self).capacity() == old(self).capacity(),
    {
        self.push_u8(0xff);
        self.push_u8(0xd0);
        assert(self.emitted() =~= old(self).emitted() + call_rax_code());
    }

    /// `push rbp`
    pub fn push_rbp(&mut self)
        requires
            old(self).emitted().len() + 1 <= old(self).capacity(),
        ensures
            final(self).emitted() == old(self).emitted() + push_rbp_code(),
            final(self).capacity() == old(self).capacity(),
    {
        self.push_u8(0x55);
        assert(self.emitted() =~= old(self).emitted() + push_rbp_code());
    }

    /// `pop rbp`
    pub fn pop_rbp(&mut self)
        requires
            old(self).emitted().len() + 1 <= old(self).capacity(),
        ensures
            final(self).emitted() == old(self).emitted() + pop_rbp_code(),
            final(self).capacity() == old(self).capacity(),
    {
        self.push_u8(0x5d);
        assert(self.emitted() =~= old(self).emitted() + pop_rbp_code());
    }

    /// `pop rax`
    pub fn pop_rax(&mut self)
        requires
            old(self).emitted().len() + 1 <= old(self).capacity(),
        ensures
            final(self).emitted() == old(self).emitted() + pop_rax_code(),
            final(self).capacity() == old(self).capacity(),
    {
        self.push_u8(0x58);
        assert(self.emitted() =~= old(self).emitted() + pop_rax_code());
    }

    /// `mov rbp, rsp`
    pub fn mov_rbp_rsp(&mut self)
        requires
            old(self).emitted().len() + 3 <= old(self).capacity(),
        ensures
            final(self).emitted() == old(self).emitted() + mov_rbp_rsp_code(),
            final(self).capacity() == old(self).capacity(),
    {
        self.push_u8(0x48);
        self.push_u8(0x89);
        self.push_u8(0xe5);
        assert(self.emitted() =~= old(self).emitted() + mov_rbp_rsp_code());
    }

    /// `mov rsp, rbp`
    pub fn mov_rsp_rbp(&mut self)
        requires
            old(self).emitted().len() + 3 <= old(self).capacity(),
        ensures
            final(self).emitted() == old(self).emitted() + mov_rsp_rbp_code(),
            final(self).capacity() == old(self).capacity(),
    {
        self.push_u8(0x48);
        self.push_u8(0x89);
        self.push_u8(0xec);
        assert(self.emitted() =~= old(self).emitted() + mov_rsp_rbp_code());
    }

    /// `add rsp, imm8`
    pub fn add_rsp_u8(&mut self, value: u8)
        requires
            old(self).emitted().len() + 4 <= old(self).capacity(),
        ensures
            final(self).emitted() == old(self).emitted() + add_rsp_code(value),
            final(self).capacity() == old(self).capacity(),
    {
        self.push_u8(0x48);
        self.push_u8(0x83);
        self.push_u8(0xc4);
        self.push_u8(value);
        assert(self.emitted() =~= old(self).emitted() + add_rsp_code(value));
    }

    /// `sub rsp, imm8`
    pub fn sub_rsp_u8(&mut self, value: u8)
        requires
            old(self).emitted().len() + 4 <= old(self).capacity(),
        ensures
            final(self).emitted() == old(self).emitted() + sub_rsp_code(value),
            final(self).capacity() == old(self).capacity(),
    {
        self.push_u8(0x48);
        self.push_u8(0x83);
        self.push_u8(0xec);
        self.push_u8(value);
        assert(self.emitted() =~= old(self).emitted() + sub_rsp_code(value));
    }

    /// Loads `value` into the register of integer argument `slot`.
    fn mov_int_arg(&mut self, abi: Abi, slot: u8, value: u64)
        requires
            slot < 3,
            old(self).emitted().len() + 10 <= old(self).capacity(),
        ensures
            final(self).emitted() == old(self).emitted() + movabs_code(
                abi.int_arg(slot as nat),
                value,
            ),
            final(self).capacity() == old(self).capacity(),
    {
        match abi {
            Abi::SysV64 => {
                if slot == 0 {
                    self.movabs_rdi_u64(value)
                } else if slot == 1 {
                    self.movabs_rsi_u64(value)
                } else {
                    self.movabs_rdx_u64(value)
                }
            },
            Abi::Win64 => {
                if slot == 0 {
                    self.movabs_rcx_u64(value)
                } else if slot == 1 {
                    self.movabs_rdx_u64(value)
                } else {
                    self.movabs_r8_u64(value)
                }
            },
        }
    }

    /// Loads the float with bit pattern `value` into the register of a float
    /// argument that stands at position `slot`.
    fn mov_float_arg(&mut self, abi: Abi, slot: u8, value: u32)
        requires
            slot < 4,
            old(self).emitted().len() + 14 <= old(self).capacity(),
        ensures
            final(self).emitted() == old(self).emitted() + movss_code(
                abi.float_arg(slot as nat),
                value,
            ),
            final(self).capacity() == old(self).capacity(),
    {
        match abi {
            Abi::SysV64 => self.movss_xmm_n_f32(0, value),
            Abi::Win64 => self.movss_xmm_n_f32(slot as usize, value),
        }
    }

    /// Calls the helper at address `target`.
    fn call_helper(&mut self, target: u64)
        requires
            old(self).emitted().len() + 12 <= old(self).capacity(),
        ensures
            final(self).emitted() == old(self).emitted() + movabs_code(Reg::Rax, target)
                + call_rax_code(),
            final(self).capacity() == old(self).capacity(),
    {
        self.movabs_rax_u64(target);
        self.call_rax();
    }

    fn emit_prologue(&mut self, abi: Abi)
        requires
            old(self).emitted().len() + 4 <= old(self).capacity(),
        ensures
            final(self).emitted() == old(self).emitted() + abi.prologue(),
            final(self).capacity() == old(self).capacity(),
    {
        match abi {
            Abi::SysV64 => {
                self.push_rbp();
                self.mov_rbp_rsp();
            },
            Abi::Win64 => {
                // keep rsp aligned to 16 bytes at each call
                self.sub_rsp_u8(8);
            },
        }
        assert(self.emitted() =~= old(self).emitted() + abi.prologue());
    }

    fn emit_epilogue(&mut self, abi: Abi)
        requires
            old(self).emitted().len() + 5 <= old(self).capacity(),
        ensures
            final(self).emitted() == old(self).emitted() + abi.epilogue(),
            final(self).capacity() == old(self).capacity(),
    {
        match abi {
            Abi::SysV64 => {
                self.mov_rsp_rbp();
                self.pop_rbp();
            },
            Abi::Win64 => {
                self.add_rsp_u8(8);
            },
        }
        self.ret();
        assert(self.emitted() =~= old(self).emitted() + abi.epilogue());
    }

    /// Writes the call `exit(context, limit)`.
    fn emit_exit(&mut self, abi: Abi, targets: &CallTable, limit: u32)
        requires
            old(self).emitted().len() + 36 <= old(self).capacity(),
        ensures
            final(self).emitted() == old(self).emitted() + op_code(
                abi,
                *targets,
                Operator::Exit(limit),
            ),
            final(self).capacity() == old(self).capacity(),
    {
        self.mov_int_arg(abi, 0, targets.context);
        self.mov_float_arg(abi, 1, limit);
        self.call_helper(targets.exit);
        assert(self.emitted() =~= old(self).emitted() + op_code(
            abi,
            *targets,
            Operator::Exit(limit),
        ));
    }

    /// Writes the call `print(context)`.
    fn emit_print(&mut self, abi: Abi, targets: &CallTable)
        requires
            old(self).emitted().len() + 22 <= old(self).capacity(),
        ensures
            final(self).emitted() == old(self).emitted() + op_code(abi, *targets, Operator::Print),
            final(self).capacity() == old(self).capacity(),
    {
        self.mov_int_arg(abi, 0, targets.context);
        self.call_helper(targets.print);
        assert(self.emitted() =~= old(self).emitted() + op_code(abi, *targets, Operator::Print));
    }

    /// Writes the call `draw(context, sprite_idx, offset, speed)`.
    fn emit_draw(&mut self, abi: Abi, targets: &CallTable, sprite_idx: u8, offset: u8, speed: u32)
        requires
            old(self).emitted().len() + 56 <= old(self).capacity(),
        ensures
            final(self).emitted() == old(self).emitted() + op_code(
                abi,
                *targets,
                Operator::Draw(sprite_idx, offset, speed),
            ),
            final(self).capacity() == old(self).capacity(),
    {
        self.mov_int_arg(abi, 0, targets.context);
        self.mov_int_arg(abi, 1, sprite_idx as u64);
        self.mov_int_arg(abi, 2, offset as u64);
        self.mov_float_arg(abi, 3, speed);
        self.call_helper(targets.draw);
        assert(self.emitted() =~= old(self).emitted() + op_code(
            abi,
            *targets,
            Operator::Draw(sprite_idx, offset, speed),
        ));
    }

    /// Writes the call `clear(context, charcode)`.
    fn emit_clear(&mut self, abi: Abi, targets: &CallTable, charcode: u32)
        requires
            old(self).emitted().len() + 32 <= old(self).capacity(),
        ensures
            final(self).emitted() == old(self).emitted() + op_code(
                abi,
                *targets,
                Operator::Clear(charcode),
            ),
            final(self).capacity() == old(self).capacity(),
    {
        self.mov_int_arg(abi, 0, targets.context);
        self.mov_int_arg(abi, 1, charcode as u64);
        self.call_helper(targets.clear);
        assert(self.emitted() =~= old(self).emitted() + op_code(
            abi,
            *targets,
            Operator::Clear(charcode),
        ));
    }

    /// Writes the calling sequence of one operator.
    fn emit_op(&mut self, abi: Abi, targets: &CallTable, op: &Operator)
        requires
            old(self).emitted().len() + op_len(*op) <= old(self).capacity(),
        ensures
            final(self).emitted() == old(self).emitted() + op_code(abi, *targets, *op),
            final(self).capacity() == old(self).capacity(),
    {
        match *op {
            Operator::NOOP => {
                assert(self.emitted() =~= old(self).emitted() + op_code(abi, *targets, *op));
            },
            Operator::Exit(limit) => self.emit_exit(abi, targets, limit),
            Operator::Print => self.emit_print(abi, targets),
            Operator::Draw(sprite_idx, offset, speed) => self.emit_draw(
                abi,
                targets,
                sprite_idx,
                offset,
                speed,
            ),
            Operator::Clear(charcode) => self.emit_clear(abi, targets, charcode),
        }
    }
}

impl JitFn {
    /// The contents of the pages, from the first byte to the last.
    pub closed spec fn image(&self) -> Seq<u8> {
        self.code@
    }

    /// Compiles `operators` into a fresh region of `num_pages` pages and
    /// finishes the region.
    pub fn new(num_pages: usize, abi: Abi, targets: &CallTable, operators: &Vec<Operator>) -> (res:
        Result<JitFn, JitError>)
        ensures
            num_pages * PAGE_SIZE > usize::MAX ==> res == Err::<JitFn, JitError>(
                JitError::Allocation,
            ),
            num_pages * PAGE_SIZE <= usize::MAX && program_len(operators@) > num_pages * PAGE_SIZE
                ==> res == Err::<JitFn, JitError>(JitError::Overrun),
            num_pages * PAGE_SIZE <= usize::MAX && program_len(operators@) <= num_pages * PAGE_SIZE
                ==> res is Ok && res->Ok_0.image() == region_image(
                program_code(abi, *targets, operators@),
                (num_pages * PAGE_SIZE) as nat,
            ),
    {
        if num_pages > usize::MAX / PAGE_SIZE {
            return Err(JitError::Allocation);
        }
        let mut mem = JitMemory::new(num_pages);
        if !mem.has_room_for(operators) {
            return Err(JitError::Overrun);
        }
        mem.fill_jit(abi, targets, operators);
        Ok(mem.to_jit_fn())
    }

    /// The bytes to load into the pages.
    pub fn as_bytes(&self) -> (bytes: &Vec<u8>)
        ensures
            bytes@ == self.image(),
    {
        &self.code
    }

    /// The size of the image in bytes.
    pub fn get_size(&self) -> (size: usize)
        ensures
            size == self.image().len(),
    {
        self.code.len()
    }

    /// The protection under which the image is loaded: it can be run, not
    /// written.
    pub fn protection(&self) -> (p: Protection)
        ensures
            p == Protection::ReadExecute,
            p.executable(),
            !p.writable(),
    {
        Protection::ReadExecute
    }
}

impl Default for JitFn {
    /// The image of no pages.
    fn default() -> (f: JitFn)
        ensures
            f.image() == Seq::<u8>::empty(),
    {
        JitFn { code: Vec::new() }
    }
}

} // verus!
