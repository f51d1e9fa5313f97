//! The meaning of the virtual machine: one instruction at a time, and a
//! whole run up to the instruction limit.

use vstd::prelude::*;
use crate::bytes::{i64_from_le, i64_to_le};
use crate::text::{dec_int, dec_nat};

verus! {

/// Addresses below this one are in the data segment; the others index
/// the stack.
pub const DATA_STACK_THRESHOLD: usize = 1048576;

/// The number of instructions after which a run is given up.
pub const MAX_CYCLES: usize = 50000;

/// The machine, seen as a value.
pub struct VMState {
    pub code: Seq<i64>,
    pub data: Seq<u8>,
    pub pc: usize,
    pub sp: usize,
    pub bp: usize,
    pub ax: i64,
    pub stack: Seq<i64>,
    pub debug: bool,
    pub cycle: usize,
    /// What the program has printed so far.
    pub out: Seq<char>,
}

/// The outcome of one instruction: the machine goes on in a new state, or
/// it stops with a result, or the instruction is one the machine cannot
/// carry out (an access outside a segment or an arithmetic overflow,
/// where the machine aborts).
pub enum Step {
    Next(VMState),
    Halt(VMState, Result<i64, Seq<char>>),
    Abort,
}

/// The outcome of a whole run.
pub enum RunEnd {
    Returns(VMState, Result<i64, Seq<char>>),
    Aborts,
}

/// Whether a vector of 64-bit integers of this length can be allocated.
pub open spec fn stack_len_ok(n: int) -> bool {
    n * 8 <= isize::MAX
}

/// Whether a byte vector of this length can be allocated.
pub open spec fn data_len_ok(n: int) -> bool {
    n <= isize::MAX
}

pub open spec fn zeros_i64(n: nat) -> Seq<i64> {
    Seq::new(n, |i: int| 0i64)
}

pub open spec fn zeros_u8(n: nat) -> Seq<u8> {
    Seq::new(n, |i: int| 0u8)
}

/// A vector grown with zeros to length `n` (no shorter than it was).
pub open spec fn grow_i64(s: Seq<i64>, n: int) -> Seq<i64> {
    s + zeros_i64((n - s.len()) as nat)
}

pub open spec fn grow_u8(s: Seq<u8>, n: int) -> Seq<u8> {
    s + zeros_u8((n - s.len()) as nat)
}

/// `bytes` written over `data` from index `at`.
pub open spec fn write_bytes(data: Seq<u8>, at: int, bytes: Seq<u8>) -> Seq<u8> {
    Seq::new(data.len(), |j: int| if at <= j < at + bytes.len() { bytes[j - at] } else { data[j] })
}

/// The characters of a byte, each byte standing for the character with
/// that code point.
pub open spec fn byte_chars(bytes: Seq<u8>) -> Seq<char> {
    bytes.map_values(|b: u8| b as char)
}

/// The index of the first zero byte at or after `i`, or the end.
pub open spec fn c_str_end(data: Seq<u8>, i: nat) -> nat
    decreases data.len() - i,
{
    if i >= data.len() || data[i as int] == 0 {
        i
    } else {
        c_str_end(data, i + 1)
    }
}

/// The zero-terminated string at `i` in the data segment, as characters.
pub open spec fn c_str(data: Seq<u8>, i: nat) -> Seq<char> {
    if i >= data.len() {
        Seq::empty()
    } else {
        byte_chars(data.subrange(i as int, c_str_end(data, i) as int))
    }
}

/// The string at `i` on the stack, one character per slot (its low byte),
/// up to a slot whose low byte is zero or the end of the stack.
pub open spec fn stack_str(stack: Seq<i64>, i: nat) -> Seq<char>
    decreases stack.len() - i,
{
    if i >= stack.len() || (stack[i as int] & 0xFF) as u8 == 0 {
        Seq::empty()
    } else {
        seq![((stack[i as int] & 0xFF) as u8) as char] + stack_str(stack, i + 1)
    }
}

/// The number of bytes a character takes in UTF-8.
pub open spec fn char_utf8_len(c: char) -> nat {
    if (c as u32) < 0x80 {
        1
    } else if (c as u32) < 0x800 {
        2
    } else if (c as u32) < 0x10000 {
        3
    } else {
        4
    }
}

/// The number of bytes a string takes in UTF-8.
pub open spec fn utf8_len(s: Seq<char>) -> nat
    decreases s.len(),
{
    if s.len() == 0 {
        0
    } else {
        char_utf8_len(s[0]) + utf8_len(s.drop_first())
    }
}

pub open spec fn msg_out_of_bounds(prefix: Seq<char>, addr: usize, size: nat) -> Seq<char> {
    prefix + dec_nat(addr as nat) + ", size="@ + dec_nat(size)
}

impl VMState {
    pub open spec fn wf(self) -> bool {
        &&& stack_len_ok(self.stack.len() as int)
        &&& data_len_ok(self.data.len() as int)
    }

    /// The argument of the instruction at `at`.
    pub open spec fn arg(self, at: usize) -> Option<i64> {
        if at + 1 < self.code.len() {
            Some(self.code[at + 1])
        } else {
            None
        }
    }

    pub open spec fn slot(self, i: int) -> i64 {
        self.stack[i]
    }

    /// LEA, IMM, JMP, JSR, BZ, BNZ: the instructions with an argument that
    /// only move values and the program counter. JSR saves the address
    /// past its argument as the return address.
    pub open spec fn control(self, op: u8, at: usize) -> Step {
        match self.arg(at) {
            None => Step::Abort,
            Some(a) => {
                let pc2 = (self.pc + 1) as usize;
                if op == 0 {
                    let offset = a as usize;
                    if offset > self.bp {
                        Step::Abort
                    } else {
                        Step::Next(VMState { pc: pc2, ax: (self.bp - offset) as i64, ..self })
                    }
                } else if op == 1 {
                    Step::Next(VMState { pc: pc2, ax: a, ..self })
                } else if op == 2 {
                    Step::Next(VMState { pc: a as usize, ..self })
                } else if op == 3 {
                    if self.sp == 0 {
                        Step::Halt(self, Err("Stack overflow in JSR"@))
                    } else if self.sp - 1 >= self.stack.len() {
                        Step::Abort
                    } else {
                        Step::Next(VMState {
                            sp: (self.sp - 1) as usize,
                            stack: self.stack.update(self.sp - 1, pc2 as i64),
                            pc: a as usize,
                            ..self
                        })
                    }
                } else if op == 4 {
                    Step::Next(VMState { pc: if self.ax == 0 { a as usize } else { pc2 }, ..self })
                } else {
                    Step::Next(VMState { pc: if self.ax != 0 { a as usize } else { pc2 }, ..self })
                }
            },
        }
    }

    /// The space an ENT instruction reserves for `local_size` locals:
    /// the locals and a buffer (four slots, or twice the locals).
    pub open spec fn ent_total(local_size: int) -> int {
        local_size + (if local_size <= 1 { 4 } else { local_size * 2 })
    }

    /// ENT: pushes the base pointer, makes the stack pointer the new base,
    /// and reserves zeroed space for the locals, growing the stack at its
    /// low end when it is too short.
    pub open spec fn enter(self, at: usize) -> Step {
        match self.arg(at) {
            None => Step::Abort,
            Some(a) => {
                let local_size = a as usize;
                let s = VMState { pc: (self.pc + 1) as usize, ..self };
                let stack1 = if s.sp < 2 { grow_i64(s.stack, s.stack.len() + 64int) } else { s.stack };
                let sp2: int = if s.sp == 0 { 0 } else { s.sp - 1 };
                if s.sp < 2 && !stack_len_ok(s.stack.len() + 64int) {
                    Step::Abort
                } else if sp2 >= stack1.len() {
                    Step::Abort
                } else if local_size > 1 && local_size * 2 > usize::MAX {
                    Step::Abort
                } else if Self::ent_total(local_size as int) + 1 > usize::MAX {
                    Step::Abort
                } else {
                    let stack2 = stack1.update(sp2, s.bp as i64);
                    let total = Self::ent_total(local_size as int);
                    if sp2 < total + 1 {
                        let needed = total + 64;
                        if needed > usize::MAX || !stack_len_ok(stack2.len() + needed) {
                            Step::Abort
                        } else {
                            let stack3 = zeros_i64(needed as nat) + stack2;
                            let bp3 = sp2 + needed;
                            let sp4 = if bp3 < total { 0 } else { bp3 - total };
                            Step::Next(VMState {
                                stack: Seq::new(stack3.len(), |i: int| if sp4 <= i < bp3 { 0i64 } else { stack3[i] }),
                                sp: sp4 as usize,
                                bp: bp3 as usize,
                                ..s
                            })
                        }
                    } else {
                        let sp4 = sp2 - total;
                        Step::Next(VMState {
                            stack: Seq::new(stack2.len(), |i: int| if sp4 <= i < sp2 { 0i64 } else { stack2[i] }),
                            sp: sp4 as usize,
                            bp: sp2 as usize,
                            ..s
                        })
                    }
                }
            },
        }
    }

    /// ADJ: drops arguments from the stack, growing it when the new stack
    /// pointer would reach its end.
    pub open spec fn adjust(self, at: usize) -> Step {
        match self.arg(at) {
            None => Step::Abort,
            Some(a) => {
                let n = a as usize;
                let s = VMState { pc: (self.pc + 1) as usize, ..self };
                if s.sp + n > usize::MAX {
                    Step::Abort
                } else if s.sp + n >= s.stack.len() {
                    if s.sp + n + 64 > usize::MAX || !stack_len_ok(s.sp + n + 64) {
                        Step::Abort
                    } else {
                        Step::Next(VMState {
                            stack: grow_i64(s.stack, s.sp + n + 64),
                            sp: (s.sp + n) as usize,
                            ..s
                        })
                    }
                } else {
                    Step::Next(VMState { sp: (s.sp + n) as usize, ..s })
                }
            },
        }
    }

    /// LEV: leaves a function, restoring the base pointer and the return
    /// address saved above it; a zero for either ends the run.
    pub open spec fn leave(self) -> Step {
        if self.bp >= self.stack.len() {
            Step::Halt(self, Err("Stack corruption - invalid base pointer"@))
        } else if self.bp + 1 >= self.stack.len() {
            Step::Halt(self, Err("Stack corruption - can't read return address"@))
        } else {
            let bpv = self.stack[self.bp as int];
            let pcv = self.stack[self.bp + 1];
            let s = VMState { sp: (self.bp + 2) as usize, bp: bpv as usize, ..self };
            if pcv == 0 || bpv == 0 {
                Step::Halt(s, Ok(s.ax))
            } else {
                Step::Next(VMState { pc: pcv as usize, ..s })
            }
        }
    }

    /// LI (`op` 9) and LC (`op` 10): load from the address in the
    /// accumulator; an integer takes eight bytes of the data segment or one
    /// stack slot, a character one byte or the low byte of a slot.
    pub open spec fn load(self, op: u8) -> Step {
        let addr = self.ax as usize;
        if op == 9 {
            if addr < DATA_STACK_THRESHOLD {
                if addr + 8 > self.data.len() {
                    Step::Halt(self, Err(msg_out_of_bounds("Data segment read out of bounds: addr="@, addr, self.data.len())))
                } else {
                    Step::Next(VMState {
                        ax: i64_from_le(self.data.subrange(addr as int, addr + 8)),
                        cycle: (self.cycle + 1) as usize,
                        ..self
                    })
                }
            } else if addr >= self.stack.len() {
                Step::Halt(self, Err(msg_out_of_bounds("Stack read out of bounds: addr="@, addr, self.stack.len())))
            } else {
                Step::Next(VMState { ax: self.stack[addr as int], cycle: (self.cycle + 1) as usize, ..self })
            }
        } else {
            if addr < DATA_STACK_THRESHOLD {
                if addr >= self.data.len() {
                    Step::Halt(self, Err(msg_out_of_bounds("Data segment read out of bounds: addr="@, addr, self.data.len())))
                } else {
                    Step::Next(VMState { ax: self.data[addr as int] as i64, ..self })
                }
            } else if addr >= self.stack.len() {
                Step::Halt(self, Err(msg_out_of_bounds("Stack read out of bounds: addr="@, addr, self.stack.len())))
            } else {
                Step::Next(VMState { ax: self.stack[addr as int] & 0xFF, ..self })
            }
        }
    }

    /// SI (`op` 11) and SC (`op` 12): pop an address and store the
    /// accumulator there, growing the segment when the address is past
    /// its end.
    pub open spec fn store(self, op: u8) -> Step {
        if self.sp >= self.stack.len() {
            if op == 11 {
                Step::Halt(self, Err("Stack empty in SI: sp="@ + dec_nat(self.sp as nat)))
            } else {
                Step::Halt(self, Err("Stack empty in SC: sp="@ + dec_nat(self.sp as nat)))
            }
        } else {
            let addr = self.stack[self.sp as int] as usize;
            let s = VMState { sp: (self.sp + 1) as usize, ..self };
            if op == 11 {
                if addr < DATA_STACK_THRESHOLD {
                    let data1 = if addr + 8 > s.data.len() { grow_u8(s.data, addr + 8 + 64) } else { s.data };
                    Step::Next(VMState {
                        data: write_bytes(data1, addr as int, i64_to_le(s.ax)),
                        cycle: (s.cycle + 1) as usize,
                        ..s
                    })
                } else if addr >= s.stack.len() && (addr + 64 > usize::MAX || !stack_len_ok(addr + 64)) {
                    Step::Abort
                } else {
                    let stack1 = if addr >= s.stack.len() { grow_i64(s.stack, addr + 64) } else { s.stack };
                    Step::Next(VMState {
                        stack: stack1.update(addr as int, s.ax),
                        cycle: (s.cycle + 1) as usize,
                        ..s
                    })
                }
            } else {
                let cv = (s.ax & 0xFF) as u8;
                if addr < DATA_STACK_THRESHOLD {
                    let data1 = if addr >= s.data.len() { grow_u8(s.data, addr + 1) } else { s.data };
                    Step::Next(VMState { data: data1.update(addr as int, cv), ..s })
                } else if addr >= s.stack.len() && (addr + 64 > usize::MAX || !stack_len_ok(addr + 64)) {
                    Step::Abort
                } else {
                    let stack1 = if addr >= s.stack.len() { grow_i64(s.stack, addr + 64) } else { s.stack };
                    Step::Next(VMState {
                        stack: stack1.update(addr as int, (stack1[addr as int] & !0xFFi64) | (cv as i64)),
                        ..s
                    })
                }
            }
        }
    }

    /// PSH: pushes the accumulator, first growing the stack at its low end
    /// by 64 slots when the stack pointer is zero.
    pub open spec fn push(self) -> Step {
        if self.sp == 0 {
            if !stack_len_ok(self.stack.len() + 64int) || self.bp + 64 > usize::MAX {
                Step::Abort
            } else {
                let stack1 = zeros_i64(64) + self.stack;
                Step::Next(VMState {
                    stack: stack1.update(63, self.ax),
                    sp: 63,
                    bp: (self.bp + 64) as usize,
                    ..self
                })
            }
        } else if self.sp - 1 >= self.stack.len() {
            Step::Abort
        } else {
            Step::Next(VMState {
                stack: self.stack.update(self.sp - 1, self.ax),
                sp: (self.sp - 1) as usize,
                ..self
            })
        }
    }

    /// The binary operators OR (14) .. MOD (29): the left operand is popped
    /// from the stack, the right one is the accumulator.
    pub open spec fn binary(self, op: u8) -> Step {
        if op == 28 && self.ax == 0 {
            Step::Halt(self, Err("division by zero"@))
        } else if op == 29 && self.ax == 0 {
            Step::Halt(self, Err("modulo by zero"@))
        } else if self.sp >= self.stack.len() {
            Step::Abort
        } else {
            let a = self.stack[self.sp as int];
            let b = self.ax;
            let r: Option<i64> = if op == 14 {
                Some(a | b)
            } else if op == 15 {
                Some(a ^ b)
            } else if op == 16 {
                Some(a & b)
            } else if op == 17 {
                Some(if a == b { 1i64 } else { 0i64 })
            } else if op == 18 {
                Some(if a != b { 1i64 } else { 0i64 })
            } else if op == 19 {
                Some(if a < b { 1i64 } else { 0i64 })
            } else if op == 20 {
                Some(if a > b { 1i64 } else { 0i64 })
            } else if op == 21 {
                Some(if a <= b { 1i64 } else { 0i64 })
            } else if op == 22 {
                Some(if a >= b { 1i64 } else { 0i64 })
            } else if op == 23 {
                if 0 <= b < 64 { Some(vstd::wrapping::i64_specs::wrapping_shl(a, b as u32)) } else { None }
            } else if op == 24 {
                if 0 <= b < 64 { Some(vstd::wrapping::i64_specs::wrapping_shr(a, b as u32)) } else { None }
            } else if op == 25 {
                if i64::MIN <= a + b <= i64::MAX { Some((a + b) as i64) } else { None }
            } else if op == 26 {
                if i64::MIN <= a - b <= i64::MAX { Some((a - b) as i64) } else { None }
            } else if op == 27 {
                if i64::MIN <= a * b <= i64::MAX { Some((a * b) as i64) } else { None }
            } else if op == 28 {
                a.checked_div(b)
            } else {
                a.checked_rem(b)
            };
            match r {
                Some(v) => Step::Next(VMState { ax: v, sp: (self.sp + 1) as usize, ..self }),
                None => Step::Abort,
            }
        }
    }

    /// The text that `printf` prints for the format characters from `i`
    /// on, with `argi` of the `argc - 1` value arguments used; the
    /// arguments sit above the format address, the first one highest.
    pub open spec fn format(self, fmt: Seq<char>, i: nat, argi: nat, argc: nat) -> Seq<char>
        decreases fmt.len() - i,
    {
        if i >= fmt.len() {
            Seq::empty()
        } else if fmt[i as int] == '%' && i + 1 < fmt.len() {
            let n = fmt[i + 1int];
            if n == 'd' || n == 's' {
                if argi + 1 < argc {
                    let v = self.stack[self.sp + argc - 2 - argi];
                    let text = if n == 'd' {
                        dec_int(v as int)
                    } else if (v as usize) < DATA_STACK_THRESHOLD {
                        c_str(self.data, (v as usize) as nat)
                    } else {
                        stack_str(self.stack, (v as usize) as nat)
                    };
                    text + self.format(fmt, i + 2, argi + 1, argc)
                } else {
                    "<?>"@ + self.format(fmt, i + 2, argi, argc)
                }
            } else if n == '%' {
                seq!['%'] + self.format(fmt, i + 2, argi, argc)
            } else {
                seq!['%'] + self.format(fmt, i + 1, argi, argc)
            }
        } else {
            seq![fmt[i as int]] + self.format(fmt, i + 1, argi, argc)
        }
    }

    /// PRTF: prints its format string (the highest of its `argc` stack
    /// arguments) with `%d` and `%s` filled in from the others, pops the
    /// arguments, and sets the accumulator to the length in bytes of what
    /// it printed.
    pub open spec fn printf(self, at: usize) -> Step {
        match self.arg(at) {
            None => Step::Abort,
            Some(a) => {
                let argc = a as usize;
                let s = VMState { pc: (self.pc + 1) as usize, ..self };
                if s.sp + argc > usize::MAX || s.sp + argc > s.stack.len() || argc == 0 {
                    Step::Abort
                } else {
                    let fmt_addr = s.stack[s.sp + argc - 1] as usize;
                    if fmt_addr >= s.data.len() {
                        Step::Next(VMState {
                            out: s.out + "<invalid format string>"@,
                            sp: (s.sp + argc) as usize,
                            ax: 0,
                            ..s
                        })
                    } else {
                        let fmt = c_str(s.data, fmt_addr as nat);
                        let text = s.format(fmt, 0, 0, argc as nat);
                        if utf8_len(fmt) > isize::MAX || utf8_len(text) > isize::MAX {
                            Step::Abort
                        } else {
                            Step::Next(VMState {
                                out: s.out + text,
                                sp: (s.sp + argc) as usize,
                                ax: utf8_len(text) as i64,
                                ..s
                            })
                        }
                    }
                }
            },
        }
    }

    /// The system calls OPEN (30), READ (31), CLOS (32), MALC (34),
    /// FREE (35), MSET (36), MCMP (37) and EXIT (38).
    pub open spec fn syscall(self, op: u8) -> Step {
        if op == 30 {
            if self.sp + 2 > usize::MAX {
                Step::Abort
            } else {
                Step::Next(VMState { sp: (self.sp + 2) as usize, ax: 0, ..self })
            }
        } else if op == 31 {
            if self.sp + 3 > usize::MAX {
                Step::Abort
            } else {
                Step::Next(VMState { sp: (self.sp + 3) as usize, ax: 0, ..self })
            }
        } else if op == 32 {
            Step::Next(VMState { ax: 0, ..self })
        } else if op == 34 {
            if self.sp >= self.stack.len() {
                Step::Abort
            } else {
                let size = self.stack[self.sp as int] as usize;
                let addr = self.data.len();
                if addr + size > usize::MAX || !data_len_ok(addr + size) {
                    Step::Abort
                } else {
                    Step::Next(VMState {
                        sp: (self.sp + 1) as usize,
                        data: grow_u8(self.data, addr + size),
                        ax: addr as i64,
                        ..self
                    })
                }
            }
        } else if op == 35 {
            if self.sp + 1 > usize::MAX {
                Step::Abort
            } else {
                Step::Next(VMState { sp: (self.sp + 1) as usize, ax: 0, ..self })
            }
        } else if op == 36 {
            if self.sp + 2 >= self.stack.len() {
                Step::Abort
            } else {
                let count = self.stack[self.sp as int] as usize;
                let value = self.stack[self.sp + 1] as u8;
                let dest = self.stack[self.sp + 2] as usize;
                if dest + count > usize::MAX || !data_len_ok(dest + count) {
                    Step::Abort
                } else {
                    let data1 = if dest + count > self.data.len() { grow_u8(self.data, dest + count) } else { self.data };
                    Step::Next(VMState {
                        sp: (self.sp + 3) as usize,
                        data: Seq::new(data1.len(), |j: int| if dest <= j < dest + count { value } else { data1[j] }),
                        ax: dest as i64,
                        ..self
                    })
                }
            }
        } else if op == 37 {
            if self.sp + 2 >= self.stack.len() {
                Step::Abort
            } else {
                let count = self.stack[self.sp as int] as usize;
                let s2 = self.stack[self.sp + 1] as usize;
                let s1 = self.stack[self.sp + 2] as usize;
                let s = VMState { sp: (self.sp + 3) as usize, ..self };
                if s1 + count > usize::MAX {
                    Step::Abort
                } else if s1 + count > self.data.len() {
                    Step::Next(VMState { ax: -1i64, ..s })
                } else if s2 + count > usize::MAX {
                    Step::Abort
                } else if s2 + count > self.data.len() {
                    Step::Next(VMState { ax: -1i64, ..s })
                } else {
                    Step::Next(VMState { ax: mem_compare(self.data, s1 as int, s2 as int, count as int), ..s })
                }
            }
        } else {
            if self.sp >= self.stack.len() {
                Step::Halt(self, Err("Stack corruption on EXIT - invalid stack pointer"@))
            } else {
                Step::Halt(self, Ok(self.stack[self.sp as int]))
            }
        }
    }

    /// SWP: swaps the accumulator with the top of the stack.
    pub open spec fn swap(self) -> Step {
        if self.sp >= self.stack.len() {
            Step::Halt(self, Err("Stack underflow in SWP operation"@))
        } else {
            Step::Next(VMState {
                stack: self.stack.update(self.sp as int, self.ax),
                ax: self.stack[self.sp as int],
                ..self
            })
        }
    }

    /// One instruction: the one at the program counter, whose opcode is
    /// the low byte of the code word.
    pub open spec fn step(self) -> Step {
        let at = self.pc;
        let op = self.code[at as int] as u8;
        let s = VMState { pc: (self.pc + 1) as usize, cycle: (self.cycle + 1) as usize, ..self };
        if op <= 5 {
            s.control(op, at)
        } else if op == 6 {
            s.enter(at)
        } else if op == 7 {
            s.adjust(at)
        } else if op == 8 {
            s.leave()
        } else if op == 9 || op == 10 {
            s.load(op)
        } else if op == 11 || op == 12 {
            s.store(op)
        } else if op == 13 {
            s.push()
        } else if 14 <= op <= 29 {
            s.binary(op)
        } else if op == 33 {
            s.printf(at)
        } else if 30 <= op <= 38 {
            s.syscall(op)
        } else if op == 39 {
            s.swap()
        } else {
            Step::Halt(s, Err("unknown instruction: "@ + dec_nat(op as nat)))
        }
    }

    /// Runs from this state until the code ends, an instruction stops the
    /// machine, the instruction limit is reached, or the machine aborts.
    pub open spec fn run_from(self) -> RunEnd
        decreases 50002 - self.cycle,
    {
        if self.pc >= self.code.len() {
            RunEnd::Returns(self, Ok(self.ax))
        } else if self.cycle >= MAX_CYCLES {
            RunEnd::Returns(
                self,
                Err("Execution aborted after 50000 instructions - possible infinite loop"@),
            )
        } else {
            proof {
                lemma_step_cycle(self);
            }
            match self.step() {
                Step::Next(t) => t.run_from(),
                Step::Halt(t, r) => RunEnd::Returns(t, r),
                Step::Abort => RunEnd::Aborts,
            }
        }
    }

    /// A whole run: from the first instruction with the counter at zero.
    pub open spec fn run(self) -> RunEnd {
        VMState { pc: 0, cycle: 0, ..self }.run_from()
    }
}

/// The difference of the first pair of unequal bytes of the `count` bytes
/// at `s1` and `s2`, or zero.
pub open spec fn mem_compare(data: Seq<u8>, s1: int, s2: int, count: int) -> i64
    decreases count,
{
    if count <= 0 {
        0
    } else if data[s1] != data[s2] {
        (data[s1] as int - data[s2] as int) as i64
    } else {
        mem_compare(data, s1 + 1, s2 + 1, count - 1)
    }
}

pub proof fn lemma_step_cycle(s: VMState)
    requires
        s.pc < s.code.len(),
        s.cycle < MAX_CYCLES,
    ensures
        s.step() matches Step::Next(t) ==> (t.cycle == s.cycle + 1 || t.cycle == s.cycle + 2),
        s.step() matches Step::Halt(t, r) ==> t.cycle == s.cycle + 1,
{
}

/// The binary instructions take their left operand from the top of the
/// stack and their right one from the accumulator, pop the left one, and
/// leave the result in the accumulator: SUB gives left minus right, ADD
/// their sum, MUL their product (where it fits in 64 bits), and LT, GT,
/// LE, GE, EQ, NE give 1 where the comparison of left with right holds
/// and 0 where it does not.
pub proof fn law_binary_operands(s: VMState, op: u8)
    requires
        s.wf(),
        s.sp < s.stack.len(),
        17 <= op <= 27,
    ensures
        ({
            let left = s.stack[s.sp as int];
            let right = s.ax;
            &&& op == 26 && i64::MIN <= left - right <= i64::MAX ==> (s.binary(op) matches Step::Next(t)
                && t.ax == left - right && t.sp == s.sp + 1 && t.stack == s.stack)
            &&& op == 25 && i64::MIN <= left + right <= i64::MAX ==> (s.binary(op) matches Step::Next(t)
                && t.ax == left + right && t.sp == s.sp + 1 && t.stack == s.stack)
            &&& op == 27 && i64::MIN <= left * right <= i64::MAX ==> (s.binary(op) matches Step::Next(t)
                && t.ax == left * right && t.sp == s.sp + 1 && t.stack == s.stack)
            &&& 17 <= op <= 22 ==> (s.binary(op) matches Step::Next(t)
                && t.sp == s.sp + 1 && t.stack == s.stack
                && (t.ax == 0 || t.ax == 1)
                && (op == 17 ==> (t.ax == 1 <==> left == right))
                && (op == 18 ==> (t.ax == 1 <==> left != right))
                && (op == 19 ==> (t.ax == 1 <==> left < right))
                && (op == 20 ==> (t.ax == 1 <==> left > right))
                && (op == 21 ==> (t.ax == 1 <==> left <= right))
                && (op == 22 ==> (t.ax == 1 <==> left >= right)))
        }),
{
    let left = s.stack[s.sp as int];
    let right = s.ax;
    assert(op != 28 && op != 29);
    if op == 26 && i64::MIN <= left - right <= i64::MAX {
        assert(s.binary(op) == Step::Next(VMState { ax: (left - right) as i64, sp: (s.sp + 1) as usize, ..s }));
    }
    if op == 25 && i64::MIN <= left + right <= i64::MAX {
        assert(s.binary(op) == Step::Next(VMState { ax: (left + right) as i64, sp: (s.sp + 1) as usize, ..s }));
    }
    if op == 27 && i64::MIN <= left * right <= i64::MAX {
        assert(s.binary(op) == Step::Next(VMState { ax: (left * right) as i64, sp: (s.sp + 1) as usize, ..s }));
    }
}

/// The first of `IMM x; PSH; IMM y; k` pushes `x`, so that the binary
/// instruction `k` sees `x` as its left operand and `y` as its right one:
/// after the four instructions the accumulator holds `x - y` for SUB, and
/// 1 or 0 for LE as `x <= y` holds or not (and likewise for LT), with the
/// stack pointer back where it was.
pub proof fn law_pushed_operands(s: VMState, x: i64, y: i64, k: u8)
    requires
        s.wf(),
        s.pc + 6 <= s.code.len(),
        s.pc + 6 <= usize::MAX,
        s.code[s.pc as int] == 1,
        s.code[s.pc + 1] == x,
        s.code[s.pc + 2] == 13,
        s.code[s.pc + 3] == 1,
        s.code[s.pc + 4] == y,
        s.code[s.pc + 5] == k as i64,
        1 <= s.sp <= s.stack.len(),
        k == 19 || k == 21 || (k == 26 && i64::MIN <= x - y <= i64::MAX),
    ensures
        s.step() matches Step::Next(s1)
            && s1.step() matches Step::Next(s2)
            && s2.step() matches Step::Next(s3)
            && s3.step() matches Step::Next(s4)
            && s4.sp == s.sp
            && s4.pc == s.pc + 6
            && (k == 26 ==> s4.ax == x - y)
            && (k == 21 ==> s4.ax == if x <= y { 1i64 } else { 0i64 })
            && (k == 19 ==> s4.ax == if x < y { 1i64 } else { 0i64 }),
{
    let s1 = VMState { pc: (s.pc + 2) as usize, cycle: (s.cycle + 1) as usize, ax: x, ..s };
    assert(s.step() == Step::Next(s1));
    let s2 = VMState {
        pc: (s1.pc + 1) as usize,
        cycle: (s1.cycle + 1) as usize,
        stack: s1.stack.update(s1.sp - 1, x),
        sp: (s1.sp - 1) as usize,
        ..s1
    };
    assert(s1.step() == Step::Next(s2));
    let s3 = VMState { pc: (s2.pc + 2) as usize, cycle: (s2.cycle + 1) as usize, ax: y, ..s2 };
    assert(s2.step() == Step::Next(s3));
    assert(s3.stack[s3.sp as int] == x);
    let s3b = VMState { pc: (s3.pc + 1) as usize, cycle: (s3.cycle + 1) as usize, ..s3 };
    assert(s3.step() == s3b.binary(k));
}

/// Ten to the power `k`.
pub open spec fn pow10(k: nat) -> nat
    decreases k,
{
    if k == 0 { 1 } else { 10 * pow10((k - 1) as nat) }
}

proof fn lemma_dec_nat_digits(n: nat, k: nat)
    requires
        k >= 1,
        n < pow10(k),
    ensures
        dec_nat(n).len() <= k,
    decreases k,
{
    if n >= 10 {
        if k == 1 {
            assert(pow10(1) == 10 * pow10(0));
        } else {
            let p = pow10((k - 1) as nat);
            assert(n < 10 * p);
            assert(n / 10 < p) by (nonlinear_arith)
                requires
                    n < 10 * p,
            ;
            lemma_dec_nat_digits(n / 10, (k - 1) as nat);
        }
    }
}

proof fn lemma_dec_int_len(v: i64)
    ensures
        dec_int(v as int).len() <= 20,
{
    assert(pow10(19) == 10000000000000000000) by {
        reveal_with_fuel(pow10, 20);
    }
    if v < 0 {
        lemma_dec_nat_digits((-(v as int)) as nat, 19);
    } else {
        lemma_dec_nat_digits(v as nat, 19);
    }
}

proof fn lemma_utf8_len_bound(s: Seq<char>)
    ensures
        utf8_len(s) <= 4 * s.len(),
    decreases s.len(),
{
    if s.len() > 0 {
        lemma_utf8_len_bound(s.drop_first());
    }
}

proof fn lemma_step_push(s: VMState)
    requires
        s.pc < s.code.len(),
        s.pc + 1 <= usize::MAX,
        s.code[s.pc as int] == 13,
        1 <= s.sp <= s.stack.len(),
    ensures
        s.step() == Step::Next(VMState {
            pc: (s.pc + 1) as usize,
            cycle: (s.cycle + 1) as usize,
            stack: s.stack.update(s.sp - 1, s.ax),
            sp: (s.sp - 1) as usize,
            ..s
        }),
{
}

proof fn lemma_step_imm(s: VMState, x: i64)
    requires
        s.pc + 1 < s.code.len(),
        s.pc + 2 <= usize::MAX,
        s.code[s.pc as int] == 1,
        s.code[s.pc + 1] == x,
    ensures
        s.step() == Step::Next(VMState { pc: (s.pc + 2) as usize, cycle: (s.cycle + 1) as usize, ax: x, ..s }),
{
}

proof fn lemma_step_printf(s: VMState)
    requires
        s.pc < s.code.len(),
        s.code[s.pc as int] == 33,
    ensures
        s.step() == (VMState { pc: (s.pc + 1) as usize, cycle: (s.cycle + 1) as usize, ..s }).printf(s.pc),
{
}

proof fn lemma_format_two(p: VMState, fmt: Seq<char>)
    requires
        fmt == "%d %d"@,
    ensures
        p.format(fmt, 0, 0, 3) == dec_int(p.stack[p.sp + 1] as int) + " "@ + dec_int(p.stack[p.sp as int] as int),
{
    reveal_strlit("%d %d");
    reveal_strlit(" ");
    assert(fmt.len() == 5);
    assert(p.format(fmt, 5, 2, 3) == Seq::<char>::empty());
    assert(p.format(fmt, 3, 1, 3) == dec_int(p.stack[p.sp as int] as int) + p.format(fmt, 5, 2, 3));
    assert(p.format(fmt, 2, 1, 3) == seq![' '] + p.format(fmt, 3, 1, 3));
    assert(p.format(fmt, 0, 0, 3) == dec_int(p.stack[p.sp + 1] as int) + p.format(fmt, 2, 1, 3));
    assert(p.format(fmt, 0, 0, 3) =~= dec_int(p.stack[p.sp + 1] as int) + " "@ + dec_int(p.stack[p.sp as int] as int));
}

proof fn lemma_printf_two(p: VMState, at: usize)
    requires
        p.wf(),
        at + 1 < p.code.len(),
        p.code[at + 1] == 3,
        p.sp + 3 <= p.stack.len(),
        (p.stack[p.sp + 2] as usize) < p.data.len(),
        c_str(p.data, (p.stack[p.sp + 2] as usize) as nat) == "%d %d"@,
    ensures
        p.printf(at) matches Step::Next(t)
            && t.out == p.out + dec_int(p.stack[p.sp + 1] as int) + " "@ + dec_int(p.stack[p.sp as int] as int)
            && t.sp == p.sp + 3
            && t.pc == (p.pc + 1) as usize,
{
    reveal_strlit("%d %d");
    reveal_strlit(" ");
    let q = VMState { pc: (p.pc + 1) as usize, ..p };
    let fmt = c_str(q.data, (q.stack[q.sp + 2] as usize) as nat);
    lemma_format_two(q, fmt);
    let text = q.format(fmt, 0, 0, 3);
    lemma_dec_int_len(q.stack[q.sp + 1]);
    lemma_dec_int_len(q.stack[q.sp as int]);
    lemma_utf8_len_bound(text);
    lemma_utf8_len_bound(fmt);
    assert(text.len() <= 41);
}

/// `printf` fills its conversions from its value arguments in the order
/// in which they were pushed, the first one after the format first: where
/// the format string is `"%d %d"` and the values `v0` and `v1` are pushed
/// after it, the machine prints `v0`, a space and `v1`, and pops the three
/// arguments.
#[verifier::rlimit(40)]
pub proof fn law_printf_args_in_order(s: VMState, v0: i64, v1: i64)
    requires
        s.wf(),
        s.pc + 9 <= s.code.len(),
        s.pc + 9 <= usize::MAX,
        s.code[s.pc as int] == 13,
        s.code[s.pc + 1] == 1,
        s.code[s.pc + 2] == v0,
        s.code[s.pc + 3] == 13,
        s.code[s.pc + 4] == 1,
        s.code[s.pc + 5] == v1,
        s.code[s.pc + 6] == 13,
        s.code[s.pc + 7] == 33,
        s.code[s.pc + 8] == 3,
        3 <= s.sp <= s.stack.len(),
        (s.ax as usize) < s.data.len(),
        c_str(s.data, (s.ax as usize) as nat) == "%d %d"@,
    ensures
        s.step() matches Step::Next(s1)
            && s1.step() matches Step::Next(s2)
            && s2.step() matches Step::Next(s3)
            && s3.step() matches Step::Next(s4)
            && s4.step() matches Step::Next(s5)
            && s5.step() matches Step::Next(s6)
            && s6.out == s.out + dec_int(v0 as int) + " "@ + dec_int(v1 as int)
            && s6.sp == s.sp
            && s6.pc == s.pc + 9,
{
    let f = s.ax;
    lemma_step_push(s);
    let s1 = VMState {
        pc: (s.pc + 1) as usize,
        cycle: (s.cycle + 1) as usize,
        stack: s.stack.update(s.sp - 1, f),
        sp: (s.sp - 1) as usize,
        ..s
    };
    lemma_step_imm(s1, v0);
    let s2 = VMState { pc: (s1.pc + 2) as usize, cycle: (s1.cycle + 1) as usize, ax: v0, ..s1 };
    lemma_step_push(s2);
    let s3 = VMState {
        pc: (s2.pc + 1) as usize,
        cycle: (s2.cycle + 1) as usize,
        stack: s2.stack.update(s2.sp - 1, v0),
        sp: (s2.sp - 1) as usize,
        ..s2
    };
    lemma_step_imm(s3, v1);
    let s4 = VMState { pc: (s3.pc + 2) as usize, cycle: (s3.cycle + 1) as usize, ax: v1, ..s3 };
    lemma_step_push(s4);
    let s5 = VMState {
        pc: (s4.pc + 1) as usize,
        cycle: (s4.cycle + 1) as usize,
        stack: s4.stack.update(s4.sp - 1, v1),
        sp: (s4.sp - 1) as usize,
        ..s4
    };
    let p = VMState { pc: (s5.pc + 1) as usize, cycle: (s5.cycle + 1) as usize, ..s5 };
    lemma_step_printf(s5);
    assert(p.stack[p.sp + 2] == f);
    assert(p.stack[p.sp + 1] == v0);
    assert(p.stack[p.sp + 0] == v1);
    lemma_printf_two(p, s5.pc);
}

} // verus!
