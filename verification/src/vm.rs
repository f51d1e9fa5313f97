//! The stack virtual machine that runs the generated code.

use vstd::prelude::*;
use crate::bytes::{i64_from_le, i64_to_le, read_i64_le, write_i64_le};
use crate::text::{append_dec, dec_nat, push_dec_signed, push_str, dec_int};
use crate::lexer::initial_lex;
use crate::parser::{Parser, Type};
use crate::parser_spec::{PState, initial_data, init_state, parse};
use crate::vm_spec::{
    lemma_step_cycle,
    byte_chars, c_str, c_str_end, char_utf8_len, stack_str, utf8_len,
    write_bytes, mem_compare,
    data_len_ok, grow_i64, grow_u8, msg_out_of_bounds, stack_len_ok, zeros_i64, RunEnd, Step, VMState,
    DATA_STACK_THRESHOLD, MAX_CYCLES,
};

verus! {

/// The machine: code and data segments, registers, stack, instruction
/// count, and the text its program has printed.
pub struct VM {
    code: Vec<i64>,
    data: Vec<u8>,
    pc: usize,
    sp: usize,
    bp: usize,
    ax: i64,
    stack: Vec<i64>,
    debug: bool,
    cycle: usize,
    output: Vec<char>,
}

impl View for VM {
    type V = VMState;

    closed spec fn view(&self) -> VMState {
        VMState {
            code: self.code@,
            data: self.data@,
            pc: self.pc,
            sp: self.sp,
            bp: self.bp,
            ax: self.ax,
            stack: self.stack@,
            debug: self.debug,
            cycle: self.cycle,
            out: self.output@,
        }
    }
}

/// What one instruction did.
pub enum Outcome {
    Continue,
    Halt(Result<i64, String>),
    Abort,
}

/// Whether a result of the machine is the one the model gives.
pub open spec fn same_result(r: Result<i64, String>, m: Result<i64, Seq<char>>) -> bool {
    match r {
        Ok(v) => m == Ok::<i64, Seq<char>>(v),
        Err(e) => m == Err::<i64, Seq<char>>(e@),
    }
}

/// Whether an instruction's outcome and the state it left are the ones
/// the model gives.
pub open spec fn same_step(m: Step, o: Outcome, after: VMState) -> bool {
    match m {
        Step::Next(t) => o is Continue && after == t && after.wf(),
        Step::Halt(t, r) => o matches Outcome::Halt(res) && after == t && same_result(res, r),
        Step::Abort => o is Abort,
    }
}

/// What `load_int` reads at `addr`.
pub open spec fn load_int_at(data: Seq<u8>, addr: usize) -> i64 {
    if addr + 8 <= data.len() {
        i64_from_le(data.subrange(addr as int, addr + 8))
    } else if addr < data.len() {
        data[addr as int] as i64
    } else {
        0
    }
}

/// What `load_char` reads at `addr`.
pub open spec fn load_char_at(data: Seq<u8>, addr: usize) -> u8 {
    if addr < data.len() {
        data[addr as int]
    } else {
        0
    }
}

/// The data segment after `store_int(addr, val)`.
pub open spec fn store_int_at(data: Seq<u8>, addr: usize, val: i64) -> Seq<u8> {
    let grown = if addr + 8 > data.len() { grow_u8(data, addr + 8) } else { data };
    write_bytes(grown, addr as int, i64_to_le(val))
}

/// The data segment after `store_char(addr, val)`.
pub open spec fn store_char_at(data: Seq<u8>, addr: usize, val: u8) -> Seq<u8> {
    let grown = if addr >= data.len() { grow_u8(data, addr + 1) } else { data };
    grown.update(addr as int, val)
}

/// The name `op_to_string` gives an opcode.
pub open spec fn op_name(op: usize) -> Seq<char> {
    if op == 0 { "LEA"@ }
    else if op == 1 { "IMM"@ }
    else if op == 2 { "JMP"@ }
    else if op == 3 { "JSR"@ }
    else if op == 4 { "BZ"@ }
    else if op == 5 { "BNZ"@ }
    else if op == 6 { "ENT"@ }
    else if op == 7 { "ADJ"@ }
    else if op == 8 { "LEV"@ }
    else if op == 9 { "LI"@ }
    else if op == 10 { "LC"@ }
    else if op == 11 { "SI"@ }
    else if op == 12 { "SC"@ }
    else if op == 13 { "PSH"@ }
    else if op == 14 { "OR"@ }
    else if op == 15 { "XOR"@ }
    else if op == 16 { "AND"@ }
    else if op == 17 { "EQ"@ }
    else if op == 18 { "NE"@ }
    else if op == 19 { "LT"@ }
    else if op == 20 { "GT"@ }
    else if op == 21 { "LE"@ }
    else if op == 22 { "GE"@ }
    else if op == 23 { "SHL"@ }
    else if op == 24 { "SHR"@ }
    else if op == 25 { "ADD"@ }
    else if op == 26 { "SUB"@ }
    else if op == 27 { "MUL"@ }
    else if op == 28 { "DIV"@ }
    else if op == 29 { "MOD"@ }
    else if op == 30 { "OPEN"@ }
    else if op == 31 { "READ"@ }
    else if op == 32 { "CLOS"@ }
    else if op == 33 { "PRTF"@ }
    else if op == 34 { "MALC"@ }
    else if op == 35 { "FREE"@ }
    else if op == 36 { "MSET"@ }
    else if op == 37 { "MCMP"@ }
    else if op == 38 { "EXIT"@ }
    else if op == 39 { "SWP"@ }
    else { "Unknown("@ + dec_nat(op as nat) + ")"@ }
}

/// Whether an instruction has an argument word after it (LEA, IMM, JMP,
/// JSR, BZ, BNZ, ENT, ADJ and PRTF).
pub fn opcode_has_argument(op: u8) -> (r: bool)
    ensures
        r == (op <= 7 || op == 33),
{
    op <= 7 || op == 33
}

/// The size of the stack a new machine gets.
pub const STACK_SIZE: usize = 8192;

fn stack_fits(n: usize, extra: usize) -> (r: bool)
    ensures
        r == (n + extra <= usize::MAX && stack_len_ok(n + extra)),
{
    let max = (isize::MAX as usize) / 8;
    n <= max && extra <= max - n
}

fn data_fits(n: usize, extra: usize) -> (r: bool)
    ensures
        r == (n + extra <= usize::MAX && data_len_ok(n + extra)),
{
    let max = isize::MAX as usize;
    n <= max && extra <= max - n
}

fn zero_range(v: &mut Vec<i64>, lo: usize, hi: usize)
    requires
        lo <= hi,
        hi <= old(v)@.len(),
    ensures
        final(v)@ == Seq::new(old(v)@.len(), |j: int| if lo <= j < hi { 0i64 } else { old(v)@[j] }),
{
    let mut i = lo;
    while i < hi
        invariant
            lo <= i <= hi,
            hi <= v@.len(),
            v@ == Seq::new(old(v)@.len(), |j: int| if lo <= j < i { 0i64 } else { old(v)@[j] }),
        decreases hi - i,
    {
        v.set(i, 0);
        i += 1;
        assert(v@ =~= Seq::new(old(v)@.len(), |j: int| if lo <= j < i { 0i64 } else { old(v)@[j] }));
    }
    assert(v@ =~= Seq::new(old(v)@.len(), |j: int| if lo <= j < hi { 0i64 } else { old(v)@[j] }));
}

fn write_bytes_at(v: &mut Vec<u8>, at: usize, bytes: &Vec<u8>)
    requires
        at + bytes@.len() <= old(v)@.len(),
    ensures
        final(v)@ == write_bytes(old(v)@, at as int, bytes@),
{
    let n = v.len();
    let mut i: usize = 0;
    while i < bytes.len()
        invariant
            n == v@.len(),
            i <= bytes@.len(),
            at + bytes@.len() <= v@.len(),
            v@ == Seq::new(old(v)@.len(), |j: int| if at <= j < at + i { bytes@[j - at] } else { old(v)@[j] }),
        decreases bytes@.len() - i,
    {
        v.set(at + i, bytes[i]);
        i += 1;
        assert(v@ =~= Seq::new(old(v)@.len(), |j: int| if at <= j < at + i { bytes@[j - at] } else { old(v)@[j] }));
    }
    assert(v@ =~= write_bytes(old(v)@, at as int, bytes@));
}

fn fill_bytes(v: &mut Vec<u8>, at: usize, count: usize, value: u8)
    requires
        at + count <= old(v)@.len(),
    ensures
        final(v)@ == Seq::new(old(v)@.len(), |j: int| if at <= j < at + count { value } else { old(v)@[j] }),
{
    let n = v.len();
    let mut i: usize = 0;
    while i < count
        invariant
            n == v@.len(),
            i <= count,
            at + count <= v@.len(),
            v@ == Seq::new(old(v)@.len(), |j: int| if at <= j < at + i { value } else { old(v)@[j] }),
        decreases count - i,
    {
        v.set(at + i, value);
        i += 1;
        assert(v@ =~= Seq::new(old(v)@.len(), |j: int| if at <= j < at + i { value } else { old(v)@[j] }));
    }
    assert(v@ =~= Seq::new(old(v)@.len(), |j: int| if at <= j < at + count { value } else { old(v)@[j] }));
}

fn compare_bytes(data: &Vec<u8>, s1: usize, s2: usize, count: usize) -> (r: i64)
    requires
        s1 + count <= data@.len(),
        s2 + count <= data@.len(),
    ensures
        r == mem_compare(data@, s1 as int, s2 as int, count as int),
{
    let n = data.len();
    let mut i: usize = 0;
    while i < count
        invariant
            n == data@.len(),
            i <= count,
            s1 + count <= data@.len(),
            s2 + count <= data@.len(),
            mem_compare(data@, s1 + i, s2 + i, count - i) == mem_compare(data@, s1 as int, s2 as int, count as int),
        decreases count - i,
    {
        let a = data[s1 + i];
        let b = data[s2 + i];
        if a != b {
            return (a as i64) - (b as i64);
        }
        i += 1;
    }
    0
}

/// Appends the zero-terminated string at `at` in the data segment.
fn push_c_str(data: &Vec<u8>, at: usize, out: &mut Vec<char>)
    ensures
        final(out)@ == old(out)@ + c_str(data@, at as nat),
{
    let n = data.len();
    if at >= n {
        assert(old(out)@ + Seq::<char>::empty() =~= old(out)@);
        return;
    }
    let ghost end = c_str_end(data@, at as nat);
    let mut j = at;
    assert(data@.subrange(at as int, at as int).map_values(|b: u8| b as char) =~= Seq::<char>::empty());
    assert(old(out)@ + Seq::<char>::empty() =~= old(out)@);
    while j < n && data[j] != 0
        invariant
            n == data@.len(),
            at <= j <= n,
            c_str_end(data@, j as nat) == end,
            out@ == old(out)@ + byte_chars(data@.subrange(at as int, j as int)),
        decreases n - j,
    {
        out.push(data[j] as char);
        j += 1;
        assert(byte_chars(data@.subrange(at as int, j as int)) =~= byte_chars(data@.subrange(at as int, j - 1)).push(data@[j - 1] as char));
        assert(out@ =~= old(out)@ + byte_chars(data@.subrange(at as int, j as int)));
    }
}

/// Appends the string held one character per slot at `at` on the stack.
fn push_stack_str(stack: &Vec<i64>, at: usize, out: &mut Vec<char>)
    ensures
        final(out)@ == old(out)@ + stack_str(stack@, at as nat),
{
    let n = stack.len();
    let mut idx = at;
    while idx < n
        invariant_except_break
            n == stack@.len(),
            at <= idx,
            out@ + stack_str(stack@, idx as nat) == old(out)@ + stack_str(stack@, at as nat),
        ensures
            out@ == old(out)@ + stack_str(stack@, at as nat),
        decreases n - idx,
    {
        let char_byte = (stack[idx] & 0xFF) as u8;
        if char_byte == 0 {
            assert(out@ + Seq::<char>::empty() =~= out@);
            break;
        }
        let ghost before = out@;
        out.push(char_byte as char);
        idx += 1;
        assert(out@ + stack_str(stack@, idx as nat) =~= before + stack_str(stack@, (idx - 1) as nat));
    }
    if idx >= n {
        assert(out@ + Seq::<char>::empty() =~= out@);
    }
}

/// The length in bytes of the UTF-8 encoding of `s`, when it is no more
/// than `isize::MAX`.
fn utf8_length(s: &Vec<char>) -> (r: Option<usize>)
    ensures
        r matches Some(n) ==> n == utf8_len(s@) && n <= isize::MAX,
        r is None ==> utf8_len(s@) > isize::MAX,
{
    let max = isize::MAX as usize;
    let n = s.len();
    let mut count: usize = 0;
    let mut i: usize = 0;
    assert(s@.subrange(0, n as int) =~= s@);
    while i < n
        invariant
            n == s@.len(),
            i <= n,
            count <= max,
            max == isize::MAX,
            count + utf8_len(s@.subrange(i as int, n as int)) == utf8_len(s@),
        decreases n - i,
    {
        let c = s[i];
        let cl: usize = if (c as u32) < 0x80 {
            1
        } else if (c as u32) < 0x800 {
            2
        } else if (c as u32) < 0x10000 {
            3
        } else {
            4
        };
        assert(s@.subrange(i as int, n as int).drop_first() =~= s@.subrange(i + 1, n as int));
        if count > max - cl {
            return None;
        }
        count = count + cl;
        i += 1;
    }
    assert(s@.subrange(n as int, n as int) =~= Seq::<char>::empty());
    Some(count)
}

fn oob_message(prefix: &str, addr: usize, size: usize) -> (s: String)
    ensures
        s@ == msg_out_of_bounds(prefix@, addr, size as nat),
{
    let mut s = String::from_str(prefix);
    append_dec(&mut s, addr as u64);
    s.append(", size=");
    append_dec(&mut s, size as u64);
    s
}

/// A new machine for `code` and `data`: a zeroed stack that sits above
/// the data addresses, with its pointers near its top.
pub open spec fn initial_vm(code: Seq<i64>, data: Seq<u8>, debug: bool) -> VMState {
    VMState {
        code,
        data,
        pc: 0,
        sp: (DATA_STACK_THRESHOLD + STACK_SIZE - 20) as usize,
        bp: (DATA_STACK_THRESHOLD + STACK_SIZE - 20) as usize,
        ax: 0,
        stack: zeros_i64((DATA_STACK_THRESHOLD + STACK_SIZE) as nat),
        debug,
        cycle: 0,
        out: Seq::empty(),
    }
}

impl VM {
    /// The machine's invariant.
    pub open spec fn wf(&self) -> bool {
        self@.wf()
    }

    /// Creates a machine for `code` and `data`, with a zeroed stack that
    /// sits above the data addresses.
    pub fn new(code: Vec<i64>, data: Vec<u8>, debug: bool) -> (vm: Self)
        requires
            data_len_ok(data@.len() as int),
        ensures
            vm@ == initial_vm(code@, data@, debug),
            vm.wf(),
    {
        let total = DATA_STACK_THRESHOLD + STACK_SIZE;
        let stack = vec![0i64; total];
        assert(stack@ =~= zeros_i64(total as nat));
        let sp = DATA_STACK_THRESHOLD + STACK_SIZE - 20;
        VM { code, data, pc: 0, sp, bp: sp, ax: 0, stack, debug, cycle: 0, output: Vec::new() }
    }

    /// The text the program has printed.
    pub fn output(&self) -> (o: &[char])
        ensures
            o@ == self@.out,
    {
        self.output.as_slice()
    }

    fn control(&mut self, op: u8, at: usize) -> (o: Outcome)
        requires
            old(self).wf(),
            op <= 5,
            at < old(self)@.code.len(),
            old(self)@.pc == at + 1,
        ensures
            same_step(old(self)@.control(op, at), o, final(self)@),
    {
        if at + 1 >= self.code.len() {
            return Outcome::Abort;
        }
        let a = self.code[at + 1];
        if op == 0 {
            let offset = a as usize;
            if offset > self.bp {
                return Outcome::Abort;
            }
            self.pc = self.pc + 1;
            self.ax = (self.bp - offset) as i64;
        } else if op == 1 {
            self.pc = self.pc + 1;
            self.ax = a;
        } else if op == 2 {
            self.pc = a as usize;
        } else if op == 3 {
            if self.sp == 0 {
                return Outcome::Halt(Err(String::from_str("Stack overflow in JSR")));
            }
            if self.sp - 1 >= self.stack.len() {
                return Outcome::Abort;
            }
            self.sp = self.sp - 1;
            self.stack.set(self.sp, (self.pc + 1) as i64);
            self.pc = a as usize;
        } else if op == 4 {
            self.pc = if self.ax == 0 { a as usize } else { self.pc + 1 };
        } else {
            self.pc = if self.ax != 0 { a as usize } else { self.pc + 1 };
        }
        Outcome::Continue
    }

    fn adjust(&mut self, at: usize) -> (o: Outcome)
        requires
            old(self).wf(),
            at < old(self)@.code.len(),
            old(self)@.pc == at + 1,
        ensures
            same_step(old(self)@.adjust(at), o, final(self)@),
    {
        if at + 1 >= self.code.len() {
            return Outcome::Abort;
        }
        let n = self.code[at + 1] as usize;
        self.pc = self.pc + 1;
        if self.sp > usize::MAX - n {
            return Outcome::Abort;
        }
        if self.sp + n >= self.stack.len() {
            if !stack_fits(self.sp + n, 64) {
                return Outcome::Abort;
            }
            let ghost before = self.stack@;
            self.stack.resize(self.sp + n + 64, 0);
            assert(self.stack@ =~= grow_i64(before, self.sp + n + 64));
        }
        self.sp = self.sp + n;
        Outcome::Continue
    }

    fn leave(&mut self) -> (o: Outcome)
        requires
            old(self).wf(),
        ensures
            same_step(old(self)@.leave(), o, final(self)@),
    {
        if self.bp >= self.stack.len() {
            return Outcome::Halt(Err(String::from_str("Stack corruption - invalid base pointer")));
        }
        if self.bp + 1 >= self.stack.len() {
            return Outcome::Halt(Err(String::from_str("Stack corruption - can't read return address")));
        }
        let bpv = self.stack[self.bp];
        let pcv = self.stack[self.bp + 1];
        self.sp = self.bp + 2;
        self.bp = bpv as usize;
        if pcv == 0 || bpv == 0 {
            return Outcome::Halt(Ok(self.ax));
        }
        self.pc = pcv as usize;
        Outcome::Continue
    }

    fn swap_top(&mut self) -> (o: Outcome)
        requires
            old(self).wf(),
        ensures
            same_step(old(self)@.swap(), o, final(self)@),
    {
        if self.sp >= self.stack.len() {
            return Outcome::Halt(Err(String::from_str("Stack underflow in SWP operation")));
        }
        let temp = self.stack[self.sp];
        self.stack.set(self.sp, self.ax);
        self.ax = temp;
        Outcome::Continue
    }

    fn push(&mut self) -> (o: Outcome)
        requires
            old(self).wf(),
        ensures
            same_step(old(self)@.push(), o, final(self)@),
    {
        if self.sp == 0 {
            if !stack_fits(self.stack.len(), 64) || self.bp > usize::MAX - 64 {
                return Outcome::Abort;
            }
            let mut grown = vec![0i64; 64];
            let ghost zeros = grown@;
            let ghost before = self.stack@;
            grown.append(&mut self.stack);
            assert(zeros =~= zeros_i64(64));
            self.stack = grown;
            self.sp = 64;
            self.bp = self.bp + 64;
        }
        if self.sp - 1 >= self.stack.len() {
            return Outcome::Abort;
        }
        self.sp = self.sp - 1;
        self.stack.set(self.sp, self.ax);
        Outcome::Continue
    }

    fn binary(&mut self, op: u8) -> (o: Outcome)
        requires
            old(self).wf(),
            14 <= op <= 29,
        ensures
            same_step(old(self)@.binary(op), o, final(self)@),
    {
        if op == 28 && self.ax == 0 {
            return Outcome::Halt(Err(String::from_str("division by zero")));
        }
        if op == 29 && self.ax == 0 {
            return Outcome::Halt(Err(String::from_str("modulo by zero")));
        }
        if self.sp >= self.stack.len() {
            return Outcome::Abort;
        }
        let a = self.stack[self.sp];
        let b = self.ax;
        let r: Option<i64> = if op == 14 {
            Some(a | b)
        } else if op == 15 {
            Some(a ^ b)
        } else if op == 16 {
            Some(a & b)
        } else if op == 17 {
            Some(if a == b { 1i64 } else { 0i64 })
        } else if op == 18 {
            Some(if a != b { 1i64 } else { 0i64 })
        } else if op == 19 {
            Some(if a < b { 1i64 } else { 0i64 })
        } else if op == 20 {
            Some(if a > b { 1i64 } else { 0i64 })
        } else if op == 21 {
            Some(if a <= b { 1i64 } else { 0i64 })
        } else if op == 22 {
            Some(if a >= b { 1i64 } else { 0i64 })
        } else if op == 23 {
            if 0 <= b && b < 64 { Some(a.wrapping_shl(b as u32)) } else { None }
        } else if op == 24 {
            if 0 <= b && b < 64 { Some(a.wrapping_shr(b as u32)) } else { None }
        } else if op == 25 {
            a.checked_add(b)
        } else if op == 26 {
            a.checked_sub(b)
        } else if op == 27 {
            a.checked_mul(b)
        } else if op == 28 {
            a.checked_div(b)
        } else {
            a.checked_rem(b)
        };
        match r {
            Some(v) => {
                self.ax = v;
                self.sp = self.sp + 1;
                Outcome::Continue
            },
            None => Outcome::Abort,
        }
    }

    #[verifier::rlimit(40)]
    fn enter(&mut self, at: usize) -> (o: Outcome)
        requires
            old(self).wf(),
            at < old(self)@.code.len(),
            old(self)@.pc == at + 1,
        ensures
            same_step(old(self)@.enter(at), o, final(self)@),
    {
        if at + 1 >= self.code.len() {
            return Outcome::Abort;
        }
        let local_size = self.code[at + 1] as usize;
        self.pc = self.pc + 1;
        if self.sp < 2 {
            if !stack_fits(self.stack.len(), 64) {
                return Outcome::Abort;
            }
            let ghost before = self.stack@;
            self.stack.resize(self.stack.len() + 64, 0);
            assert(self.stack@ =~= grow_i64(before, before.len() + 64int));
        }
        let sp2 = if self.sp == 0 { 0 } else { self.sp - 1 };
        if sp2 >= self.stack.len() {
            return Outcome::Abort;
        }
        if local_size > 1 && local_size > usize::MAX / 2 {
            return Outcome::Abort;
        }
        let buffer_size = if local_size <= 1 { 4 } else { local_size * 2 };
        if local_size > usize::MAX - buffer_size || local_size + buffer_size == usize::MAX {
            return Outcome::Abort;
        }
        let total_space = local_size + buffer_size;
        self.stack.set(sp2, self.bp as i64);
        self.sp = sp2;
        self.bp = sp2;
        if self.sp < total_space + 1 {
            if total_space > usize::MAX - 64 {
                return Outcome::Abort;
            }
            let needed_space = total_space + 64;
            if !stack_fits(self.stack.len(), needed_space) {
                return Outcome::Abort;
            }
            let mut grown = vec![0i64; needed_space];
            let ghost zeros = grown@;
            grown.append(&mut self.stack);
            assert(zeros =~= zeros_i64(needed_space as nat));
            self.stack = grown;
            self.sp = self.sp + needed_space;
            self.bp = self.bp + needed_space;
        }
        self.sp = if self.sp < total_space { 0 } else { self.sp - total_space };
        zero_range(&mut self.stack, self.sp, self.bp);
        Outcome::Continue
    }

    fn load(&mut self, op: u8) -> (o: Outcome)
        requires
            old(self).wf(),
            op == 9 || op == 10,
            old(self)@.cycle <= MAX_CYCLES,
        ensures
            same_step(old(self)@.load(op), o, final(self)@),
    {
        let addr = self.ax as usize;
        if op == 9 {
            if addr < DATA_STACK_THRESHOLD {
                if addr + 8 > self.data.len() {
                    return Outcome::Halt(Err(oob_message("Data segment read out of bounds: addr=", addr, self.data.len())));
                }
                self.ax = read_i64_le(self.data.as_slice(), addr);
            } else {
                if addr >= self.stack.len() {
                    return Outcome::Halt(Err(oob_message("Stack read out of bounds: addr=", addr, self.stack.len())));
                }
                self.ax = self.stack[addr];
            }
            self.cycle = self.cycle + 1;
        } else {
            if addr < DATA_STACK_THRESHOLD {
                if addr >= self.data.len() {
                    return Outcome::Halt(Err(oob_message("Data segment read out of bounds: addr=", addr, self.data.len())));
                }
                self.ax = self.data[addr] as i64;
            } else {
                if addr >= self.stack.len() {
                    return Outcome::Halt(Err(oob_message("Stack read out of bounds: addr=", addr, self.stack.len())));
                }
                self.ax = self.stack[addr] & 0xFF;
            }
        }
        Outcome::Continue
    }

    fn store(&mut self, op: u8) -> (o: Outcome)
        requires
            old(self).wf(),
            op == 11 || op == 12,
            old(self)@.cycle <= MAX_CYCLES,
        ensures
            same_step(old(self)@.store(op), o, final(self)@),
    {
        if self.sp >= self.stack.len() {
            let mut msg = if op == 11 {
                String::from_str("Stack empty in SI: sp=")
            } else {
                String::from_str("Stack empty in SC: sp=")
            };
            append_dec(&mut msg, self.sp as u64);
            return Outcome::Halt(Err(msg));
        }
        let addr = self.stack[self.sp] as usize;
        self.sp = self.sp + 1;
        if op == 11 {
            if addr < DATA_STACK_THRESHOLD {
                if addr + 8 > self.data.len() {
                    let ghost before = self.data@;
                    self.data.resize(addr + 8 + 64, 0);
                    assert(self.data@ =~= grow_u8(before, addr + 8 + 64));
                }
                let bytes = write_i64_le(self.ax);
                proof {
                    crate::bytes::lemma_le_encode_len((self.ax as u64) as nat, 8);
                }
                write_bytes_at(&mut self.data, addr, &bytes);
            } else {
                if addr >= self.stack.len() {
                    if !stack_fits(addr, 64) {
                        return Outcome::Abort;
                    }
                    let ghost before = self.stack@;
                    self.stack.resize(addr + 64, 0);
                    assert(self.stack@ =~= grow_i64(before, addr + 64));
                }
                self.stack.set(addr, self.ax);
            }
            self.cycle = self.cycle + 1;
        } else {
            let char_val = (self.ax & 0xFF) as u8;
            if addr < DATA_STACK_THRESHOLD {
                if addr >= self.data.len() {
                    let ghost before = self.data@;
                    self.data.resize(addr + 1, 0);
                    assert(self.data@ =~= grow_u8(before, addr + 1));
                }
                self.data.set(addr, char_val);
            } else {
                if addr >= self.stack.len() {
                    if !stack_fits(addr, 64) {
                        return Outcome::Abort;
                    }
                    let ghost before = self.stack@;
                    self.stack.resize(addr + 64, 0);
                    assert(self.stack@ =~= grow_i64(before, addr + 64));
                }
                let cur = self.stack[addr];
                self.stack.set(addr, (cur & !0xFFi64) | (char_val as i64));
            }
        }
        Outcome::Continue
    }

    fn syscall(&mut self, op: u8) -> (o: Outcome)
        requires
            old(self).wf(),
            30 <= op <= 38,
            op != 33,
        ensures
            same_step(old(self)@.syscall(op), o, final(self)@),
    {
        if op == 30 {
            if self.sp > usize::MAX - 2 {
                return Outcome::Abort;
            }
            self.sp = self.sp + 2;
            self.ax = 0;
        } else if op == 31 {
            if self.sp > usize::MAX - 3 {
                return Outcome::Abort;
            }
            self.sp = self.sp + 3;
            self.ax = 0;
        } else if op == 32 {
            self.ax = 0;
        } else if op == 34 {
            if self.sp >= self.stack.len() {
                return Outcome::Abort;
            }
            let size = self.stack[self.sp] as usize;
            let addr = self.data.len();
            if !data_fits(addr, size) {
                return Outcome::Abort;
            }
            self.sp = self.sp + 1;
            let ghost before = self.data@;
            self.data.resize(addr + size, 0);
            assert(self.data@ =~= grow_u8(before, addr + size));
            self.ax = addr as i64;
        } else if op == 35 {
            if self.sp > usize::MAX - 1 {
                return Outcome::Abort;
            }
            self.sp = self.sp + 1;
            self.ax = 0;
        } else if op == 36 {
            if self.sp >= self.stack.len() || self.sp + 1 >= self.stack.len() || self.sp + 2 >= self.stack.len() {
                return Outcome::Abort;
            }
            let count = self.stack[self.sp] as usize;
            let value = self.stack[self.sp + 1] as u8;
            let dest = self.stack[self.sp + 2] as usize;
            if !data_fits(dest, count) {
                return Outcome::Abort;
            }
            self.sp = self.sp + 3;
            if dest + count > self.data.len() {
                let ghost before = self.data@;
                self.data.resize(dest + count, 0);
                assert(self.data@ =~= grow_u8(before, dest + count));
            }
            fill_bytes(&mut self.data, dest, count, value);
            self.ax = dest as i64;
        } else if op == 37 {
            if self.sp >= self.stack.len() || self.sp + 1 >= self.stack.len() || self.sp + 2 >= self.stack.len() {
                return Outcome::Abort;
            }
            let count = self.stack[self.sp] as usize;
            let s2 = self.stack[self.sp + 1] as usize;
            let s1 = self.stack[self.sp + 2] as usize;
            self.sp = self.sp + 3;
            if s1 > usize::MAX - count {
                return Outcome::Abort;
            }
            if s1 + count > self.data.len() {
                self.ax = -1;
                return Outcome::Continue;
            }
            if s2 > usize::MAX - count {
                return Outcome::Abort;
            }
            if s2 + count > self.data.len() {
                self.ax = -1;
                return Outcome::Continue;
            }
            self.ax = compare_bytes(&self.data, s1, s2, count);
        } else {
            if self.sp >= self.stack.len() {
                return Outcome::Halt(Err(String::from_str("Stack corruption on EXIT - invalid stack pointer")));
            }
            return Outcome::Halt(Ok(self.stack[self.sp]));
        }
        Outcome::Continue
    }

    fn printf(&mut self, at: usize) -> (o: Outcome)
        requires
            old(self).wf(),
            at < old(self)@.code.len(),
            old(self)@.pc == at + 1,
        ensures
            same_step(old(self)@.printf(at), o, final(self)@),
    {
        if at + 1 >= self.code.len() {
            return Outcome::Abort;
        }
        let argc = self.code[at + 1] as usize;
        self.pc = self.pc + 1;
        if self.sp > usize::MAX - argc || self.sp + argc > self.stack.len() || argc == 0 {
            return Outcome::Abort;
        }
        let format_addr = self.stack[self.sp + argc - 1] as usize;
        if format_addr >= self.data.len() {
            push_str(&mut self.output, "<invalid format string>");
            self.sp = self.sp + argc;
            self.ax = 0;
            return Outcome::Continue;
        }
        let mut fmt: Vec<char> = Vec::new();
        push_c_str(&self.data, format_addr, &mut fmt);
        assert(fmt@ =~= c_str(self@.data, format_addr as nat));
        if utf8_length(&fmt).is_none() {
            return Outcome::Abort;
        }
        let ghost target = self@.format(fmt@, 0, 0, argc as nat);
        let mut text: Vec<char> = Vec::new();
        let mut i: usize = 0;
        let mut arg_idx: usize = 0;
        let n = fmt.len();
        assert(text@ + target =~= target);
        while i < n
            invariant
                n == fmt@.len(),
                i <= n + 1,
                arg_idx < argc,
                self.wf(),
                self.sp + argc <= self.stack@.len(),
                text@ + self@.format(fmt@, i as nat, arg_idx as nat, argc as nat) == target,
            decreases n + 1 - i,
        {
            let c = fmt[i];
            let ghost before = text@;
            if c == '%' && i + 1 < n {
                let next_c = fmt[i + 1];
                if next_c == 'd' || next_c == 's' {
                    if arg_idx + 1 < argc {
                        let v = self.stack[self.sp + argc - 2 - arg_idx];
                        if next_c == 'd' {
                            push_dec_signed(&mut text, v);
                        } else if (v as usize) < DATA_STACK_THRESHOLD {
                            push_c_str(&self.data, v as usize, &mut text);
                        } else {
                            push_stack_str(&self.stack, v as usize, &mut text);
                        }
                        arg_idx += 1;
                    } else {
                        push_str(&mut text, "<?>");
                    }
                    i += 2;
                } else if next_c == '%' {
                    text.push('%');
                    i += 2;
                } else {
                    text.push('%');
                    i += 1;
                }
            } else {
                text.push(c);
                i += 1;
            }
            assert(text@ + self@.format(fmt@, i as nat, arg_idx as nat, argc as nat) =~= target);
        }
        assert(text@ + Seq::<char>::empty() =~= text@);
        let len = match utf8_length(&text) {
            Some(l) => l,
            None => {
                return Outcome::Abort;
            },
        };
        let ghost before_out = self.output@;
        self.output.append(&mut text);
        self.sp = self.sp + argc;
        self.ax = len as i64;
        Outcome::Continue
    }

    /// Carries out the instruction at the program counter.
    fn step(&mut self) -> (o: Outcome)
        requires
            old(self).wf(),
            old(self)@.pc < old(self)@.code.len(),
            old(self)@.cycle < MAX_CYCLES,
        ensures
            same_step(old(self)@.step(), o, final(self)@),
    {
        let at = self.pc;
        let len = self.code.len();
        assert(at < len);
        let op = self.code[at] as u8;
        self.pc = at + 1;
        self.cycle = self.cycle + 1;
        if op <= 5 {
            self.control(op, at)
        } else if op == 6 {
            self.enter(at)
        } else if op == 7 {
            self.adjust(at)
        } else if op == 8 {
            self.leave()
        } else if op == 9 || op == 10 {
            self.load(op)
        } else if op == 11 || op == 12 {
            self.store(op)
        } else if op == 13 {
            self.push()
        } else if 14 <= op && op <= 29 {
            self.binary(op)
        } else if op == 33 {
            self.printf(at)
        } else if 30 <= op && op <= 38 {
            self.syscall(op)
        } else if op == 39 {
            self.swap_top()
        } else {
            let mut msg = String::from_str("unknown instruction: ");
            append_dec(&mut msg, op as u64);
            Outcome::Halt(Err(msg))
        }
    }

    /// Runs the program from its first instruction until it exits, its
    /// code ends, or the instruction limit is reached; `None` where the
    /// machine would abort (an access outside a segment, or an arithmetic
    /// overflow).
    pub fn run_checked(&mut self) -> (r: Option<Result<i64, String>>)
        requires
            old(self).wf(),
        ensures
            match old(self)@.run() {
                RunEnd::Aborts => r is None,
                RunEnd::Returns(t, res) => r matches Some(v) && same_result(v, res) && final(self)@ == t,
            },
    {
        self.pc = 0;
        self.cycle = 0;
        let ghost target = self@.run_from();
        assert(target == old(self)@.run());
        while self.pc < self.code.len()
            invariant
                self.wf(),
                self.cycle <= MAX_CYCLES + 1,
                self@.run_from() == target,
                target == old(self)@.run(),
            decreases 50002 - self.cycle,
        {
            if self.cycle >= MAX_CYCLES {
                return Some(Err(String::from_str(
                    "Execution aborted after 50000 instructions - possible infinite loop",
                )));
            }
            proof {
                lemma_step_cycle(self@);
            }
            match self.step() {
                Outcome::Continue => {},
                Outcome::Halt(r) => {
                    return Some(r);
                },
                Outcome::Abort => {
                    return None;
                },
            }
        }
        Some(Ok(self.ax))
    }

    /// Runs the program from its first instruction until it exits, its
    /// code ends, or the instruction limit is reached.
    pub fn run(&mut self) -> (r: Result<i64, String>)
        requires
            old(self).wf(),
            !(old(self)@.run() is Aborts),
        ensures
            old(self)@.run() matches RunEnd::Returns(t, res) && same_result(r, res) && final(self)@ == t,
    {
        match self.run_checked() {
            Some(r) => r,
            None => Err(String::new()),
        }
    }

    /// Reads an integer from the data segment: eight bytes where they
    /// are all there, the one byte where only that is, otherwise zero.
    pub fn load_int(&self, addr: usize) -> (v: i64)
        ensures
            v == load_int_at(self@.data, addr),
    {
        if addr < self.data.len() && addr <= usize::MAX - 7 && addr + 7 < self.data.len() {
            read_i64_le(self.data.as_slice(), addr)
        } else if addr < self.data.len() {
            self.data[addr] as i64
        } else {
            0
        }
    }

    /// Reads a byte from the data segment, or zero past its end.
    pub fn load_char(&self, addr: usize) -> (v: u8)
        ensures
            v == load_char_at(self@.data, addr),
    {
        if addr < self.data.len() {
            self.data[addr]
        } else {
            0
        }
    }

    /// Writes an integer as eight bytes into the data segment, growing it
    /// first when they do not fit.
    pub fn store_int(&mut self, addr: usize, val: i64)
        requires
            old(self).wf(),
            data_len_ok(addr + 8),
        ensures
            final(self)@ == (VMState { data: store_int_at(old(self)@.data, addr, val), ..old(self)@ }),
            final(self).wf(),
    {
        if addr + 7 >= self.data.len() {
            let ghost before = self.data@;
            self.data.resize(addr + 8, 0);
            assert(self.data@ =~= grow_u8(before, addr + 8));
        }
        let bytes = write_i64_le(val);
        proof {
            crate::bytes::lemma_le_encode_len((val as u64) as nat, 8);
        }
        write_bytes_at(&mut self.data, addr, &bytes);
    }

    /// Writes a byte into the data segment, growing it first when the
    /// address is past its end.
    pub fn store_char(&mut self, addr: usize, val: u8)
        requires
            old(self).wf(),
            data_len_ok(addr + 1),
        ensures
            final(self)@ == (VMState { data: store_char_at(old(self)@.data, addr, val), ..old(self)@ }),
            final(self).wf(),
    {
        if addr >= self.data.len() {
            let ghost before = self.data@;
            self.data.resize(addr + 1, 0);
            assert(self.data@ =~= grow_u8(before, addr + 1));
        }
        self.data.set(addr, val);
    }

    /// The name of an opcode, or `Unknown(n)`.
    pub fn op_to_string(&self, op: usize) -> (s: String)
        ensures
            s@ == op_name(op),
    {
        let name = if op == 0 { "LEA" }
        else if op == 1 { "IMM" }
        else if op == 2 { "JMP" }
        else if op == 3 { "JSR" }
        else if op == 4 { "BZ" }
        else if op == 5 { "BNZ" }
        else if op == 6 { "ENT" }
        else if op == 7 { "ADJ" }
        else if op == 8 { "LEV" }
        else if op == 9 { "LI" }
        else if op == 10 { "LC" }
        else if op == 11 { "SI" }
        else if op == 12 { "SC" }
        else if op == 13 { "PSH" }
        else if op == 14 { "OR" }
        else if op == 15 { "XOR" }
        else if op == 16 { "AND" }
        else if op == 17 { "EQ" }
        else if op == 18 { "NE" }
        else if op == 19 { "LT" }
        else if op == 20 { "GT" }
        else if op == 21 { "LE" }
        else if op == 22 { "GE" }
        else if op == 23 { "SHL" }
        else if op == 24 { "SHR" }
        else if op == 25 { "ADD" }
        else if op == 26 { "SUB" }
        else if op == 27 { "MUL" }
        else if op == 28 { "DIV" }
        else if op == 29 { "MOD" }
        else if op == 30 { "OPEN" }
        else if op == 31 { "READ" }
        else if op == 32 { "CLOS" }
        else if op == 33 { "PRTF" }
        else if op == 34 { "MALC" }
        else if op == 35 { "FREE" }
        else if op == 36 { "MSET" }
        else if op == 37 { "MCMP" }
        else if op == 38 { "EXIT" }
        else if op == 39 { "SWP" }
        else {
            let mut s = String::from_str("Unknown(");
            append_dec(&mut s, op as u64);
            s.append(")");
            return s;
        };
        String::from_str(name)
    }
}


/// Reading an integer back from where it was stored gives the stored
/// integer.
pub proof fn law_store_then_load_int(data: Seq<u8>, addr: usize, val: i64)
    requires
        addr + 8 <= usize::MAX,
    ensures
        load_int_at(store_int_at(data, addr, val), addr) == val,
{
    crate::bytes::lemma_i64_le_roundtrip(val);
    let d = store_int_at(data, addr, val);
    assert(d.subrange(addr as int, addr + 8) =~= i64_to_le(val));
}

/// Reading a byte back from where it was stored gives the stored byte.
pub proof fn law_store_then_load_char(data: Seq<u8>, addr: usize, val: u8)
    requires
        addr + 1 <= usize::MAX,
    ensures
        load_char_at(store_char_at(data, addr, val), addr) == val,
{
}

/// Storing an integer leaves every byte outside its eight unchanged as
/// `load_char` reads them.
pub proof fn law_store_int_keeps_other_bytes(data: Seq<u8>, addr: usize, val: i64, other: usize)
    requires
        addr + 8 <= usize::MAX,
        other < addr || other >= addr + 8,
    ensures
        load_char_at(store_int_at(data, addr, val), other) == load_char_at(data, other),
{
    crate::bytes::lemma_i64_le_roundtrip(val);
}

/// Storing a byte leaves every other byte unchanged as `load_char` reads
/// them.
pub proof fn law_store_char_keeps_other_bytes(data: Seq<u8>, addr: usize, val: u8, other: usize)
    requires
        addr + 1 <= usize::MAX,
        other != addr,
    ensures
        load_char_at(store_char_at(data, addr, val), other) == load_char_at(data, other),
{
}

proof fn lemma_step_keeps_output(s: VMState)
    requires
        s.pc < s.code.len(),
    ensures
        s.step() matches Step::Next(t) ==> t.out.len() >= s.out.len() && t.out.subrange(0, s.out.len() as int) == s.out,
        s.step() matches Step::Halt(t, r) ==> t.out == s.out,
{
    let at = s.pc;
    let op = s.code[at as int] as u8;
    if op == 33 {
        let s1 = VMState { pc: (s.pc + 1) as usize, cycle: (s.cycle + 1) as usize, ..s };
        match s1.printf(at) {
            Step::Next(t) => {
                assert(t.out.subrange(0, s.out.len() as int) =~= s.out);
            },
            _ => {},
        }
    }
}

proof fn lemma_run_from(s: VMState)
    ensures
        s.run_from() matches RunEnd::Returns(t, r) ==> {
            &&& (s.cycle <= MAX_CYCLES + 1 ==> t.cycle <= MAX_CYCLES + 1)
            &&& t.out.len() >= s.out.len()
            &&& t.out.subrange(0, s.out.len() as int) == s.out
        },
    decreases 50002 - s.cycle,
{
    if s.pc >= s.code.len() {
        assert(s.out.subrange(0, s.out.len() as int) =~= s.out);
    } else if s.cycle >= MAX_CYCLES {
        assert(s.out.subrange(0, s.out.len() as int) =~= s.out);
    } else {
        lemma_step_cycle(s);
        lemma_step_keeps_output(s);
        match s.step() {
            Step::Next(t) => {
                lemma_run_from(t);
                match t.run_from() {
                    RunEnd::Returns(u, r) => {
                        assert(u.out.subrange(0, s.out.len() as int) =~= u.out.subrange(0, t.out.len() as int).subrange(0, s.out.len() as int));
                    },
                    _ => {},
                }
            },
            Step::Halt(t, r) => {
                assert(t.out.subrange(0, s.out.len() as int) =~= s.out);
            },
            Step::Abort => {},
        }
    }
}

/// A run stops within the instruction limit: it executes at most
/// `MAX_CYCLES` instructions (one more count for a final load or store).
pub proof fn law_run_within_limit(s: VMState)
    ensures
        s.run() matches RunEnd::Returns(t, r) ==> t.cycle <= MAX_CYCLES + 1,
{
    lemma_run_from(VMState { pc: 0, cycle: 0, ..s });
}

/// What a program prints is only ever added to: the output before a run
/// is a prefix of the output after it.
pub proof fn law_run_output_grows(s: VMState)
    ensures
        s.run() matches RunEnd::Returns(t, r) ==> t.out.len() >= s.out.len() && t.out.subrange(0, s.out.len() as int) == s.out,
{
    lemma_run_from(VMState { pc: 0, cycle: 0, ..s });
}

/// The code generator for `source` as it starts.
pub open spec fn new_parser(source: Seq<char>, src: bool) -> PState {
    PState {
        lex: initial_lex(source),
        syms: Seq::empty(),
        code: Seq::empty(),
        data: initial_data(),
        ty: Type::Int,
        locals: 0,
        src,
        ready: false,
    }
}

/// What compiling `source` gives: the generator is made, set up, and
/// parses the program.
pub open spec fn compile_result(source: Seq<char>, src: bool) -> Result<(Seq<i64>, Seq<u8>), Seq<char>> {
    parse(init_state(new_parser(source, src))).1
}

/// Whether running the compiled program stays within what the machine
/// can do: its data fits in memory and no instruction overflows or
/// leaves a segment.
pub open spec fn runs_cleanly(source: Seq<char>, src: bool, debug: bool) -> bool {
    match compile_result(source, src) {
        Ok((code, data)) => !src ==> data_len_ok(data.len() as int)
            && !(initial_vm(code, data, debug).run() is Aborts),
        Err(_) => true,
    }
}

/// What running `source` gives, where it runs cleanly: the parse error,
/// zero when only parsing, or what the machine returns.
pub open spec fn run_result(source: Seq<char>, src: bool, debug: bool, r: Result<i64, String>) -> bool {
    match compile_result(source, src) {
        Err(e) => r matches Err(m) && m@ == e,
        Ok((code, data)) => if src {
            r == Ok::<i64, String>(0)
        } else {
            initial_vm(code, data, debug).run() matches RunEnd::Returns(t, res) && same_result(r, res)
        },
    }
}

/// Compiles and runs `source`: parses it (stopping there if `src`), and
/// runs the code on a new machine.
pub fn run(source: &str, src: bool, debug: bool) -> (r: Result<i64, String>)
    requires
        source@.len() <= isize::MAX,
        runs_cleanly(source@, src, debug),
    ensures
        run_result(source@, src, debug, r),
{
    match run_checked(source, src, debug) {
        Some((r, _)) => r,
        None => Err(String::new()),
    }
}

/// Compiles and runs `source` as `run` does, and gives the text the
/// program printed too; `None` where the run would not stay within what
/// the machine can do.
pub fn run_checked(source: &str, src: bool, debug: bool) -> (r: Option<(Result<i64, String>, Vec<char>)>)
    requires
        source@.len() <= isize::MAX,
    ensures
        r is None <==> !runs_cleanly(source@, src, debug),
        r matches Some((res, out)) ==> run_result(source@, src, debug, res)
            && match compile_result(source@, src) {
                Ok((code, data)) => !src ==> (initial_vm(code, data, debug).run() matches RunEnd::Returns(t, _)
                    && out@ == t.out),
                Err(_) => out@ == Seq::<char>::empty(),
            },
{
    let mut parser = Parser::new(source, src);
    let _ = parser.init();
    let result = parser.parse();
    let (code, data) = match result {
        Ok(cd) => cd,
        Err(e) => return Some((Err(e), Vec::new())),
    };
    if src {
        return Some((Ok(0), Vec::new()));
    }
    if data.len() > isize::MAX as usize {
        return None;
    }
    let mut vm = VM::new(code, data, debug);
    match vm.run_checked() {
        Some(r) => {
            let out = vstd::slice::slice_to_vec(vm.output());
            Some((r, out))
        },
        None => None,
    }
}

} // verus!
