use vstd::prelude::*;
use crate::instructions as op;
use crate::parser::{digit_count, digits_at, line_at, line_end, matches_at, number, number_at};
use crate::chunk::Chunk;
use crate::registers::{ACC, REGISTER_COUNT, register_name, register_str};
use crate::variable::{Type, Var, VarView};

verus! {

/// An operand of assembler source.
#[derive(Debug, PartialEq, Eq)]
pub enum Param {
    /// A label or variable name.
    Flag(String),
    /// `*operand`: through a pointer.
    Ptr(Box<Param>),
    Lit(u16),
    /// `#address`.
    Mem(u16),
    Reg(u8),
}

/// Abstract value of an operand.
pub ghost enum ParamV {
    Flag(Seq<char>),
    Ptr(Box<ParamV>),
    Lit(u16),
    Mem(u16),
    Reg(u8),
}

pub open spec fn param_v(p: Param) -> ParamV
    decreases p,
{
    match p {
        Param::Flag(s) => ParamV::Flag(s@),
        Param::Ptr(b) => ParamV::Ptr(Box::new(param_v(*b))),
        Param::Lit(v) => ParamV::Lit(v),
        Param::Mem(v) => ParamV::Mem(v),
        Param::Reg(r) => ParamV::Reg(r),
    }
}

/// `s` in lower case, as `str::to_lowercase` gives it.
pub uninterp spec fn lower_of(s: Seq<char>) -> Seq<char>;

/// Relies on `str::to_lowercase`: the result depends on the characters alone.
#[verifier::external_body]
fn lowercase(s: &str) -> (r: String)
    ensures
        r@ == lower_of(s@),
{
    s.to_lowercase()
}

/// The number of `base` that fills `t` from `o` to its end, if it fits in 16 bits.
pub open spec fn whole_number(t: Seq<char>, o: int, base: nat) -> Option<u16> {
    let n = digits_at(t, o, base);
    if n > 0 && o + n == t.len() && number_at(t, o, n, base) <= 0xFFFF {
        Some(number_at(t, o, n, base) as u16)
    } else {
        None
    }
}

/// First register from the `id`-th on whose name is `t`, ignoring case.
pub open spec fn register_named_from(t: Seq<char>, id: int) -> Option<int>
    decreases 20 - id,
{
    if id < 0 || id >= 20 {
        None
    } else if t.len() == register_name(id).len() && matches_at(t, 0, register_name(id)) {
        Some(id)
    } else {
        register_named_from(t, id + 1)
    }
}

/// Operand written as the token `t`: `*` before an operand, a register name,
/// `#` before an address, a `0x`, `0b`, `0o` or decimal literal; anything
/// else names a label or a variable, in lower case.
pub open spec fn param_of(t: Seq<char>) -> ParamV
    decreases t.len(),
{
    if t.len() >= 1 && t[0] == '*' {
        ParamV::Ptr(Box::new(param_of(t.subrange(1, t.len() as int))))
    } else if t.len() < 2 {
        match whole_number(t, 0, 10) {
            Some(v) => ParamV::Lit(v),
            None => ParamV::Flag(lower_of(t)),
        }
    } else {
        match register_named_from(t, 0) {
            Some(id) => ParamV::Reg(id as u8),
            None => {
                let o: int = if t[0] == '#' { 1 } else { 0 };
                let v = if matches_at(t, o, "0x"@) {
                    whole_number(t, o + 2, 16)
                } else if matches_at(t, o, "0b"@) {
                    whole_number(t, o + 2, 2)
                } else if matches_at(t, o, "0o"@) {
                    whole_number(t, o + 2, 8)
                } else {
                    whole_number(t, o, 10)
                };
                match v {
                    Some(v) => if o == 1 { ParamV::Mem(v) } else { ParamV::Lit(v) },
                    None => ParamV::Flag(lower_of(t)),
                }
            },
        }
    }
}

/// Bytes an operand takes in the code.
pub open spec fn param_size(p: ParamV) -> nat
    decreases p,
{
    match p {
        ParamV::Reg(_) => 1,
        ParamV::Ptr(b) => param_size(*b),
        _ => 2,
    }
}

/// Why a source line holds no instruction.
#[derive(Debug, PartialEq, Eq, Clone, Copy)]
pub enum LineError {
    Empty,
    UnknownMnemonic,
    MissingOperand,
}

/// Why an instruction cannot be encoded.
#[derive(Debug, PartialEq, Eq)]
pub enum CodeError {
    UnresolvedLabel(String),
    UnknownVariable(String),
    /// No opcode takes operands of these kinds.
    BadOperands,
}

/// An instruction of assembler source.
#[derive(Debug, PartialEq, Eq)]
pub enum Ins {
    /// A label: `name:`.
    Flag(String),
    Mov(Param, Param),
    Add(Param, Param),
    Inc(Param),
    Dec(Param),
    Jmp(Param),
    /// `jne value target`: jump to `target` when `ACC` differs from `value`.
    Jne(Param, Param),
    Psh(Param),
    Pop(Param),
    Cal(Param),
    Ret,
    Xor(Param, Param),
    End,
}

/// Abstract value of an instruction.
pub ghost enum InsV {
    Flag(Seq<char>),
    Mov(ParamV, ParamV),
    Add(ParamV, ParamV),
    Inc(ParamV),
    Dec(ParamV),
    Jmp(ParamV),
    Jne(ParamV, ParamV),
    Psh(ParamV),
    Pop(ParamV),
    Cal(ParamV),
    Ret,
    Xor(ParamV, ParamV),
    End,
}

pub open spec fn ins_v(i: Ins) -> InsV {
    match i {
        Ins::Flag(s) => InsV::Flag(s@),
        Ins::Mov(a, b) => InsV::Mov(param_v(a), param_v(b)),
        Ins::Add(a, b) => InsV::Add(param_v(a), param_v(b)),
        Ins::Inc(a) => InsV::Inc(param_v(a)),
        Ins::Dec(a) => InsV::Dec(param_v(a)),
        Ins::Jmp(a) => InsV::Jmp(param_v(a)),
        Ins::Jne(a, b) => InsV::Jne(param_v(a), param_v(b)),
        Ins::Psh(a) => InsV::Psh(param_v(a)),
        Ins::Pop(a) => InsV::Pop(param_v(a)),
        Ins::Cal(a) => InsV::Cal(param_v(a)),
        Ins::Ret => InsV::Ret,
        Ins::Xor(a, b) => InsV::Xor(param_v(a), param_v(b)),
        Ins::End => InsV::End,
    }
}

/// Mnemonic number `k` of the assembler.
pub open spec fn asm_mnemonic(k: int) -> Seq<char> {
    if k == 0 { "mov"@ }
    else if k == 1 { "add"@ }
    else if k == 2 { "inc"@ }
    else if k == 3 { "dec"@ }
    else if k == 4 { "jmp"@ }
    else if k == 5 { "jne"@ }
    else if k == 6 { "psh"@ }
    else if k == 7 { "pop"@ }
    else if k == 8 { "cal"@ }
    else if k == 9 { "ret"@ }
    else if k == 10 { "xor"@ }
    else { "end"@ }
}

/// Number of operands mnemonic `k` takes.
pub open spec fn arity(k: int) -> nat {
    if k == 0 || k == 1 || k == 5 || k == 10 { 2 } else if k == 9 || k == 11 { 0 } else { 1 }
}

/// First mnemonic from the `k`-th on that is the word `w`, ignoring case.
pub open spec fn asm_mnemonic_from(w: Seq<char>, k: int) -> Option<int>
    decreases 12 - k,
{
    if k < 0 || k >= 12 {
        None
    } else if w.len() == asm_mnemonic(k).len() && matches_at(w, 0, asm_mnemonic(k)) {
        Some(k)
    } else {
        asm_mnemonic_from(w, k + 1)
    }
}

pub open spec fn make_ins(k: int, a: ParamV, b: ParamV) -> InsV {
    if k == 0 { InsV::Mov(a, b) }
    else if k == 1 { InsV::Add(a, b) }
    else if k == 2 { InsV::Inc(a) }
    else if k == 3 { InsV::Dec(a) }
    else if k == 4 { InsV::Jmp(a) }
    else if k == 5 { InsV::Jne(a, b) }
    else if k == 6 { InsV::Psh(a) }
    else if k == 7 { InsV::Pop(a) }
    else if k == 8 { InsV::Cal(a) }
    else if k == 9 { InsV::Ret }
    else if k == 10 { InsV::Xor(a, b) }
    else { InsV::End }
}

/// ASCII whitespace.
pub open spec fn is_ws(c: char) -> bool {
    c == ' ' || c == '\t' || c == '\n' || c == '\r' || c == '\x0B' || c == '\x0C'
}

pub open spec fn skip_ws(s: Seq<char>, i: int) -> int
    decreases s.len() - i,
{
    if 0 <= i < s.len() && is_ws(s[i]) { skip_ws(s, i + 1) } else { i }
}

pub open spec fn word_end(s: Seq<char>, i: int) -> int
    decreases s.len() - i,
{
    if 0 <= i < s.len() && !is_ws(s[i]) { word_end(s, i + 1) } else { i }
}

/// The next whitespace-separated word from `i` on: its start and end.
pub open spec fn token_at(s: Seq<char>, i: int) -> Option<(int, int)> {
    let j = skip_ws(s, i);
    if 0 <= j < s.len() { Some((j, word_end(s, j))) } else { None }
}

/// Instruction on a source line: a mnemonic and its operands, separated
/// by whitespace (words past them are ignored), or `name:` for a label.
pub open spec fn ins_of_line(s: Seq<char>) -> Result<InsV, LineError> {
    match token_at(s, 0) {
        None => Err(LineError::Empty),
        Some((a, b)) => {
            let w = s.subrange(a, b);
            match asm_mnemonic_from(w, 0) {
                None => if w.len() > 0 && w.last() == ':' {
                    Ok(InsV::Flag(lower_of(w.drop_last())))
                } else {
                    Err(LineError::UnknownMnemonic)
                },
                Some(k) => if arity(k) == 0 {
                    Ok(make_ins(k, ParamV::Lit(0), ParamV::Lit(0)))
                } else {
                    match token_at(s, b) {
                        None => Err(LineError::MissingOperand),
                        Some((a1, b1)) => {
                            let p1 = param_of(s.subrange(a1, b1));
                            if arity(k) == 1 {
                                Ok(make_ins(k, p1, p1))
                            } else {
                                match token_at(s, b1) {
                                    None => Err(LineError::MissingOperand),
                                    Some((a2, b2)) => Ok(make_ins(k, p1, param_of(s.subrange(a2, b2)))),
                                }
                            }
                        },
                    }
                },
            }
        },
    }
}

/// Bytes the instruction takes in the code.
pub open spec fn code_len(i: InsV) -> nat {
    match i {
        InsV::Flag(_) => 0,
        InsV::Jne(_, _) => 7,
        InsV::Ret | InsV::End => 1,
        InsV::Mov(a, b) | InsV::Add(a, b) | InsV::Xor(a, b) => 1 + param_size(a) + param_size(b),
        InsV::Inc(a) | InsV::Dec(a) | InsV::Jmp(a) | InsV::Psh(a) | InsV::Pop(a) | InsV::Cal(a) => 1 + param_size(a),
    }
}

/// A table of names, as views.
pub open spec fn table_v(t: Seq<(String, u16)>) -> Seq<(Seq<char>, u16)> {
    t.map_values(|e: (String, u16)| (e.0@, e.1))
}

/// Value of the first entry of `t` from the `i`-th on called `name`.
pub open spec fn lookup_from(t: Seq<(Seq<char>, u16)>, name: Seq<char>, i: int) -> Option<u16>
    decreases t.len() - i,
{
    if i < 0 || i >= t.len() {
        None
    } else if t[i].0 == name {
        Some(t[i].1)
    } else {
        lookup_from(t, name, i + 1)
    }
}

pub open spec fn lookup(t: Seq<(Seq<char>, u16)>, name: Seq<char>) -> Option<u16> {
    lookup_from(t, name, 0)
}

/// Big-endian bytes of a word.
pub open spec fn w16(v: u16) -> Seq<u8> {
    seq![(v / 256) as u8, (v % 256) as u8]
}

/// Address of variable `name`: its offset in the data after the code at `base`.
pub open spec fn var_address(vars: Seq<(Seq<char>, u16)>, name: Seq<char>, base: u16) -> Option<u16> {
    match lookup(vars, name) {
        Some(o) => Some(((base + o) % 0x1_0000) as u16),
        None => None,
    }
}

/// Why an instruction cannot be encoded, as views.
pub ghost enum CodeErrV {
    UnresolvedLabel(Seq<char>),
    UnknownVariable(Seq<char>),
    BadOperands,
}

pub open spec fn code_err_v(e: CodeError) -> CodeErrV {
    match e {
        CodeError::UnresolvedLabel(n) => CodeErrV::UnresolvedLabel(n@),
        CodeError::UnknownVariable(n) => CodeErrV::UnknownVariable(n@),
        CodeError::BadOperands => CodeErrV::BadOperands,
    }
}

/// Bytecode of instruction `i`: labels resolve through `labels`, variables
/// to `base` plus their offset in `vars`.
pub open spec fn encode(i: InsV, labels: Seq<(Seq<char>, u16)>, vars: Seq<(Seq<char>, u16)>, base: u16) -> Result<Seq<u8>, CodeErrV> {
    match i {
        InsV::Flag(_) => Ok(Seq::empty()),
        InsV::Ret => Ok(seq![op::RET]),
        InsV::End => Ok(seq![op::END]),
        InsV::Mov(ParamV::Lit(l), ParamV::Reg(r)) => Ok(seq![op::MOV_LIT_REG] + w16(l) + seq![r]),
        InsV::Mov(ParamV::Lit(l), ParamV::Mem(m)) => Ok(seq![op::MOV_LIT_MEM16] + w16(l) + w16(m)),
        InsV::Mov(ParamV::Lit(l), ParamV::Ptr(b)) => match *b {
            ParamV::Flag(f) => match var_address(vars, f, base) {
                Some(a) => Ok(seq![op::MOV_LIT_MEM16] + w16(l) + w16(a)),
                None => Err(CodeErrV::UnknownVariable(f)),
            },
            _ => Err(CodeErrV::BadOperands),
        },
        InsV::Mov(ParamV::Reg(a), ParamV::Reg(b)) => Ok(seq![op::MOV_REG_REG, a, b]),
        InsV::Mov(ParamV::Reg(r), ParamV::Mem(m)) => Ok(seq![op::MOV_REG_MEM, r] + w16(m)),
        InsV::Mov(ParamV::Mem(m), ParamV::Reg(r)) => Ok(seq![op::MOV_MEM_REG] + w16(m) + seq![r]),
        InsV::Mov(ParamV::Flag(f), ParamV::Reg(r)) => match var_address(vars, f, base) {
            Some(a) => Ok(seq![op::MOV_LIT_REG] + w16(a) + seq![r]),
            None => Err(CodeErrV::UnknownVariable(f)),
        },
        InsV::Mov(ParamV::Ptr(b), ParamV::Reg(r)) => match *b {
            ParamV::Reg(a) => Ok(seq![op::MOV_PTRREG_REG, a, r]),
            ParamV::Flag(f) => match var_address(vars, f, base) {
                Some(a) => Ok(seq![op::MOV_MEM_REG] + w16(a) + seq![r]),
                None => Err(CodeErrV::UnknownVariable(f)),
            },
            _ => Err(CodeErrV::BadOperands),
        },
        InsV::Mov(ParamV::Reg(a), ParamV::Ptr(b)) => match *b {
            ParamV::Reg(r) => Ok(seq![op::MOV_REG_PTRREG, a, r]),
            _ => Err(CodeErrV::BadOperands),
        },
        InsV::Add(ParamV::Reg(a), ParamV::Reg(b)) => Ok(seq![op::ADD_REG_REG, a, b]),
        InsV::Add(ParamV::Reg(r), ParamV::Lit(l)) => Ok(seq![op::ADD_REG_LIT, r] + w16(l)),
        InsV::Inc(ParamV::Reg(r)) => Ok(seq![op::INC_REG, r]),
        InsV::Dec(ParamV::Reg(r)) => Ok(seq![op::DEC_REG, r]),
        InsV::Jmp(ParamV::Lit(a)) => Ok(seq![op::JMP_LIT] + w16(a)),
        InsV::Jmp(ParamV::Flag(f)) => match lookup(labels, f) {
            Some(a) => Ok(seq![op::JMP_LIT] + w16(a)),
            None => Err(CodeErrV::UnresolvedLabel(f)),
        },
        InsV::Jne(ParamV::Lit(l), ParamV::Lit(a)) => Ok(seq![op::CMP_REG_LIT, ACC] + w16(l) + seq![op::JNE_LIT] + w16(a)),
        InsV::Jne(ParamV::Lit(l), ParamV::Flag(f)) => match lookup(labels, f) {
            Some(a) => Ok(seq![op::CMP_REG_LIT, ACC] + w16(l) + seq![op::JNE_LIT] + w16(a)),
            None => Err(CodeErrV::UnresolvedLabel(f)),
        },
        InsV::Psh(ParamV::Lit(l)) => Ok(seq![op::PSH_LIT] + w16(l)),
        InsV::Psh(ParamV::Reg(r)) => Ok(seq![op::PSH_REG, r]),
        InsV::Psh(ParamV::Mem(m)) => Ok(seq![op::PSH_MEM16] + w16(m)),
        InsV::Psh(ParamV::Ptr(b)) => match *b {
            ParamV::Reg(r) => Ok(seq![op::PSH_PTRREG16, r]),
            _ => Err(CodeErrV::BadOperands),
        },
        InsV::Pop(ParamV::Reg(r)) => Ok(seq![op::POP_REG, r]),
        InsV::Pop(ParamV::Ptr(b)) => match *b {
            ParamV::Reg(r) => Ok(seq![op::POP_PTRREG16, r]),
            _ => Err(CodeErrV::BadOperands),
        },
        InsV::Cal(ParamV::Lit(a)) => Ok(seq![op::CALL_LIT] + w16(a)),
        InsV::Cal(ParamV::Reg(r)) => Ok(seq![op::CALL_REG, r]),
        InsV::Cal(ParamV::Flag(f)) => match lookup(labels, f) {
            Some(a) => Ok(seq![op::CALL_LIT] + w16(a)),
            None => Err(CodeErrV::UnresolvedLabel(f)),
        },
        InsV::Xor(ParamV::Reg(a), ParamV::Reg(b)) => Ok(seq![op::XOR_REG_REG, a, b]),
        InsV::Xor(ParamV::Reg(r), ParamV::Lit(l)) => Ok(seq![op::XOR_REG_LIT, r] + w16(l)),
        _ => Err(CodeErrV::BadOperands),
    }
}

fn ws(c: char) -> (b: bool)
    ensures
        b == is_ws(c),
{
    c == ' ' || c == '\t' || c == '\n' || c == '\r' || c == '\x0B' || c == '\x0C'
}

/// The next word from `i` on.
fn next_token(s: &str, n: usize, i: usize) -> (r: Option<(usize, usize)>)
    requires
        n == s@.len(),
        i <= n,
    ensures
        match token_at(s@, i as int) {
            Some((a, b)) => r == Some((a as usize, b as usize)) && i <= a < b <= n,
            None => r is None,
        },
{
    let mut j = i;
    while j < n && ws(s.get_char(j))
        invariant
            n == s@.len(),
            i <= j <= n,
            skip_ws(s@, i as int) == skip_ws(s@, j as int),
        decreases n - j,
    {
        j += 1;
    }
    if j >= n {
        return None;
    }
    let mut k = j;
    while k < n && !ws(s.get_char(k))
        invariant
            n == s@.len(),
            j <= k <= n,
            word_end(s@, j as int) == word_end(s@, k as int),
        decreases n - k,
    {
        k += 1;
    }
    Some((j, k))
}

fn asm_mnemonic_str(k: usize) -> (w: &'static str)
    requires
        k < 12,
    ensures
        w@ == asm_mnemonic(k as int),
{
    match k {
        0 => "mov",
        1 => "add",
        2 => "inc",
        3 => "dec",
        4 => "jmp",
        5 => "jne",
        6 => "psh",
        7 => "pop",
        8 => "cal",
        9 => "ret",
        10 => "xor",
        _ => "end",
    }
}

/// Table entry value for `name`.
fn lookup_exec(t: &Vec<(String, u16)>, name: &String) -> (r: Option<u16>)
    ensures
        r == lookup(table_v(t@), name@),
{
    let mut i: usize = 0;
    while i < t.len()
        invariant
            i <= t@.len(),
            table_v(t@).len() == t@.len(),
            lookup(table_v(t@), name@) == lookup_from(table_v(t@), name@, i as int),
        decreases t@.len() - i,
    {
        assert(table_v(t@)[i as int] == (t@[i as int].0@, t@[i as int].1));
        if crate::registers::str_eq(t[i].0.as_str(), name.as_str()) {
            return Some(t[i].1);
        }
        i += 1;
    }
    None
}

fn var_address_exec(vars: &Vec<(String, u16)>, name: &String, base: u16) -> (r: Option<u16>)
    ensures
        r == var_address(table_v(vars@), name@, base),
{
    match lookup_exec(vars, name) {
        Some(o) => Some(((base as u32 + o as u32) % 0x1_0000) as u16),
        None => None,
    }
}

fn push_w16(v: &mut Vec<u8>, w: u16)
    ensures
        final(v)@ == old(v)@ + w16(w),
{
    v.push((w / 256) as u8);
    v.push((w % 256) as u8);
    assert(final(v)@ =~= old(v)@ + w16(w));
}

/// `[o]`.
fn c_one(o: u8) -> (v: Vec<u8>)
    ensures
        v@ == seq![o],
{
    let mut v = Vec::new();
    v.push(o);
    assert(v@ =~= seq![o]);
    v
}

/// `[o] + w16(w)`.
fn c_w(o: u8, w: u16) -> (v: Vec<u8>)
    ensures
        v@ == seq![o] + w16(w),
{
    let mut v = Vec::new();
    v.push(o);
    push_w16(&mut v, w);
    v
}

/// `[o, a]`, then `[b]` if any.
fn c_rr(o: u8, a: u8, b: Option<u8>) -> (v: Vec<u8>)
    ensures
        v@ == match b { Some(b) => seq![o, a, b], None => seq![o, a] },
{
    let mut v = Vec::new();
    v.push(o);
    v.push(a);
    if let Some(b) = b {
        v.push(b);
    }
    assert(v@ =~= match b { Some(b) => seq![o, a, b], None => seq![o, a] });
    v
}

/// `[o] + w16(w) + [r]`.
fn c_wr(o: u8, w: u16, r: u8) -> (v: Vec<u8>)
    ensures
        v@ == seq![o] + w16(w) + seq![r],
{
    let mut v = c_w(o, w);
    v.push(r);
    v
}

/// `[o, r] + w16(w)`.
fn c_rw(o: u8, r: u8, w: u16) -> (v: Vec<u8>)
    ensures
        v@ == seq![o, r] + w16(w),
{
    let mut v = c_rr(o, r, None);
    push_w16(&mut v, w);
    v
}

/// `[o] + w16(a) + w16(b)`.
fn c_ww(o: u8, a: u16, b: u16) -> (v: Vec<u8>)
    ensures
        v@ == seq![o] + w16(a) + w16(b),
{
    let mut v = c_w(o, a);
    push_w16(&mut v, b);
    v
}

/// Compare `ACC` with `l`, then jump to `a` when they differ.
fn c_jne(l: u16, a: u16) -> (v: Vec<u8>)
    ensures
        v@ == seq![op::CMP_REG_LIT, ACC] + w16(l) + seq![op::JNE_LIT] + w16(a),
{
    let mut v = c_rw(op::CMP_REG_LIT, ACC, l);
    v.push(op::JNE_LIT);
    push_w16(&mut v, a);
    v
}

/// The mnemonic that is the word `w`.
fn find_asm_mnemonic(w: &str, wl: usize) -> (r: Option<usize>)
    requires
        wl == w@.len(),
    ensures
        r matches Some(k) ==> asm_mnemonic_from(w@, 0) == Some(k as int) && k < 12,
        r is None <==> asm_mnemonic_from(w@, 0) is None,
{
    let mut k: usize = 0;
    while k < 12
        invariant
            wl == w@.len(),
            k <= 12,
            asm_mnemonic_from(w@, 0) == asm_mnemonic_from(w@, k as int),
        decreases 12 - k,
    {
        let m = asm_mnemonic_str(k);
        if m.unicode_len() == wl && crate::parser::matches(w, wl, 0, m) {
            return Some(k);
        }
        k += 1;
    }
    None
}

/// The view of a pointer operand is a pointer to the view of its operand.
proof fn lemma_param_v_ptr(p: Param)
    ensures
        p matches Param::Ptr(b) ==> param_v(p) == ParamV::Ptr(Box::new(param_v(*b))),
{
}

/// The view of a pushed or popped pointer operand.
proof fn lemma_ins_ptr(i: Ins)
    ensures
        i matches Ins::Psh(Param::Ptr(b)) ==> ins_v(i) == InsV::Psh(ParamV::Ptr(Box::new(param_v(*b)))),
        i matches Ins::Pop(Param::Ptr(b)) ==> ins_v(i) == InsV::Pop(ParamV::Ptr(Box::new(param_v(*b)))),
{
}

/// Encoded instructions take the bytes `code_len` counts.
proof fn lemma_encode_len(i: InsV, labels: Seq<(Seq<char>, u16)>, vars: Seq<(Seq<char>, u16)>, base: u16)
    ensures
        encode(i, labels, vars, base) matches Ok(b) ==> b.len() == code_len(i),
{
    match i {
        InsV::Mov(ParamV::Lit(_), ParamV::Ptr(b)) | InsV::Mov(ParamV::Ptr(b), ParamV::Reg(_))
        | InsV::Mov(ParamV::Reg(_), ParamV::Ptr(b)) | InsV::Psh(ParamV::Ptr(b))
        | InsV::Pop(ParamV::Ptr(b)) => {
            lemma_param_size_small(*b);
        },
        _ => {},
    }
}

/// An operand takes at most two bytes.
proof fn lemma_param_size_small(p: ParamV)
    ensures
        1 <= param_size(p) <= 2,
    decreases p,
{
    if let ParamV::Ptr(b) = p {
        lemma_param_size_small(*b);
    }
}

/// Bytecode of `mov a b`.
#[verifier::rlimit(100)]
#[verifier::spinoff_prover]
fn code_mov(pa: &Param, pb: &Param, vars: &Vec<(String, u16)>, data_base: u16) -> (r: Result<Vec<u8>, CodeError>)
    ensures
        match encode(InsV::Mov(param_v(*pa), param_v(*pb)), Seq::empty(), table_v(vars@), data_base) {
            Ok(b) => r matches Ok(v) && v@ == b,
            Err(ev) => r matches Err(e) && code_err_v(e) == ev,
        },
{
    proof {
        lemma_param_v_ptr(*pa);
        lemma_param_v_ptr(*pb);
    }
    match (pa, pb) {
        (Param::Lit(l), Param::Reg(r)) => Ok(c_wr(op::MOV_LIT_REG, *l, *r)),
        (Param::Lit(l), Param::Mem(m)) => Ok(c_ww(op::MOV_LIT_MEM16, *l, *m)),
        (Param::Lit(l), Param::Ptr(b)) => match &**b {
                Param::Flag(f) => match var_address_exec(vars, f, data_base) {
                    Some(a) => Ok(c_ww(op::MOV_LIT_MEM16, *l, a)),
                    None => Err(CodeError::UnknownVariable(f.clone())),
                },
                _ => Err(CodeError::BadOperands),
            },
        (Param::Reg(a), Param::Reg(b)) => Ok(c_rr(op::MOV_REG_REG, *a, Some(*b))),
        (Param::Reg(r), Param::Mem(m)) => Ok(c_rw(op::MOV_REG_MEM, *r, *m)),
        (Param::Mem(m), Param::Reg(r)) => Ok(c_wr(op::MOV_MEM_REG, *m, *r)),
        (Param::Flag(f), Param::Reg(r)) => match var_address_exec(vars, f, data_base) {
                Some(a) => Ok(c_wr(op::MOV_LIT_REG, a, *r)),
                None => Err(CodeError::UnknownVariable(f.clone())),
            },
        (Param::Ptr(b), Param::Reg(r)) => match &**b {
                Param::Reg(a) => Ok(c_rr(op::MOV_PTRREG_REG, *a, Some(*r))),
                Param::Flag(f) => match var_address_exec(vars, f, data_base) {
                    Some(a) => Ok(c_wr(op::MOV_MEM_REG, a, *r)),
                    None => Err(CodeError::UnknownVariable(f.clone())),
                },
                _ => Err(CodeError::BadOperands),
            },
        (Param::Reg(a), Param::Ptr(b)) => match &**b {
                Param::Reg(r) => Ok(c_rr(op::MOV_REG_PTRREG, *a, Some(*r))),
                _ => Err(CodeError::BadOperands),
            },
        _ => Err(CodeError::BadOperands),
    }
}

impl Ins {
    /// Reads one source line.
    pub fn build_with_line(line: &str) -> (r: Result<Ins, LineError>)
        ensures
            match ins_of_line(line@) {
                Ok(i) => r matches Ok(ins) && ins_v(ins) == i,
                Err(e) => r == Err::<Ins, LineError>(e),
            },
    {
        let n = line.unicode_len();
        let (a, b) = match next_token(line, n, 0) {
            Some(t) => t,
            None => return Err(LineError::Empty),
        };
        let word = line.substring_char(a, b);
        let wl = b - a;
        let k = match find_asm_mnemonic(word, wl) {
            Some(k) => k,
            None => {
                if wl > 0 && word.get_char(wl - 1) == ':' {
                    let bare = word.substring_char(0, wl - 1);
                    proof {
                        assert(bare@ =~= word@.drop_last());
                    }
                    let name = lowercase(bare);
                    return Ok(Ins::Flag(name));
                }
                return Err(LineError::UnknownMnemonic);
            },
        };
        assert(asm_mnemonic_from(word@, 0) == Some(k as int));
        if k == 9 {
            return Ok(Ins::Ret);
        }
        if k == 11 {
            return Ok(Ins::End);
        }
        let (a1, b1) = match next_token(line, n, b) {
            Some(t) => t,
            None => return Err(LineError::MissingOperand),
        };
        let p1 = Param::build_with_value(line.substring_char(a1, b1));
        if k != 0 && k != 1 && k != 5 && k != 10 {
            return Ok(
                if k == 2 { Ins::Inc(p1) }
                else if k == 3 { Ins::Dec(p1) }
                else if k == 4 { Ins::Jmp(p1) }
                else if k == 6 { Ins::Psh(p1) }
                else if k == 7 { Ins::Pop(p1) }
                else { Ins::Cal(p1) },
            );
        }
        let (a2, b2) = match next_token(line, n, b1) {
            Some(t) => t,
            None => return Err(LineError::MissingOperand),
        };
        let p2 = Param::build_with_value(line.substring_char(a2, b2));
        Ok(
            if k == 0 { Ins::Mov(p1, p2) }
            else if k == 1 { Ins::Add(p1, p2) }
            else if k == 5 { Ins::Jne(p1, p2) }
            else { Ins::Xor(p1, p2) },
        )
    }

    /// Bytes the instruction takes in the code.
    pub fn ins_len(&self) -> (n: usize)
        ensures
            n == code_len(ins_v(*self)),
    {
        match self {
            Ins::Flag(_) => 0,
            Ins::Jne(_, _) => 7,
            Ins::Ret | Ins::End => 1,
            Ins::Mov(a, b) | Ins::Add(a, b) | Ins::Xor(a, b) => {
                proof {
                    lemma_param_size_small(param_v(*a));
                    lemma_param_size_small(param_v(*b));
                }
                1 + a.param_len() + b.param_len()
            },
            Ins::Inc(a) | Ins::Dec(a) | Ins::Jmp(a) | Ins::Psh(a) | Ins::Pop(a) | Ins::Cal(a) => {
                proof {
                    lemma_param_size_small(param_v(*a));
                }
                1 + a.param_len()
            },
        }
    }

    /// Bytecode of the instruction. Labels resolve through `labels`,
    /// variables to `data_base` plus their offset in `vars`.
    pub fn get_code(&self, labels: &Vec<(String, u16)>, vars: &Vec<(String, u16)>, data_base: u16) -> (r: Result<Vec<u8>, CodeError>)
        ensures
            match encode(ins_v(*self), table_v(labels@), table_v(vars@), data_base) {
                Ok(b) => r matches Ok(v) && v@ == b,
                Err(ev) => r matches Err(e) && code_err_v(e) == ev,
            },
            r matches Ok(v) ==> v@.len() == code_len(ins_v(*self)),
    {
        proof {
            lemma_ins_ptr(*self);
            lemma_encode_len(ins_v(*self), table_v(labels@), table_v(vars@), data_base);
        }
        match self {
            Ins::Flag(_) => Ok(Vec::new()),
            Ins::Ret => Ok(c_one(op::RET)),
            Ins::End => Ok(c_one(op::END)),
            Ins::Mov(a, b) => code_mov(a, b, vars, data_base),
            Ins::Add(Param::Reg(a), Param::Reg(b)) => Ok(c_rr(op::ADD_REG_REG, *a, Some(*b))),
            Ins::Add(Param::Reg(r), Param::Lit(l)) => Ok(c_rw(op::ADD_REG_LIT, *r, *l)),
            Ins::Inc(Param::Reg(r)) => Ok(c_rr(op::INC_REG, *r, None)),
            Ins::Dec(Param::Reg(r)) => Ok(c_rr(op::DEC_REG, *r, None)),
            Ins::Jmp(Param::Lit(a)) => Ok(c_w(op::JMP_LIT, *a)),
            Ins::Jmp(Param::Flag(f)) => match lookup_exec(labels, f) {
                Some(a) => Ok(c_w(op::JMP_LIT, a)),
                None => Err(CodeError::UnresolvedLabel(f.clone())),
            },
            Ins::Jne(Param::Lit(l), Param::Lit(a)) => Ok(c_jne(*l, *a)),
            Ins::Jne(Param::Lit(l), Param::Flag(f)) => match lookup_exec(labels, f) {
                Some(a) => Ok(c_jne(*l, a)),
                None => Err(CodeError::UnresolvedLabel(f.clone())),
            },
            Ins::Psh(Param::Lit(l)) => Ok(c_w(op::PSH_LIT, *l)),
            Ins::Psh(Param::Reg(r)) => Ok(c_rr(op::PSH_REG, *r, None)),
            Ins::Psh(Param::Mem(m)) => Ok(c_w(op::PSH_MEM16, *m)),
            Ins::Psh(Param::Ptr(b)) => match &**b {
                Param::Reg(r) => Ok(c_rr(op::PSH_PTRREG16, *r, None)),
                _ => Err(CodeError::BadOperands),
            },
            Ins::Pop(Param::Reg(r)) => Ok(c_rr(op::POP_REG, *r, None)),
            Ins::Pop(Param::Ptr(b)) => match &**b {
                Param::Reg(r) => Ok(c_rr(op::POP_PTRREG16, *r, None)),
                _ => Err(CodeError::BadOperands),
            },
            Ins::Cal(Param::Lit(a)) => Ok(c_w(op::CALL_LIT, *a)),
            Ins::Cal(Param::Reg(r)) => Ok(c_rr(op::CALL_REG, *r, None)),
            Ins::Cal(Param::Flag(f)) => match lookup_exec(labels, f) {
                Some(a) => Ok(c_w(op::CALL_LIT, a)),
                None => Err(CodeError::UnresolvedLabel(f.clone())),
            },
            Ins::Xor(Param::Reg(a), Param::Reg(b)) => Ok(c_rr(op::XOR_REG_REG, *a, Some(*b))),
            Ins::Xor(Param::Reg(r), Param::Lit(l)) => Ok(c_rw(op::XOR_REG_LIT, *r, *l)),
            _ => Err(CodeError::BadOperands),
        }
    }
}

/// Why a program cannot be assembled.
#[derive(Debug, PartialEq, Eq)]
pub enum AsmError {
    MissingStart,
    DuplicateLabel(String, usize),
    UnknownMnemonic(usize),
    UnknownType(usize),
    UnresolvedLabel(String),
    UnknownVariable(String),
    ParseError(usize),
    UnknownSection(String),
}

/// Instructions of source lines `ls[..k]`, each with its line number;
/// `None` when one of them holds no instruction.
pub open spec fn build_lines(ls: Seq<(usize, Seq<char>)>, k: nat) -> Option<Seq<(InsV, usize)>>
    decreases k,
{
    if k == 0 || k > ls.len() {
        if k == 0 { Some(Seq::empty()) } else { None }
    } else {
        match build_lines(ls, (k - 1) as nat) {
            Some(prev) => match ins_of_line(ls[k - 1].1) {
                Ok(i) => Some(prev.push((i, ls[k - 1].0))),
                Err(_) => None,
            },
            None => None,
        }
    }
}

/// First command from the `k`-th on that is the label `start`.
pub open spec fn start_from(cs: Seq<(InsV, usize)>, k: int) -> Option<int>
    decreases cs.len() - k,
{
    if k < 0 || k >= cs.len() {
        None
    } else if cs[k].0 == InsV::Flag("start"@) {
        Some(k)
    } else {
        start_from(cs, k + 1)
    }
}

/// Command number `k` counted from `st`, wrapping past the end.
pub open spec fn rotated(cs: Seq<(InsV, usize)>, st: int, k: int) -> InsV {
    if st + k < cs.len() { cs[st + k].0 } else { cs[st + k - cs.len()].0 }
}

/// Labels of the first `k` rotated commands with their addresses (the
/// bytes of the commands before them), and the bytes of those commands;
/// `None` when a label comes twice.
pub open spec fn labels_upto(cs: Seq<(InsV, usize)>, st: int, k: nat) -> Option<(Seq<(Seq<char>, u16)>, nat)>
    decreases k,
{
    if k == 0 {
        Some((Seq::empty(), 0))
    } else {
        match labels_upto(cs, st, (k - 1) as nat) {
            None => None,
            Some((t, p)) => {
                let c = rotated(cs, st, k - 1);
                match c {
                    InsV::Flag(f) => if lookup(t, f) is Some {
                        None
                    } else {
                        Some((t.push((f, (p % 0x1_0000) as u16)), p))
                    },
                    _ => Some((t, p + code_len(c))),
                }
            },
        }
    }
}

/// Bytecode of the first `k` rotated commands.
pub open spec fn code_upto(cs: Seq<(InsV, usize)>, st: int, labels: Seq<(Seq<char>, u16)>, vars: Seq<(Seq<char>, u16)>, base: u16, k: nat) -> Option<Seq<u8>>
    decreases k,
{
    if k == 0 {
        Some(Seq::empty())
    } else {
        match code_upto(cs, st, labels, vars, base, (k - 1) as nat) {
            None => None,
            Some(b) => match encode(rotated(cs, st, k - 1), labels, vars, base) {
                Ok(c) => Some(b + c),
                Err(_) => None,
            },
        }
    }
}

/// Bytes of the first `k` commands, in source order.
pub open spec fn total_len(cs: Seq<(InsV, usize)>, k: nat) -> nat
    decreases k,
{
    if k == 0 || k > cs.len() { 0 } else { total_len(cs, (k - 1) as nat) + code_len(cs[k - 1].0) }
}

pub open spec fn cmds_v(cs: Seq<(Ins, usize)>) -> Seq<(InsV, usize)> {
    cs.map_values(|c: (Ins, usize)| (ins_v(c.0), c.1))
}

pub open spec fn lines_v(ls: Seq<(usize, String)>) -> Seq<(usize, Seq<char>)> {
    ls.map_values(|l: (usize, String)| (l.0, l.1@))
}

/// The code section, read: its commands with their line numbers, where
/// `start` is, and the address of each label.
pub struct CodeParser {
    start_address: usize,
    cmds: Vec<(Ins, usize)>,
    jumps_pts: Vec<(String, u16)>,
}

/// The data section, read: its variables in declaration order, each at
/// its offset from the start of the data.
pub struct DataParser {
    vars: Vec<(String, Var)>,
}

/// Why a program cannot be assembled, as views.
pub ghost enum AsmErrV {
    MissingStart,
    DuplicateLabel(Seq<char>, usize),
    UnknownMnemonic(usize),
    UnknownType(usize),
    UnresolvedLabel(Seq<char>),
    UnknownVariable(Seq<char>),
    ParseError(usize),
    UnknownSection(Seq<char>),
}

pub open spec fn asm_view(e: AsmError) -> AsmErrV {
    match e {
        AsmError::MissingStart => AsmErrV::MissingStart,
        AsmError::DuplicateLabel(n, l) => AsmErrV::DuplicateLabel(n@, l),
        AsmError::UnknownMnemonic(l) => AsmErrV::UnknownMnemonic(l),
        AsmError::UnknownType(l) => AsmErrV::UnknownType(l),
        AsmError::UnresolvedLabel(n) => AsmErrV::UnresolvedLabel(n@),
        AsmError::UnknownVariable(n) => AsmErrV::UnknownVariable(n@),
        AsmError::ParseError(l) => AsmErrV::ParseError(l),
        AsmError::UnknownSection(n) => AsmErrV::UnknownSection(n@),
    }
}

/// Line number of command `k` counted from `st`.
pub open spec fn rotated_line(cs: Seq<(InsV, usize)>, st: int, k: int) -> usize {
    if st + k < cs.len() { cs[st + k].1 } else { cs[st + k - cs.len()].1 }
}

/// The error of the first of lines `ls[..k]` that holds no instruction: an
/// unknown word gives `UnknownMnemonic`, an empty line or a missing operand
/// `ParseError`, with the line's number.
pub open spec fn build_error(ls: Seq<(usize, Seq<char>)>, k: nat) -> AsmErrV
    decreases k,
{
    if k == 0 || k > ls.len() {
        AsmErrV::ParseError(0)
    } else if build_lines(ls, (k - 1) as nat) is None {
        build_error(ls, (k - 1) as nat)
    } else {
        match ins_of_line(ls[k - 1].1) {
            Err(LineError::UnknownMnemonic) => AsmErrV::UnknownMnemonic(ls[k - 1].0),
            _ => AsmErrV::ParseError(ls[k - 1].0),
        }
    }
}

/// The first label among the first `k` rotated commands declared a second
/// time, with the line of that second declaration.
pub open spec fn dup_error(cs: Seq<(InsV, usize)>, st: int, k: nat) -> AsmErrV
    decreases k,
{
    if k == 0 {
        AsmErrV::ParseError(0)
    } else if labels_upto(cs, st, (k - 1) as nat) is None {
        dup_error(cs, st, (k - 1) as nat)
    } else {
        AsmErrV::DuplicateLabel(
            match rotated(cs, st, k - 1) { InsV::Flag(f) => f, _ => Seq::empty() },
            rotated_line(cs, st, k - 1),
        )
    }
}

/// The error of the first of the first `k` rotated commands that cannot be
/// encoded: the unresolved name, or `ParseError` with its line for
/// operands no opcode takes.
pub open spec fn code_error(cs: Seq<(InsV, usize)>, st: int, labels: Seq<(Seq<char>, u16)>, vars: Seq<(Seq<char>, u16)>, base: u16, k: nat) -> AsmErrV
    decreases k,
{
    if k == 0 {
        AsmErrV::ParseError(0)
    } else if code_upto(cs, st, labels, vars, base, (k - 1) as nat) is None {
        code_error(cs, st, labels, vars, base, (k - 1) as nat)
    } else {
        match encode(rotated(cs, st, k - 1), labels, vars, base) {
            Err(CodeErrV::UnresolvedLabel(n)) => AsmErrV::UnresolvedLabel(n),
            Err(CodeErrV::UnknownVariable(n)) => AsmErrV::UnknownVariable(n),
            _ => AsmErrV::ParseError(rotated_line(cs, st, k - 1)),
        }
    }
}

/// Once building the lines fails, building more fails too.
proof fn lemma_build_lines_none(ls: Seq<(usize, Seq<char>)>, k: nat, j: nat)
    requires
        build_lines(ls, k) is None,
        k <= j <= ls.len(),
    ensures
        build_lines(ls, j) is None,
        build_error(ls, j) == build_error(ls, k),
    decreases j - k,
{
    if k < j {
        lemma_build_lines_none(ls, k, (j - 1) as nat);
    }
}

/// Once labels clash, they clash for every longer prefix.
proof fn lemma_labels_none(cs: Seq<(InsV, usize)>, st: int, k: nat, j: nat)
    requires
        labels_upto(cs, st, k) is None,
        k <= j,
    ensures
        labels_upto(cs, st, j) is None,
        dup_error(cs, st, j) == dup_error(cs, st, k),
    decreases j - k,
{
    if k < j {
        lemma_labels_none(cs, st, k, (j - 1) as nat);
    }
}

/// Once an instruction cannot be encoded, the program cannot be either.
proof fn lemma_code_none(cs: Seq<(InsV, usize)>, st: int, labels: Seq<(Seq<char>, u16)>, vars: Seq<(Seq<char>, u16)>, base: u16, k: nat, j: nat)
    requires
        code_upto(cs, st, labels, vars, base, k) is None,
        k <= j,
    ensures
        code_upto(cs, st, labels, vars, base, j) is None,
        code_error(cs, st, labels, vars, base, j) == code_error(cs, st, labels, vars, base, k),
    decreases j - k,
{
    if k < j {
        lemma_code_none(cs, st, labels, vars, base, k, (j - 1) as nat);
    }
}

/// An instruction takes at most seven bytes.
proof fn lemma_code_len_small(i: InsV)
    ensures
        code_len(i) <= 7,
{
    match i {
        InsV::Mov(a, b) | InsV::Add(a, b) | InsV::Xor(a, b) => {
            lemma_param_size_small(a);
            lemma_param_size_small(b);
        },
        InsV::Inc(a) | InsV::Dec(a) | InsV::Jmp(a) | InsV::Psh(a) | InsV::Pop(a) | InsV::Cal(a) => {
            lemma_param_size_small(a);
        },
        _ => {},
    }
}

/// Index of command `k` counted from `st`.
fn rotate(st: usize, k: usize, n: usize) -> (i: usize)
    requires
        st < n,
        k < n,
    ensures
        i == (if st + k < n { st + k } else { st + k - n }),
        i < n,
{
    if k < n - st { st + k } else { k - (n - st) }
}

/// Instructions of the source lines.
#[verifier::spinoff_prover]
fn build_cmds(lines: &Vec<(usize, String)>) -> (r: Result<Vec<(Ins, usize)>, AsmError>)
    ensures
        match build_lines(lines_v(lines@), lines@.len()) {
            None => r matches Err(e) && asm_view(e) == build_error(lines_v(lines@), lines@.len()),
            Some(cs) => r matches Ok(c) && cmds_v(c@) == cs,
        },
{
    let ghost lv = lines_v(lines@);
    let mut cmds: Vec<(Ins, usize)> = Vec::new();
    let mut k: usize = 0;
    while k < lines.len()
        invariant
            k <= lines@.len(),
            lv == lines_v(lines@),
            lv.len() == lines@.len(),
            build_lines(lv, k as nat) == Some(cmds_v(cmds@)),
        decreases lines@.len() - k,
    {
        let id = lines[k].0;
        assert(lv[k as int] == (id, lines@[k as int].1@));
        match Ins::build_with_line(lines[k].1.as_str()) {
            Ok(i) => {
                let ghost before = cmds@;
                cmds.push((i, id));
                assert(cmds_v(cmds@) =~= cmds_v(before).push((ins_v(i), id)));
            },
            Err(e) => {
                proof {
                    lemma_build_lines_none(lv, (k + 1) as nat, lv.len());
                }
                return Err(match e {
                    LineError::UnknownMnemonic => AsmError::UnknownMnemonic(id),
                    _ => AsmError::ParseError(id),
                });
            },
        }
        k += 1;
    }
    Ok(cmds)
}

/// Where the label `start` is.
fn find_start(cmds: &Vec<(Ins, usize)>) -> (r: Option<usize>)
    ensures
        r is None <==> start_from(cmds_v(cmds@), 0) is None,
        r matches Some(st) ==> start_from(cmds_v(cmds@), 0) == Some(st as int) && st < cmds@.len(),
{
    let ghost cs = cmds_v(cmds@);
    let n = cmds.len();
    let mut st: usize = 0;
    while st < n
        invariant
            cs == cmds_v(cmds@),
            cs.len() == n,
            st <= n,
            start_from(cs, 0) == start_from(cs, st as int),
        decreases n - st,
    {
        assert(cs[st as int] == (ins_v(cmds@[st as int].0), cmds@[st as int].1));
        if let Ins::Flag(f) = &cmds[st].0 {
            if crate::registers::str_eq(f.as_str(), "start") {
                return Some(st);
            }
        }
        st += 1;
    }
    None
}

/// Fails when the code would not fit a `usize` count of bytes.
#[verifier::spinoff_prover]
fn check_total(cmds: &Vec<(Ins, usize)>) -> (r: Result<(), AsmError>)
    ensures
        r is Ok <==> total_len(cmds_v(cmds@), cmds@.len()) <= usize::MAX,
        r matches Err(e) ==> e is ParseError,
{
    let ghost cs = cmds_v(cmds@);
    let n = cmds.len();
    let mut total: usize = 0;
    let mut j: usize = 0;
    while j < n
        invariant
            cs == cmds_v(cmds@),
            cs.len() == n,
            j <= n,
            total == total_len(cs, j as nat),
        decreases n - j,
    {
        assert(cs[j as int].0 == ins_v(cmds@[j as int].0));
        let l = cmds[j].0.ins_len();
        proof {
            lemma_code_len_small(cs[j as int].0);
        }
        if total > usize::MAX - l {
            proof {
                lemma_total_grows(cs, (j + 1) as nat, n as nat);
            }
            return Err(AsmError::ParseError(cmds[j].1));
        }
        total = total + l;
        j += 1;
    }
    Ok(())
}

/// Addresses of the labels, the code laid out from `st`.
#[verifier::rlimit(80)]
#[verifier::spinoff_prover]
fn build_labels(cmds: &Vec<(Ins, usize)>, st: usize) -> (r: Result<Vec<(String, u16)>, AsmError>)
    requires
        st < cmds@.len(),
    ensures
        match labels_upto(cmds_v(cmds@), st as int, cmds@.len()) {
            None => r matches Err(e) && asm_view(e) == dup_error(cmds_v(cmds@), st as int, cmds@.len()),
            Some((t, _)) => r matches Ok(v) && table_v(v@) == t,
        },
{
    let ghost cs = cmds_v(cmds@);
    let n = cmds.len();
    let mut table: Vec<(String, u16)> = Vec::new();
    let mut ptr: u16 = 0;
    let mut k: usize = 0;
    while k < n
        invariant
            cs == cmds_v(cmds@),
            cs.len() == n,
            st < n,
            k <= n,
            labels_upto(cs, st as int, k as nat) matches Some((t, p)) && t == table_v(table@)
                && ptr == (p % 0x1_0000) as u16,
        decreases n - k,
    {
        let idx = rotate(st, k, n);
        assert(rotated(cs, st as int, k as int) == ins_v(cmds@[idx as int].0));
        assert(rotated_line(cs, st as int, k as int) == cmds@[idx as int].1);
        match &cmds[idx].0 {
            Ins::Flag(f) => {
                if lookup_exec(&table, f).is_some() {
                    proof {
                        lemma_labels_none(cs, st as int, (k + 1) as nat, n as nat);
                    }
                    return Err(AsmError::DuplicateLabel(f.clone(), cmds[idx].1));
                }
                let ghost before = table@;
                table.push((f.clone(), ptr));
                assert(table_v(table@) =~= table_v(before).push((f@, ptr)));
            },
            other => {
                let l = other.ins_len();
                proof {
                    lemma_code_len_small(ins_v(*other));
                }
                ptr = ((ptr as u32 + l as u32) % 0x1_0000) as u16;
            },
        }
        k += 1;
    }
    Ok(table)
}

impl CodeParser {
    pub closed spec fn cmds_view(&self) -> Seq<(InsV, usize)> {
        cmds_v(self.cmds@)
    }

    pub closed spec fn start(&self) -> int {
        self.start_address as int
    }

    pub closed spec fn labels_view(&self) -> Seq<(Seq<char>, u16)> {
        table_v(self.jumps_pts@)
    }

    pub closed spec fn wf(&self) -> bool {
        &&& 0 <= self.start() < self.cmds_view().len()
        &&& total_len(self.cmds_view(), self.cmds_view().len()) <= usize::MAX
    }

    /// Reads the code section: each line gives an instruction or a label;
    /// the label `start` is required, and no label may come twice. Labels
    /// get the address they have once the code is laid out from `start`,
    /// wrapping past the end back to the first line.
    pub fn new(chunk: Chunk) -> (r: Result<CodeParser, AsmError>)
        ensures
            match build_lines(lines_v(chunk@.1), chunk@.1.len()) {
                None => r matches Err(e) && asm_view(e) == build_error(lines_v(chunk@.1), chunk@.1.len()),
                Some(cs) => match start_from(cs, 0) {
                    None => r == Err::<CodeParser, AsmError>(AsmError::MissingStart),
                    Some(st) => match labels_upto(cs, st, cs.len()) {
                        None => r matches Err(e) && asm_view(e) == dup_error(cs, st, cs.len()),
                        Some((t, _)) => (r matches Ok(p) && p.wf() && p.cmds_view() == cs
                            && p.start() == st && p.labels_view() == t)
                            || (r matches Err(AsmError::ParseError(_))
                                && total_len(cs, cs.len()) > usize::MAX),
                    },
                },
            },
    {
        let lines = chunk.data();
        let cmds = match build_cmds(&lines) {
            Ok(c) => c,
            Err(e) => return Err(e),
        };
        let st = match find_start(&cmds) {
            Some(st) => st,
            None => return Err(AsmError::MissingStart),
        };
        let table = match build_labels(&cmds, st) {
            Ok(t) => t,
            Err(e) => return Err(e),
        };
        match check_total(&cmds) {
            Ok(()) => {},
            Err(e) => return Err(e),
        }
        Ok(CodeParser { start_address: st, cmds, jumps_pts: table })
    }

    /// Bytes the code takes.
    pub fn ins_len(&self) -> (n: usize)
        requires
            self.wf(),
        ensures
            n == total_len(self.cmds_view(), self.cmds_view().len()),
    {
        let ghost cs = self.cmds_view();
        let n = self.cmds.len();
        let mut total: usize = 0;
        let mut j: usize = 0;
        while j < n
            invariant
                cs == cmds_v(self.cmds@),
                cs.len() == n,
                j <= n,
                total == total_len(cs, j as nat),
                total_len(cs, n as nat) <= usize::MAX,
            decreases n - j,
        {
            assert(cs[j as int].0 == ins_v(self.cmds@[j as int].0));
            let l = self.cmds[j].0.ins_len();
            proof {
                lemma_total_grows(cs, (j + 1) as nat, n as nat);
            }
            total = total + l;
            j += 1;
        }
        total
    }

    /// The program: the code laid out from `start`, wrapping past the end,
    /// then the data. Variables are placed right after the code.
    #[verifier::spinoff_prover]
    pub fn get_vec(self, data: Option<DataParser>) -> (r: Result<Vec<u8>, AsmError>)
        requires
            self.wf(),
        ensures
            ({
                let cs = self.cmds_view();
                let base = (total_len(cs, cs.len()) % 0x1_0000) as u16;
                let vars = match data { Some(d) => d.table_view(), None => Seq::empty() };
                let tail = match data { Some(d) => d.bytes_view(), None => Seq::empty() };
                match code_upto(cs, self.start(), self.labels_view(), vars, base, cs.len()) {
                    Some(b) => r matches Ok(v) && v@ == b + tail,
                    None => r matches Err(e)
                        && asm_view(e) == code_error(cs, self.start(), self.labels_view(), vars, base, cs.len()),
                }
            }),
    {
        let total = self.ins_len();
        let base = (total % 0x1_0000) as u16;
        let vars = match &data {
            Some(d) => d.var_table(),
            None => Vec::new(),
        };
        proof {
            if data is None {
                assert(table_v(vars@) =~= Seq::<(Seq<char>, u16)>::empty());
            }
        }
        let ghost cs = self.cmds_view();
        let n = self.cmds.len();
        let st = self.start_address;
        let mut out: Vec<u8> = Vec::new();
        let mut k: usize = 0;
        while k < n
            invariant
                cs == cmds_v(self.cmds@),
                cs.len() == n,
                st == self.start(),
                st < n,
                k <= n,
                code_upto(cs, st as int, table_v(self.jumps_pts@), table_v(vars@), base, k as nat) == Some(out@),
                table_v(vars@) == (match data { Some(d) => d.table_view(), None => Seq::empty() }),
                base == (total_len(cs, cs.len()) % 0x1_0000) as u16,
            decreases n - k,
        {
            let idx = rotate(st, k, n);
            assert(rotated(cs, st as int, k as int) == ins_v(self.cmds@[idx as int].0));
            assert(rotated_line(cs, st as int, k as int) == self.cmds@[idx as int].1);
            match self.cmds[idx].0.get_code(&self.jumps_pts, &vars, base) {
                Ok(mut c) => {
                    out.append(&mut c);
                },
                Err(e) => {
                    proof {
                        assert(encode(rotated(cs, st as int, k as int), table_v(self.jumps_pts@), table_v(vars@), base) is Err);
                        assert(code_upto(cs, st as int, table_v(self.jumps_pts@), table_v(vars@), base, (k + 1) as nat) is None);
                        lemma_code_none(cs, st as int, table_v(self.jumps_pts@), table_v(vars@), base, (k + 1) as nat, n as nat);
                        assert(code_upto(cs, st as int, table_v(self.jumps_pts@), table_v(vars@), base, n as nat) is None);
                    }
                    return Err(match e {
                        CodeError::UnresolvedLabel(f) => AsmError::UnresolvedLabel(f),
                        CodeError::UnknownVariable(f) => AsmError::UnknownVariable(f),
                        CodeError::BadOperands => AsmError::ParseError(self.cmds[idx].1),
                    });
                },
            }
            k += 1;
        }
        let ghost code = out@;
        if let Some(d) = data {
            let mut bytes = d.get_vec();
            out.append(&mut bytes);
        } else {
            assert(code + Seq::<u8>::empty() =~= code);
        }
        Ok(out)
    }
}

/// The total only grows with more commands.
proof fn lemma_total_grows(cs: Seq<(InsV, usize)>, a: nat, b: nat)
    requires
        a <= b <= cs.len(),
    ensures
        total_len(cs, a) <= total_len(cs, b),
    decreases b,
{
    if a < b {
        lemma_total_grows(cs, a, (b - 1) as nat);
    }
}

/// Offsets of variables `vs[..k]` as a table.
pub open spec fn var_offsets(vs: Seq<(Seq<char>, VarView)>) -> Seq<(Seq<char>, u16)> {
    vs.map_values(|v: (Seq<char>, VarView)| (v.0, v.1.location))
}

/// Bytes of variables `vs[..k]`, one after another.
pub open spec fn data_bytes(vs: Seq<(Seq<char>, VarView)>, k: nat) -> Seq<u8>
    decreases k,
{
    if k == 0 || k > vs.len() { Seq::empty() } else { data_bytes(vs, (k - 1) as nat) + vs[k - 1].1.data }
}

impl DataParser {
    pub closed spec fn vars_view(&self) -> Seq<(Seq<char>, VarView)> {
        self.vars@.map_values(|v: (String, Var)| (v.0@, v.1@))
    }

    /// Name and offset of each variable.
    pub open spec fn table_view(&self) -> Seq<(Seq<char>, u16)> {
        var_offsets(self.vars_view())
    }

    /// The bytes of all variables in order.
    pub open spec fn bytes_view(&self) -> Seq<u8> {
        data_bytes(self.vars_view(), self.vars_view().len())
    }

    /// Name and offset of each variable, in declaration order.
    pub fn var_table(&self) -> (t: Vec<(String, u16)>)
        ensures
            table_v(t@) == self.table_view(),
    {
        let mut t: Vec<(String, u16)> = Vec::new();
        let mut i: usize = 0;
        while i < self.vars.len()
            invariant
                i <= self.vars@.len(),
                table_v(t@) == var_offsets(self.vars_view()).take(i as int),
            decreases self.vars@.len() - i,
        {
            let ghost before = t@;
            assert(self.vars_view()[i as int] == (self.vars@[i as int].0@, self.vars@[i as int].1@));
            assert(var_offsets(self.vars_view())[i as int] == (self.vars@[i as int].0@, self.vars@[i as int].1@.location));
            t.push((self.vars[i].0.clone(), *self.vars[i].1.get_location()));
            assert(table_v(t@) =~= table_v(before).push((self.vars@[i as int].0@, self.vars@[i as int].1@.location)));
            assert(var_offsets(self.vars_view()).take(i + 1) =~= var_offsets(self.vars_view()).take(i as int).push(var_offsets(self.vars_view())[i as int]));
            i += 1;
        }
        assert(var_offsets(self.vars_view()).take(i as int) =~= var_offsets(self.vars_view()));
        t
    }

    /// The variables, in declaration order.
    pub fn vars(&self) -> (v: &Vec<(String, Var)>)
        ensures
            v@.map_values(|x: (String, Var)| (x.0@, x.1@)) == self.vars_view(),
    {
        &self.vars
    }

    /// Bytes the data takes: where the last variable ends.
    pub fn data_len(&self) -> (n: usize)
        ensures
            n == (if self.vars_view().len() == 0 {
                0
            } else if self.vars_view().last().1.location + self.vars_view().last().1.data.len() > usize::MAX {
                usize::MAX as int
            } else {
                self.vars_view().last().1.location + self.vars_view().last().1.data.len()
            }),
    {
        let k = self.vars.len();
        if k == 0 {
            0
        } else {
            (*self.vars[k - 1].1.get_location() as usize).saturating_add(self.vars[k - 1].1.data_len())
        }
    }

    /// The bytes of all variables, in declaration order.
    pub fn get_vec(self) -> (v: Vec<u8>)
        ensures
            v@ == self.bytes_view(),
    {
        let ghost vs = self.vars_view();
        let mut out: Vec<u8> = Vec::new();
        let mut i: usize = 0;
        while i < self.vars.len()
            invariant
                vs == self.vars_view(),
                i <= self.vars@.len(),
                out@ == data_bytes(vs, i as nat),
            decreases self.vars@.len() - i,
        {
            let mut d = self.vars[i].1.get_data().clone();
            out.append(&mut d);
            i += 1;
        }
        out
    }
}

/// A token of a data line.
pub ghost enum DataTok {
    Sep,
    Num(nat),
    Str(Seq<char>),
    Type(nat),
    Name(Seq<char>),
}

pub open spec fn is_word_char(c: char) -> bool {
    (48 <= c as u32 <= 57) || (65 <= c as u32 <= 90) || (97 <= c as u32 <= 122) || c == '_'
}

/// Number of word characters from `i` on.
pub open spec fn word_chars(s: Seq<char>, i: int) -> nat
    decreases s.len() - i,
{
    if 0 <= i < s.len() && is_word_char(s[i]) { 1 + word_chars(s, i + 1) } else { 0 }
}

/// First position from `i` on holding a quote or a line feed, or the end.
pub open spec fn quote_end(s: Seq<char>, i: int) -> int
    decreases s.len() - i,
{
    if 0 <= i < s.len() && s[i] != '"' && s[i] != '\n' { quote_end(s, i + 1) } else { i }
}

/// Token starting at `j`, and the position after it. Tried in order: a
/// comma; `0b` and binary digits; `0x` and hex digits; decimal digits; a
/// string in double quotes (at least one character, no line feed); `u8`
/// or `u16` in either case; a name (a letter, or one of ``[\]^_` ``,
/// then word characters).
pub open spec fn data_tok_at(s: Seq<char>, j: int) -> Option<(DataTok, int)> {
    if j < 0 || j >= s.len() {
        None
    } else if s[j] == ',' {
        Some((DataTok::Sep, j + 1))
    } else if j + 1 < s.len() && s[j] == '0' && (s[j + 1] == 'b' || s[j + 1] == 'B') && digits_at(s, j + 2, 2) > 0 {
        let n = digits_at(s, j + 2, 2);
        Some((DataTok::Num(number_at(s, j + 2, n, 2)), j + 2 + n))
    } else if j + 1 < s.len() && s[j] == '0' && (s[j + 1] == 'x' || s[j + 1] == 'X') && digits_at(s, j + 2, 16) > 0 {
        let n = digits_at(s, j + 2, 16);
        Some((DataTok::Num(number_at(s, j + 2, n, 16)), j + 2 + n))
    } else if digits_at(s, j, 10) > 0 {
        let n = digits_at(s, j, 10);
        Some((DataTok::Num(number_at(s, j, n, 10)), j + n))
    } else if s[j] == '"' && j + 1 < s.len() && s[j + 1] != '\n' && quote_end(s, j + 2) < s.len()
        && s[quote_end(s, j + 2)] == '"' {
        let k = quote_end(s, j + 2);
        Some((DataTok::Str(s.subrange(j + 1, k)), k + 1))
    } else if (s[j] == 'u' || s[j] == 'U') && j + 1 < s.len() && s[j + 1] == '8' {
        Some((DataTok::Type(1), j + 2))
    } else if (s[j] == 'u' || s[j] == 'U') && j + 2 < s.len() && s[j + 1] == '1' && s[j + 2] == '6' {
        Some((DataTok::Type(2), j + 3))
    } else if 65 <= s[j] as u32 <= 122 {
        let n = word_chars(s, j + 1);
        Some((DataTok::Name(s.subrange(j, j + 1 + n)), j + 1 + n))
    } else {
        None
    }
}

/// The next token from `i` on: characters that start none are skipped.
pub open spec fn next_data_tok(s: Seq<char>, i: int) -> Option<(DataTok, int)>
    decreases s.len() - i,
{
    if i < 0 || i >= s.len() {
        None
    } else {
        match data_tok_at(s, i) {
            Some(t) => Some(t),
            None => next_data_tok(s, i + 1),
        }
    }
}

/// What a data line expects next.
#[derive(Debug, PartialEq, Eq, Structural, Clone, Copy)]
pub enum Expect {
    Name,
    Type,
    Value,
    Separator,
}

impl Expect {
    /// Whether token kind `value` (`SEPARATOR` to `VAR_NAME`) is what is expected.
    pub fn match_with(&self, value: usize) -> (b: bool)
        ensures
            b == match *self {
                Expect::Name => value == VAR_NAME,
                Expect::Type => value == TYPE,
                Expect::Value => value == BINARY || value == HEXA || value == DECIMAL || value == STRING,
                Expect::Separator => value == SEPARATOR,
            },
    {
        match self {
            Expect::Name => value == VAR_NAME,
            Expect::Type => value == TYPE,
            Expect::Value => value == BINARY || value == HEXA || value == DECIMAL || value == STRING,
            Expect::Separator => value == SEPARATOR,
        }
    }
}

pub const SEPARATOR: usize = 1;
pub const BINARY: usize = 2;
pub const HEXA: usize = 3;
pub const DECIMAL: usize = 4;
pub const STRING: usize = 5;
pub const TYPE: usize = 6;
pub const VAR_NAME: usize = 7;

/// UTF-16 code units of `c`.
pub open spec fn utf16(c: char) -> Seq<u16> {
    let u = c as u32;
    if u < 0x1_0000 {
        seq![u as u16]
    } else {
        seq![(0xD800 + (u - 0x1_0000) / 1024) as u16, (0xDC00 + (u - 0x1_0000) % 1024) as u16]
    }
}

/// Bytes of one value unit: its low byte for `u8`, two big-endian bytes for `u16`.
pub open spec fn unit_bytes(v: u16, size: nat) -> Seq<u8> {
    if size == 1 { seq![(v % 256) as u8] } else if size == 2 { w16(v) } else { Seq::empty() }
}

/// Bytes of string `t[..k]`, one unit per UTF-16 code unit.
pub open spec fn string_bytes(t: Seq<char>, k: nat, size: nat) -> Seq<u8>
    decreases k,
{
    if k == 0 || k > t.len() {
        Seq::empty()
    } else {
        let u = utf16(t[k - 1]);
        string_bytes(t, (k - 1) as nat, size) + unit_bytes(u[0], size)
            + (if u.len() == 2 { unit_bytes(u[1], size) } else { Seq::empty() })
    }
}

/// A variable being read: name, size of its type (0 before the type), bytes.
pub ghost struct VarAcc {
    pub name: Seq<char>,
    pub size: nat,
    pub data: Seq<u8>,
    pub expect: Expect,
}

/// Why a data line is wrong: an unknown type, or a token out of place
/// (a number too large counts as one).
#[derive(Debug, PartialEq, Eq, Clone, Copy)]
pub enum DataError {
    UnknownType,
    Unexpected,
}

/// Reading token `t` into `a`.
pub open spec fn data_step(a: VarAcc, t: DataTok) -> Result<VarAcc, DataError> {
    match t {
        DataTok::Sep => if a.expect == Expect::Separator {
            Ok(VarAcc { expect: Expect::Value, ..a })
        } else {
            Err(DataError::Unexpected)
        },
        DataTok::Num(v) => if a.expect == Expect::Value && v <= 0xFFFF {
            Ok(VarAcc { data: a.data + unit_bytes(v as u16, a.size), expect: Expect::Separator, ..a })
        } else {
            Err(DataError::Unexpected)
        },
        DataTok::Str(c) => if a.expect == Expect::Value {
            Ok(VarAcc { data: a.data + string_bytes(c, c.len(), a.size), expect: Expect::Separator, ..a })
        } else {
            Err(DataError::Unexpected)
        },
        DataTok::Type(sz) => if a.expect == Expect::Type {
            Ok(VarAcc { size: sz, expect: Expect::Value, ..a })
        } else {
            Err(DataError::Unexpected)
        },
        DataTok::Name(n) => if a.expect == Expect::Name {
            Ok(VarAcc { name: n, expect: Expect::Type, ..a })
        } else if a.expect == Expect::Type {
            Err(DataError::UnknownType)
        } else {
            Err(DataError::Unexpected)
        },
    }
}

/// Reading the tokens of `s` from `i` on into `a`; the line must end after a value.
pub open spec fn data_line_from(s: Seq<char>, i: int, a: VarAcc) -> Result<VarAcc, DataError>
    decreases s.len() - i,
{
    match next_data_tok(s, i) {
        None => if a.expect == Expect::Separator { Ok(a) } else { Err(DataError::Unexpected) },
        Some((t, e)) => if i < e <= s.len() {
            match data_step(a, t) {
                Ok(b) => data_line_from(s, e, b),
                Err(err) => Err(err),
            }
        } else {
            Err(DataError::Unexpected)
        },
    }
}

/// The variable a data line declares.
pub open spec fn data_line(s: Seq<char>) -> Result<VarAcc, DataError> {
    data_line_from(s, 0, VarAcc { name: Seq::empty(), size: 0, data: Seq::empty(), expect: Expect::Name })
}

/// A token of a data line, as positions in the line.
enum Tok {
    Sep,
    /// The value, when it fits in 16 bits.
    Num(Option<u16>),
    /// The characters between the quotes.
    Str(usize, usize),
    Type(u8),
    Name(usize, usize),
}

spec fn tok_matches(x: Tok, t: DataTok, s: Seq<char>) -> bool {
    match (x, t) {
        (Tok::Sep, DataTok::Sep) => true,
        (Tok::Num(o), DataTok::Num(v)) => o == (if v <= 0xFFFF { Some(v as u16) } else { None::<u16> }),
        (Tok::Str(a, b), DataTok::Str(c)) => a <= b <= s.len() && c == s.subrange(a as int, b as int),
        (Tok::Type(z), DataTok::Type(sz)) => z as nat == sz,
        (Tok::Name(a, b), DataTok::Name(c)) => a <= b <= s.len() && c == s.subrange(a as int, b as int),
        _ => false,
    }
}

fn word_char(ch: char) -> (b: bool)
    ensures
        b == is_word_char(ch),
{
    let u = ch as u32;
    (u >= 48 && u <= 57) || (u >= 65 && u <= 90) || (u >= 97 && u <= 122) || ch == '_'
}

fn word_count(s: &str, n: usize, i: usize) -> (c: usize)
    requires
        n == s@.len(),
        i <= n,
    ensures
        c == word_chars(s@, i as int),
        i + c <= n,
{
    let mut k = i;
    while k < n && word_char(s.get_char(k))
        invariant
            n == s@.len(),
            i <= k <= n,
            word_chars(s@, i as int) == (k - i) + word_chars(s@, k as int),
        decreases n - k,
    {
        k += 1;
    }
    k - i
}

fn find_quote_end(s: &str, n: usize, i: usize) -> (k: usize)
    requires
        n == s@.len(),
        i <= n,
    ensures
        k == quote_end(s@, i as int),
        i <= k <= n,
{
    let mut k = i;
    while k < n && s.get_char(k) != '"' && s.get_char(k) != '\n'
        invariant
            n == s@.len(),
            i <= k <= n,
            quote_end(s@, i as int) == quote_end(s@, k as int),
        decreases n - k,
    {
        k += 1;
    }
    k
}

/// A number of `base` with its digits at `i`: its value if it fits, and the end.
fn num_tok(s: &str, n: usize, i: usize, base: u32) -> (r: (Option<u16>, usize))
    requires
        n == s@.len(),
        i <= n,
        base == 2 || base == 10 || base == 16,
    ensures
        ({
            let c = digits_at(s@, i as int, base as nat);
            let v = number_at(s@, i as int, c, base as nat);
            &&& r.1 == i + c
            &&& r.1 <= n
            &&& r.0 == (if v <= 0xFFFF { Some(v as u16) } else { None::<u16> })
        }),
{
    let c = digit_count(s, n, i, base);
    match number(s, n, i, base) {
        Some((v, _)) => (Some(v), i + c),
        None => (None, i + c),
    }
}

fn data_tok(s: &str, n: usize, j: usize) -> (r: Option<(Tok, usize)>)
    requires
        n == s@.len(),
        j <= n,
    ensures
        match data_tok_at(s@, j as int) {
            Some((t, e)) => r matches Some((x, e2)) && e2 == e && tok_matches(x, t, s@) && j < e2 <= n,
            None => r is None,
        },
{
    if j >= n {
        return None;
    }
    let c = s.get_char(j);
    let c1 = if j + 1 < n { s.get_char(j + 1) } else { ' ' };
    if c == ',' {
        return Some((Tok::Sep, j + 1));
    }
    if j + 1 < n && c == '0' && (c1 == 'b' || c1 == 'B') && digit_count(s, n, j + 2, 2) > 0 {
        let (v, e) = num_tok(s, n, j + 2, 2);
        return Some((Tok::Num(v), e));
    }
    if j + 1 < n && c == '0' && (c1 == 'x' || c1 == 'X') && digit_count(s, n, j + 2, 16) > 0 {
        let (v, e) = num_tok(s, n, j + 2, 16);
        return Some((Tok::Num(v), e));
    }
    if digit_count(s, n, j, 10) > 0 {
        let (v, e) = num_tok(s, n, j, 10);
        return Some((Tok::Num(v), e));
    }
    if c == '"' && j + 1 < n && c1 != '\n' {
        let k = find_quote_end(s, n, j + 2);
        if k < n && s.get_char(k) == '"' {
            return Some((Tok::Str(j + 1, k), k + 1));
        }
    }
    if (c == 'u' || c == 'U') && j + 1 < n && c1 == '8' {
        return Some((Tok::Type(1), j + 2));
    }
    if (c == 'u' || c == 'U') && j + 1 < n && n - j > 2 && c1 == '1' && s.get_char(j + 2) == '6' {
        return Some((Tok::Type(2), j + 3));
    }
    if c as u32 >= 65 && c as u32 <= 122 {
        let w = word_count(s, n, j + 1);
        return Some((Tok::Name(j, j + 1 + w), j + 1 + w));
    }
    None
}

fn next_tok(s: &str, n: usize, i: usize) -> (r: Option<(Tok, usize)>)
    requires
        n == s@.len(),
        i <= n,
    ensures
        match next_data_tok(s@, i as int) {
            Some((t, e)) => r matches Some((x, e2)) && e2 == e && tok_matches(x, t, s@) && i < e2 <= n,
            None => r is None,
        },
{
    let mut j = i;
    while j < n
        invariant
            n == s@.len(),
            i <= j <= n,
            next_data_tok(s@, i as int) == next_data_tok(s@, j as int),
        decreases n - j,
    {
        if let Some(t) = data_tok(s, n, j) {
            return Some(t);
        }
        j += 1;
    }
    None
}

/// Appends the bytes of one value unit.
fn push_unit(out: &mut Vec<u8>, v: u16, size: u8)
    ensures
        final(out)@ == old(out)@ + unit_bytes(v, size as nat),
{
    if size == 1 {
        out.push((v % 256) as u8);
        assert(final(out)@ =~= old(out)@ + unit_bytes(v, size as nat));
    } else if size == 2 {
        push_w16(out, v);
    } else {
        assert(final(out)@ =~= old(out)@ + unit_bytes(v, size as nat));
    }
}

/// Appends the bytes of the string `s[a..b]`.
fn push_string(out: &mut Vec<u8>, s: &str, a: usize, b: usize, size: u8)
    requires
        a <= b <= s@.len(),
    ensures
        final(out)@ == old(out)@ + string_bytes(s@.subrange(a as int, b as int), (b - a) as nat, size as nat),
{
    let ghost t = s@.subrange(a as int, b as int);
    let mut k: usize = a;
    while k < b
        invariant
            a <= k <= b,
            b <= s@.len(),
            t == s@.subrange(a as int, b as int),
            out@ == old(out)@ + string_bytes(t, (k - a) as nat, size as nat),
        decreases b - k,
    {
        let c = s.get_char(k);
        assert(t[(k + 1 - a) - 1] == c);
        let ghost before = out@;
        let u = c as u32;
        if u < 0x1_0000 {
            push_unit(out, u as u16, size);
        } else {
            push_unit(out, (0xD800 + (u - 0x1_0000) / 1024) as u16, size);
            push_unit(out, (0xDC00 + (u - 0x1_0000) % 1024) as u16, size);
        }
        assert(out@ =~= old(out)@ + string_bytes(t, (k + 1 - a) as nat, size as nat));
        k += 1;
    }
}

/// Reads a data line: its variable's name range, type size and bytes.
fn read_data_line(s: &str) -> (r: Result<((usize, usize), u8, Vec<u8>), DataError>)
    ensures
        match data_line(s@) {
            Ok(a) => r matches Ok(((x, y), z, d)) && x <= y <= s@.len()
                && s@.subrange(x as int, y as int) == a.name && z as nat == a.size && d@ == a.data,
            Err(e) => r == Err::<((usize, usize), u8, Vec<u8>), DataError>(e),
        },
{
    let n = s.unicode_len();
    let mut name: (usize, usize) = (0, 0);
    let mut size: u8 = 0;
    let mut data: Vec<u8> = Vec::new();
    let mut expect = Expect::Name;
    let mut i: usize = 0;
    let ghost init = VarAcc { name: Seq::empty(), size: 0, data: Seq::empty(), expect: Expect::Name };
    assert(s@.subrange(0, 0) =~= Seq::<char>::empty());
    loop
        invariant
            n == s@.len(),
            i <= n,
            name.0 <= name.1 <= n,
            data_line(s@) == data_line_from(s@, i as int, VarAcc {
                name: s@.subrange(name.0 as int, name.1 as int),
                size: size as nat,
                data: data@,
                expect,
            }),
        decreases n - i,
    {
        let ghost acc = VarAcc { name: s@.subrange(name.0 as int, name.1 as int), size: size as nat, data: data@, expect };
        let (t, e) = match next_tok(s, n, i) {
            Some(t) => t,
            None => {
                if expect == Expect::Separator {
                    return Ok((name, size, data));
                }
                return Err(DataError::Unexpected);
            },
        };
        match t {
            Tok::Sep => {
                if expect != Expect::Separator {
                    return Err(DataError::Unexpected);
                }
                expect = Expect::Value;
            },
            Tok::Num(v) => {
                if expect != Expect::Value {
                    return Err(DataError::Unexpected);
                }
                match v {
                    Some(v) => push_unit(&mut data, v, size),
                    None => return Err(DataError::Unexpected),
                }
                expect = Expect::Separator;
            },
            Tok::Str(a, b) => {
                if expect != Expect::Value {
                    return Err(DataError::Unexpected);
                }
                push_string(&mut data, s, a, b, size);
                proof {
                    assert(s@.subrange(a as int, b as int).len() == b - a);
                }
                expect = Expect::Separator;
            },
            Tok::Type(z) => {
                if expect != Expect::Type {
                    return Err(DataError::Unexpected);
                }
                size = z;
                expect = Expect::Value;
            },
            Tok::Name(a, b) => {
                if expect == Expect::Type {
                    return Err(DataError::UnknownType);
                }
                if expect != Expect::Name {
                    return Err(DataError::Unexpected);
                }
                name = (a, b);
                expect = Expect::Type;
            },
        }
        i = e;
    }
}

/// The variable type of a size.
pub open spec fn type_of_size(size: nat) -> Type {
    if size == 1 { Type::U8 } else if size == 2 { Type::U16 } else { Type::NoType }
}

/// Variables of data lines `ls[..k]`, each placed right after the one
/// before; `None` when a line is wrong or a name comes twice.
pub open spec fn data_vars(ls: Seq<(usize, Seq<char>)>, k: nat) -> Option<Seq<(Seq<char>, VarView)>>
    decreases k,
{
    if k == 0 {
        Some(Seq::empty())
    } else if k > ls.len() {
        None
    } else {
        match data_vars(ls, (k - 1) as nat) {
            None => None,
            Some(vs) => match data_line(ls[k - 1].1) {
                Err(_) => None,
                Ok(a) => if lookup(var_offsets(vs), a.name) is Some {
                    None
                } else {
                    let loc: u16 = if vs.len() == 0 {
                        0
                    } else {
                        ((vs.last().1.location + vs.last().1.data.len()) % 0x1_0000) as u16
                    };
                    Some(vs.push((a.name, VarView { data_type: type_of_size(a.size), data: a.data, location: loc })))
                },
            },
        }
    }
}

/// The error of the first of data lines `ls[..k]` that is wrong: an
/// unknown type gives `UnknownType`, another wrong line `ParseError`, and a
/// name declared again `DuplicateLabel`, each with the line's number.
pub open spec fn data_error(ls: Seq<(usize, Seq<char>)>, k: nat) -> AsmErrV
    decreases k,
{
    if k == 0 || k > ls.len() {
        AsmErrV::ParseError(0)
    } else if data_vars(ls, (k - 1) as nat) is None {
        data_error(ls, (k - 1) as nat)
    } else {
        match data_line(ls[k - 1].1) {
            Err(DataError::UnknownType) => AsmErrV::UnknownType(ls[k - 1].0),
            Err(_) => AsmErrV::ParseError(ls[k - 1].0),
            Ok(a) => AsmErrV::DuplicateLabel(a.name, ls[k - 1].0),
        }
    }
}

/// Once a data line fails, the whole section fails.
proof fn lemma_data_vars_none(ls: Seq<(usize, Seq<char>)>, k: nat, j: nat)
    requires
        data_vars(ls, k) is None,
        k <= j <= ls.len(),
    ensures
        data_vars(ls, j) is None,
        data_error(ls, j) == data_error(ls, k),
    decreases j - k,
{
    if k < j {
        lemma_data_vars_none(ls, k, (j - 1) as nat);
    }
}

/// Whether a variable called `name` is among `vars`.
fn has_var(vars: &Vec<(String, Var)>, name: &String) -> (b: bool)
    ensures
        b == (lookup(var_offsets(vars@.map_values(|v: (String, Var)| (v.0@, v.1@))), name@) is Some),
{
    let ghost t = var_offsets(vars@.map_values(|v: (String, Var)| (v.0@, v.1@)));
    let mut i: usize = 0;
    while i < vars.len()
        invariant
            i <= vars@.len(),
            t == var_offsets(vars@.map_values(|v: (String, Var)| (v.0@, v.1@))),
            t.len() == vars@.len(),
            lookup(t, name@) == lookup_from(t, name@, i as int),
        decreases vars@.len() - i,
    {
        assert(t[i as int].0 == vars@[i as int].0@);
        if crate::registers::str_eq(vars[i].0.as_str(), name.as_str()) {
            return true;
        }
        i += 1;
    }
    false
}

impl DataParser {
    /// Reads the data section: each line declares a variable, `name type
    /// value, value, ...`, where a value is a number or a string. Variables
    /// are placed one after another in declaration order; a name may not
    /// come twice.
    #[verifier::spinoff_prover]
    pub fn new(chunk: Chunk) -> (r: Result<DataParser, AsmError>)
        ensures
            match data_vars(lines_v(chunk@.1), chunk@.1.len()) {
                Some(vs) => r matches Ok(d) && d.vars_view() == vs,
                None => r matches Err(e) && asm_view(e) == data_error(lines_v(chunk@.1), chunk@.1.len()),
            },
    {
        let lines = chunk.data();
        let ghost lv = lines_v(lines@);
        let mut vars: Vec<(String, Var)> = Vec::new();
        let mut k: usize = 0;
        while k < lines.len()
            invariant
                k <= lines@.len(),
                lines@ == chunk@.1,
                lv == lines_v(lines@),
                lv.len() == lines@.len(),
                data_vars(lv, k as nat) == Some(vars@.map_values(|v: (String, Var)| (v.0@, v.1@))),
            decreases lines@.len() - k,
        {
            let id = lines[k].0;
            let line = lines[k].1.as_str();
            assert(lv[k as int] == (id, lines@[k as int].1@));
            let ghost vs = vars@.map_values(|v: (String, Var)| (v.0@, v.1@));
            match read_data_line(line) {
                Err(e) => {
                    proof {
                        lemma_data_vars_none(lv, (k + 1) as nat, lv.len());
                    }
                    return Err(match e {
                        DataError::UnknownType => AsmError::UnknownType(id),
                        DataError::Unexpected => AsmError::ParseError(id),
                    });
                },
                Ok(((a, b), size, mut data)) => {
                    let name = line.substring_char(a, b).to_owned();
                    if has_var(&vars, &name) {
                        proof {
                            lemma_data_vars_none(lv, (k + 1) as nat, lv.len());
                        }
                        return Err(AsmError::DuplicateLabel(name, id));
                    }
                    let n = vars.len();
                    let loc: u16 = if n == 0 {
                        0
                    } else {
                        let last = *vars[n - 1].1.get_location() as usize;
                        let len = vars[n - 1].1.data_len();
                        assert(vs.last() == (vars@[n - 1].0@, vars@[n - 1].1@));
                        assert((last + len) % 0x1_0000 == (last + len % 0x1_0000) % 0x1_0000) by (nonlinear_arith);
                        ((last + len % 0x1_0000) % 0x1_0000) as u16
                    };
                    let ty = if size == 1 { Type::U8 } else if size == 2 { Type::U16 } else { Type::NoType };
                    let mut var = Var::default();
                    var.set_type(ty);
                    var.add_data(&mut data);
                    var.set_location(loc);
                    let ghost before = vars@;
                    vars.push((name, var));
                    proof {
                        assert(vars@.map_values(|v: (String, Var)| (v.0@, v.1@))
                            =~= before.map_values(|v: (String, Var)| (v.0@, v.1@)).push((name@, var@)));
                    }
                },
            }
            k += 1;
        }
        Ok(DataParser { vars })
    }
}

/// First position in `[i, b)` of `l` that is not whitespace, or `b`.
pub open spec fn trim_start(l: Seq<char>, i: int, b: int) -> int
    decreases b - i,
{
    if i < b && 0 <= i < l.len() && is_ws(l[i]) { trim_start(l, i + 1, b) } else { i }
}

/// Position after the last character in `[a, j)` of `l` that is not whitespace, or `a`.
pub open spec fn trim_end(l: Seq<char>, a: int, j: int) -> int
    decreases j - a,
{
    if a < j && 0 < j <= l.len() && is_ws(l[j - 1]) { trim_end(l, a, j - 1) } else { j }
}

/// `l` without whitespace at either end.
pub open spec fn trimmed(l: Seq<char>) -> Seq<char> {
    let a = trim_start(l, 0, l.len() as int);
    l.subrange(a, trim_end(l, a, l.len() as int))
}

/// Sections after one more source line (number `no`): comments (`;`) and
/// blank lines are skipped, `.name` opens a section, any other line goes
/// to the last section opened, or nowhere before the first.
pub open spec fn section_step(acc: Seq<(Seq<char>, Seq<(usize, Seq<char>)>)>, line: Seq<char>, no: nat) -> Seq<(Seq<char>, Seq<(usize, Seq<char>)>)> {
    if line.len() == 0 || line[0] == ';' {
        acc
    } else if line[0] == '.' {
        acc.push((line.subrange(1, line.len() as int), Seq::empty()))
    } else if acc.len() == 0 {
        acc
    } else {
        acc.update(acc.len() - 1, (acc.last().0, acc.last().1.push((no as usize, line))))
    }
}

/// Sections of the source lines from position `i` on, `no` lines read so far.
pub open spec fn sections_from(s: Seq<char>, i: int, no: nat, acc: Seq<(Seq<char>, Seq<(usize, Seq<char>)>)>) -> Seq<(Seq<char>, Seq<(usize, Seq<char>)>)>
    decreases s.len() - i,
{
    if i < 0 || i >= s.len() {
        acc
    } else {
        let e = line_end(s, i);
        let next = section_step(acc, trimmed(line_at(s, i)), no + 1);
        if i <= e && e < s.len() { sections_from(s, e + 1, no + 1, next) } else { next }
    }
}

pub open spec fn chunks_view(cs: Seq<Chunk>) -> Seq<(Seq<char>, Seq<(usize, Seq<char>)>)> {
    cs.map_values(|c: Chunk| (c@.0, lines_v(c@.1)))
}

fn trim(l: &str) -> (t: &str)
    ensures
        t@ == trimmed(l@),
{
    let n = l.unicode_len();
    let mut a: usize = 0;
    while a < n && ws(l.get_char(a))
        invariant
            n == l@.len(),
            a <= n,
            trim_start(l@, 0, n as int) == trim_start(l@, a as int, n as int),
        decreases n - a,
    {
        a += 1;
    }
    let mut b: usize = n;
    while b > a && ws(l.get_char(b - 1))
        invariant
            n == l@.len(),
            a <= b <= n,
            trim_end(l@, a as int, n as int) == trim_end(l@, a as int, b as int),
        decreases b,
    {
        b -= 1;
    }
    l.substring_char(a, b)
}

/// Splits assembler source into its sections: each `.name` line opens one,
/// and the lines after it, trimmed and numbered from 1, go into it;
/// comments (`;`) and blank lines are skipped.
#[verifier::spinoff_prover]
pub fn chunks_of(source: &str) -> (r: Vec<Chunk>)
    ensures
        chunks_view(r@) == sections_from(source@, 0, 0, Seq::empty()),
{
    let n = source.unicode_len();
    let mut chunks: Vec<Chunk> = Vec::new();
    let mut i: usize = 0;
    let mut no: usize = 0;
    assert(chunks_view(chunks@) =~= Seq::<(Seq<char>, Seq<(usize, Seq<char>)>)>::empty());
    while i < n
        invariant
            n == source@.len(),
            i <= n,
            no <= i,
            sections_from(source@, 0, 0, Seq::empty()) == sections_from(source@, i as int, no as nat, chunks_view(chunks@)),
        decreases n - i,
    {
        let e = crate::parser::find_line_end(source, n, i);
        let e2 = if e > i && source.get_char(e - 1) == '\r' { e - 1 } else { e };
        let raw = source.substring_char(i, e2);
        assert(raw@ == line_at(source@, i as int));
        let line = trim(raw);
        let ln = line.unicode_len();
        let ghost acc = chunks_view(chunks@);
        if ln == 0 || line.get_char(0) == ';' {
        } else if line.get_char(0) == '.' {
            let name = line.substring_char(1, ln).to_owned();
            chunks.push(Chunk::new(name));
            proof {
                assert(lines_v(Seq::<(usize, String)>::empty()) =~= Seq::<(usize, Seq<char>)>::empty());
                assert(chunks_view(chunks@) =~= acc.push((line@.subrange(1, ln as int), Seq::empty())));
            }
        } else if chunks.len() > 0 {
            let last = chunks.len() - 1;
            let ghost old_chunks = chunks@;
            chunks[last].insert_line(line.to_owned(), no + 1);
            proof {
                assert(lines_v(chunks@[last as int]@.1) =~= lines_v(old_chunks[last as int]@.1).push(((no + 1) as usize, line@)));
                assert(chunks_view(chunks@) =~= acc.update(acc.len() - 1, (acc.last().0, acc.last().1.push(((no + 1) as usize, line@)))));
            }
        }
        no = no + 1;
        i = if e < n { e + 1 } else { n };
    }
    chunks
}

/// What a section holds.
#[derive(Debug, PartialEq, Eq, Clone, Copy)]
pub enum SectionKind {
    Code,
    Data,
    Other,
}

/// The kind of section called `name`: `code`, `data`, or another, which
/// the assembler rejects.
pub fn section_kind(name: &String) -> (k: SectionKind)
    ensures
        k == (if name@ == "code"@ {
            SectionKind::Code
        } else if name@ == "data"@ {
            SectionKind::Data
        } else {
            SectionKind::Other
        }),
{
    if crate::registers::str_eq(name.as_str(), "code") {
        SectionKind::Code
    } else if crate::registers::str_eq(name.as_str(), "data") {
        SectionKind::Data
    } else {
        SectionKind::Other
    }
}

/// The number of `base` filling `t` from `o`.
fn whole(t: &str, n: usize, o: usize, base: u32) -> (r: Option<u16>)
    requires
        n == t@.len(),
        o <= n,
        base == 2 || base == 8 || base == 10 || base == 16,
    ensures
        r == whole_number(t@, o as int, base as nat),
{
    let c = digit_count(t, n, o, base);
    if c > 0 && o + c == n {
        match number(t, n, o, base) {
            Some((v, _)) => Some(v),
            None => None,
        }
    } else {
        None
    }
}

impl Param {
    /// Reads the operand token `val`.
    pub fn build_with_value(val: &str) -> (p: Param)
        ensures
            param_v(p) == param_of(val@),
        decreases val@.len(),
    {
        let n = val.unicode_len();
        if n >= 1 && val.get_char(0) == '*' {
            let inner = Param::build_with_value(val.substring_char(1, n));
            return Param::Ptr(Box::new(inner));
        }
        if n < 2 {
            return match whole(val, n, 0, 10) {
                Some(v) => Param::Lit(v),
                None => Param::Flag(lowercase(val)),
            };
        }
        let mut id: u8 = 0;
        while id < REGISTER_COUNT
            invariant
                n == val@.len(),
                n >= 2,
                val@[0] != '*',
                id <= REGISTER_COUNT,
                register_named_from(val@, 0) == register_named_from(val@, id as int),
            decreases REGISTER_COUNT - id,
        {
            let name = register_str(id);
            if name.unicode_len() == n && crate::parser::matches(val, n, 0, name) {
                assert(register_named_from(val@, id as int) == Some(id as int));
                return Param::Reg(id);
            }
            id += 1;
        }
        let o: usize = if val.get_char(0) == '#' { 1 } else { 0 };
        proof {
            reveal_strlit("0x");
            reveal_strlit("0b");
            reveal_strlit("0o");
        }
        let v = if crate::parser::matches(val, n, o, "0x") {
            whole(val, n, o + 2, 16)
        } else if crate::parser::matches(val, n, o, "0b") {
            whole(val, n, o + 2, 2)
        } else if crate::parser::matches(val, n, o, "0o") {
            whole(val, n, o + 2, 8)
        } else {
            whole(val, n, o, 10)
        };
        match v {
            Some(v) => if o == 1 { Param::Mem(v) } else { Param::Lit(v) },
            None => Param::Flag(lowercase(val)),
        }
    }

    /// Bytes the operand takes in the code.
    pub fn param_len(&self) -> (n: usize)
        ensures
            n == param_size(param_v(*self)),
        decreases self,
    {
        match self {
            Param::Reg(_) => 1,
            Param::Ptr(b) => b.param_len(),
            _ => 2,
        }
    }
}

} // verus!
