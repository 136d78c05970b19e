use vstd::prelude::*;

verus! {

/// Number of register identifiers; a fetched register byte is reduced modulo it.
pub const REGISTER_COUNT: u8 = 20;

/// Bytes of storage behind the register file: the 16-bit parents only,
/// since the 8-bit halves share their parent's bytes.
pub const REGISTER_LEN: usize = 24;

pub const IP: u8 = 0;
pub const ACC: u8 = 1;
pub const AH: u8 = 2;
pub const AL: u8 = 3;
pub const AX: u8 = 4;
pub const BH: u8 = 5;
pub const BL: u8 = 6;
pub const BX: u8 = 7;
pub const CH: u8 = 8;
pub const CL: u8 = 9;
pub const CX: u8 = 10;
pub const DH: u8 = 11;
pub const DL: u8 = 12;
pub const DX: u8 = 13;
pub const EX: u8 = 14;
pub const FX: u8 = 15;
pub const GX: u8 = 16;
pub const HX: u8 = 17;
pub const SP: u8 = 18;
pub const FP: u8 = 19;

/// True for the 8-bit halves `AH, AL, BH, BL, CH, CL, DH, DL`.
pub open spec fn is_half(r: int) -> bool {
    2 <= r <= 12 && r % 3 != 1
}

/// Width in bytes of register `r`.
pub open spec fn size_of(r: int) -> nat {
    if is_half(r) { 1 } else { 2 }
}

/// Offset of register `r` in the register file. A high half shares its
/// parent's offset; a low half is one byte further.
pub open spec fn address_of(r: int) -> nat {
    if r < 2 {
        (2 * r) as nat
    } else if r < 14 {
        let group = (r - 2) / 3;
        let pos = (r - 2) % 3;
        (4 + 2 * group + (if pos == 1 { 1int } else { 0int })) as nat
    } else {
        (12 + 2 * (r - 14)) as nat
    }
}

/// Name of register `r`, as callers spell it.
pub open spec fn register_name(r: int) -> Seq<char> {
    if r == 0 { "ip"@ }
    else if r == 1 { "acc"@ }
    else if r == 2 { "ah"@ }
    else if r == 3 { "al"@ }
    else if r == 4 { "ax"@ }
    else if r == 5 { "bh"@ }
    else if r == 6 { "bl"@ }
    else if r == 7 { "bx"@ }
    else if r == 8 { "ch"@ }
    else if r == 9 { "cl"@ }
    else if r == 10 { "cx"@ }
    else if r == 11 { "dh"@ }
    else if r == 12 { "dl"@ }
    else if r == 13 { "dx"@ }
    else if r == 14 { "ex"@ }
    else if r == 15 { "fx"@ }
    else if r == 16 { "gx"@ }
    else if r == 17 { "hx"@ }
    else if r == 18 { "sp"@ }
    else { "fp"@ }
}

/// First register at or after `i` that is called `n`.
pub open spec fn register_index_from(n: Seq<char>, i: int) -> Option<int>
    decreases 20 - i,
{
    if i >= 20 || i < 0 {
        None
    } else if register_name(i) == n {
        Some(i)
    } else {
        register_index_from(n, i + 1)
    }
}

/// Register called `n`, if any.
pub open spec fn register_index(n: Seq<char>) -> Option<int> {
    register_index_from(n, 0)
}

/// Width in bytes of register `r`.
pub fn register_size(r: u8) -> (s: u8)
    requires
        r < REGISTER_COUNT,
    ensures
        s as nat == size_of(r as int),
{
    if 2 <= r && r <= 12 && r % 3 != 1 { 1 } else { 2 }
}

/// Offset of register `r` in the register file.
pub fn register_address(r: u8) -> (a: usize)
    requires
        r < REGISTER_COUNT,
    ensures
        a as nat == address_of(r as int),
        a + size_of(r as int) <= REGISTER_LEN,
{
    if r < 2 {
        2 * r as usize
    } else if r < 14 {
        let group = ((r - 2) / 3) as usize;
        let pos = (r - 2) % 3;
        4 + 2 * group + if pos == 1 { 1 } else { 0 }
    } else {
        12 + 2 * (r - 14) as usize
    }
}

/// Character-wise equality of two strings.
pub fn str_eq(a: &str, b: &str) -> (r: bool)
    ensures
        r == (a@ == b@),
{
    let n = a.unicode_len();
    let m = b.unicode_len();
    if n != m {
        return false;
    }
    let mut i: usize = 0;
    while i < n
        invariant
            n == a@.len(),
            m == b@.len(),
            n == m,
            i <= n,
            forall|j: int| 0 <= j < i ==> a@[j] == b@[j],
        decreases n - i,
    {
        if a.get_char(i) != b.get_char(i) {
            return false;
        }
        i += 1;
    }
    assert(a@ =~= b@);
    true
}

/// Identifier of the register called `name`, if there is one.
pub fn register_id(name: &str) -> (r: Option<u8>)
    ensures
        r matches Some(id) ==> id < REGISTER_COUNT && register_index(name@) == Some(id as int),
        r is None ==> register_index(name@) is None,
{
    let mut id: u8 = 0;
    while id < REGISTER_COUNT
        invariant
            id <= REGISTER_COUNT,
            register_index(name@) == register_index_from(name@, id as int),
        decreases REGISTER_COUNT - id,
    {
        if str_eq(name, register_str(id)) {
            return Some(id);
        }
        id += 1;
    }
    None
}

/// Name of register `r` as a string.
pub fn register_str(r: u8) -> (s: &'static str)
    requires
        r < REGISTER_COUNT,
    ensures
        s@ == register_name(r as int),
{
    match r {
        0 => "ip",
        1 => "acc",
        2 => "ah",
        3 => "al",
        4 => "ax",
        5 => "bh",
        6 => "bl",
        7 => "bx",
        8 => "ch",
        9 => "cl",
        10 => "cx",
        11 => "dh",
        12 => "dl",
        13 => "dx",
        14 => "ex",
        15 => "fx",
        16 => "gx",
        17 => "hx",
        18 => "sp",
        _ => "fp",
    }
}

} // verus!
