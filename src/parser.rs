use vstd::prelude::*;
use crate::registers::{is_half, register_name, register_str};

verus! {

/// Operators of a bracketed expression.
#[derive(Debug, PartialEq, Eq, Clone, Copy)]
pub enum Operator {
    Plus,
    Minus,
    Multiply,
}

/// An operand of an instruction, or a piece of an expression.
#[derive(Debug, PartialEq, Eq)]
pub enum Parameter {
    RegU16(u8),
    RegU8(u8),
    Lit(u16),
    Expr(Vec<Parameter>),
    Var(String),
    Operator(Operator),
}

/// Kind of operand an instruction accepts.
#[derive(Debug, PartialEq, Clone, Copy)]
pub enum ParameterType {
    RegisterU16,
    RegisterU8,
    Literal,
}

/// One parsed source line: a mnemonic and up to two operands.
#[derive(Debug, PartialEq, Eq)]
pub struct Instruction {
    pub name: String,
    pub param1: Option<Parameter>,
    pub param2: Option<Parameter>,
}

impl Instruction {
    pub fn new(name: &str, param1: Option<Parameter>, param2: Option<Parameter>) -> (r: Self)
        ensures
            r.name@ == name@,
            r.param1 == param1,
            r.param2 == param2,
    {
        Self { name: name.to_owned(), param1, param2 }
    }
}

/// A parsed program: its instructions in source order.
#[derive(Default, Debug, PartialEq, Eq)]
pub struct Program {
    pub instructions: Vec<Instruction>,
}

/// What a nested-expression reader expects next.
pub enum BracketState {
    OpenBracket,
    OperatorOrClosingBracket,
    ElementOrOpeningBracket,
    ClosingBracket,
}

/// `x` reduced into `u16`.
pub open spec fn wrap(x: int) -> u16 {
    (x % 0x1_0000) as u16
}

/// Abstract value of a parsed operand or expression piece.
pub ghost enum ParamView {
    RegU16(u8),
    RegU8(u8),
    Lit(u16),
    Var(Seq<char>),
    Expr(Seq<ParamView>),
    Op(Operator),
}

/// What an operand stands for.
pub open spec fn param_view(p: Parameter) -> ParamView
    decreases p,
{
    match p {
        Parameter::RegU16(r) => ParamView::RegU16(r),
        Parameter::RegU8(r) => ParamView::RegU8(r),
        Parameter::Lit(v) => ParamView::Lit(v),
        Parameter::Var(n) => ParamView::Var(n@),
        Parameter::Expr(v) => ParamView::Expr(views(v@, v@.len())),
        Parameter::Operator(o) => ParamView::Op(o),
    }
}

/// What the first `n` pieces of `s` stand for.
pub open spec fn views(s: Seq<Parameter>, n: nat) -> Seq<ParamView>
    decreases s, n,
{
    if n == 0 || n > s.len() {
        Seq::empty()
    } else {
        views(s, (n - 1) as nat).push(param_view(s[n - 1]))
    }
}

/// Value of a literal or of a bracketed expression without variables.
pub open spec fn param_value(p: Parameter) -> Option<u16> {
    view_value(param_view(p))
}

/// Value of a literal or of an expression without variables.
pub open spec fn view_value(p: ParamView) -> Option<u16>
    decreases p,
{
    match p {
        ParamView::Lit(v) => Some(v),
        ParamView::Expr(s) => if s.len() % 2 == 1 { expr_value(s, s.len(), 1) } else { None },
        _ => None,
    }
}

/// Value of `s[..n] * tail`, multiplications before additions and
/// subtractions, all reduced into `u16`.
pub open spec fn expr_value(s: Seq<ParamView>, n: nat, tail: u16) -> Option<u16>
    decreases s, n,
{
    if n == 0 || n > s.len() {
        None
    } else {
        match view_value(s[n - 1]) {
            None => None,
            Some(v) => {
                let p = wrap(v * tail);
                if n == 1 {
                    Some(p)
                } else {
                    match s[n - 2] {
                        ParamView::Op(Operator::Multiply) => expr_value(s, (n - 2) as nat, p),
                        ParamView::Op(Operator::Plus) => match expr_value(s, (n - 2) as nat, 1) {
                            Some(a) => Some(wrap(a + p)),
                            None => None,
                        },
                        ParamView::Op(Operator::Minus) => match expr_value(s, (n - 2) as nat, 1) {
                            Some(a) => Some(wrap(a - p)),
                            None => None,
                        },
                        _ => None,
                    }
                }
            },
        }
    }
}

/// `p` adds or subtracts.
pub open spec fn is_additive(p: ParamView) -> bool {
    p == ParamView::Op(Operator::Plus) || p == ParamView::Op(Operator::Minus)
}

/// The longest run of whole terms at the start of `w`, ending before an
/// addition or subtraction at or below `j`, whose value is known: its
/// length, or 0 when there is none of at least two terms.
pub open spec fn const_prefix_from(w: Seq<ParamView>, j: int) -> int
    decreases j,
{
    if j < 3 {
        0
    } else if j < w.len() && is_additive(w[j]) && expr_value(w, j as nat, 1) is Some {
        j
    } else {
        const_prefix_from(w, j - 2)
    }
}

/// `w` with its leading run of terms without variables folded into the
/// literal of their value: `1 + 2 + :v` becomes `3 + :v`. Since additions
/// and subtractions go left to right, the value does not change.
pub open spec fn fold_prefix(w: Seq<ParamView>) -> Seq<ParamView> {
    let k = const_prefix_from(w, w.len() - 2);
    if w.len() % 2 == 1 && k >= 3 {
        seq![ParamView::Lit(expr_value(w, k as nat, 1)->Some_0)] + w.subrange(k, w.len() as int)
    } else {
        w
    }
}

/// A piece with every group inside it that has no variable replaced by its
/// value, and the leading run of constant terms of the others folded.
pub open spec fn reduce_piece(p: ParamView) -> ParamView
    decreases p, 0nat,
{
    match p {
        ParamView::Expr(s) => match view_value(p) {
            Some(v) => ParamView::Lit(v),
            None => ParamView::Expr(fold_prefix(reduce_items(s, s.len()))),
        },
        _ => p,
    }
}

/// The first `n` pieces of `s`, each reduced.
pub open spec fn reduce_items(s: Seq<ParamView>, n: nat) -> Seq<ParamView>
    decreases s, n,
{
    if n == 0 || n > s.len() {
        Seq::empty()
    } else {
        reduce_items(s, (n - 1) as nat).push(reduce_piece(s[n - 1]))
    }
}

pub open spec fn is_space(c: char) -> bool {
    c == ' ' || c == '\t'
}

/// Number of spaces and tabs in `s` from position `i` on.
pub open spec fn spaces_at(s: Seq<char>, i: int) -> nat
    decreases s.len() - i,
{
    if 0 <= i < s.len() && is_space(s[i]) {
        1 + spaces_at(s, i + 1)
    } else {
        0
    }
}

/// `c` is `w` in either case (`w` lower case).
pub open spec fn ci_eq(c: char, w: char) -> bool {
    c == w || (97 <= w as u32 <= 122 && c as u32 + 32 == w as u32)
}

/// `s` holds `w` at position `i`, ignoring case.
pub open spec fn matches_at(s: Seq<char>, i: int, w: Seq<char>) -> bool {
    &&& 0 <= i
    &&& i + w.len() <= s.len()
    &&& forall|j: int| 0 <= j < w.len() ==> ci_eq(#[trigger] s[i + j], w[j])
}

/// Number of mnemonics.
pub const MNEMONIC_COUNT: usize = 26;

/// The mnemonics, in the order they are tried (`call` before `cal`).
pub open spec fn mnemonic(k: int) -> Seq<char> {
    if k == 0 { "mov"@ }
    else if k == 1 { "add"@ }
    else if k == 2 { "sub"@ }
    else if k == 3 { "mul"@ }
    else if k == 4 { "inc"@ }
    else if k == 5 { "dec"@ }
    else if k == 6 { "cmp"@ }
    else if k == 7 { "jmp"@ }
    else if k == 8 { "jeq"@ }
    else if k == 9 { "jne"@ }
    else if k == 10 { "jgt"@ }
    else if k == 11 { "jge"@ }
    else if k == 12 { "jlt"@ }
    else if k == 13 { "jle"@ }
    else if k == 14 { "psh"@ }
    else if k == 15 { "pop"@ }
    else if k == 16 { "call"@ }
    else if k == 17 { "cal"@ }
    else if k == 18 { "ret"@ }
    else if k == 19 { "lsf"@ }
    else if k == 20 { "rsf"@ }
    else if k == 21 { "and"@ }
    else if k == 22 { "or"@ }
    else if k == 23 { "xor"@ }
    else if k == 24 { "not"@ }
    else { "end"@ }
}

/// First mnemonic from the `k`-th on that `s` starts with.
pub open spec fn mnemonic_from(s: Seq<char>, k: int) -> Option<int>
    decreases MNEMONIC_COUNT - k,
{
    if k < 0 || k >= MNEMONIC_COUNT {
        None
    } else if matches_at(s, 0, mnemonic(k)) {
        Some(k)
    } else {
        mnemonic_from(s, k + 1)
    }
}

/// Value of digit `c` in `base`, if it is one.
pub open spec fn digit_value(c: char, base: nat) -> Option<nat> {
    let u = c as u32;
    if 48 <= u <= 57 && u - 48 < base {
        Some((u - 48) as nat)
    } else if base == 16 && 97 <= u <= 102 {
        Some((u - 87) as nat)
    } else if base == 16 && 65 <= u <= 70 {
        Some((u - 55) as nat)
    } else {
        None
    }
}

/// Number of digits of `base` in `s` from position `i` on.
pub open spec fn digits_at(s: Seq<char>, i: int, base: nat) -> nat
    decreases s.len() - i,
{
    if 0 <= i < s.len() && digit_value(s[i], base) is Some {
        1 + digits_at(s, i + 1, base)
    } else {
        0
    }
}

/// Value of the `n` digits of `base` at position `i`.
pub open spec fn number_at(s: Seq<char>, i: int, n: nat, base: nat) -> nat
    decreases n,
{
    if n == 0 {
        0
    } else {
        number_at(s, i, (n - 1) as nat, base) * base + match digit_value(s[i + n - 1], base) {
            Some(d) => d,
            None => 0,
        }
    }
}

/// The literal of `base` whose digits start at `i`, with `skip` prefix
/// characters before them, when it has digits and fits in 16 bits.
pub open spec fn number_lit(s: Seq<char>, i: int, skip: nat, base: nat) -> Option<(ParamView, nat)> {
    let n = digits_at(s, i + skip, base);
    let v = number_at(s, i + skip, n, base);
    if v <= 0xFFFF { Some((ParamView::Lit(v as u16), skip + n)) } else { None }
}

/// Literal at `i`: `0x` hex, `0b` binary, `0o` octal or decimal digits.
pub open spec fn lit_at(s: Seq<char>, i: int) -> Option<(ParamView, nat)> {
    if matches_at(s, i, "0x"@) && digits_at(s, i + 2, 16) > 0 {
        number_lit(s, i, 2, 16)
    } else if matches_at(s, i, "0b"@) && digits_at(s, i + 2, 2) > 0 {
        number_lit(s, i, 2, 2)
    } else if matches_at(s, i, "0o"@) && digits_at(s, i + 2, 8) > 0 {
        number_lit(s, i, 2, 8)
    } else if digits_at(s, i, 10) > 0 {
        number_lit(s, i, 0, 10)
    } else {
        None
    }
}

pub open spec fn is_letter(c: char) -> bool {
    (65 <= c as u32 <= 90) || (97 <= c as u32 <= 122)
}

/// Number of ASCII letters in `s` from position `i` on.
pub open spec fn letters_at(s: Seq<char>, i: int) -> nat
    decreases s.len() - i,
{
    if 0 <= i < s.len() && is_letter(s[i]) {
        1 + letters_at(s, i + 1)
    } else {
        0
    }
}

/// Variable at `i`: `:` and a name of letters.
pub open spec fn var_at(s: Seq<char>, i: int) -> Option<(ParamView, nat)> {
    let n = letters_at(s, i + 1);
    if 0 <= i < s.len() && s[i] == ':' && n > 0 {
        Some((ParamView::Var(s.subrange(i + 1, i + 1 + n)), 1 + n))
    } else {
        None
    }
}

/// Operator at `i`.
pub open spec fn op_at(s: Seq<char>, i: int) -> Option<Operator> {
    if 0 <= i < s.len() && s[i] == '+' {
        Some(Operator::Plus)
    } else if 0 <= i < s.len() && s[i] == '-' {
        Some(Operator::Minus)
    } else if 0 <= i < s.len() && s[i] == '*' {
        Some(Operator::Multiply)
    } else {
        None
    }
}

/// Parenthesised group at `i`: `(`, pieces (groups, literals, variables)
/// separated by operators, `)`. Spaces may follow every token. Gives the
/// group and the characters read.
pub open spec fn group_at(s: Seq<char>, i: int) -> Option<(ParamView, nat)>
    decreases s.len() - i, 0nat,
{
    if 0 <= i < s.len() && s[i] == '(' {
        let j = i + 1 + spaces_at(s, i + 1);
        if j < s.len() {
            match group_items(s, j, Seq::empty()) {
                Some((items, end)) => Some((ParamView::Expr(items), (end - i) as nat)),
                None => None,
            }
        } else {
            None
        }
    } else {
        None
    }
}

/// The rest of a group from position `j`, after the pieces `acc`: gives
/// all its pieces and the position after it.
pub open spec fn group_items(s: Seq<char>, j: int, acc: Seq<ParamView>) -> Option<(Seq<ParamView>, int)>
    decreases s.len() - j, 1nat,
{
    if j < 0 || j >= s.len() {
        None
    } else {
        let e = if s[j] == '(' {
            group_at(s, j)
        } else {
            match lit_at(s, j) {
                Some(r) => Some(r),
                None => var_at(s, j),
            }
        };
        match e {
            None => None,
            Some((p, l)) => {
                let k = j + l + spaces_at(s, j + l);
                let acc2 = acc.push(p);
                if k < s.len() && s[k] == ')' {
                    Some((acc2, k + 1 + spaces_at(s, k + 1)))
                } else {
                    match op_at(s, k) {
                        Some(o) => {
                            let k2 = k + 1 + spaces_at(s, k + 1);
                            if j < k2 < s.len() {
                                group_items(s, k2, acc2.push(ParamView::Op(o)))
                            } else {
                                None
                            }
                        },
                        None => None,
                    }
                }
            },
        }
    }
}

/// Bracketed expression at `i`: `[`, pieces (literals, variables, groups)
/// separated by operators, `]`. Spaces may follow every token but the
/// last. Gives the expression and the characters read.
pub open spec fn bracket_at(s: Seq<char>, i: int) -> Option<(ParamView, nat)> {
    if 0 <= i < s.len() && s[i] == '[' {
        let j = i + 1 + spaces_at(s, i + 1);
        if j < s.len() {
            match bracket_items(s, j, Seq::empty()) {
                Some((items, end)) => Some((ParamView::Expr(items), (end - i) as nat)),
                None => None,
            }
        } else {
            None
        }
    } else {
        None
    }
}

/// The rest of a bracketed expression from position `j`, after the pieces `acc`.
pub open spec fn bracket_items(s: Seq<char>, j: int, acc: Seq<ParamView>) -> Option<(Seq<ParamView>, int)>
    decreases s.len() - j,
{
    if j < 0 || j >= s.len() {
        None
    } else {
        let e = match lit_at(s, j) {
            Some(r) => Some(r),
            None => match var_at(s, j) {
                Some(r) => Some(r),
                None => group_at(s, j),
            },
        };
        match e {
            None => None,
            Some((p, l)) => {
                let k = j + l + spaces_at(s, j + l);
                let acc2 = acc.push(p);
                if k < s.len() && s[k] == ']' {
                    Some((acc2, k + 1))
                } else {
                    match op_at(s, k) {
                        Some(o) => {
                            let k2 = k + 1 + spaces_at(s, k + 1);
                            if j < k2 < s.len() {
                                bracket_items(s, k2, acc2.push(ParamView::Op(o)))
                            } else {
                                None
                            }
                        },
                        None => None,
                    }
                }
            },
        }
    }
}

/// Abstract value of a parsed instruction.
pub ghost struct InstructionView {
    pub name: Seq<char>,
    pub param1: Option<ParamView>,
    pub param2: Option<ParamView>,
}

pub open spec fn instruction_view(i: Instruction) -> InstructionView {
    InstructionView {
        name: i.name@,
        param1: match i.param1 {
            Some(p) => Some(param_view(p)),
            None => None,
        },
        param2: match i.param2 {
            Some(p) => Some(param_view(p)),
            None => None,
        },
    }
}

/// An operand once its expression is reduced: a bracketed expression
/// without variables becomes the single literal of its value, any other
/// has its groups without variables reduced.
pub open spec fn reduce_param(p: ParamView) -> ParamView {
    match p {
        ParamView::Expr(items) => match view_value(p) {
            Some(v) => ParamView::Expr(seq![ParamView::Lit(v)]),
            None => ParamView::Expr(fold_prefix(reduce_items(items, items.len()))),
        },
        _ => p,
    }
}

/// Instruction on a line: two operands if it has them, else one; the
/// operands reduced.
pub open spec fn read_line(line: Seq<char>) -> Option<InstructionView> {
    match double_at(line) {
        Some((m, p1, p2, _)) => Some(InstructionView {
            name: mnemonic(m),
            param1: Some(reduce_param(p1)),
            param2: Some(reduce_param(p2)),
        }),
        None => match single_at(line) {
            Some((m, p1, _)) => Some(InstructionView {
                name: mnemonic(m),
                param1: Some(reduce_param(p1)),
                param2: None,
            }),
            None => None,
        },
    }
}

/// Position of the first line feed at or after `i`, or the end.
pub open spec fn line_end(s: Seq<char>, i: int) -> int
    decreases s.len() - i,
{
    if i < 0 || i >= s.len() || s[i] == '\n' {
        i
    } else {
        line_end(s, i + 1)
    }
}

/// Line starting at `i`, without its line feed or a carriage return before it.
pub open spec fn line_at(s: Seq<char>, i: int) -> Seq<char> {
    let e = line_end(s, i);
    if e > i && s[e - 1] == '\r' { s.subrange(i, e - 1) } else { s.subrange(i, e) }
}

/// Instructions of the lines from position `i` on; `None` when a line
/// holds none.
pub open spec fn program_from(s: Seq<char>, i: int) -> Option<Seq<InstructionView>>
    decreases s.len() - i,
{
    if i < 0 || i >= s.len() {
        Some(Seq::empty())
    } else {
        match read_line(line_at(s, i)) {
            None => None,
            Some(iv) => {
                let e = line_end(s, i);
                if i <= e && e < s.len() {
                    match program_from(s, e + 1) {
                        Some(rest) => Some(seq![iv] + rest),
                        None => None,
                    }
                } else {
                    Some(seq![iv])
                }
            },
        }
    }
}

/// A register an operand can name: all but `IP`, `SP` and `FP`.
pub open spec fn operand_register(id: int) -> bool {
    1 <= id < 18
}

/// First operand register from the `id`-th on whose name is at `i`.
pub open spec fn reg_from(s: Seq<char>, i: int, id: int) -> Option<(ParamView, nat)>
    decreases 18 - id,
{
    if id < 1 || id >= 18 {
        None
    } else if matches_at(s, i, register_name(id)) {
        Some((
            if is_half(id) { ParamView::RegU8(id as u8) } else { ParamView::RegU16(id as u8) },
            register_name(id).len(),
        ))
    } else {
        reg_from(s, i, id + 1)
    }
}

/// Operand at `i`: a register, a literal, a variable or a bracketed
/// expression, tried in that order.
pub open spec fn param_at(s: Seq<char>, i: int) -> Option<(ParamView, nat)> {
    match reg_from(s, i, 1) {
        Some(r) => Some(r),
        None => match lit_at(s, i) {
            Some(r) => Some(r),
            None => match var_at(s, i) {
                Some(r) => Some(r),
                None => bracket_at(s, i),
            },
        },
    }
}

/// A line `mnemonic operand operand`: the mnemonic and each operand are
/// followed by at least one space, but the last operand, which may be
/// followed by none. Gives the mnemonic, the operands and the characters
/// read.
pub open spec fn double_at(s: Seq<char>) -> Option<(int, ParamView, ParamView, nat)> {
    match mnemonic_from(s, 0) {
        None => None,
        Some(m) => {
            let i1 = mnemonic(m).len() as int;
            let i2 = i1 + spaces_at(s, i1);
            if spaces_at(s, i1) == 0 {
                None
            } else {
                match param_at(s, i2) {
                    None => None,
                    Some((p1, l1)) => {
                        let i3 = i2 + l1;
                        let i4 = i3 + spaces_at(s, i3);
                        if spaces_at(s, i3) == 0 {
                            None
                        } else {
                            match param_at(s, i4) {
                                None => None,
                                Some((p2, l2)) => {
                                    let i5 = i4 + l2;
                                    Some((m, p1, p2, (i5 + spaces_at(s, i5)) as nat))
                                },
                            }
                        }
                    },
                }
            }
        },
    }
}

/// A line `mnemonic operand`, read as `double_at` reads its first operand
/// and its last.
pub open spec fn single_at(s: Seq<char>) -> Option<(int, ParamView, nat)> {
    match mnemonic_from(s, 0) {
        None => None,
        Some(m) => {
            let i1 = mnemonic(m).len() as int;
            let i2 = i1 + spaces_at(s, i1);
            if spaces_at(s, i1) == 0 {
                None
            } else {
                match param_at(s, i2) {
                    None => None,
                    Some((p1, l1)) => {
                        let i3 = i2 + l1;
                        Some((m, p1, (i3 + spaces_at(s, i3)) as nat))
                    },
                }
            }
        },
    }
}

/// Position after the spaces and tabs at `i`.
fn skip_spaces(s: &str, n: usize, i: usize) -> (j: usize)
    requires
        n == s@.len(),
        i <= n,
    ensures
        j == i + spaces_at(s@, i as int),
        j <= n,
{
    let mut k = i;
    while k < n && (s.get_char(k) == ' ' || s.get_char(k) == '\t')
        invariant
            n == s@.len(),
            i <= k <= n,
            spaces_at(s@, i as int) == (k - i) + spaces_at(s@, k as int),
        decreases n - k,
    {
        k += 1;
    }
    k
}

/// `c` is `w` in either case (`w` lower case).
fn same_letter(c: char, w: char) -> (b: bool)
    ensures
        b == ci_eq(c, w),
{
    c == w || (w as u32 >= 97 && w as u32 <= 122 && c as u32 == w as u32 - 32)
}

/// `s` holds `w` at position `i`, ignoring case.
pub(crate) fn matches(s: &str, n: usize, i: usize, w: &str) -> (b: bool)
    requires
        n == s@.len(),
    ensures
        b == matches_at(s@, i as int, w@),
{
    let m = w.unicode_len();
    if i > n || m > n - i {
        return false;
    }
    let mut j: usize = 0;
    while j < m
        invariant
            n == s@.len(),
            m == w@.len(),
            i + m <= n,
            j <= m,
            forall|k: int| 0 <= k < j ==> ci_eq(#[trigger] s@[i + k], w@[k]),
        decreases m - j,
    {
        if !same_letter(s.get_char(i + j), w.get_char(j)) {
            assert(!ci_eq(s@[i + j as int], w@[j as int]));
            return false;
        }
        j += 1;
    }
    true
}

/// Mnemonic number `k`.
pub(crate) fn mnemonic_str(k: usize) -> (w: &'static str)
    requires
        k < MNEMONIC_COUNT,
    ensures
        w@ == mnemonic(k as int),
{
    match k {
        0 => "mov",
        1 => "add",
        2 => "sub",
        3 => "mul",
        4 => "inc",
        5 => "dec",
        6 => "cmp",
        7 => "jmp",
        8 => "jeq",
        9 => "jne",
        10 => "jgt",
        11 => "jge",
        12 => "jlt",
        13 => "jle",
        14 => "psh",
        15 => "pop",
        16 => "call",
        17 => "cal",
        18 => "ret",
        19 => "lsf",
        20 => "rsf",
        21 => "and",
        22 => "or",
        23 => "xor",
        24 => "not",
        _ => "end",
    }
}

/// The mnemonic `s` starts with, and its length.
fn find_mnemonic(s: &str, n: usize) -> (r: Option<(usize, usize)>)
    requires
        n == s@.len(),
    ensures
        mnemonic_from(s@, 0) is None <==> r is None,
        r matches Some((k, l)) ==> {
            &&& mnemonic_from(s@, 0) == Some(k as int)
            &&& l == mnemonic(k as int).len()
            &&& l <= n
            &&& k < MNEMONIC_COUNT
        },
{
    let mut k: usize = 0;
    while k < MNEMONIC_COUNT
        invariant
            n == s@.len(),
            k <= MNEMONIC_COUNT,
            mnemonic_from(s@, 0) == mnemonic_from(s@, k as int),
        decreases MNEMONIC_COUNT - k,
    {
        let w = mnemonic_str(k);
        if matches(s, n, 0, w) {
            return Some((k, w.unicode_len()));
        }
        k += 1;
    }
    None
}

/// Value of digit `c` in `base`.
fn digit(c: char, base: u32) -> (r: Option<u32>)
    requires
        base == 2 || base == 8 || base == 10 || base == 16,
    ensures
        match digit_value(c, base as nat) {
            Some(d) => r == Some(d as u32) && d < base,
            None => r is None,
        },
{
    let u = c as u32;
    if u >= 48 && u <= 57 && u - 48 < base {
        Some(u - 48)
    } else if base == 16 && u >= 97 && u <= 102 {
        Some(u - 87)
    } else if base == 16 && u >= 65 && u <= 70 {
        Some(u - 55)
    } else {
        None
    }
}

/// More digits never make a smaller number.
proof fn lemma_number_grows(s: Seq<char>, i: int, a: nat, b: nat, base: nat)
    requires
        a <= b,
        base >= 1,
    ensures
        number_at(s, i, a, base) <= number_at(s, i, b, base),
    decreases b,
{
    if a < b {
        lemma_number_grows(s, i, a, (b - 1) as nat, base);
        let x = number_at(s, i, (b - 1) as nat, base);
        assert(x <= x * base) by (nonlinear_arith)
            requires base >= 1, x >= 0;
    }
}

/// The number of `base` whose digits start at `i`, and how many digits it has,
/// when it fits in 16 bits.
pub(crate) fn number(s: &str, n: usize, i: usize, base: u32) -> (r: Option<(u16, usize)>)
    requires
        n == s@.len(),
        i <= n,
        base == 2 || base == 8 || base == 10 || base == 16,
    ensures
        ({
            let cnt = digits_at(s@, i as int, base as nat);
            let v = number_at(s@, i as int, cnt, base as nat);
            &&& v <= 0xFFFF ==> r == Some((v as u16, cnt as usize))
            &&& v > 0xFFFF ==> r is None
            &&& i + cnt <= n
        }),
{
    let cnt = digit_count(s, n, i, base);
    let mut k: usize = 0;
    let mut val: u32 = 0;
    while k < cnt
        invariant
            n == s@.len(),
            i + cnt <= n,
            k <= cnt,
            cnt == digits_at(s@, i as int, base as nat),
            forall|j: int| i <= j < i + cnt ==> digit_value(#[trigger] s@[j], base as nat) is Some,
            val as nat == number_at(s@, i as int, k as nat, base as nat),
            val <= 0xFFFF,
            base == 2 || base == 8 || base == 10 || base == 16,
        decreases cnt - k,
    {
        let d = match digit(s.get_char(i + k), base) {
            Some(d) => d,
            None => 0,
        };
        proof {
            assert(s@[i + (k + 1) - 1] == s@[i + k]);
        }
        let next = val * base + d;
        if next > 0xFFFF {
            proof {
                lemma_number_grows(s@, i as int, (k + 1) as nat, cnt as nat, base as nat);
            }
            return None;
        }
        val = next;
        k += 1;
    }
    Some((val as u16, cnt))
}

/// The literal at `i` and its length.
fn lit(s: &str, n: usize, i: usize) -> (r: Option<(u16, usize)>)
    requires
        n == s@.len(),
        i <= n,
    ensures
        match lit_at(s@, i as int) {
            Some((ParamView::Lit(v), l)) => r == Some((v, l as usize)),
            Some(_) => false,
            None => r is None,
        },
        r matches Some((_, l)) ==> i + l <= n,
        lit_at(s@, i as int) matches Some((_, l)) ==> i + l <= n,
{
    let prefixed = i < n && n - i >= 2;
    if prefixed && matches(s, n, i, "0x") && digit_count(s, n, i + 2, 16) > 0 {
        let r = number(s, n, i + 2, 16)?;
        Some((r.0, r.1 + 2))
    } else if prefixed && matches(s, n, i, "0b") && digit_count(s, n, i + 2, 2) > 0 {
        let r = number(s, n, i + 2, 2)?;
        Some((r.0, r.1 + 2))
    } else if prefixed && matches(s, n, i, "0o") && digit_count(s, n, i + 2, 8) > 0 {
        let r = number(s, n, i + 2, 8)?;
        Some((r.0, r.1 + 2))
    } else if digit_count(s, n, i, 10) > 0 {
        number(s, n, i, 10)
    } else {
        None
    }
}

/// Number of digits of `base` at `i`.
pub(crate) fn digit_count(s: &str, n: usize, i: usize, base: u32) -> (c: usize)
    requires
        n == s@.len(),
        i <= n,
        base == 2 || base == 8 || base == 10 || base == 16,
    ensures
        c == digits_at(s@, i as int, base as nat),
        i + c <= n,
        forall|j: int| i <= j < i + c ==> digit_value(#[trigger] s@[j], base as nat) is Some,
{
    let mut k = i;
    while k < n && digit(s.get_char(k), base).is_some()
        invariant
            n == s@.len(),
            i <= k <= n,
            base == 2 || base == 8 || base == 10 || base == 16,
            forall|j: int| i <= j < k ==> digit_value(#[trigger] s@[j], base as nat) is Some,
            digits_at(s@, i as int, base as nat) == (k - i) + digits_at(s@, k as int, base as nat),
        decreases n - k,
    {
        k += 1;
    }
    k - i
}

/// `c` is an ASCII letter.
fn letter(c: char) -> (b: bool)
    ensures
        b == is_letter(c),
{
    let u = c as u32;
    (u >= 65 && u <= 90) || (u >= 97 && u <= 122)
}

/// Number of ASCII letters at `i`.
fn letter_count(s: &str, n: usize, i: usize) -> (c: usize)
    requires
        n == s@.len(),
        i <= n,
    ensures
        c == letters_at(s@, i as int),
        i + c <= n,
{
    let mut k = i;
    while k < n && letter(s.get_char(k))
        invariant
            n == s@.len(),
            i <= k <= n,
            letters_at(s@, i as int) == (k - i) + letters_at(s@, k as int),
        decreases n - k,
    {
        k += 1;
    }
    k - i
}

/// Views of a prefix do not change when the sequence grows.
proof fn lemma_views_push(s: Seq<Parameter>, p: Parameter, k: nat)
    requires
        k <= s.len(),
    ensures
        views(s.push(p), k) == views(s, k),
    decreases k,
{
    if k > 0 {
        lemma_views_push(s, p, (k - 1) as nat);
        assert(s.push(p)[k - 1] == s[k - 1]);
    }
}

/// Views of a sequence grow with it.
proof fn lemma_views_push_last(s: Seq<Parameter>, p: Parameter)
    ensures
        views(s.push(p), s.len() + 1) == views(s, s.len()).push(param_view(p)),
{
    lemma_views_push(s, p, s.len());
    assert(s.push(p)[s.len() as int] == p);
}

/// Operator at `i`.
fn operator(s: &str, n: usize, i: usize) -> (r: Option<Operator>)
    requires
        n == s@.len(),
    ensures
        r == op_at(s@, i as int),
{
    if i >= n {
        return None;
    }
    let c = s.get_char(i);
    if c == '+' {
        Some(Operator::Plus)
    } else if c == '-' {
        Some(Operator::Minus)
    } else if c == '*' {
        Some(Operator::Multiply)
    } else {
        None
    }
}

/// Variable at `i`: its name and the characters read.
fn var(s: &str, n: usize, i: usize) -> (r: Option<(String, usize)>)
    requires
        n == s@.len(),
        i <= n,
    ensures
        match var_at(s@, i as int) {
            Some((pv, l)) => r matches Some((name, l2)) && ParamView::Var(name@) == pv && l2 == l
                && i + l <= n,
            None => r is None,
        },
{
    if i < n && s.get_char(i) == ':' {
        let c = letter_count(s, n, i + 1);
        if c > 0 {
            let name = s.substring_char(i + 1, i + 1 + c).to_owned();
            return Some((name, 1 + c));
        }
    }
    None
}

/// Parenthesised group at `i` and the characters read.
fn read_group(s: &str, n: usize, i: usize) -> (r: Option<(Parameter, usize)>)
    requires
        n == s@.len(),
        i <= n,
    ensures
        match group_at(s@, i as int) {
            Some((pv, l)) => r matches Some((p, l2)) && param_view(p) == pv && l2 == l && i + l <= n,
            None => r is None,
        },
    decreases n - i, 0nat,
{
    if i >= n || s.get_char(i) != '(' {
        return None;
    }
    let j = skip_spaces(s, n, i + 1);
    if j >= n {
        return None;
    }
    let (items, end) = read_group_items(s, n, j, Vec::new())?;
    Some((Parameter::Expr(items), end - i))
}

/// The rest of a group from `j`, after the pieces `acc`.
fn read_group_items(s: &str, n: usize, j: usize, acc: Vec<Parameter>) -> (r: Option<(Vec<Parameter>, usize)>)
    requires
        n == s@.len(),
        j < n,
    ensures
        match group_items(s@, j as int, views(acc@, acc@.len())) {
            Some((items, end)) => r matches Some((v, e)) && views(v@, v@.len()) == items && e == end
                && e <= n && j < e,
            None => r is None,
        },
    decreases n - j, 1nat,
{
    let mut acc = acc;
    let (p, l) = if s.get_char(j) == '(' {
        read_group(s, n, j)?
    } else {
        match lit(s, n, j) {
            Some((v, l)) => (Parameter::Lit(v), l),
            None => {
                let (name, l) = var(s, n, j)?;
                (Parameter::Var(name), l)
            },
        }
    };
    let k = skip_spaces(s, n, j + l);
    let ghost before = acc@;
    acc.push(p);
    proof {
        lemma_views_push_last(before, p);
    }
    if k < n && s.get_char(k) == ')' {
        let end = skip_spaces(s, n, k + 1);
        return Some((acc, end));
    }
    let o = operator(s, n, k)?;
    let k2 = skip_spaces(s, n, k + 1);
    if !(j < k2 && k2 < n) {
        return None;
    }
    let ghost before = acc@;
    acc.push(Parameter::Operator(o));
    proof {
        lemma_views_push_last(before, Parameter::Operator(o));
    }
    read_group_items(s, n, k2, acc)
}

/// Bracketed expression at `i` and the characters read.
fn read_bracket(s: &str, n: usize, i: usize) -> (r: Option<(Parameter, usize)>)
    requires
        n == s@.len(),
        i <= n,
    ensures
        match bracket_at(s@, i as int) {
            Some((pv, l)) => r matches Some((p, l2)) && param_view(p) == pv && l2 == l && i + l <= n,
            None => r is None,
        },
{
    if i >= n || s.get_char(i) != '[' {
        return None;
    }
    let j = skip_spaces(s, n, i + 1);
    if j >= n {
        return None;
    }
    let (items, end) = read_bracket_items(s, n, j, Vec::new())?;
    Some((Parameter::Expr(items), end - i))
}

/// The rest of a bracketed expression from `j`, after the pieces `acc`.
fn read_bracket_items(s: &str, n: usize, j: usize, acc: Vec<Parameter>) -> (r: Option<(Vec<Parameter>, usize)>)
    requires
        n == s@.len(),
        j < n,
    ensures
        match bracket_items(s@, j as int, views(acc@, acc@.len())) {
            Some((items, end)) => r matches Some((v, e)) && views(v@, v@.len()) == items && e == end
                && e <= n && j < e,
            None => r is None,
        },
    decreases n - j,
{
    let mut acc = acc;
    let (p, l) = match lit(s, n, j) {
        Some((v, l)) => (Parameter::Lit(v), l),
        None => match var(s, n, j) {
            Some((name, l)) => (Parameter::Var(name), l),
            None => read_group(s, n, j)?,
        },
    };
    let k = skip_spaces(s, n, j + l);
    let ghost before = acc@;
    acc.push(p);
    proof {
        lemma_views_push_last(before, p);
    }
    if k < n && s.get_char(k) == ']' {
        return Some((acc, k + 1));
    }
    let o = operator(s, n, k)?;
    let k2 = skip_spaces(s, n, k + 1);
    if !(j < k2 && k2 < n) {
        return None;
    }
    let ghost before = acc@;
    acc.push(Parameter::Operator(o));
    proof {
        lemma_views_push_last(before, Parameter::Operator(o));
    }
    read_bracket_items(s, n, k2, acc)
}

/// The operand at `i` and its length.
fn param(s: &str, n: usize, i: usize) -> (r: Option<(Parameter, usize)>)
    requires
        n == s@.len(),
        i <= n,
    ensures
        match param_at(s@, i as int) {
            Some((pv, l)) => r matches Some((p, l2)) && param_view(p) == pv && l2 == l,
            None => r is None,
        },
        r matches Some((_, l)) ==> i + l <= n,
{
    let mut id: u8 = 1;
    while id < 18
        invariant
            n == s@.len(),
            1 <= id <= 18,
            reg_from(s@, i as int, 1) == reg_from(s@, i as int, id as int),
        decreases 18 - id,
    {
        let w = register_str(id);
        if matches(s, n, i, w) {
            let l = w.unicode_len();
            if 2 <= id && id <= 12 && id % 3 != 1 {
                return Some((Parameter::RegU8(id), l));
            } else {
                return Some((Parameter::RegU16(id), l));
            }
        }
        id += 1;
    }
    if let Some((v, l)) = lit(s, n, i) {
        return Some((Parameter::Lit(v), l));
    }
    if let Some((name, l)) = var(s, n, i) {
        return Some((Parameter::Var(name), l));
    }
    read_bracket(s, n, i)
}

/// Reads a bracketed expression `[ … ]` at the start of `input`: literals,
/// `:variables` and parenthesised groups separated by `+`, `-` and `*`.
/// Gives the number of characters read and the expression.
pub fn get_expression(input: &str) -> (r: Option<(usize, Parameter)>)
    ensures
        match bracket_at(input@, 0) {
            Some((pv, l)) => r matches Some((k, p)) && k == l && param_view(p) == pv,
            None => r is None,
        },
{
    let n = input.unicode_len();
    let (p, l) = read_bracket(input, n, 0)?;
    Some((l, p))
}

/// Reads a parenthesised group `( … )` at the start of `input`, and the
/// spaces after it. Gives the number of characters read and the group.
pub fn get_bracketed_expression(input: &str) -> (r: Option<(usize, Parameter)>)
    ensures
        match group_at(input@, 0) {
            Some((pv, l)) => r matches Some((k, p)) && k == l && param_view(p) == pv,
            None => r is None,
        },
{
    let n = input.unicode_len();
    let (p, l) = read_group(input, n, 0)?;
    Some((l, p))
}

/// The operand with its expression reduced.
fn reduce_operand(p: Parameter) -> (r: Parameter)
    ensures
        param_view(r) == reduce_param(param_view(p)),
{
    match p {
        Parameter::Expr(v) => {
            proof {
                lemma_views_index(v@, v@.len());
            }
            let (v2, x) = reduce_vec(&v);
            proof {
                lemma_views_index(v2@, v2@.len());
                if x is Some {
                    assert(views(v2@, v2@.len()) =~= seq![ParamView::Lit(x->Some_0)]);
                }
            }
            Parameter::Expr(v2)
        },
        other => other,
    }
}

/// The instruction on `line`, its operands reduced.
fn read_instruction(line: &str) -> (r: Option<Instruction>)
    ensures
        match read_line(line@) {
            Some(iv) => r matches Some(ins) && instruction_view(ins) == iv,
            None => r is None,
        },
{
    let ins = match get_double_param_ins(line) {
        Some((_, ins)) => ins,
        None => match get_single_param_ins(line) {
            Some((_, ins)) => ins,
            None => return None,
        },
    };
    let Instruction { name, param1, param2 } = ins;
    let param1 = match param1 {
        Some(p) => Some(reduce_operand(p)),
        None => None,
    };
    let param2 = match param2 {
        Some(p) => Some(reduce_operand(p)),
        None => None,
    };
    Some(Instruction { name, param1, param2 })
}

/// Position of the first line feed at or after `i`, or the end.
pub(crate) fn find_line_end(s: &str, n: usize, i: usize) -> (e: usize)
    requires
        n == s@.len(),
        i <= n,
    ensures
        e == line_end(s@, i as int),
        i <= e <= n,
{
    let mut k = i;
    while k < n && s.get_char(k) != '\n'
        invariant
            n == s@.len(),
            i <= k <= n,
            line_end(s@, i as int) == line_end(s@, k as int),
        decreases n - k,
    {
        k += 1;
    }
    k
}

/// Views of a sequence of instructions.
pub open spec fn instruction_views(s: Seq<Instruction>) -> Seq<InstructionView> {
    s.map_values(|x: Instruction| instruction_view(x))
}

/// Reading the line at `i` moves the program read so far past it.
proof fn lemma_program_step(s: Seq<char>, i: int, out: Seq<Instruction>, ins: Instruction)
    requires
        0 <= i < s.len(),
        i <= line_end(s, i) <= s.len(),
        read_line(line_at(s, i)) == Some(instruction_view(ins)),
    ensures
        ({
            let e = line_end(s, i);
            let next = if e < s.len() { e + 1 } else { s.len() as int };
            (match program_from(s, i) {
                Some(rest) => Some(instruction_views(out) + rest),
                None => None::<Seq<InstructionView>>,
            }) == (match program_from(s, next) {
                Some(rest) => Some(instruction_views(out.push(ins)) + rest),
                None => None::<Seq<InstructionView>>,
            })
        }),
{
    let e = line_end(s, i);
    assert(instruction_views(out.push(ins)) =~= instruction_views(out).push(instruction_view(ins)));
    if e < s.len() {
        if let Some(r2) = program_from(s, e + 1) {
            assert(instruction_views(out) + (seq![instruction_view(ins)] + r2)
                =~= instruction_views(out.push(ins)) + r2);
        }
    } else {
        assert(instruction_views(out) + seq![instruction_view(ins)]
            =~= instruction_views(out.push(ins)) + Seq::<InstructionView>::empty());
    }
}

/// Reads a program: one instruction per line, each with two operands or
/// one, and reduces the bracketed expressions among the operands.
/// `None` when a line holds no instruction.
pub fn parse_program(code: &str) -> (r: Option<Program>)
    ensures
        match program_from(code@, 0) {
            Some(ivs) => r matches Some(p) && instruction_views(p.instructions@) == ivs,
            None => r is None,
        },
{
    let n = code.unicode_len();
    let mut out: Vec<Instruction> = Vec::new();
    let mut i: usize = 0;
    assert(instruction_views(out@) + program_from(code@, 0)->Some_0 =~= program_from(code@, 0)->Some_0);
    while i < n
        invariant
            n == code@.len(),
            i <= n,
            program_from(code@, 0) == match program_from(code@, i as int) {
                Some(rest) => Some(instruction_views(out@) + rest),
                None => None::<Seq<InstructionView>>,
            },
        decreases n - i,
    {
        let e = find_line_end(code, n, i);
        let e2 = if e > i && code.get_char(e - 1) == '\r' { e - 1 } else { e };
        let line = code.substring_char(i, e2);
        assert(line@ == line_at(code@, i as int));
        let ins = match read_instruction(line) {
            Some(ins) => ins,
            None => return None,
        };
        proof {
            lemma_program_step(code@, i as int, out@, ins);
        }
        out.push(ins);
        i = if e < n { e + 1 } else { n };
    }
    assert(instruction_views(out@) + Seq::<InstructionView>::empty() =~= instruction_views(out@));
    Some(Program { instructions: out })
}

/// `c` with an ASCII upper-case letter taken to lower case, as a code point.
pub open spec fn fold_case(c: char) -> u32 {
    if 65 <= c as u32 <= 90 { (c as u32 + 32) as u32 } else { c as u32 }
}

/// `input` starts with `word`, letters compared without regard to case.
pub open spec fn starts_with_ci(input: Seq<char>, word: Seq<char>) -> bool {
    &&& word.len() <= input.len()
    &&& forall|j: int| 0 <= j < word.len() ==> fold_case(#[trigger] input[j]) == fold_case(word[j])
}

fn fold(c: char) -> (u: u32)
    ensures
        u == fold_case(c),
{
    let u = c as u32;
    if u >= 65 && u <= 90 { u + 32 } else { u }
}

/// Splits `input` after `to_match` when it starts with it, letters compared
/// without regard to case: gives the rest and the matched part, in the case
/// `input` has it.
pub fn upper_or_lower_str<'a>(to_match: &str, input: &'a str) -> (r: Option<(&'a str, &'a str)>)
    ensures
        starts_with_ci(input@, to_match@) ==> (r matches Some((rest, tag)) && {
            &&& tag@ == input@.subrange(0, to_match@.len() as int)
            &&& rest@ == input@.subrange(to_match@.len() as int, input@.len() as int)
        }),
        !starts_with_ci(input@, to_match@) ==> r is None,
{
    let m = to_match.unicode_len();
    let n = input.unicode_len();
    if m > n {
        return None;
    }
    let mut j: usize = 0;
    while j < m
        invariant
            m == to_match@.len(),
            n == input@.len(),
            m <= n,
            j <= m,
            forall|k: int| 0 <= k < j ==> fold_case(#[trigger] input@[k]) == fold_case(to_match@[k]),
        decreases m - j,
    {
        if fold(input.get_char(j)) != fold(to_match.get_char(j)) {
            return None;
        }
        j += 1;
    }
    Some((input.substring_char(m, n), input.substring_char(0, m)))
}

/// Reads a line `mnemonic operand operand`: the mnemonic and the first
/// operand are followed by spaces, the second by any number of them.
/// Gives the number of characters read and the instruction, named by the
/// mnemonic in lower case; `None` when the line does not start that way.
pub fn get_double_param_ins(input: &str) -> (r: Option<(usize, Instruction)>)
    ensures
        match double_at(input@) {
            Some((m, p1, p2, len)) => r matches Some((k, ins)) && {
                &&& k == len
                &&& ins.name@ == mnemonic(m)
                &&& ins.param1 matches Some(q1) && param_view(q1) == p1
                &&& ins.param2 matches Some(q2) && param_view(q2) == p2
            },
            None => r is None,
        },
{
    let n = input.unicode_len();
    let (m, i1) = find_mnemonic(input, n)?;
    let i2 = skip_spaces(input, n, i1);
    if i2 == i1 {
        return None;
    }
    let (p1, l1) = param(input, n, i2)?;
    let i3 = i2 + l1;
    let i4 = skip_spaces(input, n, i3);
    if i4 == i3 {
        return None;
    }
    let (p2, l2) = param(input, n, i4)?;
    let i5 = skip_spaces(input, n, i4 + l2);
    Some((i5, Instruction::new(mnemonic_str(m), Some(p1), Some(p2))))
}

/// Reads a line `mnemonic operand`, the mnemonic followed by spaces, the
/// operand by any number of them. Gives the number of characters read and
/// the instruction; `None` when the line does not start that way.
pub fn get_single_param_ins(input: &str) -> (r: Option<(usize, Instruction)>)
    ensures
        match single_at(input@) {
            Some((m, p1, len)) => r matches Some((k, ins)) && {
                &&& k == len
                &&& ins.name@ == mnemonic(m)
                &&& ins.param1 matches Some(q1) && param_view(q1) == p1
                &&& ins.param2 is None
            },
            None => r is None,
        },
{
    let n = input.unicode_len();
    let (m, i1) = find_mnemonic(input, n)?;
    let i2 = skip_spaces(input, n, i1);
    if i2 == i1 {
        return None;
    }
    let (p1, l1) = param(input, n, i2)?;
    let i3 = skip_spaces(input, n, i2 + l1);
    let ins = Instruction::new(mnemonic_str(m), Some(p1), None);
    Some((i3, ins))
}

/// Adding into `u16` regroups.
proof fn lemma_wrap_add(a: u16, p: u16, c: u16)
    ensures
        wrap(wrap(a + p) + c) == wrap(a + ((c as int + p as int) % 0x1_0000)),
{
}

/// Subtracting into `u16` regroups.
proof fn lemma_wrap_sub(a: u16, p: u16, c: u16)
    ensures
        wrap(wrap(a - p) + c) == wrap(a + ((c as int + 0x1_0000 - p as int) % 0x1_0000)),
{
}

/// `v * tail` reduced into `u16`.
fn times(v: u16, tail: u16) -> (r: u16)
    ensures
        r == wrap(v * tail),
{
    assert(v as int * tail as int <= 0xFFFF * 0xFFFF) by (nonlinear_arith)
        requires v <= 0xFFFF, tail <= 0xFFFF;
    ((v as u32 * tail as u32) % 0x1_0000) as u16
}

/// The view of piece `k` of a sequence is the view of that piece.
proof fn lemma_views_index(s: Seq<Parameter>, n: nat)
    requires
        n <= s.len(),
    ensures
        views(s, n).len() == n,
        forall|k: int| 0 <= k < n ==> #[trigger] views(s, n)[k] == param_view(s[k]),
    decreases n,
{
    if n > 0 {
        lemma_views_index(s, (n - 1) as nat);
    }
}

/// The reduced pieces are the pieces, each reduced.
proof fn lemma_reduce_items_index(s: Seq<ParamView>, n: nat)
    requires
        n <= s.len(),
    ensures
        reduce_items(s, n).len() == n,
        forall|k: int| 0 <= k < n ==> #[trigger] reduce_items(s, n)[k] == reduce_piece(s[k]),
    decreases n,
{
    if n > 0 {
        lemma_reduce_items_index(s, (n - 1) as nat);
    }
}

/// Value of a literal or of a bracketed expression without variables.
fn value(p: &Parameter) -> (r: Option<u16>)
    ensures
        r == param_value(*p),
    decreases p,
{
    match p {
        Parameter::Lit(v) => Some(*v),
        Parameter::Expr(v) => {
            proof {
                lemma_views_index(v@, v@.len());
            }
            eval_prefix(v, v.len())
        },
        _ => None,
    }
}

/// Value of the first `m` pieces of an expression: elements at even
/// positions, operators between them; `None` when a variable or anything
/// malformed is in them.
#[verifier::rlimit(40)]
fn eval_prefix(s: &Vec<Parameter>, m: usize) -> (r: Option<u16>)
    requires
        m <= s@.len(),
    ensures
        r == (if m % 2 == 1 { expr_value(views(s@, s@.len()), m as nat, 1) } else { None::<u16> }),
    decreases s,
{
    let n = m;
    if n % 2 == 0 {
        return None;
    }
    let ghost w = views(s@, s@.len());
    proof {
        lemma_views_index(s@, s@.len());
    }
    let mut k = n;
    let mut tail: u16 = 1;
    let mut acc: u16 = 0;
    while k > 1
        invariant
            n == m,
            n <= s@.len(),
            w == views(s@, s@.len()),
            w.len() == s@.len(),
            forall|j: int| 0 <= j < s@.len() ==> #[trigger] w[j] == param_view(s@[j]),
            1 <= k <= n,
            k % 2 == 1,
            expr_value(w, n as nat, 1) == match expr_value(w, k as nat, tail) {
                Some(a) => Some(wrap(a + acc)),
                None => None::<u16>,
            },
        decreases k,
    {
        let v = match value(&s[k - 1]) {
            Some(v) => v,
            None => return None,
        };
        assert(w[k - 1] == param_view(s@[k - 1]));
        assert(w[k - 2] == param_view(s@[k - 2]));
        let p = times(v, tail);
        match &s[k - 2] {
            Parameter::Operator(Operator::Multiply) => {
                tail = p;
            },
            Parameter::Operator(Operator::Plus) => {
                let ghost a0 = acc;
                acc = ((acc as u32 + p as u32) % 0x1_0000) as u16;
                proof {
                    if let Some(a) = expr_value(w, (k - 2) as nat, 1) {
                        lemma_wrap_add(a, p, a0);
                    }
                }
                tail = 1;
            },
            Parameter::Operator(Operator::Minus) => {
                let ghost a0 = acc;
                acc = ((acc as u32 + 0x1_0000 - p as u32) % 0x1_0000) as u16;
                proof {
                    if let Some(a) = expr_value(w, (k - 2) as nat, 1) {
                        lemma_wrap_sub(a, p, a0);
                    }
                }
                tail = 1;
            },
            _ => return None,
        }
        k -= 2;
    }
    assert(w[0] == param_view(s@[0]));
    match value(&s[0]) {
        Some(v) => Some(((times(v, tail) as u32 + acc as u32) % 0x1_0000) as u16),
        None => None,
    }
}

/// Folds the leading run of constant terms of `v` into one literal.
fn fold_leading(v: Vec<Parameter>) -> (r: Vec<Parameter>)
    ensures
        views(r@, r@.len()) == fold_prefix(views(v@, v@.len())),
{
    let ghost w = views(v@, v@.len());
    proof {
        lemma_views_index(v@, v@.len());
    }
    let n = v.len();
    if n % 2 == 0 || n < 5 {
        proof {
            if n % 2 == 1 {
                assert(const_prefix_from(w, n - 2) == 0);
            }
        }
        return v;
    }
    let mut j: usize = n - 2;
    while j >= 3
        invariant
            n == v@.len(),
            w == views(v@, v@.len()),
            w.len() == n,
            forall|i: int| 0 <= i < n ==> #[trigger] w[i] == param_view(v@[i]),
            1 <= j <= n - 2,
            j % 2 == 1,
            n % 2 == 1,
            const_prefix_from(w, n - 2) == const_prefix_from(w, j as int),
        decreases j,
    {
        assert(w[j as int] == param_view(v@[j as int]));
        let additive = match &v[j] {
            Parameter::Operator(Operator::Plus) | Parameter::Operator(Operator::Minus) => true,
            _ => false,
        };
        if additive {
            if let Some(x) = eval_prefix(&v, j) {
                assert(const_prefix_from(w, j as int) == j);
                let ghost orig = v@;
                let mut v = v;
                let mut tail = v.split_off(j);
                let mut r = Vec::new();
                r.push(Parameter::Lit(x));
                r.append(&mut tail);
                proof {
                    lemma_views_index(r@, r@.len());
                    let f = fold_prefix(w);
                    assert(f == seq![ParamView::Lit(x)] + w.subrange(j as int, n as int));
                    assert(r@.len() == f.len());
                    assert forall|i: int| 0 <= i < r@.len() implies #[trigger] views(r@, r@.len())[i] == f[i] by {
                        if i > 0 {
                            assert(r@[i] == orig[j + i - 1]);
                            assert(f[i] == w[j + i - 1]);
                        }
                    }
                    assert(views(r@, r@.len()) =~= fold_prefix(w));
                }
                return r;
            }
        }
        j -= 2;
    }
    assert(const_prefix_from(w, j as int) == 0);
    v
}

/// Reduces every group in `v` that has no variable to its value, and `v`
/// itself when it has none; gives `v`'s value in that case.
fn reduce_vec(v: &Vec<Parameter>) -> (r: (Vec<Parameter>, Option<u16>))
    ensures
        r.1 == param_value(Parameter::Expr(*v)),
        r.1 matches Some(x) ==> r.0@ == seq![Parameter::Lit(x)],
        r.1 is None ==> views(r.0@, r.0@.len()) == fold_prefix(reduce_items(views(v@, v@.len()), v@.len())),
    decreases v,
{
    proof {
        lemma_views_index(v@, v@.len());
    }
    if let Some(x) = eval_prefix(v, v.len()) {
        let mut one = Vec::new();
        one.push(Parameter::Lit(x));
        assert(one@ =~= seq![Parameter::Lit(x)]);
        return (one, Some(x));
    }
    let ghost w = views(v@, v@.len());
    proof {
        lemma_reduce_items_index(w, v@.len());
    }
    let n = v.len();
    let mut out: Vec<Parameter> = Vec::new();
    let mut i: usize = 0;
    while i < n
        invariant
            n == v@.len(),
            w == views(v@, v@.len()),
            forall|j: int| 0 <= j < n ==> #[trigger] w[j] == param_view(v@[j]),
            i <= n,
            out@.len() == i,
            forall|j: int| 0 <= j < i ==> #[trigger] param_view(out@[j]) == reduce_piece(w[j]),
        decreases n - i,
    {
        let piece = match &v[i] {
            Parameter::Expr(sub) => {
                proof {
                    assert(decreases_to!(v => v[i as int]));
                    lemma_views_index(sub@, sub@.len());
                }
                let (sub2, x) = reduce_vec(sub);
                match x {
                    Some(x) => Parameter::Lit(x),
                    None => Parameter::Expr(sub2),
                }
            },
            Parameter::Lit(x) => Parameter::Lit(*x),
            Parameter::RegU8(r) => Parameter::RegU8(*r),
            Parameter::RegU16(r) => Parameter::RegU16(*r),
            Parameter::Var(name) => Parameter::Var(name.clone()),
            Parameter::Operator(o) => Parameter::Operator(*o),
        };
        assert(param_view(piece) == reduce_piece(w[i as int]));
        out.push(piece);
        i += 1;
    }
    proof {
        lemma_views_index(out@, out@.len());
        assert(views(out@, out@.len()) =~= reduce_items(w, n as nat));
    }
    (fold_leading(out), None)
}

/// Reduces a bracketed expression. Every group inside it that has no
/// variable becomes its value; when the whole expression has no variable it
/// becomes that single literal, which is returned. Otherwise the run of
/// terms without variables at the start of each expression and group is
/// folded into the literal of its value. Multiplications bind
/// tighter than additions and subtractions, which go left to right; all
/// arithmetic is reduced into `u16`.
pub fn reduce_expression(expr: &mut Vec<Parameter>) -> (r: Option<u16>)
    ensures
        r == param_value(Parameter::Expr(*old(expr))),
        r matches Some(v) ==> final(expr)@ == seq![Parameter::Lit(v)],
        r is None ==> views(final(expr)@, final(expr)@.len())
            == fold_prefix(reduce_items(views(old(expr)@, old(expr)@.len()), old(expr)@.len())),
{
    let (reduced, x) = reduce_vec(expr);
    *expr = reduced;
    x
}

} // verus!
