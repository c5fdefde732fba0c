use vstd::prelude::*;

use crate::chunk::{Chunk, OpCode};
use crate::value::Value;

verus! {

/// One line of disassembly: the instruction at `offset`, with the resolved
/// constant for a constant-load. `Corrupt` reports an operand slot reached
/// directly, or an `OpConstant` without a valid operand slot: the pairing
/// invariant was violated, and the walk stops there.
#[derive(Clone, Copy, PartialEq, Eq, Structural, Debug)]
pub enum DisasmEntry {
    Return { offset: usize },
    Constant { offset: usize, value: Value },
    Corrupt { offset: usize },
}

/// The disassembly of the single instruction at `off`.
pub open spec fn entry_at(code: Seq<OpCode>, consts: Seq<Value>, off: int) -> DisasmEntry {
    if 0 <= off < code.len() {
        match code[off] {
            OpCode::OpReturn => DisasmEntry::Return { offset: off as usize },
            OpCode::OpConstant => {
                if off + 1 < code.len() {
                    match code[off + 1] {
                        OpCode::ConstantIdx(i) => {
                            if (i as int) < consts.len() {
                                DisasmEntry::Constant { offset: off as usize, value: consts[i as int] }
                            } else {
                                DisasmEntry::Corrupt { offset: off as usize }
                            }
                        },
                        _ => DisasmEntry::Corrupt { offset: off as usize },
                    }
                } else {
                    DisasmEntry::Corrupt { offset: off as usize }
                }
            },
            OpCode::ConstantIdx(_) => DisasmEntry::Corrupt { offset: off as usize },
        }
    } else {
        DisasmEntry::Corrupt { offset: 0 }
    }
}

/// The disassembly of the whole instruction sequence from `off` on: one
/// entry per instruction, a return consuming one slot and a constant-load
/// two, stopping at the end or at the first corruption.
pub open spec fn disasm_spec(code: Seq<OpCode>, consts: Seq<Value>, off: int) -> Seq<DisasmEntry>
    decreases code.len() - off,
{
    if off < 0 || off >= code.len() {
        Seq::empty()
    } else {
        let e = entry_at(code, consts, off);
        match e {
            DisasmEntry::Return { .. } => seq![e] + disasm_spec(code, consts, off + 1),
            DisasmEntry::Constant { .. } => seq![e] + disasm_spec(code, consts, off + 2),
            DisasmEntry::Corrupt { .. } => seq![e],
        }
    }
}

/// One step of the disassembly walk: the entry at `offset`, and the number
/// of sequence slots it consumed (one for a return, two for a
/// constant-load and its operand slot).
pub fn disassemble_instruction(chunk: &Chunk, offset: usize) -> (r: (DisasmEntry, usize))
    requires
        offset < chunk.code@.len(),
    ensures
        r.0 == entry_at(chunk.code@, chunk.constants@, offset as int),
        r.1 == (if r.0 is Constant {
            2int
        } else {
            1int
        }),
{
    let n = chunk.code.len();
    match chunk.code[offset] {
        OpCode::OpReturn => (DisasmEntry::Return { offset }, 1),
        OpCode::OpConstant => {
            if offset < n - 1 {
                match chunk.code[offset + 1] {
                    OpCode::ConstantIdx(i) => {
                        if i < chunk.constants.len() {
                            let value = chunk.get_constant(offset);
                            (DisasmEntry::Constant { offset, value }, 2)
                        } else {
                            (DisasmEntry::Corrupt { offset }, 1)
                        }
                    },
                    _ => (DisasmEntry::Corrupt { offset }, 1),
                }
            } else {
                (DisasmEntry::Corrupt { offset }, 1)
            }
        },
        OpCode::ConstantIdx(_) => (DisasmEntry::Corrupt { offset }, 1),
    }
}

pub open spec fn digit_char(d: int) -> char {
    if d == 0 {
        '0'
    } else if d == 1 {
        '1'
    } else if d == 2 {
        '2'
    } else if d == 3 {
        '3'
    } else if d == 4 {
        '4'
    } else if d == 5 {
        '5'
    } else if d == 6 {
        '6'
    } else if d == 7 {
        '7'
    } else if d == 8 {
        '8'
    } else {
        '9'
    }
}

/// The decimal digits of `n`, most significant first.
pub open spec fn dec_digits(n: int) -> Seq<char>
    decreases n,
{
    if n < 10 {
        seq![digit_char(n)]
    } else {
        proof {
            assert(n / 10 < n) by (nonlinear_arith)
                requires
                    n >= 10,
            ;
        }
        dec_digits(n / 10).push(digit_char(n % 10))
    }
}

/// `s` right-justified in a field of `width`, filled with zeroes.
pub open spec fn zero_pad(s: Seq<char>, width: int) -> Seq<char> {
    if s.len() >= width {
        s
    } else {
        Seq::new((width - s.len()) as nat, |i: int| '0') + s
    }
}

/// `s` right-justified in a field of `width`, filled with spaces.
pub open spec fn space_pad(s: Seq<char>, width: int) -> Seq<char> {
    if s.len() >= width {
        s
    } else {
        Seq::new((width - s.len()) as nat, |i: int| ' ') + s
    }
}

fn digit_str(d: usize) -> (s: &'static str)
    requires
        d < 10,
    ensures
        s@ == seq![digit_char(d as int)],
{
    proof {
        reveal_strlit("0");
        reveal_strlit("1");
        reveal_strlit("2");
        reveal_strlit("3");
        reveal_strlit("4");
        reveal_strlit("5");
        reveal_strlit("6");
        reveal_strlit("7");
        reveal_strlit("8");
        reveal_strlit("9");
        assert("0"@ =~= seq!['0']);
        assert("1"@ =~= seq!['1']);
        assert("2"@ =~= seq!['2']);
        assert("3"@ =~= seq!['3']);
        assert("4"@ =~= seq!['4']);
        assert("5"@ =~= seq!['5']);
        assert("6"@ =~= seq!['6']);
        assert("7"@ =~= seq!['7']);
        assert("8"@ =~= seq!['8']);
        assert("9"@ =~= seq!['9']);
    }
    if d == 0 {
        "0"
    } else if d == 1 {
        "1"
    } else if d == 2 {
        "2"
    } else if d == 3 {
        "3"
    } else if d == 4 {
        "4"
    } else if d == 5 {
        "5"
    } else if d == 6 {
        "6"
    } else if d == 7 {
        "7"
    } else if d == 8 {
        "8"
    } else {
        "9"
    }
}

/// `n` in decimal.
pub fn render_number(n: usize) -> (s: String)
    ensures
        s@ == dec_digits(n as int),
    decreases n,
{
    if n < 10 {
        String::from_str(digit_str(n))
    } else {
        proof {
            assert(n / 10 < n) by (nonlinear_arith)
                requires
                    n >= 10,
            ;
        }
        let mut s = render_number(n / 10);
        s.append(digit_str(n % 10));
        s
    }
}

/// An instruction offset: its decimal digits, zero-padded to four.
pub fn render_offset(offset: usize) -> (s: String)
    ensures
        s@ == zero_pad(dec_digits(offset as int), 4),
{
    let digits = render_number(offset);
    let dlen = digits.as_str().unicode_len();
    let mut s = String::new();
    let mut k = dlen;
    while k < 4
        invariant
            dlen <= k,
            dlen < 4 ==> k <= 4,
            dlen >= 4 ==> k == dlen,
            dlen as int == dec_digits(offset as int).len(),
            digits@ == dec_digits(offset as int),
            s@ =~= Seq::new((k - dlen) as nat, |i: int| '0'),
        decreases 4 - k,
    {
        proof {
            reveal_strlit("0");
        }
        s.append("0");
        proof {
            assert(s@ =~= Seq::new((k + 1 - dlen) as nat, |i: int| '0'));
        }
        k = k + 1;
    }
    s.append(digits.as_str());
    proof {
        assert(s@ =~= zero_pad(dec_digits(offset as int), 4));
    }
    s
}

/// One disassembly line for a `Return`: the padded offset and the
/// mnemonic.
pub fn render_return_line(offset: usize) -> (s: String)
    ensures
        s@ == zero_pad(dec_digits(offset as int), 4) + " OP_RETURN"@,
{
    let mut s = render_offset(offset);
    s.append(" OP_RETURN");
    s
}

/// One disassembly line for a constant load: the padded offset, the
/// mnemonic left-justified in ten columns, and the constant's textual
/// image right-justified in sixteen. The image itself is handed in by the
/// caller, since rendering the numeric value is not this crate's work.
pub fn render_constant_line(offset: usize, value_text: &str) -> (s: String)
    ensures
        s@ == zero_pad(dec_digits(offset as int), 4) + " OP_CONSTANT "@ + space_pad(
            value_text@,
            16,
        ),
{
    let mut s = render_offset(offset);
    s.append(" OP_CONSTANT ");
    let ghost base = s@;
    let vlen = value_text.unicode_len();
    let mut k = vlen;
    while k < 16
        invariant
            vlen <= k,
            vlen < 16 ==> k <= 16,
            vlen >= 16 ==> k == vlen,
            vlen as int == value_text@.len(),
            s@ =~= base + Seq::new((k - vlen) as nat, |i: int| ' '),
        decreases 16 - k,
    {
        proof {
            reveal_strlit(" ");
        }
        s.append(" ");
        proof {
            assert(s@ =~= base + Seq::new((k + 1 - vlen) as nat, |i: int| ' '));
        }
        k = k + 1;
    }
    s.append(value_text);
    proof {
        assert(s@ =~= base + space_pad(value_text@, 16));
    }
    s
}

/// The header line above a chunk's disassembly.
pub fn render_header(name: &str) -> (s: String)
    ensures
        s@ == "===="@ + name@ + "===="@,
{
    let mut s = String::from_str("====");
    s.append(name);
    s.append("====");
    s
}

/// Walk the instruction sequence exactly once from offset 0, collecting
/// one entry per instruction. Rendering the entries as text is the
/// caller's business, since a constant's numeric image is.
pub fn disassemble(chunk: &Chunk) -> (r: Vec<DisasmEntry>)
    ensures
        r@ == disasm_spec(chunk.code@, chunk.constants@, 0),
{
    let mut out: Vec<DisasmEntry> = Vec::new();
    let mut off: usize = 0;
    loop
        invariant
            off <= chunk.code@.len(),
            disasm_spec(chunk.code@, chunk.constants@, 0) =~= out@ + disasm_spec(
                chunk.code@,
                chunk.constants@,
                off as int,
            ),
        decreases chunk.code@.len() - off,
    {
        if off >= chunk.code.len() {
            proof {
                assert(disasm_spec(chunk.code@, chunk.constants@, 0) =~= out@);
            }
            return out;
        }
        let (e, adv) = disassemble_instruction(chunk, off);
        out.push(e);
        if matches!(e, DisasmEntry::Corrupt { .. }) {
            proof {
                assert(disasm_spec(chunk.code@, chunk.constants@, 0) =~= out@);
            }
            return out;
        }
        proof {
            if e is Constant {
                assert(off + 1 < chunk.code@.len());
            }
        }
        off = off + adv;
    }
}

} // verus!
