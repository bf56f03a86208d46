//! The records that the debugger is given, and the line that registers
//! each of them.

use vstd::prelude::*;
use vstd::string::*;
use crate::names::same_text;
use crate::symbol::{Sym, SymModel, models};

verus! {

/// What a symbol is to the debugger.
#[derive(Debug, Clone, Copy, PartialEq, Eq, Structural)]
pub enum SymbolKind {
    /// A symbol of the section of executable code.
    Function,
    /// Any other symbol.
    Object,
}

/// The name of the section of executable code.
pub open spec fn code_section() -> Seq<char> {
    ".text"@
}

/// The kind of the symbols of a section, by the name of the section.
pub open spec fn kind_model(section: Seq<char>) -> SymbolKind {
    if section == code_section() {
        SymbolKind::Function
    } else {
        SymbolKind::Object
    }
}

/// The kind of the symbols of a section, by the name of the section.
pub fn kind_of(section: &str) -> (r: SymbolKind)
    ensures
        r == kind_model(section@),
{
    if same_text(section, ".text") {
        SymbolKind::Function
    } else {
        SymbolKind::Object
    }
}

/// One symbol as the debugger is told of it.
#[derive(Debug, PartialEq, Eq)]
pub struct Record {
    /// Address of the symbol in the loaded image.
    pub address: u64,
    pub size: u64,
    pub kind: SymbolKind,
    pub name: String,
}

/// A [`Record`] in contracts.
pub struct RecordModel {
    pub address: u64,
    pub size: u64,
    pub kind: SymbolKind,
    pub name: Seq<char>,
}

impl View for Record {
    type V = RecordModel;

    open spec fn view(&self) -> RecordModel {
        RecordModel { address: self.address, size: self.size, kind: self.kind, name: self.name@ }
    }
}

/// The record of a symbol in an image loaded at `global_base`: its
/// address is the base of the image, plus the base of its section,
/// plus its offset in the section.
pub open spec fn record_model(sym: SymModel, global_base: u32) -> RecordModel {
    RecordModel {
        address: (global_base + sym.sectbase + sym.addr) as u64,
        size: sym.size,
        kind: kind_model(sym.section),
        name: sym.name,
    }
}

/// The record of a symbol in an image loaded at `global_base`.
pub fn record_of(sym: &Sym, global_base: u32) -> (r: Record)
    ensures
        r@ == record_model(sym@, global_base),
        r.address == global_base + sym.sectbase + sym.addr,
{
    Record {
        address: sym.vaddr(global_base),
        size: sym.size,
        kind: kind_of(sym.section.as_str()),
        name: sym.name.clone(),
    }
}

/// The sixteen hexadecimal digits, in order of value.
pub open spec fn hex_digits() -> Seq<char> {
    "0123456789abcdef"@
}

/// A number in hexadecimal, most significant digit first, with as
/// many leading zeros as it takes to make `width` digits.
pub open spec fn hex(n: nat, width: nat) -> Seq<char>
    decreases n, width,
{
    if n < 16 && width <= 1 {
        seq![hex_digits()[n as int]]
    } else if width == 0 {
        hex(n / 16, 0).push(hex_digits()[(n % 16) as int])
    } else {
        hex(n / 16, (width - 1) as nat).push(hex_digits()[(n % 16) as int])
    }
}

/// The flag that tells the debugger the kind of a symbol.
pub open spec fn flag(kind: SymbolKind) -> Seq<char> {
    match kind {
        SymbolKind::Function => "-f"@,
        SymbolKind::Object => "-o"@,
    }
}

/// The line that registers a record with the debugger: the address,
/// the command, the flag of the kind, the size, the name.
pub open spec fn line_model(record: RecordModel) -> Seq<char> {
    "0x"@ + hex(record.address as nat, 8) + "::nmadd "@ + flag(record.kind) + " -s 0x"@ + hex(
        record.size as nat,
        8,
    ) + " "@ + record.name
}

/// One hexadecimal digit as text.
fn digit_text(d: u64) -> (r: &'static str)
    requires
        d < 16,
    ensures
        r@ == seq![hex_digits()[d as int]],
{
    proof {
        reveal_strlit("0123456789abcdef");
    }
    let r = "0123456789abcdef".substring_char(d as usize, d as usize + 1);
    assert(r@ =~= seq![hex_digits()[d as int]]);
    r
}

/// Appends a number in hexadecimal, at least `width` digits of it.
fn push_hex(out: &mut String, n: u64, width: u8)
    ensures
        final(out)@ == old(out)@ + hex(n as nat, width as nat),
    decreases n, width,
{
    if n >= 16 || width > 1 {
        let fewer: u8 = if width > 0 {
            width - 1
        } else {
            0
        };
        push_hex(out, n / 16, fewer);
    }
    let ghost front = out@;
    out.append(digit_text(n % 16));
    proof {
        let digit = hex_digits()[(n % 16) as int];
        assert(out@ == front + seq![digit]);
        if n >= 16 || width > 1 {
            let fewer: nat = if width > 0 {
                (width - 1) as nat
            } else {
                0
            };
            assert(front == old(out)@ + hex((n / 16) as nat, fewer));
            assert(hex(n as nat, width as nat) == hex((n / 16) as nat, fewer).push(digit));
            assert(out@ =~= old(out)@ + hex(n as nat, width as nat));
        } else {
            assert(front == old(out)@);
            assert(hex(n as nat, width as nat) == seq![digit]);
        }
    }
}

impl Record {
    /// The line that registers the record with the debugger.
    pub fn line(&self) -> (r: String)
        ensures
            r@ == line_model(self@),
    {
        let mut out = String::new();
        out.append("0x");
        push_hex(&mut out, self.address, 8);
        out.append("::nmadd ");
        match self.kind {
            SymbolKind::Function => out.append("-f"),
            SymbolKind::Object => out.append("-o"),
        }
        out.append(" -s 0x");
        push_hex(&mut out, self.size, 8);
        out.append(" ");
        out.append(self.name.as_str());
        assert(out@ =~= line_model(self@));
        out
    }
}

/// The lines of a list of symbols, one for each symbol, in the order
/// of the symbols.
pub open spec fn lines_model(syms: Seq<SymModel>, global_base: u32) -> Seq<Seq<char>> {
    syms.map_values(|sym: SymModel| line_model(record_model(sym, global_base)))
}

/// The texts of a sequence of strings, element by element.
pub open spec fn texts(lines: Seq<String>) -> Seq<Seq<char>> {
    lines.map_values(|line: String| line@)
}

/// The lines that register the symbols of an image loaded at
/// `global_base`.
pub fn lines(syms: &Vec<Sym>, global_base: u32) -> (r: Vec<String>)
    ensures
        texts(r@) == lines_model(models(syms@), global_base),
{
    let mut out: Vec<String> = Vec::new();
    let mut i: usize = 0;
    while i < syms.len()
        invariant
            i <= syms@.len(),
            out@.len() == i,
            forall|k: int|
                0 <= k < i ==> (#[trigger] out@[k])@ == line_model(
                    record_model(syms@[k]@, global_base),
                ),
        decreases syms.len() - i,
    {
        out.push(record_of(&syms[i], global_base).line());
        i += 1;
    }
    assert(texts(out@) =~= lines_model(models(syms@), global_base));
    out
}

} // verus!
