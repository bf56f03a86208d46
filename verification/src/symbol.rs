//! The working entity of the reconciliation: a named symbol placed in
//! its section.

use vstd::prelude::*;

verus! {

/// A symbol with the section that owns it.
///
/// `addr` is the offset of the symbol inside its section; `sectbase`
/// and `sectsize` are copied from that section when the symbol is
/// placed.  `size` is zero until the layout of the neighbouring symbols
/// has been examined.
#[derive(Debug, PartialEq, Eq)]
pub struct Sym {
    pub sectbase: u32,
    pub sectsize: u32,
    pub addr: u32,
    pub section: String,
    pub name: String,
    pub size: u64,
}

/// What a [`Sym`] stands for in contracts: the same fields, with the
/// two strings as sequences of characters.
pub struct SymModel {
    pub sectbase: u32,
    pub sectsize: u32,
    pub addr: u32,
    pub section: Seq<char>,
    pub name: Seq<char>,
    pub size: u64,
}

impl SymModel {
    /// The address of the symbol in an image loaded at `global_base`.
    pub open spec fn vaddr(self, global_base: u32) -> int {
        global_base + self.sectbase + self.addr
    }

    /// The address of the symbol relative to the image: what decides
    /// whether two symbols are at the same place.
    pub open spec fn place(self) -> int {
        self.sectbase + self.addr
    }

    /// The first address past the end of the owning section.
    pub open spec fn section_end(self) -> int {
        self.sectbase + self.sectsize
    }

    /// The same symbol with another size.
    pub open spec fn with_size(self, size: u64) -> SymModel {
        SymModel { size, ..self }
    }
}

impl View for Sym {
    type V = SymModel;

    open spec fn view(&self) -> SymModel {
        SymModel {
            sectbase: self.sectbase,
            sectsize: self.sectsize,
            addr: self.addr,
            section: self.section@,
            name: self.name@,
            size: self.size,
        }
    }
}

impl Clone for Sym {
    fn clone(&self) -> (r: Self)
        ensures
            r@ == self@,
    {
        Sym {
            sectbase: self.sectbase,
            sectsize: self.sectsize,
            addr: self.addr,
            section: self.section.clone(),
            name: self.name.clone(),
            size: self.size,
        }
    }
}

impl Sym {
    /// The address of the symbol in an image loaded at `global_base`.
    ///
    /// The sum of three 32-bit quantities is returned in 64 bits, so no
    /// input makes it wrap.
    pub fn vaddr(&self, global_base: u32) -> (r: u64)
        ensures
            r == self@.vaddr(global_base),
            r == global_base + self.sectbase + self.addr,
    {
        global_base as u64 + self.sectbase as u64 + self.addr as u64
    }
}

/// The models of a sequence of symbols, element by element.
pub open spec fn models(syms: Seq<Sym>) -> Seq<SymModel> {
    syms.map_values(|s: Sym| s@)
}

} // verus!
