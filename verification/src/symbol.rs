//! A symbol table entry with a demangled name.
//!
//! A [`Symbol`] holds what an object file says of one symbol, as plain
//! values, and beside the raw name the name in readable form. The readable
//! form is computed once, when the entry is made.

use vstd::prelude::*;
use std::fmt::Write;

verus! {

/// The index of a section of an object file.
#[derive(Clone, Copy, Debug, PartialEq, Eq, Structural)]
pub struct SectionIndex(pub usize);

/// The kind of a symbol.
#[derive(Clone, Copy, Debug, PartialEq, Eq, Structural)]
pub enum SymbolKind {
    Unknown,
    Null,
    Text,
    Data,
    Section,
    File,
    Label,
    Tls,
}

/// The section where a symbol is defined.
#[derive(Clone, Copy, Debug, PartialEq, Eq, Structural)]
pub enum SymbolSection {
    Unknown,
    /// A section does not apply to this symbol, as for a file symbol.
    NotApplicable,
    Undefined,
    Absolute,
    Common,
    Section(SectionIndex),
}

/// How far a symbol is visible.
#[derive(Clone, Copy, Debug, PartialEq, Eq, Structural)]
pub enum SymbolScope {
    Unknown,
    /// Visible within the compilation unit only.
    Compilation,
    Linkage,
    Dynamic,
}

/// Flags of a symbol that depend on the file format.
#[derive(Clone, Copy, Debug, PartialEq, Eq, Structural)]
pub enum SymbolFlags {
    NoFlags,
    Elf { st_info: u8, st_other: u8 },
    MachO { n_desc: u16 },
    CoffSection { selection: u8, associative_section: SectionIndex },
}

/// The readable form that `rustc_demangle` gives to a symbol name.
pub uninterp spec fn demangled(mangled: Seq<char>) -> Seq<char>;

/// Calls `rustc_demangle::demangle` and writes the value it returns into a
/// string, in its plain `Display` form. The result is the named function of
/// the argument's characters: it depends on nothing else.
#[verifier::external_body]
fn demangle_name(mangled: &str) -> (r: String)
    ensures
        r@ == demangled(mangled@),
{
    let mut readable = String::new();
    let _ = write!(readable, "{}", rustc_demangle::demangle(mangled));
    readable
}

/// A symbol table entry.
#[derive(Clone, Debug)]
pub struct Symbol {
    demangled_name: Option<String>,
    raw_name: Option<String>,
    address: u64,
    size: u64,
    kind: SymbolKind,
    section: SymbolSection,
    weak: bool,
    scope: SymbolScope,
    flags: SymbolFlags,
}

/// What a [`Symbol`] holds.
pub ghost struct SymbolView {
    pub name: Option<Seq<char>>,
    pub orig_name: Option<Seq<char>>,
    pub address: u64,
    pub size: u64,
    pub kind: SymbolKind,
    pub section: SymbolSection,
    pub weak: bool,
    pub scope: SymbolScope,
    pub flags: SymbolFlags,
}

/// The characters of a string that may be absent.
pub open spec fn chars_of(text: Option<String>) -> Option<Seq<char>> {
    match text {
        Some(s) => Some(s@),
        None => None,
    }
}

/// The readable form of a name that may be absent.
pub open spec fn demangled_of(orig_name: Option<Seq<char>>) -> Option<Seq<char>> {
    match orig_name {
        Some(n) => Some(demangled(n)),
        None => None,
    }
}

impl View for Symbol {
    type V = SymbolView;

    closed spec fn view(&self) -> SymbolView {
        SymbolView {
            name: chars_of(self.demangled_name),
            orig_name: chars_of(self.raw_name),
            address: self.address,
            size: self.size,
            kind: self.kind,
            section: self.section,
            weak: self.weak,
            scope: self.scope,
            flags: self.flags,
        }
    }
}

impl Symbol {
    /// An entry with the given raw name and the readable name that goes with
    /// it. The readable name is kept only where there is a raw name.
    pub fn with_names(
        orig_name: Option<String>,
        readable: String,
        address: u64,
        size: u64,
        kind: SymbolKind,
        section: SymbolSection,
        weak: bool,
        scope: SymbolScope,
        flags: SymbolFlags,
    ) -> (r: Symbol)
        ensures
            r@ == (SymbolView {
                name: if orig_name is Some {
                    Some(readable@)
                } else {
                    None
                },
                orig_name: chars_of(orig_name),
                address,
                size,
                kind,
                section,
                weak,
                scope,
                flags,
            }),
    {
        let demangled_name: Option<String> = if orig_name.is_some() {
            Some(readable)
        } else {
            None
        };
        Symbol {
            demangled_name,
            raw_name: orig_name,
            address,
            size,
            kind,
            section,
            weak,
            scope,
            flags,
        }
    }

    /// An entry with the given raw name. Its readable name is the demangled
    /// form of the raw name.
    pub fn new(
        orig_name: Option<String>,
        address: u64,
        size: u64,
        kind: SymbolKind,
        section: SymbolSection,
        weak: bool,
        scope: SymbolScope,
        flags: SymbolFlags,
    ) -> (r: Symbol)
        ensures
            r@ == (SymbolView {
                name: demangled_of(chars_of(orig_name)),
                orig_name: chars_of(orig_name),
                address,
                size,
                kind,
                section,
                weak,
                scope,
                flags,
            }),
    {
        let readable: String = match &orig_name {
            Some(mangled) => demangle_name(mangled.as_str()),
            None => String::new(),
        };
        Symbol::with_names(orig_name, readable, address, size, kind, section, weak, scope, flags)
    }

    /// The demangled name, if this symbol has a name.
    pub fn name(&self) -> (r: Option<&str>)
        ensures
            r is Some == self@.name is Some,
            r matches Some(text) ==> text@ == self@.name->Some_0,
    {
        match &self.demangled_name {
            Some(text) => Some(text.as_str()),
            None => None,
        }
    }

    /// The name as the object file has it.
    pub fn orig_name(&self) -> (r: Option<&str>)
        ensures
            r is Some == self@.orig_name is Some,
            r matches Some(text) ==> text@ == self@.orig_name->Some_0,
    {
        match &self.raw_name {
            Some(text) => Some(text.as_str()),
            None => None,
        }
    }

    /// The kind of this symbol.
    pub fn kind(&self) -> (r: SymbolKind)
        ensures
            r == self@.kind,
    {
        self.kind
    }

    /// The section where the symbol is defined.
    pub fn section(&self) -> (r: SymbolSection)
        ensures
            r == self@.section,
    {
        self.section
    }

    /// The index of the section that holds this symbol, if it is defined in
    /// one.
    pub fn section_index(&self) -> (r: Option<SectionIndex>)
        ensures
            r == match self@.section {
                SymbolSection::Section(index) => Some(index),
                _ => None,
            },
    {
        match self.section {
            SymbolSection::Section(index) => Some(index),
            _ => None,
        }
    }

    /// Whether the symbol is undefined.
    pub fn is_undefined(&self) -> (r: bool)
        ensures
            r == (self@.section == SymbolSection::Undefined),
    {
        self.section == SymbolSection::Undefined
    }

    /// Whether the symbol is weak.
    pub fn is_weak(&self) -> (r: bool)
        ensures
            r == self@.weak,
    {
        self.weak
    }

    /// Whether the symbol is visible outside of the compilation unit. A
    /// symbol of unknown scope counts as global.
    pub fn is_global(&self) -> (r: bool)
        ensures
            r == (self@.scope != SymbolScope::Compilation),
    {
        !self.is_local()
    }

    /// Whether the symbol is visible within the compilation unit only.
    pub fn is_local(&self) -> (r: bool)
        ensures
            r == (self@.scope == SymbolScope::Compilation),
    {
        self.scope == SymbolScope::Compilation
    }

    /// The scope of the symbol.
    pub fn scope(&self) -> (r: SymbolScope)
        ensures
            r == self@.scope,
    {
        self.scope
    }

    /// The flags that depend on the file format.
    pub fn flags(&self) -> (r: SymbolFlags)
        ensures
            r == self@.flags,
    {
        self.flags
    }

    /// The address of the symbol. Zero where it is unknown.
    pub fn address(&self) -> (r: u64)
        ensures
            r == self@.address,
    {
        self.address
    }

    /// The size of the symbol. Zero where it is unknown.
    pub fn size(&self) -> (r: u64)
        ensures
            r == self@.size,
    {
        self.size
    }
}

} // verus!
