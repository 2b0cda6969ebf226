//! The dynamic symbol table of an ELF binary, as a catalog that maps names to
//! addresses and addresses to names.
use vstd::prelude::*;
use vstd::slice::slice_subrange;
use vstd::utf8::{decode_utf8, valid_utf8};
use crate::binreader::{le_u32, nul_index};
use crate::error::AnalysisError;

verus! {

/// Section type of the dynamic symbol table.
pub const SHT_DYNSYM: u32 = 0xb;

/// Section type of a string table.
pub const SHT_STRTAB: u32 = 0x3;

/// A section header as the catalog reads it, with the section's name when
/// the section-name string table gives one.
pub struct Section {
    pub name: Option<String>,
    pub sh_type: u32,
    pub offset: u64,
    pub size: u64,
}

pub open spec fn section_view(s: Section) -> (Option<Seq<char>>, u32, u64, u64) {
    (
        match s.name {
            Some(n) => Some(n@),
            None => None,
        },
        s.sh_type,
        s.offset,
        s.size,
    )
}

pub open spec fn sections_view(v: Seq<Section>) -> Seq<(Option<Seq<char>>, u32, u64, u64)> {
    Seq::new(v.len(), |i: int| section_view(v[i]))
}

/// What the ELF parser reads of the section headers of `data`: `None` when
/// the file header does not parse or there is no section header table.
pub uninterp spec fn elf_sections(data: Seq<u8>) -> Option<Seq<(Option<Seq<char>>, u32, u64, u64)>>;

/// Relies on `elf::ElfBytes::minimal_parse`, `ElfBytes::section_headers` and
/// `ElfBytes::section_headers_with_strtab`: the section headers of a
/// little-endian file, each with its name where the section-name string table
/// reads and has one; a missing or broken name table leaves every name out
/// rather than failing. The result depends on the bytes alone.
#[verifier::external_body]
pub(crate) fn read_sections(data: &Vec<u8>) -> (r: Option<Vec<Section>>)
    ensures
        match r {
            Some(v) => elf_sections(data@) == Some(sections_view(v@)),
            None => elf_sections(data@) is None,
        },
{
    let elf = elf::ElfBytes::<elf::endian::LittleEndian>::minimal_parse(data).ok()?;
    let shdrs = elf.section_headers()?;
    let strtab = elf.section_headers_with_strtab().ok().and_then(|(_, t)| t);
    Some(shdrs.iter().map(|h| Section {
        name: strtab.as_ref().and_then(|t| t.get(h.sh_name as usize).ok()).map(|s| s.to_string()),
        sh_type: h.sh_type,
        offset: h.sh_offset,
        size: h.sh_size,
    }).collect())
}

/// The string at `i` of the string table `t`: the bytes from `i` up to a
/// zero byte, which must exist, decoded as UTF-8.
pub open spec fn strtab_entry(t: Seq<u8>, i: int) -> Option<Seq<char>> {
    if 0 <= i < t.len() && nul_index(t, i) < t.len() && valid_utf8(t.subrange(i, nul_index(t, i))) {
        Some(decode_utf8(t.subrange(i, nul_index(t, i))))
    } else {
        None
    }
}

/// Relies on `elf::string_table::StringTable::get`, which fails on an empty
/// table, an index past the end, a string without its terminating zero and
/// bytes that are not UTF-8.
#[verifier::external_body]
fn strtab_get(table: &[u8], index: usize) -> (r: Option<String>)
    ensures
        match r {
            Some(s) => strtab_entry(table@, index as int) == Some(s@),
            None => strtab_entry(table@, index as int) is None,
        },
{
    elf::string_table::StringTable::new(table).get(index).ok().map(|s| s.to_string())
}

/// The (name index, value) pair of the `i`-th ELF32 symbol of `t`.
pub open spec fn symbol_entry(t: Seq<u8>, i: int) -> (u32, u32) {
    (le_u32(t, 16 * i), le_u32(t, 16 * i + 4))
}

/// Relies on `elf::symbol::SymbolTable` over ELF32 little-endian entries:
/// one symbol for every whole 16 bytes, its name index the `u32` at the
/// entry's start and its value the `u32` after it.
#[verifier::external_body]
fn symbol_entries(table: &[u8]) -> (r: Vec<(u32, u32)>)
    ensures
        r@.len() == table@.len() / 16,
        forall|i: int| 0 <= i < r@.len() ==> #[trigger] r@[i] == symbol_entry(table@, i),
{
    elf::symbol::SymbolTable::new(elf::endian::LittleEndian, elf::file::Class::ELF32, table)
        .iter()
        .map(|s| (s.st_name, s.st_value as u32))
        .collect()
}

/// The index of the first section of type `ty` from `i` on, or `s.len()`.
pub open spec fn first_of_type(s: Seq<(Option<Seq<char>>, u32, u64, u64)>, ty: u32, i: int) -> int
    decreases s.len() - i,
{
    if i < 0 || i >= s.len() {
        s.len() as int
    } else if s[i].1 == ty {
        i
    } else {
        first_of_type(s, ty, i + 1)
    }
}

/// The bytes of the section at `offset` of length `size`, when they lie in
/// `d`.
pub open spec fn section_bytes(d: Seq<u8>, offset: u64, size: u64) -> Option<Seq<u8>> {
    if offset + size <= d.len() {
        Some(d.subrange(offset as int, offset + size))
    } else {
        None
    }
}

/// The symbols of the table `tbl` with their names resolved through `st`.
pub open spec fn resolved_symbols(tbl: Seq<u8>, st: Seq<u8>) -> Result<
    Seq<(Seq<char>, u32)>,
    AnalysisError,
> {
    let n = tbl.len() / 16;
    if forall|i: int| 0 <= i < n ==> (#[trigger] strtab_entry(st, symbol_entry(tbl, i).0 as int)) is Some {
        Ok(
            Seq::new(
                n,
                |i: int| (strtab_entry(st, symbol_entry(tbl, i).0 as int)->Some_0, symbol_entry(tbl, i).1),
            ),
        )
    } else {
        Err(AnalysisError::NotFound)
    }
}

/// The symbols that a binary's dynamic symbol table lists, in table order,
/// or why they cannot be read.
pub open spec fn symbols_of(d: Seq<u8>) -> Result<Seq<(Seq<char>, u32)>, AnalysisError> {
    match elf_sections(d) {
        None => Err(AnalysisError::MissingSection),
        Some(ss) => {
            let di = first_of_type(ss, SHT_DYNSYM, 0);
            let si = first_of_type(ss, SHT_STRTAB, 0);
            if di >= ss.len() || si >= ss.len() {
                Err(AnalysisError::MissingSection)
            } else {
                match section_bytes(d, ss[si].2, ss[si].3) {
                    None => Err(AnalysisError::Truncated),
                    Some(st) => match section_bytes(d, ss[di].2, ss[di].3) {
                        None => Err(AnalysisError::Truncated),
                        Some(tbl) => resolved_symbols(tbl, st),
                    },
                }
            }
        },
    }
}

/// The name-to-address mapping of a symbol list: a later symbol of the same
/// name replaces an earlier one.
pub open spec fn name_map(s: Seq<(Seq<char>, u32)>) -> Map<Seq<char>, u32>
    decreases s.len(),
{
    if s.len() == 0 {
        Map::empty()
    } else {
        name_map(s.drop_last()).insert(s.last().0, s.last().1)
    }
}

/// The address-to-name mapping of a symbol list: a later symbol at the same
/// address replaces an earlier one.
pub open spec fn address_map(s: Seq<(Seq<char>, u32)>) -> Map<u32, Seq<char>>
    decreases s.len(),
{
    if s.len() == 0 {
        Map::empty()
    } else {
        address_map(s.drop_last()).insert(s.last().1, s.last().0)
    }
}

/// The symbols of one binary, by name and by address.
pub struct SymbolCatalog {
    entries: Vec<(String, u32)>,
}

impl SymbolCatalog {
    /// The symbols in table order.
    pub closed spec fn symbols(&self) -> Seq<(Seq<char>, u32)> {
        Seq::new(self.entries@.len(), |i: int| (self.entries@[i].0@, self.entries@[i].1))
    }

    pub open spec fn name_to_address(&self) -> Map<Seq<char>, u32> {
        name_map(self.symbols())
    }

    pub open spec fn address_to_name(&self) -> Map<u32, Seq<char>> {
        address_map(self.symbols())
    }

    /// Reads the dynamic symbol table of `data` and resolves each symbol's
    /// name through the first string table.
    pub fn load(data: &Vec<u8>) -> (r: Result<SymbolCatalog, AnalysisError>)
        ensures
            match r {
                Ok(c) => symbols_of(data@) == Ok::<_, AnalysisError>(c.symbols()),
                Err(e) => symbols_of(data@) == Err::<Seq<(Seq<char>, u32)>, _>(e),
            },
    {
        let sections = match read_sections(data) {
            Some(v) => v,
            None => {
                return Err(AnalysisError::MissingSection);
            },
        };
        let ghost ss = sections_view(sections@);
        let di = first_index_of_type(&sections, SHT_DYNSYM);
        let si = first_index_of_type(&sections, SHT_STRTAB);
        if di >= sections.len() || si >= sections.len() {
            return Err(AnalysisError::MissingSection);
        }
        let st = match section_slice(data, sections[si].offset, sections[si].size) {
            Some(b) => b,
            None => {
                return Err(AnalysisError::Truncated);
            },
        };
        let tbl = match section_slice(data, sections[di].offset, sections[di].size) {
            Some(b) => b,
            None => {
                return Err(AnalysisError::Truncated);
            },
        };
        let raw = symbol_entries(tbl);
        assert(symbols_of(data@) == resolved_symbols(tbl@, st@));
        let mut entries: Vec<(String, u32)> = Vec::new();
        let mut i: usize = 0;
        while i < raw.len()
            invariant
                symbols_of(data@) == resolved_symbols(tbl@, st@),
                i <= raw@.len(),
                raw@.len() == tbl@.len() / 16,
                forall|k: int| 0 <= k < raw@.len() ==> #[trigger] raw@[k] == symbol_entry(tbl@, k),
                entries@.len() == i,
                forall|k: int|
                    0 <= k < i ==> (#[trigger] strtab_entry(st@, symbol_entry(tbl@, k).0 as int))
                        == Some(entries@[k].0@) && entries@[k].1 == symbol_entry(tbl@, k).1,
            decreases raw.len() - i,
        {
            let (name_index, value) = raw[i];
            let name = match strtab_get(st, name_index as usize) {
                Some(n) => n,
                None => {
                    assert(strtab_entry(st@, symbol_entry(tbl@, i as int).0 as int) is None);
                    return Err(AnalysisError::NotFound);
                },
            };
            entries.push((name, value));
            i = i + 1;
        }
        let c = SymbolCatalog { entries };
        assert(forall|k: int| 0 <= k < raw@.len() ==> (#[trigger] strtab_entry(st@, symbol_entry(tbl@, k).0 as int)) is Some);
        assert(c.symbols() =~= resolved_symbols(tbl@, st@)->Ok_0);
        Ok(c)
    }
}

/// The index of the last symbol called `n`, or -1 when there is none: what
/// a scan of the names for an exact match, from the end, finds first.
pub open spec fn last_named(s: Seq<(Seq<char>, u32)>, n: Seq<char>) -> int
    decreases s.len(),
{
    if s.len() == 0 {
        -1
    } else if s.last().0 == n {
        s.len() - 1
    } else {
        last_named(s.drop_last(), n)
    }
}

/// The index of the last symbol at address `a`, or -1 when there is none.
pub open spec fn last_at(s: Seq<(Seq<char>, u32)>, a: u32) -> int
    decreases s.len(),
{
    if s.len() == 0 {
        -1
    } else if s.last().1 == a {
        s.len() - 1
    } else {
        last_at(s.drop_last(), a)
    }
}

/// Looking a name up in the name-to-address map agrees with scanning the
/// symbol list for an exact match: found exactly when a symbol has the name,
/// and then at the address of the last such symbol.
pub proof fn lemma_name_lookup_scan(s: Seq<(Seq<char>, u32)>, n: Seq<char>)
    ensures
        -1 <= last_named(s, n) < s.len(),
        last_named(s, n) >= 0 ==> s[last_named(s, n)].0 == n,
        forall|j: int| last_named(s, n) < j < s.len() ==> #[trigger] s[j].0 != n,
        name_map(s).contains_key(n) == (last_named(s, n) >= 0),
        last_named(s, n) >= 0 ==> name_map(s)[n] == s[last_named(s, n)].1,
    decreases s.len(),
{
    if s.len() > 0 {
        let t = s.drop_last();
        lemma_name_lookup_scan(t, n);
        assert(forall|k: int| 0 <= k < t.len() ==> t[k] == s[k]);
    }
}

/// Looking an address up in the address-to-name map agrees with scanning
/// the symbol list: found exactly when a symbol has the address, and then
/// with the name of the last such symbol.
pub proof fn lemma_address_lookup_scan(s: Seq<(Seq<char>, u32)>, a: u32)
    ensures
        -1 <= last_at(s, a) < s.len(),
        last_at(s, a) >= 0 ==> s[last_at(s, a)].1 == a,
        forall|j: int| last_at(s, a) < j < s.len() ==> #[trigger] s[j].1 != a,
        address_map(s).contains_key(a) == (last_at(s, a) >= 0),
        last_at(s, a) >= 0 ==> address_map(s)[a] == s[last_at(s, a)].0,
    decreases s.len(),
{
    if s.len() > 0 {
        let t = s.drop_last();
        lemma_address_lookup_scan(t, a);
        assert(forall|k: int| 0 <= k < t.len() ==> t[k] == s[k]);
    }
}

/// Loading reads nothing but the bytes: loading equal bytes twice gives
/// equal symbol lists, and so equal maps both ways.
pub proof fn lemma_load_idempotent(a: Seq<u8>, b: Seq<u8>)
    requires
        a == b,
    ensures
        symbols_of(a) == symbols_of(b),
        symbols_of(a) matches Ok(s) ==> symbols_of(b) matches Ok(t) && name_map(s) == name_map(t)
            && address_map(s) == address_map(t),
{
}

impl SymbolCatalog {
    /// The symbols in table order, each as its name and address.
    pub fn entries(&self) -> (r: &Vec<(String, u32)>)
        ensures
            r@.len() == self.symbols().len(),
            forall|i: int|
                0 <= i < r@.len() ==> (#[trigger] r@[i]).0@ == self.symbols()[i].0 && r@[i].1
                    == self.symbols()[i].1,
    {
        &self.entries
    }

    /// The address of the symbol called `name`.
    pub fn address_of(&self, name: &String) -> (r: Option<u32>)
        ensures
            r == (if self.name_to_address().contains_key(name@) {
                Some(self.name_to_address()[name@])
            } else {
                None::<u32>
            }),
    {
        proof {
            lemma_name_lookup_scan(self.symbols(), name@);
        }
        let mut i: usize = self.entries.len();
        assert(self.symbols().take(i as int) =~= self.symbols());
        while i > 0
            invariant
                i <= self.entries@.len(),
                last_named(self.symbols(), name@) == last_named(self.symbols().take(i as int), name@),
            decreases i,
        {
            let k = i - 1;
            assert(self.symbols().take(i as int).drop_last() =~= self.symbols().take(k as int));
            assert(self.symbols().take(i as int).last() == self.symbols()[k as int]);
            if self.entries[k].0.eq(name) {
                assert(last_named(self.symbols().take(i as int), name@) == k);
                proof {
                    lemma_name_lookup_scan(self.symbols(), name@);
                }
                return Some(self.entries[k].1);
            }
            i = k;
        }
        None
    }

    /// The name of the symbol at `address`.
    pub fn name_at(&self, address: u32) -> (r: Option<String>)
        ensures
            match r {
                Some(s) => self.address_to_name().contains_key(address) && self.address_to_name()[address]
                    == s@,
                None => !self.address_to_name().contains_key(address),
            },
    {
        proof {
            lemma_address_lookup_scan(self.symbols(), address);
        }
        let mut i: usize = self.entries.len();
        assert(self.symbols().take(i as int) =~= self.symbols());
        while i > 0
            invariant
                i <= self.entries@.len(),
                last_at(self.symbols(), address) == last_at(self.symbols().take(i as int), address),
            decreases i,
        {
            let k = i - 1;
            assert(self.symbols().take(i as int).drop_last() =~= self.symbols().take(k as int));
            assert(self.symbols().take(i as int).last() == self.symbols()[k as int]);
            if self.entries[k].1 == address {
                assert(last_at(self.symbols().take(i as int), address) == k);
                proof {
                    lemma_address_lookup_scan(self.symbols(), address);
                }
                return Some(self.entries[k].0.clone());
            }
            i = k;
        }
        None
    }
}

/// The index of the first section of type `ty`, or `v.len()`.
fn first_index_of_type(v: &Vec<Section>, ty: u32) -> (r: usize)
    ensures
        r == first_of_type(sections_view(v@), ty, 0),
{
    let mut i: usize = 0;
    while i < v.len()
        invariant
            i <= v@.len(),
            first_of_type(sections_view(v@), ty, 0) == first_of_type(sections_view(v@), ty, i as int),
        decreases v.len() - i,
    {
        if v[i].sh_type == ty {
            return i;
        }
        i = i + 1;
    }
    i
}

/// The bytes of a section, when they lie in `data`.
fn section_slice(data: &Vec<u8>, offset: u64, size: u64) -> (r: Option<&[u8]>)
    ensures
        match r {
            Some(b) => section_bytes(data@, offset, size) == Some(b@),
            None => section_bytes(data@, offset, size) is None,
        },
{
    let len = data.len() as u64;
    if size > len || offset > len - size {
        return None;
    }
    Some(slice_subrange(data.as_slice(), offset as usize, (offset + size) as usize))
}

} // verus!
