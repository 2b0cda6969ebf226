//! From a binary and a class name to the class's hierarchy and vtable.
use vstd::prelude::*;
use vstd::utf8::encode_utf8;
use crate::binreader::{BinReader, fits, le_u32};
use crate::error::AnalysisError;
use crate::mangle::{get_vtable_mangled_name, vtable_symbol};
use crate::rtti::{Class, handle_typename, decode_typeinfo, tree_result};
use crate::symbols::{
    SymbolCatalog, elf_sections, sections_view, name_map, last_named,
    lemma_name_lookup_scan,
};
use crate::vtable::{get_class_vtable, class_vtable, groups_view};

verus! {

/// Name of the section that holds RTTI and vtables.
pub const DATA_REL_RO: &'static str = ".data.rel.ro";

/// The vtable symbols of the three `type_info` classes of the ABI.
pub const SI_CLASS_TYPE_INFO: &'static str = "_ZTVN10__cxxabiv120__si_class_type_infoE";

pub const CLASS_TYPE_INFO: &'static str = "_ZTVN10__cxxabiv117__class_type_infoE";

pub const VMI_CLASS_TYPE_INFO: &'static str = "_ZTVN10__cxxabiv121__vmi_class_type_infoE";

/// The index of the first section called `n` from `i` on, or `s.len()`.
pub open spec fn first_named(s: Seq<(Option<Seq<char>>, u32, u64, u64)>, n: Seq<char>, i: int) -> int
    decreases s.len() - i,
{
    if i < 0 || i >= s.len() {
        s.len() as int
    } else if s[i].0 == Some(n) {
        i
    } else {
        first_named(s, n, i + 1)
    }
}

/// The file range (start, end) of the first section called `n`.
pub open spec fn section_range_of(d: Seq<u8>, n: Seq<char>) -> Option<(u64, u64)> {
    match elf_sections(d) {
        None => None,
        Some(ss) => {
            let i = first_named(ss, n, 0);
            if i >= ss.len() || ss[i].2 + ss[i].3 > u64::MAX {
                None
            } else {
                Some((ss[i].2, (ss[i].2 + ss[i].3) as u64))
            }
        },
    }
}

/// The file range of the first section called `search_name`.
pub fn get_section_range(data: &Vec<u8>, search_name: &String) -> (r: Option<(u64, u64)>)
    ensures
        r == section_range_of(data@, search_name@),
{
    let sections = match crate::symbols::read_sections(data) {
        Some(v) => v,
        None => {
            return None;
        },
    };
    let ghost ss = sections_view(sections@);
    let mut i: usize = 0;
    while i < sections.len()
        invariant
            i <= sections@.len(),
            ss == sections_view(sections@),
            elf_sections(data@) == Some(ss),
            first_named(ss, search_name@, 0) == first_named(ss, search_name@, i as int),
        decreases sections.len() - i,
    {
        let hit = match &sections[i].name {
            Some(n) => n.eq(search_name),
            None => false,
        };
        if hit {
            let off = sections[i].offset;
            let size = sections[i].size;
            if size > u64::MAX - off {
                return None;
            }
            return Some((off, off + size));
        }
        i = i + 1;
    }
    None
}

/// What a symbol's address becomes once the 8 bytes of its vtable header
/// are skipped, wrapping around the range of `u32`.
pub open spec fn past_header(a: u32) -> u32 {
    if a <= u32::MAX - 8 {
        (a + 8) as u32
    } else {
        (a + 8 - 0x1_0000_0000) as u32
    }
}

fn skip_header(a: u32) -> (r: u32)
    ensures
        r == past_header(a),
{
    if a <= u32::MAX - 8 {
        a + 8
    } else {
        a - (u32::MAX - 7)
    }
}

/// The marker addresses of the three ABI `type_info` vtables, each past its
/// 8-byte header, or `NotFound` when one of the symbols is absent.
pub fn cxxabi_offsets(catalog: &SymbolCatalog) -> (r: Result<Vec<u32>, AnalysisError>)
    ensures
        match r {
            Ok(v) => v@.len() == 3 && catalog.name_to_address().contains_key(SI_CLASS_TYPE_INFO@)
                && catalog.name_to_address().contains_key(CLASS_TYPE_INFO@)
                && catalog.name_to_address().contains_key(VMI_CLASS_TYPE_INFO@) && v@ == seq![
                past_header(catalog.name_to_address()[SI_CLASS_TYPE_INFO@]),
                past_header(catalog.name_to_address()[CLASS_TYPE_INFO@]),
                past_header(catalog.name_to_address()[VMI_CLASS_TYPE_INFO@]),
            ],
            Err(e) => e == AnalysisError::NotFound && !(catalog.name_to_address().contains_key(
                SI_CLASS_TYPE_INFO@,
            ) && catalog.name_to_address().contains_key(CLASS_TYPE_INFO@)
                && catalog.name_to_address().contains_key(VMI_CLASS_TYPE_INFO@)),
        },
{
    let si = catalog.address_of(&SI_CLASS_TYPE_INFO.to_string());
    let cl = catalog.address_of(&CLASS_TYPE_INFO.to_string());
    let vmi = catalog.address_of(&VMI_CLASS_TYPE_INFO.to_string());
    match (si, cl, vmi) {
        (Some(a), Some(b), Some(c)) => {
            let v = vec![skip_header(a), skip_header(b), skip_header(c)];
            assert(v@ =~= seq![past_header(a), past_header(b), past_header(c)]);
            Ok(v)
        },
        _ => Err(AnalysisError::NotFound),
    }
}

/// The address of the vtable symbol of the class `class_name`, or
/// `NotFound` when the catalog has no such symbol.
pub fn vtable_address(catalog: &SymbolCatalog, class_name: &String) -> (r: Result<u32, AnalysisError>)
    requires
        encode_utf8(class_name@).len() <= usize::MAX,
    ensures
        match r {
            Ok(a) => catalog.name_to_address().contains_key(vtable_symbol(class_name@))
                && a == catalog.name_to_address()[vtable_symbol(class_name@)],
            Err(e) => e == AnalysisError::NotFound && !catalog.name_to_address().contains_key(
                vtable_symbol(class_name@),
            ),
        },
{
    let symbol = get_vtable_mangled_name(class_name);
    match catalog.address_of(&symbol) {
        Some(a) => Ok(a),
        None => Err(AnalysisError::NotFound),
    }
}

/// Resolving a class through its mangled vtable name finds the address that
/// a scan of the symbol list for that exact name finds: the class is found
/// exactly when some symbol has the name, and then at the address of the
/// last such symbol.
pub proof fn lemma_vtable_lookup_matches_scan(s: Seq<(Seq<char>, u32)>, class_name: Seq<char>)
    ensures
        name_map(s).contains_key(vtable_symbol(class_name)) <==> last_named(s, vtable_symbol(class_name))
            >= 0,
        last_named(s, vtable_symbol(class_name)) >= 0 ==> s[last_named(
            s,
            vtable_symbol(class_name),
        )].0 == vtable_symbol(class_name) && name_map(s)[vtable_symbol(class_name)] == s[last_named(
            s,
            vtable_symbol(class_name),
        )].1,
        forall|j: int|
            last_named(s, vtable_symbol(class_name)) < j < s.len() ==> #[trigger] s[j].0
                != vtable_symbol(class_name),
{
    lemma_name_lookup_scan(s, vtable_symbol(class_name));
}

/// The `type_info` address that the vtable at `vtable_addr` names.
pub fn vtable_typeinfo(reader: &mut BinReader, vtable_addr: u32) -> (r: Result<u32, AnalysisError>)
    ensures
        final(reader).bytes() == old(reader).bytes(),
        fits(old(reader).bytes(), vtable_addr + 4, 4) ==> r == Ok::<u32, AnalysisError>(
            le_u32(old(reader).bytes(), vtable_addr + 4),
        ),
        !fits(old(reader).bytes(), vtable_addr + 4, 4) ==> r == Err::<u32, AnalysisError>(
            AnalysisError::Truncated,
        ),
{
    reader.set_position(vtable_addr);
    reader.set_position_relative(4);
    match reader.read_u32() {
        Some(v) => {
            reader.set_position(vtable_addr);
            Ok(v)
        },
        None => Err(AnalysisError::Truncated),
    }
}

/// How deep the hierarchy decoder follows bases before it gives up.
pub const MAX_BASE_DEPTH: u32 = 64;

/// The three marker addresses of a catalog, when all three symbols exist.
pub open spec fn markers_of(m: Map<Seq<char>, u32>) -> Option<Seq<u32>> {
    if m.contains_key(SI_CLASS_TYPE_INFO@) && m.contains_key(CLASS_TYPE_INFO@) && m.contains_key(
        VMI_CLASS_TYPE_INFO@,
    ) {
        Some(
            seq![
                past_header(m[SI_CLASS_TYPE_INFO@]),
                past_header(m[CLASS_TYPE_INFO@]),
                past_header(m[VMI_CLASS_TYPE_INFO@]),
            ],
        )
    } else {
        None
    }
}

/// The hierarchy of the class `class` in the binary `d` whose symbols map
/// names to addresses as `m` does.
pub open spec fn hierarchy_of(d: Seq<u8>, m: Map<Seq<char>, u32>, class: Seq<char>) -> Result<
    crate::rtti::ClassTree,
    AnalysisError,
> {
    let sym = vtable_symbol(class);
    match markers_of(m) {
        None => Err(AnalysisError::NotFound),
        Some(markers) => if !m.contains_key(sym) {
            Err(AnalysisError::NotFound)
        } else if !fits(d, m[sym] + 4, 4) {
            Err(AnalysisError::Truncated)
        } else {
            match section_range_of(d, DATA_REL_RO@) {
                None => Err(AnalysisError::NotFound),
                Some((start, _)) => decode_typeinfo(
                    d,
                    le_u32(d, m[sym] + 4),
                    start as u32,
                    markers,
                    MAX_BASE_DEPTH as nat,
                ),
            }
        },
    }
}

/// The vtable groups of the class `class` in the binary `d` whose symbols
/// map names to addresses as `m` does.
pub open spec fn vtable_of(d: Seq<u8>, m: Map<Seq<char>, u32>, class: Seq<char>) -> Result<
    Seq<(i32, Seq<u32>)>,
    AnalysisError,
> {
    let sym = vtable_symbol(class);
    match markers_of(m) {
        None => Err(AnalysisError::NotFound),
        Some(markers) => if !m.contains_key(sym) {
            Err(AnalysisError::NotFound)
        } else {
            class_vtable(d, m[sym], markers)
        },
    }
}

/// Decodes the base hierarchy of the class `class_name`.
pub fn class_hierarchy(data: &Vec<u8>, catalog: &SymbolCatalog, class_name: &String) -> (r: Result<
    Class,
    AnalysisError,
>)
    requires
        encode_utf8(class_name@).len() <= usize::MAX,
    ensures
        tree_result(r) == hierarchy_of(data@, catalog.name_to_address(), class_name@),
{
    let markers = match cxxabi_offsets(catalog) {
        Ok(v) => v,
        Err(e) => {
            return Err(e);
        },
    };
    let addr = match vtable_address(catalog, class_name) {
        Ok(a) => a,
        Err(e) => {
            return Err(e);
        },
    };
    let mut reader = BinReader::new(data);
    let typeinfo = match vtable_typeinfo(&mut reader, addr) {
        Ok(t) => t,
        Err(e) => {
            return Err(e);
        },
    };
    let start = match get_section_range(data, &DATA_REL_RO.to_string()) {
        Some((s, _)) => s as u32,
        None => {
            return Err(AnalysisError::NotFound);
        },
    };
    handle_typename(&mut reader, typeinfo, start, &markers, MAX_BASE_DEPTH)
}

/// Decodes the vtable groups of the class `class_name`.
pub fn class_vtable_groups(data: &Vec<u8>, catalog: &SymbolCatalog, class_name: &String) -> (r:
    Result<Vec<(i32, Vec<u32>)>, AnalysisError>)
    requires
        encode_utf8(class_name@).len() <= usize::MAX,
    ensures
        match r {
            Ok(v) => vtable_of(data@, catalog.name_to_address(), class_name@) == Ok::<
                _,
                AnalysisError,
            >(groups_view(v@)),
            Err(e) => vtable_of(data@, catalog.name_to_address(), class_name@) == Err::<
                Seq<(i32, Seq<u32>)>,
                _,
            >(e),
        },
{
    let markers = match cxxabi_offsets(catalog) {
        Ok(v) => v,
        Err(e) => {
            return Err(e);
        },
    };
    let addr = match vtable_address(catalog, class_name) {
        Ok(a) => a,
        Err(e) => {
            return Err(e);
        },
    };
    let mut reader = BinReader::new(data);
    get_class_vtable(&mut reader, addr, markers)
}

} // verus!
