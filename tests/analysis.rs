use reimu::analysis::{class_hierarchy, class_vtable_groups, get_section_range, vtable_address};
use reimu::error::AnalysisError;
use reimu::mangle::get_vtable_mangled_name;
use reimu::present::{render_ida, resolve_slots, vtable_json_records};
use reimu::symbols::SymbolCatalog;

const BASE: u32 = 0x100;

fn put_u32(v: &mut Vec<u8>, x: u32) {
    v.extend_from_slice(&x.to_le_bytes());
}

fn put_u16(v: &mut Vec<u8>, x: u16) {
    v.extend_from_slice(&x.to_le_bytes());
}

/// An ELF32 file whose `.data.rel.ro` holds `payload` at file offset
/// `BASE`, with a dynamic symbol table listing `symbols`.
fn build_elf(symbols: &[(&str, u32)], payload: &[u8]) -> Vec<u8> {
    let mut dynstr: Vec<u8> = vec![0];
    let mut dynsym: Vec<u8> = vec![0; 16];
    for (name, value) in symbols {
        let idx = dynstr.len() as u32;
        dynstr.extend_from_slice(name.as_bytes());
        dynstr.push(0);
        put_u32(&mut dynsym, idx);
        put_u32(&mut dynsym, *value);
        put_u32(&mut dynsym, 0);
        dynsym.extend_from_slice(&[0, 0, 0, 0]);
    }
    let shstrtab: &[u8] = b"\0.dynstr\0.dynsym\0.shstrtab\0.data.rel.ro\0";
    let mut file: Vec<u8> = vec![0; BASE as usize];
    file.extend_from_slice(payload);
    let dynstr_off = file.len() as u32;
    file.extend_from_slice(&dynstr);
    let dynsym_off = file.len() as u32;
    file.extend_from_slice(&dynsym);
    let shstr_off = file.len() as u32;
    file.extend_from_slice(shstrtab);
    while file.len() % 4 != 0 {
        file.push(0);
    }
    let shoff = file.len() as u32;
    let sections: [(u32, u32, u32, u32); 5] = [
        (0, 0, 0, 0),
        (1, 3, dynstr_off, dynstr.len() as u32),
        (9, 11, dynsym_off, dynsym.len() as u32),
        (17, 3, shstr_off, shstrtab.len() as u32),
        (27, 1, BASE, payload.len() as u32),
    ];
    for (name, ty, off, size) in sections.iter() {
        put_u32(&mut file, *name);
        put_u32(&mut file, *ty);
        put_u32(&mut file, 0);
        put_u32(&mut file, 0);
        put_u32(&mut file, *off);
        put_u32(&mut file, *size);
        put_u32(&mut file, 0);
        put_u32(&mut file, 0);
        put_u32(&mut file, 1);
        put_u32(&mut file, if *ty == 11 { 16 } else { 0 });
    }
    let mut header: Vec<u8> = vec![0x7f, b'E', b'L', b'F', 1, 1, 1, 0, 0, 0, 0, 0, 0, 0, 0, 0];
    put_u16(&mut header, 3);
    put_u16(&mut header, 40);
    put_u32(&mut header, 1);
    put_u32(&mut header, 0);
    put_u32(&mut header, 0);
    put_u32(&mut header, shoff);
    put_u32(&mut header, 0);
    put_u16(&mut header, 52);
    put_u16(&mut header, 0);
    put_u16(&mut header, 0);
    put_u16(&mut header, 40);
    put_u16(&mut header, 5);
    put_u16(&mut header, 3);
    file[..52].copy_from_slice(&header);
    file
}

fn put_at(p: &mut Vec<u8>, at: u32, words: &[u32]) {
    let mut i = (at - BASE) as usize;
    for w in words {
        p[i..i + 4].copy_from_slice(&w.to_le_bytes());
        i += 4;
    }
}

/// `A::B` derives from `A::Base` and has two virtual functions and its two
/// destructors.
fn single_inheritance_binary() -> Vec<u8> {
    let mut p: Vec<u8> = vec![0; 0xc0];
    let ct = BASE;
    let si = BASE + 0x10;
    let vmi = BASE + 0x20;
    p[0x40..0x47].copy_from_slice(b"N1A1BE\0");
    p[0x50..0x5a].copy_from_slice(b"N1A4BaseE\0");
    // type_info of A::Base, followed at once by that of A::B
    put_at(&mut p, BASE + 0x60, &[ct + 8, BASE + 0x50]);
    put_at(&mut p, BASE + 0x68, &[si + 8, BASE + 0x40, BASE + 0x60]);
    // vtable of A::B, then the header of an unrelated one
    put_at(&mut p, BASE + 0x80, &[0, BASE + 0x68, 0x1000, 0x1010, 0x1020, 0x1030, 0, 0x9999]);
    let _ = vmi;
    build_elf(
        &[
            ("_ZTVN10__cxxabiv117__class_type_infoE", ct),
            ("_ZTVN10__cxxabiv120__si_class_type_infoE", si),
            ("_ZTVN10__cxxabiv121__vmi_class_type_infoE", vmi),
            ("_ZTVN1A1BE", BASE + 0x80),
            ("_ZN1A1B3fooEv", 0x1000),
            ("_ZNK1A1B3barEi", 0x1010),
            ("_ZN1A1BD1Ev", 0x1020),
            ("_ZN1A1BD0Ev", 0x1030),
        ],
        &p,
    )
}

#[test]
fn catalog_loads_symbols_both_ways() {
    let elf = single_inheritance_binary();
    let c = SymbolCatalog::load(&elf).ok().unwrap();
    assert_eq!(c.address_of(&"_ZN1A1B3fooEv".to_string()), Some(0x1000));
    assert_eq!(c.name_at(0x1030).as_deref(), Some("_ZN1A1BD0Ev"));
    assert_eq!(c.address_of(&"missing".to_string()), None);
    assert_eq!(c.name_at(0x4242), None);
}

#[test]
fn catalog_load_is_idempotent() {
    let elf = single_inheritance_binary();
    let a = SymbolCatalog::load(&elf).ok().unwrap();
    let b = SymbolCatalog::load(&elf).ok().unwrap();
    for name in ["_ZTVN1A1BE", "_ZN1A1B3fooEv", "_ZN1A1BD1Ev", "nothing"] {
        let n = name.to_string();
        assert_eq!(a.address_of(&n), b.address_of(&n));
    }
    for addr in [0x1000u32, 0x1010, 0x1020, 0x1030, BASE + 0x80, 7] {
        assert_eq!(a.name_at(addr), b.name_at(addr));
    }
}

#[test]
fn catalog_rejects_non_elf() {
    let junk: Vec<u8> = vec![1, 2, 3, 4];
    assert_eq!(SymbolCatalog::load(&junk).err(), Some(AnalysisError::MissingSection));
}

#[test]
fn section_range_of_data_rel_ro() {
    let elf = single_inheritance_binary();
    assert_eq!(get_section_range(&elf, &".data.rel.ro".to_string()), Some((0x100, 0x1c0)));
    assert_eq!(get_section_range(&elf, &".text".to_string()), None);
}

#[test]
fn mangled_lookup_matches_scan() {
    let elf = single_inheritance_binary();
    let c = SymbolCatalog::load(&elf).ok().unwrap();
    let sym = get_vtable_mangled_name(&"A::B".to_string());
    assert_eq!(sym, "_ZTVN1A1BE");
    assert_eq!(c.address_of(&sym), Some(BASE + 0x80));
    assert_eq!(vtable_address(&c, &"A::B".to_string()), Ok(BASE + 0x80));
}

#[test]
fn single_inheritance_hierarchy_view() {
    let elf = single_inheritance_binary();
    let c = SymbolCatalog::load(&elf).ok().unwrap();
    let class = class_hierarchy(&elf, &c, &"A::B".to_string()).ok().unwrap();
    assert_eq!(class.name, "N1A1BE");
    assert_eq!(class.base.len(), 1);
    assert_eq!(class.base[0].name, "N1A4BaseE");
    assert_eq!(class.base[0].base.len(), 0);
    assert_eq!(class.get_display().as_deref(), Some("A::B\n    A::Base"));
}

#[test]
fn single_inheritance_struct_view() {
    let elf = single_inheritance_binary();
    let c = SymbolCatalog::load(&elf).ok().unwrap();
    let name = "A::B".to_string();
    let groups = class_vtable_groups(&elf, &c, &name).ok().unwrap();
    assert_eq!(groups.len(), 1);
    assert_eq!(groups[0].0, 0);
    assert_eq!(groups[0].1, vec![0x1000, 0x1010, 0x1020, 0x1030]);
    let mut resolved = Vec::new();
    for (o, fs) in groups.iter() {
        resolved.push((*o, resolve_slots(&c, &name, fs).ok().unwrap()));
    }
    let text = render_ida(&name, &resolved);
    assert_eq!(
        text,
        "struct A::B_0_vft {\n    void (*foo)(A::B*);\n    void (*bar)(A::B*, int);\n    void (*__dtor)(A::B*);\n    void (*__delete)(A::B*);\n};\nstruct A::B {\n    A::B_0_vft* __vtable_0;\n};\n"
    );
}

#[test]
fn json_records_of_first_group() {
    let elf = single_inheritance_binary();
    let c = SymbolCatalog::load(&elf).ok().unwrap();
    let groups = class_vtable_groups(&elf, &c, &"A::B".to_string()).ok().unwrap();
    let records = vtable_json_records(&c, &groups).ok().unwrap();
    assert_eq!(records.len(), 4);
    assert_eq!(records[0].name, "_ZN1A1B3fooEv");
    assert_eq!(records[0].address, 0x1000);
    assert_eq!(records[0].offset, 8);
    assert_eq!(records[3].name, "_ZN1A1BD0Ev");
    assert_eq!(records[3].offset, 20);
}

#[test]
fn unknown_class_is_not_found() {
    let elf = single_inheritance_binary();
    let c = SymbolCatalog::load(&elf).ok().unwrap();
    let name = "A::Missing".to_string();
    assert_eq!(vtable_address(&c, &name), Err(AnalysisError::NotFound));
    assert_eq!(class_vtable_groups(&elf, &c, &name).err(), Some(AnalysisError::NotFound));
    assert!(class_hierarchy(&elf, &c, &name).is_err());
}
