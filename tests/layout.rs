use reimu::binreader::BinReader;
use reimu::error::AnalysisError;
use reimu::mangle::get_vtable_mangled_name;
use reimu::display::render_hierarchy;
use reimu::present::{member_signature, render_ida, render_vft_struct, slot_of, Slot};
use reimu::rtti::{contains_u32, handle_typename, Class};
use reimu::vtable::{get_class_vtable, handle_vtable};

fn words(ws: &[u32]) -> Vec<u8> {
    let mut v = Vec::new();
    for w in ws {
        v.extend_from_slice(&w.to_le_bytes());
    }
    v
}

#[test]
fn mangles_unqualified_and_qualified_names() {
    assert_eq!(get_vtable_mangled_name(&"Foo".to_string()), "_ZTV3Foo");
    assert_eq!(get_vtable_mangled_name(&"A::B::C".to_string()), "_ZTVN1A1B1CE");
    assert_eq!(get_vtable_mangled_name(&"cocos2d::CCNode".to_string()), "_ZTVN7cocos2d6CCNodeE");
    assert_eq!(get_vtable_mangled_name(&"Zé".to_string()), "_ZTV3Zé");
}

#[test]
fn contains_finds_values() {
    let v: Vec<u32> = vec![3, 5, 9];
    assert!(contains_u32(&v, 5));
    assert!(!contains_u32(&v, 4));
}

/// A vmi type_info with `n` bases at 0x100 in a buffer of 0x400 bytes; the
/// read-only data starts at 0x80. Marker for a bare type_info: 0x50.
fn vmi_buffer(n: u32) -> Vec<u8> {
    let mut d = vec![0u8; 0x400];
    d[0x300..0x302].copy_from_slice(b"D\0");
    d[0x310..0x312].copy_from_slice(b"X\0");
    d[0x320..0x322].copy_from_slice(b"Y\0");
    // leaves X at 0x200 and Y at 0x220, each followed by a marker word
    d[0x200..0x20c].copy_from_slice(&words(&[0x50, 0x310, 0x50]));
    d[0x220..0x22c].copy_from_slice(&words(&[0x50, 0x320, 0x50]));
    let mut ti = vec![0x60, 0x300, 0, n];
    for i in 0..n {
        ti.push(if i % 2 == 0 { 0x200 } else { 0x220 });
        ti.push(2);
    }
    let bytes = words(&ti);
    d[0x100..0x100 + bytes.len()].copy_from_slice(&bytes);
    d
}

#[test]
fn zero_bases_give_empty_sequence() {
    let d = vmi_buffer(0);
    let mut r = BinReader::new(&d);
    let c = handle_typename(&mut r, 0x100, 0x80, &vec![0x50], 8).ok().unwrap();
    assert_eq!(c.name, "D");
    assert_eq!(c.base.len(), 0);
}

#[test]
fn n_bases_in_declaration_order() {
    let d = vmi_buffer(3);
    let mut r = BinReader::new(&d);
    let c = handle_typename(&mut r, 0x100, 0x80, &vec![0x50], 8).ok().unwrap();
    let names: Vec<&str> = c.base.iter().map(|b| b.name.as_str()).collect();
    assert_eq!(names, vec!["X", "Y", "X"]);
}

#[test]
fn overrun_into_next_structure_is_a_leaf() {
    let mut d = vmi_buffer(0);
    d[0x108..0x110].copy_from_slice(&words(&[0, 0x200]));
    let mut r = BinReader::new(&d);
    let c = handle_typename(&mut r, 0x100, 0x80, &vec![0x50], 8).ok().unwrap();
    assert_eq!(c.base.len(), 0);
}

#[test]
fn self_reference_hits_depth_limit() {
    let mut d = vec![0u8; 0x200];
    d[0x150..0x152].copy_from_slice(b"S\0");
    d[0x100..0x10c].copy_from_slice(&words(&[0x60, 0x150, 0x100]));
    let mut r = BinReader::new(&d);
    assert_eq!(handle_typename(&mut r, 0x100, 0x80, &vec![0x50], 5).err(), Some(AnalysisError::TooDeep));
}

#[test]
fn truncated_type_info_fails() {
    let d = vec![0u8; 6];
    let mut r = BinReader::new(&d);
    assert_eq!(handle_typename(&mut r, 0, 0x80, &vec![0x50], 5).err(), Some(AnalysisError::Truncated));
}

#[test]
fn group_stops_at_marker_zero_and_own_typeinfo() {
    // offset 0, typeinfo 0x77, two functions, then a slot whose next word is a marker
    let d = words(&[0, 0x77, 0x10, 0x20, 0x30, 0x50]);
    let mut r = BinReader::new(&d);
    let (o, fs) = handle_vtable(&mut r, 0x77, &vec![0x50]).ok().unwrap();
    assert_eq!(o, 0);
    assert_eq!(fs, vec![0x10, 0x20]);
    assert_eq!(r.get_position(), 16);
    let d = words(&[0, 0x77, 0x10, 0, 0x99]);
    let mut r = BinReader::new(&d);
    let (_, fs) = handle_vtable(&mut r, 0x77, &vec![0x50]).ok().unwrap();
    assert_eq!(fs, vec![0x10]);
}

#[test]
fn group_without_lookahead_is_truncated() {
    let d = words(&[0, 0x77, 0x10]);
    let mut r = BinReader::new(&d);
    assert_eq!(handle_vtable(&mut r, 0x77, &vec![0x50]).err(), Some(AnalysisError::Truncated));
}

/// Two groups: offsets 0 and -8, then the header of an unrelated vtable.
fn two_group_buffer() -> Vec<u8> {
    words(&[0, 0x77, 0x10, 0x20, 0xffff_fff8, 0x77, 0x30, 0, 0x99])
}

#[test]
fn two_adjustment_groups() {
    let d = two_group_buffer();
    let mut r = BinReader::new(&d);
    let groups = get_class_vtable(&mut r, 0, vec![0x50]).ok().unwrap();
    assert_eq!(groups.len(), 2);
    assert_eq!(groups[0], (0, vec![0x10, 0x20]));
    assert_eq!(groups[1], (-8, vec![0x30]));
}

#[test]
fn two_group_struct_view_has_filler() {
    let name = "A::C".to_string();
    let groups = vec![
        (0, vec![Slot::Dtor, Slot::Member("f".to_string(), "(A::C*)".to_string())]),
        (-8, vec![Slot::Member("g".to_string(), "(A::C*, int)".to_string())]),
    ];
    let text = render_ida(&name, &groups);
    assert_eq!(
        text,
        "struct A::C_0_vft {\n    void (*__dtor)(A::C*);\n    void (*f)(A::C*);\n};\nstruct A::C_8_vft {\n    void (*g)(A::C*, int);\n};\nstruct A::C {\n    A::C_0_vft* __vtable_0;\n    char fill_0[4];\n    A::C_8_vft* __vtable_8;\n};\n"
    );
}

#[test]
fn duplicate_member_names_get_suffixes() {
    let slots = vec![
        Slot::Member("f".to_string(), "(X*)".to_string()),
        Slot::Delete,
        Slot::Member("f".to_string(), "(X*, int)".to_string()),
        Slot::Member("f".to_string(), "(X*, char)".to_string()),
    ];
    let text = render_vft_struct(&"X".to_string(), 4, &slots);
    assert_eq!(
        text,
        "struct X_4_vft {\n    void (*f)(X*);\n    void (*__delete)(X*);\n    void (*f_2)(X*, int);\n    void (*f_3)(X*, char);\n};\n"
    );
}

#[test]
fn member_signatures() {
    let c = "ns::K".to_string();
    let (n, s) = member_signature(&"ns::K::run(int, char) const".to_string(), &c).unwrap();
    assert_eq!((n.as_str(), s.as_str()), ("run", "(ns::K*, int, char)"));
    let (n, s) = member_signature(&"ns::K::stop()".to_string(), &c).unwrap();
    assert_eq!((n.as_str(), s.as_str()), ("stop", "(ns::K*)"));
    let (n, s) = member_signature(
        &"{virtual override thunk({offset(-8)}, ns::K::go(bool))}".to_string(),
        &c,
    )
    .unwrap();
    assert_eq!((n.as_str(), s.as_str()), ("go", "(ns::K*, bool)"));
    assert!(member_signature(&"no_params".to_string(), &c).is_none());
}

#[test]
fn invalid_utf8_name_fails() {
    let mut d = vec![0u8; 0x40];
    d[0x20..0x23].copy_from_slice(&[0xc3, 0x28, 0]);
    d[0..12].copy_from_slice(&words(&[0x50, 0x20, 0x50]));
    let mut r = BinReader::new(&d);
    assert_eq!(handle_typename(&mut r, 0, 0x80, &vec![0x50], 4).err(), Some(AnalysisError::InvalidUtf8));
}

#[test]
fn undemanglable_symbol_is_an_error() {
    let c = "K".to_string();
    assert!(matches!(slot_of(&"not a symbol".to_string(), &c), Err(AnalysisError::Demangle)));
    assert!(matches!(slot_of(&"_ZN1KD1Ev".to_string(), &c), Ok(Slot::Dtor)));
    assert!(matches!(slot_of(&"_ZN1KD0Ev".to_string(), &c), Ok(Slot::Delete)));
    match slot_of(&"_ZN1K4waitEv".to_string(), &c) {
        Ok(Slot::Member(n, s)) => assert_eq!((n.as_str(), s.as_str()), ("wait", "(K*)")),
        _ => panic!("expected a member"),
    }
}

#[test]
fn push_base_appends_an_empty_class() {
    let mut c = Class { name: "R".to_string(), base: Vec::new() };
    {
        let b = c.push_base();
        b.name = "B0".to_string();
    }
    c.push_base();
    assert_eq!(c.base.len(), 2);
    assert_eq!(c.base[0].name, "B0");
    assert_eq!(c.base[1].name, "");
    assert_eq!(c.base[1].base.len(), 0);
}

#[test]
fn hierarchy_view_indents_by_depth() {
    let leaf = Class { name: "N1A4BaseE".to_string(), base: Vec::new() };
    let mid = Class { name: "N1A3MidE".to_string(), base: vec![leaf] };
    let other = Class { name: "N1A5OtherE".to_string(), base: Vec::new() };
    let root = Class { name: "N1A1BE".to_string(), base: vec![mid, other] };
    assert_eq!(
        root.get_display().as_deref(),
        Some("A::B\n    A::Mid\n        A::Base\n    A::Other")
    );
    let bad = Class { name: "(((".to_string(), base: Vec::new() };
    assert_eq!(bad.get_display(), None);
}

#[test]
fn hierarchy_render_joins_lines() {
    let lines = vec![("".to_string(), "a".to_string()), ("    ".to_string(), "b".to_string())];
    assert_eq!(render_hierarchy(&lines), "a\n    b");
    assert_eq!(render_hierarchy(&Vec::new()), "");
}

#[test]
fn decode_leaves_cursor_where_the_structure_ends() {
    // A::B at 16 with its sole base A::Base at 32, a marker after it
    let mut d = words(&[0, 0, 0, 0, 0x200, 48, 32, 0, 0x204, 56, 0x204, 0]);
    d.extend_from_slice(b"N1A1BE\0\0");
    d.extend_from_slice(b"N1A4BaseE\0");
    let mut r = BinReader::new(&d);
    let c = handle_typename(&mut r, 16, 8, &vec![0x200, 0x204, 0x208], 8).ok().unwrap();
    assert_eq!(c.name, "N1A1BE");
    assert_eq!(c.base[0].name, "N1A4BaseE");
    assert_eq!(r.get_position(), 44);
    // a base array of three entries ends past the array
    let d = vmi_buffer(3);
    let mut r = BinReader::new(&d);
    handle_typename(&mut r, 0x100, 0x80, &vec![0x50], 8).ok().unwrap();
    assert_eq!(r.get_position(), 0x100 + 16 + 24);
}

#[test]
fn group_at_buffer_end_consumes_the_rest() {
    // two slots of functions, then two bytes: the group ends at the buffer end
    let mut d = words(&[0, 0x77, 0x10, 0x20]);
    d.extend_from_slice(&[1, 2]);
    let mut r = BinReader::new(&d);
    assert_eq!(handle_vtable(&mut r, 0x77, &vec![0x50]).err(), Some(AnalysisError::Truncated));
    let d = words(&[0, 0x77]);
    let mut r = BinReader::new(&d);
    let (_, fs) = handle_vtable(&mut r, 0x77, &vec![0x50]).ok().unwrap();
    assert!(fs.is_empty());
    assert_eq!(r.get_position(), 8);
}
