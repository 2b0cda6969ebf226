//! Extraction of the virtual-function tables of a class, one group for each
//! `this` adjustment, packed back to back after the class's vtable symbol.
use vstd::prelude::*;
use crate::binreader::{BinReader, as_signed, fits, le_u32, shifted};
use crate::error::AnalysisError;
use crate::rtti::contains_u32;

verus! {

/// Whether the slot at `q` begins the header of another group rather than
/// holding a function address: the word after it is the class's `type_info`
/// or a marker, or the slot itself is zero.
pub open spec fn ends_group(d: Seq<u8>, q: int, ti: u32, markers: Seq<u32>) -> bool {
    let next = le_u32(d, q + 4);
    markers.contains(next) || next == ti || le_u32(d, q) == 0
}

/// The function addresses from the slot at `q` up to the end of the group,
/// and where the group ends.
pub open spec fn scan_slots(d: Seq<u8>, q: int, ti: u32, markers: Seq<u32>) -> Result<
    (Seq<u32>, int),
    AnalysisError,
>
    decreases d.len() - q,
{
    if q < 0 || !fits(d, q, 4) {
        Ok((Seq::empty(), if q < d.len() { d.len() as int } else { q }))
    } else if !fits(d, q + 4, 4) {
        Err(AnalysisError::Truncated)
    } else if ends_group(d, q, ti, markers) {
        Ok((Seq::empty(), q))
    } else {
        match scan_slots(d, q + 4, ti, markers) {
            Ok((s, e)) => Ok((seq![le_u32(d, q)] + s, e)),
            Err(e) => Err(e),
        }
    }
}

/// The group whose header lies at `t`: its offset to `this`, its function
/// addresses, and where it ends.
pub open spec fn vtable_group(d: Seq<u8>, t: u64, ti: u32, markers: Seq<u32>) -> Result<
    ((i32, Seq<u32>), int),
    AnalysisError,
> {
    if !fits(d, t as int, 4) {
        Err(AnalysisError::Truncated)
    } else {
        match scan_slots(d, shifted((t + 4) as u64, 4) as int, ti, markers) {
            Ok((fs, e)) => Ok(((as_signed(le_u32(d, t as int)), fs), e)),
            Err(e) => Err(e),
        }
    }
}

/// The groups from the one whose header lies at `t` on, as long as each
/// names `ti` as its `type_info`.
pub open spec fn groups_from(d: Seq<u8>, t: int, ti: u32, markers: Seq<u32>) -> Result<
    Seq<(i32, Seq<u32>)>,
    AnalysisError,
>
    decreases d.len() - t,
{
    if t < 0 || !fits(d, t + 4, 4) {
        Err(AnalysisError::Truncated)
    } else if le_u32(d, t + 4) != ti {
        Ok(Seq::empty())
    } else {
        match vtable_group(d, t as u64, ti, markers) {
            Err(e) => Err(e),
            Ok((g, e)) => if t < e <= d.len() {
                match groups_from(d, e, ti, markers) {
                    Ok(rest) => Ok(seq![g] + rest),
                    Err(err) => Err(err),
                }
            } else {
                Ok(seq![g])
            },
        }
    }
}

/// The groups of the class whose vtable symbol lies at `addr`.
pub open spec fn class_vtable(d: Seq<u8>, addr: u32, markers: Seq<u32>) -> Result<
    Seq<(i32, Seq<u32>)>,
    AnalysisError,
> {
    if !fits(d, addr + 4, 4) {
        Err(AnalysisError::Truncated)
    } else {
        groups_from(d, addr as int, le_u32(d, addr + 4), markers)
    }
}

pub open spec fn groups_view(v: Seq<(i32, Vec<u32>)>) -> Seq<(i32, Seq<u32>)> {
    Seq::new(v.len(), |i: int| (v[i].0, v[i].1@))
}

proof fn lemma_scan_end(d: Seq<u8>, q: int, ti: u32, markers: Seq<u32>)
    requires
        0 <= q,
    ensures
        scan_slots(d, q, ti, markers) matches Ok((s, e)) ==> q <= e && (q <= d.len() ==> e
            <= d.len()),
    decreases d.len() - q,
{
    if fits(d, q, 4) && fits(d, q + 4, 4) && !ends_group(d, q, ti, markers) {
        lemma_scan_end(d, q + 4, ti, markers);
    }
}

/// Whether a group's function list holds no zero address, and no marker or
/// class `type_info` address past its first entry.
pub open spec fn clean_functions(s: Seq<u32>, ti: u32, markers: Seq<u32>) -> bool {
    forall|j: int|
        0 <= j < s.len() ==> #[trigger] s[j] != 0 && (j > 0 ==> !markers.contains(s[j]) && s[j] != ti)
}

proof fn lemma_scan_clean(d: Seq<u8>, q: int, ti: u32, markers: Seq<u32>)
    requires
        0 <= q,
    ensures
        scan_slots(d, q, ti, markers) matches Ok((s, e)) ==> clean_functions(s, ti, markers) && (
        s.len() > 0 ==> s[0] == le_u32(d, q)),
    decreases d.len() - q,
{
    if fits(d, q, 4) && fits(d, q + 4, 4) && !ends_group(d, q, ti, markers) {
        lemma_scan_clean(d, q + 4, ti, markers);
        if let Ok((rest, e)) = scan_slots(d, q + 4, ti, markers) {
            let s = seq![le_u32(d, q)] + rest;
            assert forall|j: int| 0 <= j < s.len() implies #[trigger] s[j] != 0 && (j > 0
                ==> !markers.contains(s[j]) && s[j] != ti) by {
                if j > 0 {
                    assert(s[j] == rest[j - 1]);
                }
            }
        }
    }
}

proof fn lemma_groups_clean(d: Seq<u8>, t: int, ti: u32, markers: Seq<u32>)
    requires
        d.len() <= u64::MAX,
    ensures
        groups_from(d, t, ti, markers) matches Ok(gs) ==> forall|i: int|
            0 <= i < gs.len() ==> clean_functions(#[trigger] gs[i].1, ti, markers),
    decreases d.len() - t,
{
    if t >= 0 && fits(d, t + 4, 4) && le_u32(d, t + 4) == ti {
        let tt = t as u64;
        assert(tt as int == t);
        if fits(d, t, 4) {
            lemma_scan_clean(d, shifted((tt + 4) as u64, 4) as int, ti, markers);
        }
        if let Ok((g, e)) = vtable_group(d, tt, ti, markers) {
            assert(clean_functions(g.1, ti, markers));
            if t < e <= d.len() {
                lemma_groups_clean(d, e, ti, markers);
                if let Ok(rest) = groups_from(d, e, ti, markers) {
                    let gs = seq![g] + rest;
                    assert forall|i: int| 0 <= i < gs.len() implies clean_functions(
                        #[trigger] gs[i].1,
                        ti,
                        markers,
                    ) by {
                        if i > 0 {
                            assert(gs[i] == rest[i - 1]);
                        } else {
                            assert(gs[0] == g);
                        }
                    }
                }
            } else {
                assert(seq![g][0] == g);
            }
        }
    }
}

/// A decoded vtable has at least one group, the first with the offset to
/// `this` stored at the vtable's address. No group lists a zero address,
/// nor, past its first entry, a marker or the class's `type_info` address;
/// neither does its first entry when the slot it was read from holds no
/// marker.
pub proof fn lemma_vtable_entries(d: Seq<u8>, addr: u32, markers: Seq<u32>)
    requires
        d.len() <= u64::MAX,
        class_vtable(d, addr, markers) is Ok,
    ensures
        ({
            let gs = class_vtable(d, addr, markers)->Ok_0;
            let ti = le_u32(d, addr + 4);
            &&& gs.len() >= 1
            &&& gs[0].0 == as_signed(le_u32(d, addr as int))
            &&& forall|i: int| 0 <= i < gs.len() ==> clean_functions(#[trigger] gs[i].1, ti, markers)
            &&& (gs[0].1.len() > 0 && !markers.contains(le_u32(d, addr + 8))) ==> !markers.contains(
                gs[0].1[0],
            )
        }),
{
    let ti = le_u32(d, addr + 4);
    lemma_groups_clean(d, addr as int, ti, markers);
    lemma_scan_clean(d, shifted((addr + 4) as u64, 4) as int, ti, markers);
}

/// Decodes the group whose header is at the position: reads its offset to
/// `this`, skips its `type_info` slot and collects function addresses up to
/// the header of the next group. The cursor ends where the group ends.
pub fn handle_vtable(reader: &mut BinReader, class_typeinfo: u32, cxxabi_offsets: &Vec<u32>) -> (r:
    Result<(i32, Vec<u32>), AnalysisError>)
    ensures
        final(reader).bytes() == old(reader).bytes(),
        match r {
            Ok((o, fs)) => vtable_group(
                old(reader).bytes(),
                old(reader).pos(),
                class_typeinfo,
                cxxabi_offsets@,
            ) == Ok::<_, AnalysisError>(((o, fs@), final(reader).pos() as int)),
            Err(e) => vtable_group(
                old(reader).bytes(),
                old(reader).pos(),
                class_typeinfo,
                cxxabi_offsets@,
            ) == Err::<((i32, Seq<u32>), int), _>(e),
        },
{
    let ghost d = reader.bytes();
    let ghost markers = cxxabi_offsets@;
    let offset_to_this = match reader.read_i32() {
        Some(v) => v,
        None => {
            return Err(AnalysisError::Truncated);
        },
    };
    reader.set_position_relative(4);
    let ghost q0 = reader.pos() as int;
    let buffer_len = reader.get_data().len();
    let mut function_pointers: Vec<u32> = Vec::new();
    loop
        invariant
            reader.bytes() == d,
            buffer_len == d.len(),
            d == old(reader).bytes(),
            cxxabi_offsets@ == markers,
            q0 <= reader.pos(),
            vtable_group(d, old(reader).pos(), class_typeinfo, markers) == (match scan_slots(
                d,
                q0,
                class_typeinfo,
                markers,
            ) {
                Ok((fs, e)) => Ok(((offset_to_this, fs), e)),
                Err(e) => Err(e),
            }),
            scan_slots(d, q0, class_typeinfo, markers) == (match scan_slots(
                d,
                reader.pos() as int,
                class_typeinfo,
                markers,
            ) {
                Ok((s, e)) => Ok((function_pointers@ + s, e)),
                Err(e) => Err(e),
            }),
        ensures
            scan_slots(d, reader.pos() as int, class_typeinfo, markers) == Ok::<_, AnalysisError>((
                Seq::<u32>::empty(),
                reader.pos() as int,
            )),
        decreases d.len() - reader.pos(),
    {
        let ghost q = reader.pos() as int;
        let addr = match reader.read_u32() {
            Some(v) => v,
            None => {
                assert(function_pointers@ + Seq::<u32>::empty() =~= function_pointers@);
                break;
            },
        };
        let next = match reader.read_u32() {
            Some(v) => v,
            None => {
                return Err(AnalysisError::Truncated);
            },
        };
        if contains_u32(cxxabi_offsets, next) || next == class_typeinfo || addr == 0 {
            reader.set_position_relative(-8);
            assert(function_pointers@ + Seq::<u32>::empty() =~= function_pointers@);
            break;
        }
        reader.set_position_relative(-4);
        proof {
            match scan_slots(d, q + 4, class_typeinfo, markers) {
                Ok((s, e)) => {
                    assert(function_pointers@ + (seq![addr] + s) =~= function_pointers@.push(addr)
                        + s);
                },
                Err(e) => {},
            }
        }
        function_pointers.push(addr);
    }
    Ok((offset_to_this, function_pointers))
}

/// Decodes every group of the class whose vtable symbol lies at
/// `vtable_addr`, primary group first.
pub fn get_class_vtable(reader: &mut BinReader, vtable_addr: u32, cxxabi_offsets: Vec<u32>) -> (r:
    Result<Vec<(i32, Vec<u32>)>, AnalysisError>)
    ensures
        final(reader).bytes() == old(reader).bytes(),
        match r {
            Ok(v) => class_vtable(old(reader).bytes(), vtable_addr, cxxabi_offsets@) == Ok::<
                _,
                AnalysisError,
            >(groups_view(v@)),
            Err(e) => class_vtable(old(reader).bytes(), vtable_addr, cxxabi_offsets@) == Err::<
                Seq<(i32, Seq<u32>)>,
                _,
            >(e),
        },
{
    let ghost d = reader.bytes();
    let ghost markers = cxxabi_offsets@;
    let len = reader.get_data().len() as u64;
    let mut result: Vec<(i32, Vec<u32>)> = Vec::new();
    reader.set_position(vtable_addr);
    reader.set_position_relative(4);
    let class_typeinfo = match reader.read_u32() {
        Some(v) => v,
        None => {
            return Err(AnalysisError::Truncated);
        },
    };
    let mut table_offset: u64 = vtable_addr as u64;
    loop
        invariant
            reader.bytes() == d,
            d == old(reader).bytes(),
            len == d.len(),
            cxxabi_offsets@ == markers,
            fits(d, vtable_addr + 4, 4),
            class_typeinfo == le_u32(d, vtable_addr + 4),
            class_vtable(d, vtable_addr, markers) == (match groups_from(
                d,
                table_offset as int,
                class_typeinfo,
                markers,
            ) {
                Ok(rest) => Ok(groups_view(result@) + rest),
                Err(e) => Err(e),
            }),
        ensures
            groups_from(d, table_offset as int, class_typeinfo, markers) == Ok::<_, AnalysisError>(
                Seq::<(i32, Seq<u32>)>::empty(),
            ),
        decreases d.len() - table_offset,
    {
        if table_offset > len || len - table_offset < 8 {
            return Err(AnalysisError::Truncated);
        }
        reader.restore_position(table_offset + 4);
        let typeinfo_addr = match reader.read_u32() {
            Some(v) => v,
            None => {
                return Err(AnalysisError::Truncated);
            },
        };
        if typeinfo_addr != class_typeinfo {
            assert(groups_view(result@) + Seq::<(i32, Seq<u32>)>::empty() =~= groups_view(result@));
            break;
        }
        reader.restore_position(table_offset);
        let table = match handle_vtable(reader, class_typeinfo, &cxxabi_offsets) {
            Ok(t) => t,
            Err(e) => {
                return Err(e);
            },
        };
        let next_offset = reader.get_position();
        proof {
            lemma_scan_end(d, table_offset + 8, class_typeinfo, markers);
        }
        let ghost before = result@;
        let ghost g = (table.0, table.1@);
        result.push(table);
        assert(groups_view(result@) =~= groups_view(before) + seq![g]);
        proof {
            match groups_from(d, next_offset as int, class_typeinfo, markers) {
                Ok(rest) => {
                    assert(groups_view(before) + (seq![g] + rest) =~= groups_view(result@) + rest);
                },
                Err(e) => {},
            }
        }
        table_offset = next_offset;
    }
    Ok(result)
}

} // verus!
