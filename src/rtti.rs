//! Reconstruction of a class's base hierarchy from its `type_info`.
use vstd::prelude::*;
use crate::binreader::{BinReader, cstr_result, fits, le_u32};
use crate::error::AnalysisError;

verus! {

/// A class and its direct bases, in the order of the binary's base array.
pub struct Class {
    pub name: String,
    pub base: Vec<Class>,
}

/// The mathematical value of a [`Class`].
pub struct ClassTree {
    pub name: Seq<char>,
    pub bases: Seq<ClassTree>,
}

impl Class {
    /// Appends a new class without name or bases to the bases and returns it.
    pub fn push_base(&mut self) -> (r: &mut Class)
        ensures
            final(self).name == old(self).name,
            final(self).base@.len() == old(self).base@.len() + 1,
            forall|i: int| 0 <= i < old(self).base@.len() ==> final(self).base@[i] == old(self).base@[i],
            final(self).base@.last() == *final(r),
            r.name@.len() == 0 && r.base@.len() == 0,
    {
        self.base.push(Class { name: String::new(), base: Vec::new() });
        let n = self.base.len();
        &mut self.base[n - 1]
    }

    pub open spec fn tree(&self) -> ClassTree
        decreases self,
    {
        ClassTree {
            name: self.name@,
            bases: Seq::new(
                self.base@.len(),
                |i: int|
                    if 0 <= i < self.base@.len() {
                        self.base@[i].tree()
                    } else {
                        ClassTree { name: Seq::empty(), bases: Seq::empty() }
                    },
            ),
        }
    }
}

pub open spec fn trees_of(v: Seq<Class>) -> Seq<ClassTree> {
    Seq::new(v.len(), |i: int| v[i].tree())
}

pub open spec fn tree_result(r: Result<Class, AnalysisError>) -> Result<ClassTree, AnalysisError> {
    match r {
        Ok(c) => Ok(c.tree()),
        Err(e) => Err(e),
    }
}

pub open spec fn prepend(
    s: Seq<ClassTree>,
    r: Result<Seq<ClassTree>, AnalysisError>,
) -> Result<Seq<ClassTree>, AnalysisError> {
    match r {
        Ok(rest) => Ok(s + rest),
        Err(e) => Err(e),
    }
}

/// The class whose `type_info` lies at `off`: `start` is where the read-only
/// relocated data begins, `markers` the addresses that mark a `type_info`
/// without a base, and `fuel` the depth of bases still followed.
pub open spec fn decode_typeinfo(
    d: Seq<u8>,
    off: u32,
    start: u32,
    markers: Seq<u32>,
    fuel: nat,
) -> Result<ClassTree, AnalysisError>
    decreases fuel, 0x1_0000_0001nat,
{
    let p = off as int + 4;
    if fuel == 0 {
        Err(AnalysisError::TooDeep)
    } else if !fits(d, p, 4) {
        Err(AnalysisError::Truncated)
    } else {
        match cstr_result(d, le_u32(d, p)) {
            None => Err(AnalysisError::InvalidUtf8),
            Some(name) => {
                let leaf = ClassTree { name, bases: Seq::empty() };
                if !fits(d, p + 4, 4) {
                    Err(AnalysisError::Truncated)
                } else {
                    let second = le_u32(d, p + 4);
                    if markers.contains(second) {
                        Ok(leaf)
                    } else if second > start {
                        match decode_typeinfo(d, second, start, markers, (fuel - 1) as nat) {
                            Ok(c) => Ok(ClassTree { name, bases: seq![c] }),
                            Err(e) => Err(e),
                        }
                    } else if !fits(d, p + 8, 4) {
                        Err(AnalysisError::Truncated)
                    } else {
                        let third = le_u32(d, p + 8);
                        if third > start {
                            Ok(leaf)
                        } else {
                            match decode_bases(d, p + 12, third, 0, start, markers, fuel) {
                                Ok(bs) => Ok(ClassTree { name, bases: bs }),
                                Err(e) => Err(e),
                            }
                        }
                    }
                }
            },
        }
    }
}

/// The bases from the `i`-th on of an array of `count` (descriptor,
/// attribute) pairs at `q`.
pub open spec fn decode_bases(
    d: Seq<u8>,
    q: int,
    count: u32,
    i: nat,
    start: u32,
    markers: Seq<u32>,
    fuel: nat,
) -> Result<Seq<ClassTree>, AnalysisError>
    decreases fuel, count - i,
{
    if fuel == 0 {
        Err(AnalysisError::TooDeep)
    } else if i >= count {
        Ok(Seq::empty())
    } else if !fits(d, q + 8 * i, 8) {
        Err(AnalysisError::Truncated)
    } else {
        match decode_typeinfo(d, le_u32(d, q + 8 * i), start, markers, (fuel - 1) as nat) {
            Err(e) => Err(e),
            Ok(c) => prepend(seq![c], decode_bases(d, q, count, i + 1, start, markers, fuel)),
        }
    }
}

/// Where the cursor stands once the class whose `type_info` lies at `off`
/// has been decoded: past the second field for a marker, where the sole
/// base's decode ended for single inheritance, past the third field for an
/// overrun, and past the base array otherwise.
pub open spec fn typeinfo_end(d: Seq<u8>, off: u32, start: u32, markers: Seq<u32>, fuel: nat) -> int
    decreases fuel,
{
    let p = off as int + 4;
    let second = le_u32(d, p + 4);
    if markers.contains(second) {
        p + 8
    } else if second > start {
        if fuel == 0 {
            p + 8
        } else {
            typeinfo_end(d, second, start, markers, (fuel - 1) as nat)
        }
    } else if le_u32(d, p + 8) > start {
        p + 12
    } else {
        p + 12 + 8 * le_u32(d, p + 8)
    }
}

/// Decodes the class whose `type_info` lies at `offset`, following bases at
/// most `depth` levels deep.
pub fn handle_typename(
    reader: &mut BinReader,
    offset: u32,
    start_data_rel_ro: u32,
    rtti_class_offsets: &Vec<u32>,
    depth: u32,
) -> (r: Result<Class, AnalysisError>)
    ensures
        final(reader).bytes() == old(reader).bytes(),
        tree_result(r) == decode_typeinfo(
            old(reader).bytes(),
            offset,
            start_data_rel_ro,
            rtti_class_offsets@,
            depth as nat,
        ),
        r is Ok ==> final(reader).pos() == typeinfo_end(
            old(reader).bytes(),
            offset,
            start_data_rel_ro,
            rtti_class_offsets@,
            depth as nat,
        ),
    decreases depth,
{
    let ghost d = reader.bytes();
    let ghost markers = rtti_class_offsets@;
    if depth == 0 {
        return Err(AnalysisError::TooDeep);
    }
    let len = reader.get_data().len() as u64;
    let p: u64 = offset as u64 + 4;
    if p > len || len - p < 4 {
        return Err(AnalysisError::Truncated);
    }
    reader.set_position(offset);
    reader.set_position_relative(4);
    let name = match reader.read_cstr(Some(|x: u32| -> (y: u32)
        ensures
            y == x,
        { x })) {
        Some(s) => s,
        None => {
            return Err(AnalysisError::InvalidUtf8);
        },
    };
    let second = match reader.read_u32() {
        Some(v) => v,
        None => {
            return Err(AnalysisError::Truncated);
        },
    };
    if contains_u32(rtti_class_offsets, second) {
        let leaf = Class { name, base: Vec::new() };
        assert(leaf.tree().bases =~= Seq::<ClassTree>::empty());
        return Ok(leaf);
    }
    if second > start_data_rel_ro {
        let child = match handle_typename(reader, second, start_data_rel_ro, rtti_class_offsets, depth - 1) {
            Ok(c) => c,
            Err(e) => {
                return Err(e);
            },
        };
        let mut base: Vec<Class> = Vec::new();
        base.push(child);
        let node = Class { name, base };
        assert(node.tree().bases =~= seq![child.tree()]);
        return Ok(node);
    }
    let third = match reader.read_u32() {
        Some(v) => v,
        None => {
            return Err(AnalysisError::Truncated);
        },
    };
    if third > start_data_rel_ro {
        let leaf = Class { name, base: Vec::new() };
        assert(leaf.tree().bases =~= Seq::<ClassTree>::empty());
        return Ok(leaf);
    }
    let ghost q = p + 12;
    let mut base: Vec<Class> = Vec::new();
    let mut i: u32 = 0;
    assert(trees_of(base@) + Seq::<ClassTree>::empty() =~= trees_of(base@));
    while i < third
        invariant
            reader.bytes() == d,
            d == old(reader).bytes(),
            rtti_class_offsets@ == markers,
            reader.pos() == q + 8 * i,
            decode_typeinfo(d, offset, start_data_rel_ro, markers, depth as nat) == (match decode_bases(
                d,
                q,
                third,
                0,
                start_data_rel_ro,
                markers,
                depth as nat,
            ) {
                Ok(bs) => Ok(ClassTree { name: name@, bases: bs }),
                Err(e) => Err(e),
            }),
            i <= third,
            0 < depth,
            decode_bases(d, q, third, 0, start_data_rel_ro, markers, depth as nat) == prepend(
                trees_of(base@),
                decode_bases(d, q, third, i as nat, start_data_rel_ro, markers, depth as nat),
            ),
        decreases third - i,
    {
        let type_descriptor = match reader.read_u32() {
            Some(v) => v,
            None => {
                return Err(AnalysisError::Truncated);
            },
        };
        let _attribute = match reader.read_u32() {
            Some(v) => v,
            None => {
                return Err(AnalysisError::Truncated);
            },
        };
        let return_offset = reader.get_position();
        let child = match handle_typename(
            reader,
            type_descriptor,
            start_data_rel_ro,
            rtti_class_offsets,
            depth - 1,
        ) {
            Ok(c) => c,
            Err(e) => {
                return Err(e);
            },
        };
        reader.restore_position(return_offset);
        let ghost before = base@;
        base.push(child);
        assert(trees_of(base@) =~= trees_of(before) + seq![child.tree()]);
        proof {
            let rest = decode_bases(d, q, third, (i + 1) as nat, start_data_rel_ro, markers, depth as nat);
            if rest is Ok {
                assert(trees_of(before) + (seq![child.tree()] + rest->Ok_0) =~= trees_of(base@) + rest->Ok_0);
            }
        }
        i = i + 1;
    }
    let node = Class { name, base };
    assert(node.tree().bases =~= trees_of(base@));
    assert(trees_of(base@) + Seq::<ClassTree>::empty() =~= trees_of(base@));
    Ok(node)
}

proof fn lemma_bases_in_order(
    d: Seq<u8>,
    q: int,
    count: u32,
    i: nat,
    start: u32,
    markers: Seq<u32>,
    fuel: nat,
)
    requires
        i <= count,
        decode_bases(d, q, count, i, start, markers, fuel) is Ok,
    ensures
        decode_bases(d, q, count, i, start, markers, fuel)->Ok_0.len() == count - i,
        forall|j: int|
            0 <= j < count - i ==> Ok::<ClassTree, AnalysisError>(
                #[trigger] decode_bases(d, q, count, i, start, markers, fuel)->Ok_0[j],
            ) == decode_typeinfo(d, le_u32(d, q + 8 * (i + j)), start, markers, (fuel - 1) as nat),
    decreases count - i,
{
    if i < count {
        lemma_bases_in_order(d, q, count, i + 1, start, markers, fuel);
        let bs = decode_bases(d, q, count, i, start, markers, fuel)->Ok_0;
        let rest = decode_bases(d, q, count, i + 1, start, markers, fuel)->Ok_0;
        assert forall|j: int| 0 <= j < count - i implies Ok::<ClassTree, AnalysisError>(
            #[trigger] bs[j],
        ) == decode_typeinfo(d, le_u32(d, q + 8 * (i + j)), start, markers, (fuel - 1) as nat) by {
            if j > 0 {
                assert(bs[j] == rest[j - 1]);
                assert(q + 8 * (i + 1 + (j - 1)) == q + 8 * (i + j));
            }
        }
    }
}

/// A `type_info` that holds a base array gives a class with exactly as many
/// bases as the array's count says, each decoded from the array's entry of
/// the same rank; a count of zero gives no bases. A `type_info` whose second
/// field is a marker gives no bases.
pub proof fn lemma_base_count(d: Seq<u8>, off: u32, start: u32, markers: Seq<u32>, fuel: nat)
    requires
        decode_typeinfo(d, off, start, markers, fuel) is Ok,
    ensures
        ({
            let p = off as int + 4;
            let t = decode_typeinfo(d, off, start, markers, fuel)->Ok_0;
            &&& markers.contains(le_u32(d, p + 4)) ==> t.bases.len() == 0
            &&& (!markers.contains(le_u32(d, p + 4)) && le_u32(d, p + 4) <= start && le_u32(d, p + 8)
                <= start) ==> {
                &&& t.bases.len() == le_u32(d, p + 8)
                &&& forall|j: int|
                    0 <= j < t.bases.len() ==> Ok::<ClassTree, AnalysisError>(#[trigger] t.bases[j])
                        == decode_typeinfo(
                        d,
                        le_u32(d, p + 12 + 8 * j),
                        start,
                        markers,
                        (fuel - 1) as nat,
                    )
            }
        }),
{
    let p = off as int + 4;
    let second = le_u32(d, p + 4);
    if !markers.contains(second) && second <= start && le_u32(d, p + 8) <= start {
        let third = le_u32(d, p + 8);
        lemma_bases_in_order(d, p + 12, third, 0, start, markers, fuel);
        let t = decode_typeinfo(d, off, start, markers, fuel)->Ok_0;
        assert forall|j: int| 0 <= j < t.bases.len() implies Ok::<ClassTree, AnalysisError>(
            #[trigger] t.bases[j],
        ) == decode_typeinfo(d, le_u32(d, p + 12 + 8 * j), start, markers, (fuel - 1) as nat) by {
            assert(p + 12 + 8 * (0 + j) == p + 12 + 8 * j);
        }
    }
}

/// Whether `x` is one of the values of `v`.
pub fn contains_u32(v: &Vec<u32>, x: u32) -> (r: bool)
    ensures
        r == v@.contains(x),
{
    let mut i: usize = 0;
    while i < v.len()
        invariant
            i <= v.len(),
            forall|k: int| 0 <= k < i ==> v@[k] != x,
        decreases v.len() - i,
    {
        if v[i] == x {
            return true;
        }
        i = i + 1;
    }
    false
}

} // verus!
