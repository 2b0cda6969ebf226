//! A positionable, bounds-checked reader over an immutable byte buffer.
use vstd::prelude::*;
use vstd::utf8::{decode_utf8, valid_utf8};

verus! {

/// The little-endian `u32` stored at `i` in `d`.
pub open spec fn le_u32(d: Seq<u8>, i: int) -> u32 {
    (d[i] as int + d[i + 1] as int * 0x100 + d[i + 2] as int * 0x1_0000 + d[i + 3] as int
        * 0x100_0000) as u32
}

/// The two's-complement reading of a `u32` as an `i32`.
pub open spec fn as_signed(u: u32) -> i32 {
    if u < 0x8000_0000 {
        u as i32
    } else {
        (u as int - 0x1_0000_0000) as i32
    }
}

/// Whether `n` bytes can be read at `pos`.
pub open spec fn fits(d: Seq<u8>, pos: int, n: int) -> bool {
    0 <= pos && pos + n <= d.len()
}

/// Where a read that runs out of bytes leaves the position: it consumes
/// what is left, so the position ends at the end of the buffer unless it
/// already lay beyond.
pub open spec fn past_end(pos: u64, d: Seq<u8>) -> u64 {
    if pos >= d.len() {
        pos
    } else {
        d.len() as u64
    }
}

/// `pos` moved by `delta`, wrapping around the range of `u64`.
pub open spec fn shifted(pos: u64, delta: i32) -> u64 {
    let s = pos as int + delta as int;
    if s < 0 {
        (s + 0x1_0000_0000_0000_0000) as u64
    } else if s > u64::MAX {
        (s - 0x1_0000_0000_0000_0000) as u64
    } else {
        s as u64
    }
}

/// The index of the first zero byte of `d` at or after `i`, or `d.len()`
/// when there is none.
pub open spec fn nul_index(d: Seq<u8>, i: int) -> int
    decreases d.len() - i,
{
    if i < 0 || i >= d.len() {
        if i < 0 { 0 } else { i }
    } else if d[i] == 0 {
        i
    } else {
        nul_index(d, i + 1)
    }
}

/// The bytes of the zero-terminated string at `i` (the terminator excluded;
/// the end of the buffer also ends the string).
pub open spec fn cstr_bytes(d: Seq<u8>, i: int) -> Seq<u8> {
    if i >= d.len() {
        Seq::empty()
    } else {
        d.subrange(i, nul_index(d, i))
    }
}

pub proof fn lemma_nul_index(d: Seq<u8>, i: int)
    requires
        0 <= i <= d.len(),
    ensures
        i <= nul_index(d, i) <= d.len(),
        forall|k: int| i <= k < nul_index(d, i) ==> d[k] != 0,
        nul_index(d, i) < d.len() ==> d[nul_index(d, i)] == 0,
    decreases d.len() - i,
{
    if i < d.len() && d[i] != 0 {
        lemma_nul_index(d, i + 1);
    }
}

/// What reading the zero-terminated string at `t` gives: its text, or
/// `None` when its bytes are not UTF-8.
pub open spec fn cstr_result(d: Seq<u8>, t: u32) -> Option<Seq<char>> {
    if valid_utf8(cstr_bytes(d, t as int)) {
        Some(decode_utf8(cstr_bytes(d, t as int)))
    } else {
        None
    }
}

/// Whether `t` is what the optional translation `adjust` makes of `raw`.
pub open spec fn translated<F: Fn(u32) -> u32>(adjust: Option<F>, raw: u32, t: u32) -> bool {
    match adjust {
        Some(f) => f.ensures((raw,), t),
        None => t == raw,
    }
}

/// Relies on `String::from_utf8`: it succeeds exactly on valid UTF-8 and
/// then holds the decoded characters.
#[verifier::external_body]
fn string_from_utf8(bytes: Vec<u8>) -> (r: Option<String>)
    ensures
        valid_utf8(bytes@) ==> r is Some && r->0@ == decode_utf8(bytes@),
        !valid_utf8(bytes@) ==> r is None,
{
    String::from_utf8(bytes).ok()
}

/// A cursor over a borrowed byte buffer. The position may lie anywhere;
/// reads that would pass the end of the buffer fail.
pub struct BinReader<'a> {
    data: &'a Vec<u8>,
    pos: u64,
}

impl<'a> BinReader<'a> {
    /// The bytes being read.
    pub closed spec fn bytes(&self) -> Seq<u8> {
        self.data@
    }

    /// The current absolute position.
    pub closed spec fn pos(&self) -> u64 {
        self.pos
    }

    pub fn new(data: &'a Vec<u8>) -> (r: Self)
        ensures
            r.bytes() == data@,
            r.pos() == 0,
    {
        BinReader { data, pos: 0 }
    }

    pub fn get_position(&self) -> (r: u64)
        ensures
            r == self.pos(),
    {
        self.pos
    }

    pub fn set_position(&mut self, offset: u32)
        ensures
            final(self).bytes() == old(self).bytes(),
            final(self).pos() == offset as u64,
    {
        self.pos = offset as u64;
    }

    /// Returns to a position read earlier with `get_position`.
    pub(crate) fn restore_position(&mut self, pos: u64)
        ensures
            final(self).bytes() == old(self).bytes(),
            final(self).pos() == pos,
    {
        self.pos = pos;
    }

    /// Moves the position by `offset` bytes, backwards when it is negative.
    pub fn set_position_relative(&mut self, offset: i32)
        ensures
            final(self).bytes() == old(self).bytes(),
            final(self).pos() == shifted(old(self).pos(), offset),
    {
        self.pos = self.pos.wrapping_add_signed(offset as i64);
    }

    /// Reads the little-endian `u32` at the position and moves past it.
    pub fn read_u32(&mut self) -> (r: Option<u32>)
        ensures
            final(self).bytes() == old(self).bytes(),
            fits(old(self).bytes(), old(self).pos() as int, 4) ==> r == Some(
                le_u32(old(self).bytes(), old(self).pos() as int),
            ) && final(self).pos() == old(self).pos() + 4,
            !fits(old(self).bytes(), old(self).pos() as int, 4) ==> r is None && final(self).pos()
                == past_end(old(self).pos(), old(self).bytes()),
    {
        let len = self.data.len();
        if self.pos > len as u64 || len as u64 - self.pos < 4 {
            if self.pos < len as u64 {
                self.pos = len as u64;
            }
            return None;
        }
        let p = self.pos as usize;
        let b0 = self.data[p] as u32;
        let b1 = self.data[p + 1] as u32;
        let b2 = self.data[p + 2] as u32;
        let b3 = self.data[p + 3] as u32;
        self.pos = self.pos + 4;
        Some(b0 + b1 * 0x100 + b2 * 0x1_0000 + b3 * 0x100_0000)
    }

    /// Reads the little-endian `i32` at the position and moves past it.
    pub fn read_i32(&mut self) -> (r: Option<i32>)
        ensures
            final(self).bytes() == old(self).bytes(),
            fits(old(self).bytes(), old(self).pos() as int, 4) ==> r == Some(
                as_signed(le_u32(old(self).bytes(), old(self).pos() as int)),
            ) && final(self).pos() == old(self).pos() + 4,
            !fits(old(self).bytes(), old(self).pos() as int, 4) ==> r is None && final(self).pos()
                == past_end(old(self).pos(), old(self).bytes()),
    {
        match self.read_u32() {
            Some(u) => {
                if u < 0x8000_0000 {
                    Some(u as i32)
                } else {
                    Some(((u - 0x8000_0000) as i32) - 0x7fff_ffff - 1)
                }
            },
            None => None,
        }
    }

    /// Reads the byte at the position and moves past it.
    pub fn read_u8(&mut self) -> (r: Option<u8>)
        ensures
            final(self).bytes() == old(self).bytes(),
            fits(old(self).bytes(), old(self).pos() as int, 1) ==> r == Some(
                old(self).bytes()[old(self).pos() as int],
            ) && final(self).pos() == old(self).pos() + 1,
            !fits(old(self).bytes(), old(self).pos() as int, 1) ==> r is None && final(self).pos()
                == past_end(old(self).pos(), old(self).bytes()),
    {
        if self.pos >= self.data.len() as u64 {
            return None;
        }
        let b = self.data[self.pos as usize];
        self.pos = self.pos + 1;
        Some(b)
    }

    /// Reads a string through a pointer: the `u32` at the position is the
    /// offset of a zero-terminated string, translated by `adjust` when one is
    /// given. The cursor always ends 4 bytes past where it started, whether
    /// the string could be read or not.
    pub fn read_cstr<F: Fn(u32) -> u32>(&mut self, adjust: Option<F>) -> (r: Option<String>)
        requires
            adjust matches Some(f) ==> forall|x: u32| f.requires((x,)),
        ensures
            final(self).bytes() == old(self).bytes(),
            final(self).pos() == shifted(old(self).pos(), 4),
            !fits(old(self).bytes(), old(self).pos() as int, 4) ==> r is None,
            fits(old(self).bytes(), old(self).pos() as int, 4) ==> exists|t: u32|
                translated(adjust, le_u32(old(self).bytes(), old(self).pos() as int), t) && match r {
                    Some(s) => cstr_result(old(self).bytes(), t) == Some(s@),
                    None => cstr_result(old(self).bytes(), t) is None,
                },
    {
        let return_offset = self.pos.wrapping_add_signed(4);
        let raw = match self.read_u32() {
            Some(v) => v,
            None => {
                self.pos = return_offset;
                return None;
            },
        };
        let ghost adj = adjust;
        let target = match adjust {
            Some(f) => f(raw),
            None => raw,
        };
        self.set_position(target);
        let ghost d = self.data@;
        let mut buffer: Vec<u8> = Vec::new();
        proof {
            if target < d.len() {
                lemma_nul_index(d, target as int);
            }
        }
        loop
            invariant_except_break
                target as int <= self.pos,
                target < d.len() ==> self.pos <= nul_index(d, target as int),
                target < d.len() ==> buffer@ == d.subrange(target as int, self.pos as int),
                target >= d.len() ==> self.pos == target && buffer@.len() == 0,
            invariant
                self.data@ == d,
                target < d.len() ==> forall|k: int|
                    target <= k < nul_index(d, target as int) ==> d[k] != 0,
                target < d.len() ==> nul_index(d, target as int) <= d.len(),
                target < d.len() ==> (nul_index(d, target as int) < d.len() ==> d[nul_index(
                    d,
                    target as int,
                )] == 0),
            ensures
                buffer@ == cstr_bytes(d, target as int),
            decreases d.len() - self.pos,
        {
            match self.read_u8() {
                Some(byte) => {
                    if byte == 0 {
                        break;
                    }
                    buffer.push(byte);
                },
                None => {
                    break;
                },
            }
        }
        self.pos = return_offset;
        let r = string_from_utf8(buffer);
        assert(translated(adj, raw, target));
        r
    }

    pub fn get_data(&self) -> (r: &'a Vec<u8>)
        ensures
            r@ == self.bytes(),
    {
        self.data
    }
}

} // verus!
