//! Itanium mangled names of vtable symbols.
use vstd::prelude::*;
use vstd::string::StringSliceAdditionalSpecFns;
use vstd::utf8::encode_utf8;
use crate::text::{chars_of, decimal, push_all, push_decimal, string_of};

verus! {

/// The index of the first `::` in `s` at or after `i`, or `s.len()`.
pub open spec fn first_sep(s: Seq<char>, i: int) -> int
    decreases s.len() - i,
{
    if i < 0 || i + 1 >= s.len() {
        s.len() as int
    } else if s[i] == ':' && s[i + 1] == ':' {
        i
    } else {
        first_sep(s, i + 1)
    }
}

/// A name as the mangling writes it: its length in UTF-8 bytes, then the
/// name.
pub open spec fn source_name(p: Seq<char>) -> Seq<char> {
    decimal(encode_utf8(p).len()) + p
}

/// The components of `s` from `i` on, split at `::`, each as a source name.
pub open spec fn nested_names(s: Seq<char>, i: int) -> Seq<char>
    decreases s.len() - i,
{
    let k = first_sep(s, i);
    if i < 0 || k < i || k + 1 >= s.len() {
        source_name(s.subrange(i, s.len() as int))
    } else {
        source_name(s.subrange(i, k)) + nested_names(s, k + 2)
    }
}

/// The mangled name of the vtable of the class `name`: `_ZTV` and the
/// name for an unqualified name, `_ZTVN`, each component and `E` for a
/// qualified one.
pub open spec fn vtable_symbol(name: Seq<char>) -> Seq<char> {
    if first_sep(name, 0) >= name.len() {
        seq!['_', 'Z', 'T', 'V'] + source_name(name)
    } else {
        seq!['_', 'Z', 'T', 'V', 'N'] + nested_names(name, 0) + seq!['E']
    }
}

pub proof fn lemma_first_sep(s: Seq<char>, i: int)
    requires
        0 <= i,
    ensures
        i <= first_sep(s, i) <= s.len() || (i >= s.len() && first_sep(s, i) == s.len()),
        first_sep(s, i) < s.len() ==> first_sep(s, i) + 1 < s.len() && s[first_sep(s, i)] == ':'
            && s[first_sep(s, i) + 1] == ':',
    decreases s.len() - i,
{
    if i + 1 < s.len() && !(s[i] == ':' && s[i + 1] == ':') {
        lemma_first_sep(s, i + 1);
    }
}

pub(crate) fn find_sep(s: &Vec<char>, i: usize) -> (r: usize)
    requires
        i <= s@.len(),
    ensures
        r == first_sep(s@, i as int),
{
    let mut j: usize = i;
    while s.len() - j > 1
        invariant
            i <= j <= s@.len(),
            first_sep(s@, i as int) == first_sep(s@, j as int),
        decreases s.len() - j,
    {
        if s[j] == ':' && s[j + 1] == ':' {
            return j;
        }
        j = j + 1;
    }
    s.len()
}

proof fn lemma_encode_concat(a: Seq<char>, b: Seq<char>)
    ensures
        encode_utf8(a + b) == encode_utf8(a) + encode_utf8(b),
    decreases a.len(),
{
    if a.len() == 0 {
        assert(a + b =~= b);
        assert(encode_utf8(a) =~= Seq::<u8>::empty());
        assert(encode_utf8(a) + encode_utf8(b) =~= encode_utf8(b));
    } else {
        assert((a + b).drop_first() =~= a.drop_first() + b);
        lemma_encode_concat(a.drop_first(), b);
        assert((a + b)[0] == a[0]);
        assert(encode_utf8(a + b) =~= encode_utf8(a) + encode_utf8(b));
    }
}

proof fn lemma_encode_subrange(s: Seq<char>, i: int, k: int)
    requires
        0 <= i <= k <= s.len(),
    ensures
        encode_utf8(s.subrange(i, k)).len() <= encode_utf8(s).len(),
{
    let a = s.subrange(0, i);
    let m = s.subrange(i, k);
    let c = s.subrange(k, s.len() as int);
    assert(s =~= a + (m + c));
    lemma_encode_concat(a, m + c);
    lemma_encode_concat(m, c);
}

/// Appends the source name of `p` to `out`.
fn push_source_name(out: &mut Vec<char>, p: &Vec<char>)
    requires
        encode_utf8(p@).len() <= usize::MAX,
    ensures
        final(out)@ == old(out)@ + source_name(p@),
{
    let ps = string_of(p);
    let st = ps.as_str();
    let n = st.len();
    assert(st.spec_bytes() == encode_utf8(st@));
    push_decimal(out, n);
    push_all(out, p);
    assert(final(out)@ =~= old(out)@ + source_name(p@));
}

pub(crate) fn slice_chars(s: &Vec<char>, a: usize, b: usize) -> (r: Vec<char>)
    requires
        a <= b <= s@.len(),
    ensures
        r@ == s@.subrange(a as int, b as int),
{
    let mut r: Vec<char> = Vec::new();
    let mut i: usize = a;
    while i < b
        invariant
            a <= i <= b,
            b <= s@.len(),
            r@ == s@.subrange(a as int, i as int),
        decreases b - i,
    {
        r.push(s[i]);
        i = i + 1;
        assert(r@ =~= s@.subrange(a as int, i as int));
    }
    r
}

/// The mangled name of the vtable symbol of the class `class_name`, written
/// in source notation (`A::B::C`).
pub fn get_vtable_mangled_name(class_name: &String) -> (r: String)
    requires
        encode_utf8(class_name@).len() <= usize::MAX,
    ensures
        r@ == vtable_symbol(class_name@),
{
    let s = chars_of(class_name.as_str());
    let mut out: Vec<char> = vec!['_', 'Z', 'T', 'V'];
    if find_sep(&s, 0) >= s.len() {
        push_source_name(&mut out, &s);
        return string_of(&out);
    }
    out.push('N');
    let ghost head = out@;
    let mut i: usize = 0;
    loop
        invariant_except_break
            i <= s@.len(),
            head + nested_names(s@, 0) == out@ + nested_names(s@, i as int),
        invariant
            s@ == class_name@,
            encode_utf8(class_name@).len() <= usize::MAX,
            head == seq!['_', 'Z', 'T', 'V', 'N'],
        ensures
            out@ == head + nested_names(s@, 0),
        decreases s@.len() - i,
    {
        let k = find_sep(&s, i);
        proof {
            lemma_first_sep(s@, i as int);
        }
        let piece = slice_chars(&s, i, if k < s.len() { k } else { s.len() });
        proof {
            lemma_encode_subrange(s@, i as int, piece@.len() + i);
        }
        let ghost before = out@;
        push_source_name(&mut out, &piece);
        if k >= s.len() {
            assert(out@ =~= before + nested_names(s@, i as int));
            break;
        }
        assert(out@ + nested_names(s@, (k + 2) as int) =~= before + nested_names(s@, i as int));
        i = k + 2;
    }
    out.push('E');
    proof {
        assert(out@ =~= head + nested_names(s@, 0) + seq!['E']);
    }
    string_of(&out)
}

} // verus!
