//! Renderings of decoded vtables: pseudo-C structs for a disassembler, and
//! records of the primary group's functions.
use vstd::prelude::*;
use crate::display::{demangle, demangled};
use crate::error::AnalysisError;
use crate::mangle::{first_sep, find_sep, lemma_first_sep, slice_chars};
use crate::symbols::SymbolCatalog;
use crate::text::{chars_of, decimal, push_all, push_decimal, string_of};

verus! {

pub open spec fn starts_with(s: Seq<char>, p: Seq<char>) -> bool {
    p.len() <= s.len() && s.take(p.len() as int) == p
}

pub open spec fn ends_with(s: Seq<char>, p: Seq<char>) -> bool {
    p.len() <= s.len() && s.skip(s.len() - p.len()) == p
}

/// The index of the first `c` in `s`, or `s.len()`.
pub open spec fn first_char(s: Seq<char>, c: char, i: int) -> int
    decreases s.len() - i,
{
    if i < 0 || i >= s.len() {
        s.len() as int
    } else if s[i] == c {
        i
    } else {
        first_char(s, c, i + 1)
    }
}

/// The last of the `::`-separated components of `s` from `i` on.
pub open spec fn last_component(s: Seq<char>, i: int) -> Seq<char>
    decreases s.len() - i,
{
    let k = first_sep(s, i);
    if i < 0 || k < i || k + 1 >= s.len() {
        s.subrange(i, s.len() as int)
    } else {
        last_component(s, k + 2)
    }
}

/// What trimming trailing white space off `s` gives.
pub uninterp spec fn trimmed_end(s: Seq<char>) -> Seq<char>;

/// Relies on `str::trim_end`: the result depends on the characters alone.
#[verifier::external_body]
fn trim_end_of(s: &String) -> (r: String)
    ensures
        r@ == trimmed_end(s@),
{
    s.trim_end().to_string()
}

/// A demangled override thunk `{virtual override thunk(...), target}` with
/// the target named after the comma and its space, closed by two more
/// characters.
pub open spec fn unthunked(d: Seq<char>) -> Option<Seq<char>> {
    if !starts_with(d, "{virtual override thunk"@) {
        Some(d)
    } else {
        let c = first_char(d, ',', 0);
        if c + 3 >= d.len() {
            None
        } else {
            Some(d.subrange(c + 2, d.len() - 2))
        }
    }
}

/// The member name and the signature, with the class as explicit first
/// parameter, of the demangled function `d`; `None` when `d` has no
/// parameter list.
pub open spec fn member_of(d: Seq<char>, class: Seq<char>) -> Option<(Seq<char>, Seq<char>)> {
    match unthunked(d) {
        None => None,
        Some(t) => {
            let p = first_char(t, '(', 0);
            if p >= t.len() {
                None
            } else {
                let name = last_component(t.take(p), 0);
                let args = t.skip(p);
                let sig = if starts_with(args, "()"@) {
                    "("@ + class + "*)"@ + args.skip(2)
                } else {
                    "("@ + class + "*, "@ + args.skip(1)
                };
                if ends_with(sig, "const"@) {
                    Some((name, trimmed_end(sig.take(sig.len() - 5))))
                } else {
                    Some((name, sig))
                }
            }
        },
    }
}

fn starts_with_chars(s: &Vec<char>, p: &Vec<char>) -> (r: bool)
    ensures
        r == starts_with(s@, p@),
{
    if p.len() > s.len() {
        return false;
    }
    let mut i: usize = 0;
    while i < p.len()
        invariant
            i <= p@.len() <= s@.len(),
            forall|k: int| 0 <= k < i ==> s@[k] == p@[k],
        decreases p.len() - i,
    {
        if s[i] != p[i] {
            assert(s@.take(p@.len() as int)[i as int] != p@[i as int]);
            return false;
        }
        i = i + 1;
    }
    assert(s@.take(p@.len() as int) =~= p@);
    true
}

fn ends_with_chars(s: &Vec<char>, p: &Vec<char>) -> (r: bool)
    ensures
        r == ends_with(s@, p@),
{
    if p.len() > s.len() {
        return false;
    }
    let off = s.len() - p.len();
    let mut i: usize = 0;
    while i < p.len()
        invariant
            i <= p@.len() <= s@.len(),
            off == s@.len() - p@.len(),
            off + p@.len() == s@.len(),
            s@.len() <= usize::MAX,
            forall|k: int| 0 <= k < i ==> s@[off + k] == p@[k],
        decreases p.len() - i,
    {
        if s[off + i] != p[i] {
            assert(s@.skip(off as int)[i as int] != p@[i as int]);
            return false;
        }
        i = i + 1;
    }
    assert(s@.skip(off as int) =~= p@);
    true
}

fn find_char(s: &Vec<char>, c: char) -> (r: usize)
    ensures
        r == first_char(s@, c, 0),
        r <= s@.len(),
        r < s@.len() ==> s@[r as int] == c,
{
    let mut i: usize = 0;
    while i < s.len()
        invariant
            i <= s@.len(),
            first_char(s@, c, 0) == first_char(s@, c, i as int),
        decreases s.len() - i,
    {
        if s[i] == c {
            return i;
        }
        i = i + 1;
    }
    i
}

fn last_component_of(s: &Vec<char>) -> (r: Vec<char>)
    ensures
        r@ == last_component(s@, 0),
{
    let mut i: usize = 0;
    loop
        invariant
            i <= s@.len(),
            last_component(s@, 0) == last_component(s@, i as int),
        decreases s@.len() - i,
    {
        let k = find_sep(s, i);
        proof {
            lemma_first_sep(s@, i as int);
        }
        if k >= s.len() || k + 1 >= s.len() {
            return slice_chars(s, i, s.len());
        }
        i = k + 2;
    }
}

/// The member name and signature of the demangled function `demangled_name`
/// of the class `class_name`.
pub fn member_signature(demangled_name: &String, class_name: &String) -> (r: Option<(String, String)>)
    ensures
        match r {
            Some((n, s)) => member_of(demangled_name@, class_name@) == Some((n@, s@)),
            None => member_of(demangled_name@, class_name@) is None,
        },
{
    let d = chars_of(demangled_name.as_str());
    let class = chars_of(class_name.as_str());
    let thunk = chars_of("{virtual override thunk");
    let t = if starts_with_chars(&d, &thunk) {
        let c = find_char(&d, ',');
        if c >= d.len() || d.len() - c <= 3 {
            return None;
        }
        slice_chars(&d, c + 2, d.len() - 2)
    } else {
        d
    };
    assert(unthunked(demangled_name@) == Some(t@));
    let p = find_char(&t, '(');
    if p >= t.len() {
        return None;
    }
    let head = slice_chars(&t, 0, p);
    assert(head@ =~= t@.take(p as int));
    let name = last_component_of(&head);
    let args = slice_chars(&t, p, t.len());
    assert(args@ =~= t@.skip(p as int));
    let mut sig: Vec<char> = vec!['('];
    push_all(&mut sig, &class);
    let empty_params = chars_of("()");
    if starts_with_chars(&args, &empty_params) {
        push_all(&mut sig, &chars_of("*)"));
        proof {
            reveal_strlit("()");
        }
        let rest = slice_chars(&args, 2, args.len());
        push_all(&mut sig, &rest);
        proof {
            reveal_strlit("()");
            reveal_strlit("(");
        }
        assert(rest@ =~= args@.skip(2));
        assert(sig@ =~= "("@ + class@ + "*)"@ + args@.skip(2));
    } else {
        push_all(&mut sig, &chars_of("*, "));
        proof {
            reveal_strlit("(");
        }
        if args.len() < 1 {
            assert(false);
        }
        let rest = slice_chars(&args, 1, args.len());
        push_all(&mut sig, &rest);
        assert(rest@ =~= args@.skip(1));
        assert(sig@ =~= "("@ + class@ + "*, "@ + args@.skip(1));
    }
    let konst = chars_of("const");
    if ends_with_chars(&sig, &konst) {
        proof {
            reveal_strlit("const");
        }
        let cut = slice_chars(&sig, 0, sig.len() - 5);
        assert(cut@ =~= sig@.take(sig@.len() - 5));
        let trimmed = trim_end_of(&string_of(&cut));
        return Some((string_of(&name), trimmed));
    }
    Some((string_of(&name), string_of(&sig)))
}

/// One slot of a vtable group as the struct view writes it.
pub enum Slot {
    /// The class's complete-object destructor.
    Dtor,
    /// The class's deleting destructor.
    Delete,
    /// Another member function, by name and signature.
    Member(String, String),
}

pub enum SlotView {
    Dtor,
    Delete,
    Member(Seq<char>, Seq<char>),
}

pub open spec fn slot_view(s: Slot) -> SlotView {
    match s {
        Slot::Dtor => SlotView::Dtor,
        Slot::Delete => SlotView::Delete,
        Slot::Member(n, g) => SlotView::Member(n@, g@),
    }
}

pub open spec fn slots_view(v: Seq<Slot>) -> Seq<SlotView> {
    Seq::new(v.len(), |i: int| slot_view(v[i]))
}

/// The slot that the function symbol `sym` of the class `class` fills.
pub open spec fn slot_spec(sym: Seq<char>, class: Seq<char>) -> Result<SlotView, AnalysisError> {
    if ends_with(sym, "D1Ev"@) {
        Ok(SlotView::Dtor)
    } else if ends_with(sym, "D0Ev"@) {
        Ok(SlotView::Delete)
    } else {
        match demangled(sym) {
            None => Err(AnalysisError::Demangle),
            Some(d) => match member_of(d, class) {
                None => Err(AnalysisError::Demangle),
                Some((n, g)) => Ok(SlotView::Member(n, g)),
            },
        }
    }
}

/// The slot that the function symbol `symbol` of the class `class_name`
/// fills: the destructors by their symbol suffix, any other member by its
/// demangled name.
pub fn slot_of(symbol: &String, class_name: &String) -> (r: Result<Slot, AnalysisError>)
    ensures
        match r {
            Ok(s) => slot_spec(symbol@, class_name@) == Ok::<_, AnalysisError>(slot_view(s)),
            Err(e) => slot_spec(symbol@, class_name@) == Err::<SlotView, _>(e),
        },
{
    let sym = chars_of(symbol.as_str());
    if ends_with_chars(&sym, &chars_of("D1Ev")) {
        return Ok(Slot::Dtor);
    }
    if ends_with_chars(&sym, &chars_of("D0Ev")) {
        return Ok(Slot::Delete);
    }
    let d = match demangle(symbol.as_str()) {
        Some(d) => d,
        None => {
            return Err(AnalysisError::Demangle);
        },
    };
    match member_signature(&d, class_name) {
        Some((n, g)) => Ok(Slot::Member(n, g)),
        None => Err(AnalysisError::Demangle),
    }
}

/// How many of the slots of `v` are members called `n`.
pub open spec fn count_named(v: Seq<SlotView>, n: Seq<char>) -> nat
    decreases v.len(),
{
    if v.len() == 0 {
        0
    } else {
        count_named(v.drop_last(), n) + match v.last() {
            SlotView::Member(m, _) => if m == n { 1nat } else { 0nat },
            _ => 0nat,
        }
    }
}

/// The field that the `k`-th slot of `v` becomes in the struct of the
/// class `class`; a member name already used in the group gets the suffix
/// `_` and its number of uses.
pub open spec fn slot_field(v: Seq<SlotView>, k: int, class: Seq<char>) -> Seq<char> {
    match v[k] {
        SlotView::Dtor => "    void (*__dtor)("@ + class + "*);"@,
        SlotView::Delete => "    void (*__delete)("@ + class + "*);"@,
        SlotView::Member(n, g) => {
            let c = count_named(v.take(k + 1), n);
            let shown = if c <= 1 { n } else { n + "_"@ + decimal(c) };
            "    void (*"@ + shown + ")"@ + g + ";"@
        },
    }
}

/// The fields of the slots of `v` before the `k`-th, each on a line.
pub open spec fn slot_fields(v: Seq<SlotView>, k: int, class: Seq<char>) -> Seq<char>
    decreases k,
{
    if k <= 0 {
        Seq::empty()
    } else {
        slot_fields(v, k - 1, class) + slot_field(v, k - 1, class) + "\n"@
    }
}

/// The name of the struct of the group at offset `ota` of the class.
pub open spec fn vft_name(class: Seq<char>, ota: nat) -> Seq<char> {
    class + "_"@ + decimal(ota) + "_vft"@
}

/// The struct of one group.
pub open spec fn vft_struct(class: Seq<char>, ota: nat, v: Seq<SlotView>) -> Seq<char> {
    "struct "@ + vft_name(class, ota) + " {\n"@ + slot_fields(v, v.len() as int, class) + "};\n"@
}

fn count_named_upto(v: &Vec<Slot>, k: usize, n: &String) -> (r: usize)
    requires
        k < v@.len(),
    ensures
        r == count_named(slots_view(v@).take(k + 1), n@),
{
    let mut c: usize = 0;
    let mut i: usize = 0;
    let len = v.len();
    while i <= k
        invariant
            i <= k + 1,
            k < v@.len(),
            len == v@.len(),
            c <= i,
            c == count_named(slots_view(v@).take(i as int), n@),
        decreases k + 1 - i,
    {
        assert(slots_view(v@).take(i + 1).drop_last() =~= slots_view(v@).take(i as int));
        match &v[i] {
            Slot::Member(m, _) => {
                if m.eq(n) {
                    c = c + 1;
                }
            },
            _ => {},
        }
        i = i + 1;
    }
    c
}

/// The struct of one group: the struct name from the class and the
/// absolute offset to `this`, then one function-pointer field per slot.
pub fn render_vft_struct(class_name: &String, offset: u32, slots: &Vec<Slot>) -> (r: String)
    ensures
        r@ == vft_struct(class_name@, offset as nat, slots_view(slots@)),
{
    let class = chars_of(class_name.as_str());
    let ghost v = slots_view(slots@);
    let mut out: Vec<char> = chars_of("struct ");
    push_all(&mut out, &class);
    push_all(&mut out, &chars_of("_"));
    push_decimal(&mut out, offset as usize);
    push_all(&mut out, &chars_of("_vft"));
    push_all(&mut out, &chars_of(" {\n"));
    let ghost head = out@;
    assert(head =~= "struct "@ + vft_name(class_name@, offset as nat) + " {\n"@);
    let mut k: usize = 0;
    while k < slots.len()
        invariant
            k <= slots@.len(),
            v == slots_view(slots@),
            class@ == class_name@,
            out@ == head + slot_fields(v, k as int, class_name@),
        decreases slots.len() - k,
    {
        let ghost before = out@;
        match &slots[k] {
            Slot::Dtor => {
                push_all(&mut out, &chars_of("    void (*__dtor)("));
                push_all(&mut out, &class);
                push_all(&mut out, &chars_of("*);"));
            },
            Slot::Delete => {
                push_all(&mut out, &chars_of("    void (*__delete)("));
                push_all(&mut out, &class);
                push_all(&mut out, &chars_of("*);"));
            },
            Slot::Member(n, g) => {
                let c = count_named_upto(slots, k, n);
                push_all(&mut out, &chars_of("    void (*"));
                push_all(&mut out, &chars_of(n.as_str()));
                if c > 1 {
                    push_all(&mut out, &chars_of("_"));
                    push_decimal(&mut out, c);
                }
                push_all(&mut out, &chars_of(")"));
                push_all(&mut out, &chars_of(g.as_str()));
                push_all(&mut out, &chars_of(";"));
            },
        }
        assert(out@ =~= before + slot_field(v, k as int, class_name@));
        push_all(&mut out, &chars_of("\n"));
        k = k + 1;
        assert(out@ =~= head + slot_fields(v, k as int, class_name@));
    }
    push_all(&mut out, &chars_of("};\n"));
    assert(out@ =~= vft_struct(class_name@, offset as nat, v));
    string_of(&out)
}

/// The absolute value of an offset to `this`.
pub open spec fn abs_offset(o: i32) -> nat {
    if o < 0 {
        (-o) as nat
    } else {
        o as nat
    }
}

/// The fields of the class's own struct from the `i`-th group on: a
/// pointer to each group's struct, preceded by a filler where the offset
/// grew by more than a pointer since the previous group (at `last`);
/// `fill` numbers the fillers.
pub open spec fn main_fields(class: Seq<char>, otas: Seq<i32>, i: int, last: int, fill: nat) -> Seq<
    char,
>
    decreases otas.len() - i,
{
    if i < 0 || i >= otas.len() {
        Seq::empty()
    } else {
        let o = abs_offset(otas[i]);
        let f = o - last - 4;
        (if f > 0 {
            "    char fill_"@ + decimal(fill) + "["@ + decimal(f as nat) + "];\n"@
        } else {
            Seq::empty()
        }) + "    "@ + vft_name(class, o) + "* __vtable_"@ + decimal(o) + ";\n"@ + main_fields(
            class,
            otas,
            i + 1,
            o as int,
            if f > 0 { fill + 1 } else { fill },
        )
    }
}

pub open spec fn group_offsets(g: Seq<(i32, Seq<SlotView>)>) -> Seq<i32> {
    Seq::new(g.len(), |i: int| g[i].0)
}

/// The structs of the groups before the `k`-th.
pub open spec fn vft_structs(class: Seq<char>, g: Seq<(i32, Seq<SlotView>)>, k: int) -> Seq<char>
    decreases k,
{
    if k <= 0 || k > g.len() {
        Seq::empty()
    } else {
        vft_structs(class, g, k - 1) + vft_struct(class, abs_offset(g[k - 1].0), g[k - 1].1)
    }
}

/// The whole struct view: a struct for each group, then the class's struct.
pub open spec fn ida_text(class: Seq<char>, g: Seq<(i32, Seq<SlotView>)>) -> Seq<char> {
    vft_structs(class, g, g.len() as int) + "struct "@ + class + " {\n"@ + main_fields(
        class,
        group_offsets(g),
        0,
        0,
        0,
    ) + "};\n"@
}

pub open spec fn slot_groups_view(v: Seq<(i32, Vec<Slot>)>) -> Seq<(i32, Seq<SlotView>)> {
    Seq::new(v.len(), |i: int| (v[i].0, slots_view(v[i].1@)))
}

fn abs_of(o: i32) -> (r: u32)
    ensures
        r as nat == abs_offset(o),
{
    if o < 0 {
        (-(o as i64)) as u32
    } else {
        o as u32
    }
}

/// Renders the struct view of a class's vtable groups.
#[verifier::rlimit(60)]
pub fn render_ida(class_name: &String, groups: &Vec<(i32, Vec<Slot>)>) -> (r: String)
    ensures
        r@ == ida_text(class_name@, slot_groups_view(groups@)),
{
    let ghost g = slot_groups_view(groups@);
    let ghost otas = group_offsets(g);
    let class = chars_of(class_name.as_str());
    let mut structs: Vec<char> = Vec::new();
    let mut fields: Vec<char> = Vec::new();
    let mut last: i64 = 0;
    let mut fill: usize = 0;
    let mut k: usize = 0;
    while k < groups.len()
        invariant
            k <= groups@.len(),
            g == slot_groups_view(groups@),
            otas == group_offsets(g),
            class@ == class_name@,
            0 <= last <= 0x8000_0000,
            fill <= k,
            structs@ == vft_structs(class_name@, g, k as int),
            fields@ + main_fields(class_name@, otas, k as int, last as int, fill as nat) == main_fields(
                class_name@,
                otas,
                0,
                0,
                0,
            ),
        decreases groups.len() - k,
    {
        let o = abs_of(groups[k].0);
        let text = render_vft_struct(class_name, o, &groups[k].1);
        push_all(&mut structs, &chars_of(text.as_str()));
        assert(structs@ =~= vft_structs(class_name@, g, k + 1));
        let ghost before = fields@;
        let f: i64 = o as i64 - last - 4;
        if f > 0 {
            push_all(&mut fields, &chars_of("    char fill_"));
            push_decimal(&mut fields, fill);
            push_all(&mut fields, &chars_of("["));
            push_decimal(&mut fields, f as usize);
            push_all(&mut fields, &chars_of("];\n"));
        }
        push_all(&mut fields, &chars_of("    "));
        push_all(&mut fields, &class);
        push_all(&mut fields, &chars_of("_"));
        push_decimal(&mut fields, o as usize);
        push_all(&mut fields, &chars_of("_vft"));
        push_all(&mut fields, &chars_of("* __vtable_"));
        push_decimal(&mut fields, o as usize);
        push_all(&mut fields, &chars_of(";\n"));
        let ghost nf: nat = if f > 0 { (fill + 1) as nat } else { fill as nat };
        assert(fields@ + main_fields(class_name@, otas, k + 1, o as int, nf) =~= before + main_fields(
            class_name@,
            otas,
            k as int,
            last as int,
            fill as nat,
        ));
        if f > 0 {
            fill = fill + 1;
        }
        last = o as i64;
        k = k + 1;
    }
    assert(fields@ =~= main_fields(class_name@, otas, 0, 0, 0));
    push_all(&mut structs, &chars_of("struct "));
    push_all(&mut structs, &class);
    push_all(&mut structs, &chars_of(" {\n"));
    push_all(&mut structs, &fields);
    push_all(&mut structs, &chars_of("};\n"));
    assert(structs@ =~= ida_text(class_name@, g));
    string_of(&structs)
}

/// The slots of a group's function addresses, each named through the
/// catalog; `NotFound` when an address has no symbol.
pub fn resolve_slots(catalog: &SymbolCatalog, class_name: &String, functions: &Vec<u32>) -> (r: Result<
    Vec<Slot>,
    AnalysisError,
>)
    ensures
        match r {
            Ok(v) => v@.len() == functions@.len() && forall|i: int|
                0 <= i < v@.len() ==> catalog.address_to_name().contains_key(#[trigger] functions@[i])
                    && slot_spec(catalog.address_to_name()[functions@[i]], class_name@) == Ok::<
                    _,
                    AnalysisError,
                >(slot_view(v@[i])),
            Err(e) => exists|i: int|
                0 <= i < functions@.len() && (!catalog.address_to_name().contains_key(
                    #[trigger] functions@[i],
                ) && e == AnalysisError::NotFound || catalog.address_to_name().contains_key(
                    functions@[i],
                ) && slot_spec(catalog.address_to_name()[functions@[i]], class_name@) == Err::<
                    SlotView,
                    _,
                >(e)),
        },
{
    let mut out: Vec<Slot> = Vec::new();
    let mut i: usize = 0;
    while i < functions.len()
        invariant
            i <= functions@.len(),
            out@.len() == i,
            forall|k: int|
                0 <= k < i ==> catalog.address_to_name().contains_key(#[trigger] functions@[k])
                    && slot_spec(catalog.address_to_name()[functions@[k]], class_name@) == Ok::<
                    _,
                    AnalysisError,
                >(slot_view(out@[k])),
        decreases functions.len() - i,
    {
        let symbol = match catalog.name_at(functions[i]) {
            Some(s) => s,
            None => {
                return Err(AnalysisError::NotFound);
            },
        };
        let slot = match slot_of(&symbol, class_name) {
            Ok(s) => s,
            Err(e) => {
                return Err(e);
            },
        };
        out.push(slot);
        i = i + 1;
    }
    Ok(out)
}

/// A function of the primary group as the record view lists it.
pub struct FunctionEntry {
    pub name: String,
    pub address: u32,
    pub offset: u32,
}

/// The byte offset of the `i`-th function slot of a group: past the
/// offset-to-`this` and `type_info` slots, 4 bytes per slot, wrapping
/// around the range of `u32`.
pub open spec fn slot_offset(i: int) -> u32 {
    ((8 + 4 * i) % 0x1_0000_0000) as u32
}

/// The records of the functions of the first group: symbol name, address
/// and byte offset in the group. Only the first group is listed.
pub fn vtable_json_records(catalog: &SymbolCatalog, groups: &Vec<(i32, Vec<u32>)>) -> (r: Result<
    Vec<FunctionEntry>,
    AnalysisError,
>)
    ensures
        groups@.len() == 0 ==> (r matches Ok(v) && v@.len() == 0),
        groups@.len() > 0 ==> match r {
            Ok(v) => v@.len() == groups@[0].1@.len() && forall|i: int|
                0 <= i < v@.len() ==> {
                    let a = #[trigger] groups@[0].1@[i];
                    &&& v@[i].address == a
                    &&& v@[i].offset == slot_offset(i)
                    &&& catalog.address_to_name().contains_key(a)
                    &&& v@[i].name@ == catalog.address_to_name()[a]
                },
            Err(e) => e == AnalysisError::NotFound && exists|i: int|
                0 <= i < groups@[0].1@.len() && !catalog.address_to_name().contains_key(
                    #[trigger] groups@[0].1@[i],
                ),
        },
{
    let mut out: Vec<FunctionEntry> = Vec::new();
    if groups.len() == 0 {
        return Ok(out);
    }
    let functions = &groups[0].1;
    let mut offset: u32 = 8;
    let mut i: usize = 0;
    while i < functions.len()
        invariant
            groups@.len() > 0,
            functions@ == groups@[0].1@,
            i <= functions@.len(),
            out@.len() == i,
            offset == slot_offset(i as int),
            forall|k: int|
                0 <= k < i ==> {
                    let a = #[trigger] functions@[k];
                    &&& out@[k].address == a
                    &&& out@[k].offset == slot_offset(k)
                    &&& catalog.address_to_name().contains_key(a)
                    &&& out@[k].name@ == catalog.address_to_name()[a]
                },
        decreases functions.len() - i,
    {
        let a = functions[i];
        let name = match catalog.name_at(a) {
            Some(s) => s,
            None => {
                return Err(AnalysisError::NotFound);
            },
        };
        out.push(FunctionEntry { name, address: a, offset });
        offset = offset.wrapping_add(4);
        assert(offset == slot_offset(i + 1)) by {
            assert((8 + 4 * (i + 1)) % 0x1_0000_0000 == ((8 + 4 * i) % 0x1_0000_0000 + 4)
                % 0x1_0000_0000) by (nonlinear_arith);
        }
        i = i + 1;
    }
    Ok(out)
}

} // verus!
