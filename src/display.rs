//! The indented view of a class hierarchy, with demangled names.
use vstd::prelude::*;
use crate::rtti::Class;
use crate::text::{chars_of, push_all, string_of};

verus! {

/// What demangling the symbol name `mangled` gives, or `None` when the
/// demangler rejects it.
pub uninterp spec fn demangled(mangled: Seq<char>) -> Option<Seq<char>>;

/// Relies on `cpp_demangle::Symbol::new` and `Symbol::demangle` with the
/// default options: the result depends on the name alone.
#[verifier::external_body]
pub(crate) fn demangle(mangled: &str) -> (r: Option<String>)
    ensures
        match r {
            Some(s) => demangled(mangled@) == Some(s@),
            None => demangled(mangled@) is None,
        },
{
    let symbol = cpp_demangle::Symbol::new(mangled).ok()?;
    symbol.demangle(&cpp_demangle::DemangleOptions::default()).ok()
}

/// The indentation added for each level of depth.
pub open spec fn indent_step() -> Seq<char> {
    seq![' ', ' ', ' ', ' ']
}

/// The classes of the tree `c` in depth-first pre-order, each with the
/// indentation of its depth, when the root has indentation `prefix`.
pub open spec fn preorder(c: Class, prefix: Seq<char>) -> Seq<(Seq<char>, Seq<char>)>
    decreases c, 1nat, 0nat,
{
    seq![(prefix, c.name@)] + preorder_bases(c, prefix + indent_step(), 0)
}

/// The pre-order of the bases of `c` from the `i`-th on.
pub open spec fn preorder_bases(c: Class, prefix: Seq<char>, i: nat) -> Seq<(Seq<char>, Seq<char>)>
    decreases c, 0nat, c.base@.len() - i,
{
    if i >= c.base@.len() {
        Seq::empty()
    } else {
        preorder(c.base@[i as int], prefix) + preorder_bases(c, prefix, i + 1)
    }
}

/// Lines joined by newlines.
pub open spec fn join_lines(ls: Seq<Seq<char>>) -> Seq<char>
    decreases ls.len(),
{
    if ls.len() == 0 {
        Seq::empty()
    } else if ls.len() == 1 {
        ls[0]
    } else {
        join_lines(ls.drop_last()) + seq!['\n'] + ls.last()
    }
}

/// Whether every name of `e` demangles.
pub open spec fn all_demangle(e: Seq<(Seq<char>, Seq<char>)>) -> bool {
    forall|i: int| 0 <= i < e.len() ==> (#[trigger] demangled(e[i].1)) is Some
}

/// The lines of the hierarchy view: each indentation followed by the
/// demangled name.
pub open spec fn demangled_lines(e: Seq<(Seq<char>, Seq<char>)>) -> Seq<Seq<char>> {
    Seq::new(e.len(), |i: int| e[i].0 + demangled(e[i].1)->Some_0)
}

pub open spec fn pairs_view(v: Seq<(Vec<char>, String)>) -> Seq<(Seq<char>, Seq<char>)> {
    Seq::new(v.len(), |i: int| (v[i].0@, v[i].1@))
}

pub open spec fn string_pairs_view(v: Seq<(String, String)>) -> Seq<Seq<char>> {
    Seq::new(v.len(), |i: int| v[i].0@ + v[i].1@)
}

/// Joins lines, each given as an indentation and a text, with newlines.
pub fn render_hierarchy(lines: &Vec<(String, String)>) -> (r: String)
    ensures
        r@ == join_lines(string_pairs_view(lines@)),
{
    let mut out: Vec<char> = Vec::new();
    let mut i: usize = 0;
    while i < lines.len()
        invariant
            i <= lines@.len(),
            out@ == join_lines(string_pairs_view(lines@).take(i as int)),
        decreases lines.len() - i,
    {
        if i > 0 {
            out.push('\n');
        }
        let a = chars_of(lines[i].0.as_str());
        let b = chars_of(lines[i].1.as_str());
        push_all(&mut out, &a);
        push_all(&mut out, &b);
        let ghost ls = string_pairs_view(lines@).take(i + 1);
        assert(ls.drop_last() =~= string_pairs_view(lines@).take(i as int));
        assert(out@ =~= join_lines(ls));
        i = i + 1;
    }
    assert(string_pairs_view(lines@).take(i as int) =~= string_pairs_view(lines@));
    string_of(&out)
}

impl Class {
    /// Appends to `out` the classes of this tree in pre-order, with
    /// indentation `prefix` for this class.
    fn collect_lines(&self, prefix: &Vec<char>, out: &mut Vec<(Vec<char>, String)>)
        ensures
            pairs_view(final(out)@) == pairs_view(old(out)@) + preorder(*self, prefix@),
        decreases self,
    {
        let ghost start = pairs_view(out@);
        out.push((prefix.clone(), self.name.clone()));
        let mut deeper = prefix.clone();
        deeper.push(' ');
        deeper.push(' ');
        deeper.push(' ');
        deeper.push(' ');
        assert(deeper@ =~= prefix@ + indent_step());
        assert(pairs_view(out@) =~= start + seq![(prefix@, self.name@)]);
        let mut i: usize = 0;
        while i < self.base.len()
            invariant
                i <= self.base@.len(),
                deeper@ == prefix@ + indent_step(),
                pairs_view(out@) + preorder_bases(*self, deeper@, i as nat) == start + preorder(*self, prefix@),
            decreases self.base.len() - i,
        {
            let ghost before = pairs_view(out@);
            self.base[i].collect_lines(&deeper, out);
            assert(pairs_view(out@) + preorder_bases(*self, deeper@, (i + 1) as nat) =~= before
                + preorder_bases(*self, deeper@, i as nat));
            i = i + 1;
        }
        assert(pairs_view(out@) =~= pairs_view(out@) + preorder_bases(*self, deeper@, i as nat));
    }

    /// The hierarchy view: each class's demangled name on a line of its own,
    /// indented by four spaces for each level of depth, or `None` when a name
    /// does not demangle.
    pub fn get_display(&self) -> (r: Option<String>)
        ensures
            match r {
                Some(s) => all_demangle(preorder(*self, Seq::empty())) && s@ == join_lines(
                    demangled_lines(preorder(*self, Seq::empty())),
                ),
                None => !all_demangle(preorder(*self, Seq::empty())),
            },
    {
        let mut entries: Vec<(Vec<char>, String)> = Vec::new();
        let root: Vec<char> = Vec::new();
        self.collect_lines(&root, &mut entries);
        let ghost e = preorder(*self, Seq::empty());
        assert(pairs_view(entries@) =~= e);
        let mut lines: Vec<(String, String)> = Vec::new();
        let mut i: usize = 0;
        while i < entries.len()
            invariant
                i <= entries@.len(),
                pairs_view(entries@) == e,
                e == preorder(*self, Seq::empty()),
                lines@.len() == i,
                forall|k: int| 0 <= k < i ==> (#[trigger] demangled(e[k].1)) is Some,
                forall|k: int| 0 <= k < i ==> #[trigger] string_pairs_view(lines@)[k] == demangled_lines(e)[k],
            decreases entries.len() - i,
        {
            let d = match demangle(entries[i].1.as_str()) {
                Some(d) => d,
                None => {
                    assert(demangled(e[i as int].1) is None);
                    return None;
                },
            };
            let indent = string_of(&entries[i].0);
            let ghost before = lines@;
            lines.push((indent, d));
            assert forall|k: int| 0 <= k <= i implies #[trigger] string_pairs_view(lines@)[k]
                == demangled_lines(e)[k] by {
                if k < i {
                    assert(lines@[k] == before[k]);
                    assert(string_pairs_view(before)[k] == demangled_lines(e)[k]);
                }
            }
            i = i + 1;
        }
        assert(string_pairs_view(lines@) =~= demangled_lines(e));
        Some(render_hierarchy(&lines))
    }
}

} // verus!
