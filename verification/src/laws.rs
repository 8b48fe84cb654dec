//! Facts about parsing that hold of every registry and every command line.

use crate::param::ParamView;
use crate::state::{alias_key, first_eq, is_plain, CellView, EntryView, Kind, State};
use vstd::prelude::*;

verus! {

/// `first_eq` is the place of the first `=`: it lies within the text or at
/// its end, an `=` stands there unless it is the end, and none stands before
/// it.
pub proof fn lemma_first_eq(s: Seq<char>)
    ensures
        0 <= first_eq(s) <= s.len(),
        first_eq(s) < s.len() ==> s[first_eq(s)] == '=',
        forall|j: int| 0 <= j < first_eq(s) ==> s[j] != '=',
    decreases s.len(),
{
    if s.len() > 0 && s[0] != '=' {
        let t = s.drop_first();
        lemma_first_eq(t);
        assert forall|j: int| 0 <= j < first_eq(s) implies s[j] != '=' by {
            if j > 0 {
                assert(s[j] == t[j - 1]);
            }
        }
    }
}

/// From position `i` on, tokens that are all plain are kept, in their order,
/// and nothing else changes.
pub proof fn lemma_run_plain(st: State, toks: Seq<Seq<char>>, i: int)
    requires
        0 <= i <= toks.len(),
        forall|j: int| i <= j < toks.len() ==> is_plain(#[trigger] toks[j]),
    ensures
        st.run(toks, i) == (State { args: st.args + toks.skip(i), ..st }),
    decreases toks.len() - i,
{
    if i < toks.len() {
        let t = toks[i];
        assert(is_plain(t));
        lemma_run_plain(st.kept(t), toks, i + 1);
        assert(st.args.push(t) + toks.skip(i + 1) =~= st.args + toks.skip(i));
    } else {
        assert(st.args + toks.skip(i) =~= st.args);
    }
}

/// A command line whose tokens after the program's name are all plain (none
/// starts a flag, an option or the stop marker, none holds `=`) comes back
/// as the positional arguments, token for token and in the same order, and
/// nothing else in the parser changes.
pub proof fn lemma_plain_round_trip(st: State, toks: Seq<Seq<char>>)
    requires
        forall|j: int| 1 <= j < toks.len() ==> is_plain(#[trigger] toks[j]),
    ensures
        toks.len() >= 1 ==> st.parse(toks) == (State { args: st.args + toks.skip(1), ..st }),
        toks.len() == 0 ==> st.parse(toks) == st,
{
    if toks.len() >= 1 {
        lemma_run_plain(st, toks, 1);
    }
}

/// Two keys that share a cell are found together, and where they are of one
/// kind they have the same value: what is set through one alias is seen
/// through the other.
pub proof fn lemma_aliases_agree(st: State, a: ParamView, b: ParamView)
    requires
        st.params.dom().contains(a),
        st.params.dom().contains(b),
        st.params[a].cell == st.params[b].cell,
    ensures
        st.found(a) == st.found(b),
        st.params[a].kind == st.params[b].kind ==> st.value(st.params[a].kind, a) == st.value(
            st.params[a].kind,
            b,
        ),
{
}

/// A use of one spelling counts for that spelling alone: the counter of
/// every other key, an alias of the same parameter or not, stays as it was,
/// while what the use switched on is found through each alias.
pub proof fn lemma_use_counts_one_spelling(st: State, k: ParamView, other: ParamView)
    requires
        st.wf(),
        st.params.dom().contains(k),
        st.params.dom().contains(other),
        other != k,
    ensures
        st.marked(k).count(other) == st.count(other),
        st.marked(k).found(k),
        st.params[other].cell == st.params[k].cell ==> st.marked(k).found(other),
{
}

/// Registering flags touches no cell, and leaves each alias that has a key
/// registered as a flag for the given cell, never used.
pub proof fn lemma_register_flags(st: State, names: Seq<Seq<char>>, cell: int, i: int)
    requires
        0 <= i < names.len(),
        alias_key(names[i]) is Some,
    ensures
        st.register_flags(names, cell).cells == st.cells,
        st.register_flags(names, cell).params.dom().contains(alias_key(names[i]).unwrap()),
        st.register_flags(names, cell).params[alias_key(names[i]).unwrap()] == (EntryView {
            kind: Kind::Flag,
            cell,
            occurrences: 0,
        }),
    decreases names.len(),
{
    lemma_register_flags_cells(st, names, cell);
    if i < names.len() - 1 {
        lemma_register_flags(st, names.drop_last(), cell, i);
    }
}

/// Registering flags touches no cell.
pub proof fn lemma_register_flags_cells(st: State, names: Seq<Seq<char>>, cell: int)
    ensures
        st.register_flags(names, cell).cells == st.cells,
    decreases names.len(),
{
    if names.len() > 0 {
        lemma_register_flags_cells(st, names.drop_last(), cell);
    }
}

/// Every alias of a new flag that has a key stands for one and the same new
/// cell, which is off; each alias starts with a counter of its own at zero.
pub proof fn lemma_flag_aliases_share(st: State, names: Seq<Seq<char>>, i: int)
    requires
        0 <= i < names.len(),
        alias_key(names[i]) is Some,
    ensures
        st.add_flag(names).cells == st.cells.push(CellView { set: false, text: Seq::empty() }),
        st.add_flag(names).params.dom().contains(alias_key(names[i]).unwrap()),
        st.add_flag(names).params[alias_key(names[i]).unwrap()] == (EntryView {
            kind: Kind::Flag,
            cell: st.cells.len() as int,
            occurrences: 0,
        }),
        !st.add_flag(names).found(alias_key(names[i]).unwrap()),
{
    lemma_register_flags(st.with_cell(false, Seq::empty()), names, st.cells.len() as int, i);
}

/// The short and the long key of a new option or setting stand for one and
/// the same new cell, which holds the given text; it counts as found if and
/// only if the text was given as a default.
pub proof fn lemma_valued_aliases_share(
    st: State,
    kind: Kind,
    short: char,
    long: Seq<char>,
    text: Seq<char>,
    set: bool,
)
    requires
        long.len() > 0,
    ensures
        ({
            let after = st.add_valued(kind, Some(short), long, text, set);
            let a = ParamView::Short(short);
            let b = ParamView::Long(long);
            &&& after.kind_of(a) == Some(kind)
            &&& after.kind_of(b) == Some(kind)
            &&& after.params[a].cell == after.params[b].cell
            &&& after.found(a) == set
            &&& after.found(b) == set
            &&& after.value(kind, b) == if set {
                Some(text)
            } else {
                None
            }
            &&& after.count(a) == 0
            &&& after.count(b) == 0
        }),
{
}

/// Whether `long` begins with `short`, item for item.
pub open spec fn begins_with<A>(long: Seq<A>, short: Seq<A>) -> bool {
    &&& short.len() <= long.len()
    &&& forall|i: int| 0 <= i < short.len() ==> short[i] == long[i]
}

/// Whether `b` can come from `a` by parsing: the same keys are registered,
/// each with its kind and its cell; there are as many cells; and the lists
/// of invalid parameters and of positional arguments have only grown at
/// their ends.
pub open spec fn grows_to(a: State, b: State) -> bool {
    &&& forall|k: ParamView| a.params.dom().contains(k) <==> b.params.dom().contains(k)
    &&& forall|k: ParamView|
        (#[trigger] a.params.dom().contains(k)) ==> a.params[k].kind == b.params[k].kind
            && a.params[k].cell == b.params[k].cell
    &&& a.cells.len() == b.cells.len()
    &&& begins_with(b.invalid, a.invalid)
    &&& begins_with(b.args, a.args)
}

/// A state that a well-formed one grows to is well-formed.
pub proof fn lemma_grows_wf(a: State, b: State)
    requires
        a.wf(),
        grows_to(a, b),
    ensures
        b.wf(),
{
    assert forall|k: ParamView| #[trigger] b.params.dom().contains(k) implies 0 <= b.params[k].cell
        < b.cells.len() by {
        assert(a.params.dom().contains(k));
    }
}

/// Growing is transitive.
pub proof fn lemma_grows_twice(a: State, b: State, c: State)
    requires
        grows_to(a, b),
        grows_to(b, c),
    ensures
        grows_to(a, c),
{
    assert forall|k: ParamView| #[trigger] a.params.dom().contains(k) implies a.params[k].kind
        == c.params[k].kind && a.params[k].cell == c.params[k].cell by {
        assert(b.params.dom().contains(k));
    }
}

/// In a well-formed state a registered key points at a cell that exists.
pub proof fn lemma_cell_exists(st: State, k: ParamView)
    requires
        st.wf(),
        st.params.dom().contains(k),
    ensures
        0 <= st.params[k].cell < st.cells.len(),
{
}

/// Recording an invalid parameter leaves the registry's shape as it was.
pub proof fn lemma_rejected_grows(st: State, k: ParamView)
    requires
        st.wf(),
    ensures
        grows_to(st, st.rejected(k)),
        st.rejected(k).wf(),
{
    assert(begins_with(st.rejected(k).invalid, st.invalid));
    assert(begins_with(st.args, st.args));
}

/// A use of a registered key leaves the registry's shape as it was.
pub proof fn lemma_marked_grows(st: State, k: ParamView)
    requires
        st.wf(),
        st.params.dom().contains(k),
    ensures
        grows_to(st, st.marked(k)),
        st.marked(k).wf(),
{
    let b = st.marked(k);
    assert forall|j: ParamView| #[trigger] st.params.dom().contains(j) implies st.params[j].kind
        == b.params[j].kind && st.params[j].cell == b.params[j].cell by {
        if j == k {
        }
    }
}

/// An assignment leaves the registry's shape as it was.
pub proof fn lemma_assign_grows(st: State, kind: Kind, name: Seq<char>, value: Seq<char>)
    requires
        st.wf(),
    ensures
        grows_to(st, st.assign(kind, name, value)),
        st.assign(kind, name, value).wf(),
{
    let k = ParamView::Long(name);
    let b = st.assign(kind, name, value);
    assert forall|j: ParamView| #[trigger] st.params.dom().contains(j) implies st.params[j].kind
        == b.params[j].kind && st.params[j].cell == b.params[j].cell by {
        if j == k {
        }
    }
}

/// A long token leaves the registry's shape as it was.
pub proof fn lemma_long_grows(st: State, rest: Seq<char>)
    requires
        st.wf(),
    ensures
        grows_to(st, st.long(rest)),
        st.long(rest).wf(),
{
    lemma_assign_grows(
        st,
        Kind::Opt,
        rest.subrange(0, first_eq(rest)),
        rest.subrange(first_eq(rest) + 1, rest.len() as int),
    );
    if st.params.dom().contains(ParamView::Long(rest)) {
        lemma_marked_grows(st, ParamView::Long(rest));
    }
}

/// A short cluster leaves the registry's shape as it was.
pub proof fn lemma_cluster_grows(st: State, chars: Seq<char>, next: Option<Seq<char>>)
    requires
        st.wf(),
    ensures
        grows_to(st, st.cluster(chars, next).0),
        st.cluster(chars, next).0.wf(),
    decreases chars.len(),
{
    if chars.len() == 0 {
        assert(begins_with(st.invalid, st.invalid));
        assert(begins_with(st.args, st.args));
    } else {
        let k = ParamView::Short(chars[0]);
        let rest = chars.drop_first();
        if st.kind_of(k) == Some(Kind::Flag) {
            lemma_marked_grows(st, k);
            lemma_cluster_grows(st.marked(k), rest, next);
            lemma_grows_twice(st, st.marked(k), st.marked(k).cluster(rest, next).0);
        } else if st.kind_of(k) == Some(Kind::Opt) {
            lemma_cell_exists(st, k);
            assert(begins_with(st.invalid, st.invalid));
            assert(begins_with(st.args, st.args));
        } else {
            lemma_rejected_grows(st, k);
            lemma_cluster_grows(st.rejected(k), rest, next);
            lemma_grows_twice(st, st.rejected(k), st.rejected(k).cluster(rest, next).0);
        }
    }
    lemma_grows_wf(st, st.cluster(chars, next).0);
}

/// Parsing never changes what is registered: after any run over any tokens
/// the same keys stand for the same kinds and share the same cells, so
/// aliases stay aliases; and the invalid parameters and the positional
/// arguments recorded before are still there, in their places.
pub proof fn lemma_run_grows(st: State, toks: Seq<Seq<char>>, i: int)
    requires
        st.wf(),
    ensures
        grows_to(st, st.run(toks, i)),
        st.run(toks, i).wf(),
    decreases toks.len() - i,
{
    if 0 <= i < toks.len() {
        let t = toks[i];
        if t.len() >= 2 && t[0] == '-' && t[1] == '-' {
            if t.len() > 2 {
                lemma_long_grows(st, t.skip(2));
                lemma_run_grows(st.long(t.skip(2)), toks, i + 1);
            }
        } else if t.len() >= 2 && t[0] == '-' {
            if i + 1 < toks.len() {
                let done = st.cluster(t.skip(1), Some(toks[i + 1]));
                lemma_cluster_grows(st, t.skip(1), Some(toks[i + 1]));
                if done.1 {
                    lemma_run_grows(done.0, toks, i + 2);
                } else {
                    lemma_run_grows(done.0, toks, i + 1);
                }
            } else {
                lemma_cluster_grows(st, t.skip(1), None);
                lemma_run_grows(st.cluster(t.skip(1), None).0, toks, i + 1);
            }
        } else if first_eq(t) < t.len() {
            let p = first_eq(t);
            let next = st.assign(Kind::Setting, t.subrange(0, p), t.subrange(p + 1, t.len() as int));
            lemma_assign_grows(st, Kind::Setting, t.subrange(0, p), t.subrange(p + 1, t.len() as int));
            lemma_run_grows(next, toks, i + 1);
        } else {
            lemma_run_grows(st.kept(t), toks, i + 1);
        }
    }
}

/// Parsing a command line never changes what is registered, and keeps what
/// was recorded before.
pub proof fn lemma_parse_grows(st: State, toks: Seq<Seq<char>>)
    requires
        st.wf(),
    ensures
        grows_to(st, st.parse(toks)),
        st.parse(toks).wf(),
{
    lemma_run_grows(st, toks, 1);
}

} // verus!
