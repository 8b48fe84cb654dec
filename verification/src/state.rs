//! The mathematical model of a parser: what is registered, what the shared
//! cells hold, and how each kind of token changes both.

use crate::param::ParamView;
use vstd::prelude::*;

verus! {

/// What a registered key stands for.
#[derive(Clone, Copy, Debug, PartialEq, Eq, Structural)]
pub enum Kind {
    /// A boolean switched on by its presence.
    Flag,
    /// A value given as `-x value`, `-xvalue` or `--name=value`.
    Opt,
    /// A value given as a bare `name=value`.
    Setting,
}

/// What the registry holds under one key. The cell is shared by every alias
/// of a parameter; the occurrence counter belongs to this key alone.
pub struct EntryView {
    pub kind: Kind,
    pub cell: int,
    pub occurrences: nat,
}

/// What one shared cell holds. For a flag `set` is the flag's value and
/// `text` stays empty; for an option or a setting `text` is the value and
/// `set` says whether a value was supplied, on the command line or as a
/// default.
pub struct CellView {
    pub set: bool,
    pub text: Seq<char>,
}

/// The whole state of a parser.
pub struct State {
    pub params: Map<ParamView, EntryView>,
    pub cells: Seq<CellView>,
    pub invalid: Seq<ParamView>,
    pub args: Seq<Seq<char>>,
}

/// An occurrence counter after one more use. It stops at the largest value
/// that the machine can hold.
pub open spec fn next_count(n: nat) -> nat {
    if n < usize::MAX {
        n + 1
    } else {
        n
    }
}

/// The position of the first `=` in `s`, or the length of `s` if it has none.
pub open spec fn first_eq(s: Seq<char>) -> int
    decreases s.len(),
{
    if s.len() == 0 || s[0] == '=' {
        0
    } else {
        1 + first_eq(s.drop_first())
    }
}

/// The key that an alias of a flag is registered under: a short key if the
/// alias is one byte long, a long key if it is longer, none if it is empty.
pub open spec fn alias_key(s: Seq<char>) -> Option<ParamView> {
    if vstd::utf8::encode_utf8(s).len() == 1 {
        if s.len() > 0 {
            Some(ParamView::Short(s[0]))
        } else {
            None
        }
    } else if s.len() > 0 {
        Some(ParamView::Long(s))
    } else {
        None
    }
}

/// The first character of `s`, if it has one.
pub open spec fn first_char(s: Seq<char>) -> Option<char> {
    if s.len() > 0 {
        Some(s[0])
    } else {
        None
    }
}

/// Whether a token is taken as a positional argument: it is `-` or does not
/// start with a dash, and holds no `=`.
pub open spec fn is_plain(t: Seq<char>) -> bool {
    (t.len() < 2 || t[0] != '-') && first_eq(t) == t.len()
}

impl State {
    /// The state of a parser with nothing registered.
    pub open spec fn empty() -> State {
        State { params: Map::empty(), cells: Seq::empty(), invalid: Seq::empty(), args: Seq::empty() }
    }

    /// Every registered key points at a cell that exists.
    pub open spec fn wf(self) -> bool {
        forall|k: ParamView|
            (#[trigger] self.params.dom().contains(k)) ==> 0 <= self.params[k].cell
                < self.cells.len()
    }

    /// The kind registered under `k`, if any.
    pub open spec fn kind_of(self, k: ParamView) -> Option<Kind> {
        if self.params.dom().contains(k) {
            Some(self.params[k].kind)
        } else {
            None
        }
    }

    /// How often the spelling `k` was used. Settings are not counted.
    pub open spec fn count(self, k: ParamView) -> nat {
        if self.params.dom().contains(k) && self.params[k].kind != Kind::Setting {
            self.params[k].occurrences
        } else {
            0
        }
    }

    /// Whether the parameter under `k` is switched on (a flag) or has a value
    /// (an option or a setting).
    pub open spec fn found(self, k: ParamView) -> bool {
        self.params.dom().contains(k) && self.cells[self.params[k].cell].set
    }

    /// The value of the parameter of kind `kind` under `k`, if it has one.
    pub open spec fn value(self, kind: Kind, k: ParamView) -> Option<Seq<char>> {
        if self.kind_of(k) == Some(kind) && self.cells[self.params[k].cell].set {
            Some(self.cells[self.params[k].cell].text)
        } else {
            None
        }
    }

    /// One more cell at the end.
    pub open spec fn with_cell(self, set: bool, text: Seq<char>) -> State {
        State { cells: self.cells.push(CellView { set, text }), ..self }
    }

    /// The key `k` registered anew, for the cell `cell`, never used so far.
    /// An earlier registration under the same key is forgotten.
    pub open spec fn register(self, k: ParamView, kind: Kind, cell: int) -> State {
        State { params: self.params.insert(k, EntryView { kind, cell, occurrences: 0 }), ..self }
    }

    /// Each alias in `names` registered as a flag for the cell `cell`, from
    /// first to last; empty aliases are passed over.
    pub open spec fn register_flags(self, names: Seq<Seq<char>>, cell: int) -> State
        decreases names.len(),
    {
        if names.len() == 0 {
            self
        } else {
            let before = self.register_flags(names.drop_last(), cell);
            match alias_key(names.last()) {
                Some(k) => before.register(k, Kind::Flag, cell),
                None => before,
            }
        }
    }

    /// A new flag, off, under each of its aliases.
    pub open spec fn add_flag(self, names: Seq<Seq<char>>) -> State {
        self.with_cell(false, Seq::empty()).register_flags(names, self.cells.len() as int)
    }

    /// A new value-bearing parameter of kind `kind`: one cell holding `text`,
    /// marked as set or not, under the short key `short` if there is one and
    /// under the long key `long` if it is not empty.
    pub open spec fn add_valued(
        self,
        kind: Kind,
        short: Option<char>,
        long: Seq<char>,
        text: Seq<char>,
        set: bool,
    ) -> State {
        let cell = self.cells.len() as int;
        let s0 = self.with_cell(set, text);
        let s1 = match short {
            Some(c) => s0.register(ParamView::Short(c), kind, cell),
            None => s0,
        };
        if long.len() > 0 {
            s1.register(ParamView::Long(long), kind, cell)
        } else {
            s1
        }
    }

    /// The cell `cell` with its switch at `set`, its text kept.
    pub open spec fn set_to(self, cell: int, set: bool) -> State {
        let c = self.cells[cell];
        State { cells: self.cells.update(cell, CellView { set, ..c }), ..self }
    }

    /// The cell `cell` with the text `text`, its switch kept.
    pub open spec fn text_to(self, cell: int, text: Seq<char>) -> State {
        let c = self.cells[cell];
        State { cells: self.cells.update(cell, CellView { text, ..c }), ..self }
    }

    /// The counter of `k` after one more use; with `reset` it starts again
    /// at one.
    pub open spec fn counted(self, k: ParamView, reset: bool) -> State {
        let e = self.params[k];
        let n = if reset {
            1
        } else {
            next_count(e.occurrences)
        };
        State { params: self.params.insert(k, EntryView { occurrences: n, ..e }), ..self }
    }

    /// The cell `cell` marked as set, its text kept.
    pub open spec fn switched(self, cell: int) -> State {
        let c = self.cells[cell];
        State { cells: self.cells.update(cell, CellView { set: true, ..c }), ..self }
    }

    /// The cell `cell` holding `text` and marked as set.
    pub open spec fn filled(self, cell: int, text: Seq<char>) -> State {
        State { cells: self.cells.update(cell, CellView { set: true, text }), ..self }
    }

    /// The key `k` recorded as invalid.
    pub open spec fn rejected(self, k: ParamView) -> State {
        State { invalid: self.invalid.push(k), ..self }
    }

    /// The token `t` kept as a positional argument.
    pub open spec fn kept(self, t: Seq<char>) -> State {
        State { args: self.args.push(t), ..self }
    }

    /// A use of `k` that gives no value: the counter goes up and the cell is
    /// marked as set.
    pub open spec fn marked(self, k: ParamView) -> State {
        self.counted(k, false).switched(self.params[k].cell)
    }

    /// The assignment `name=value` to a parameter of kind `kind`. The value
    /// is overwritten and the cell marked as set; the counter of the long key
    /// goes up, or back to one if the cell's text was empty. A name that is
    /// not registered with that kind is recorded as invalid.
    pub open spec fn assign(self, kind: Kind, name: Seq<char>, value: Seq<char>) -> State {
        let k = ParamView::Long(name);
        if self.kind_of(k) == Some(kind) {
            let cell = self.params[k].cell;
            self.counted(k, self.cells[cell].text.len() == 0).filled(cell, value)
        } else {
            self.rejected(k)
        }
    }

    /// The token `--name` without a value: a flag is switched on, an option
    /// is marked as set with its value kept, and either way the key's counter
    /// goes up. Any other name is recorded as invalid.
    pub open spec fn long_bare(self, name: Seq<char>) -> State {
        let k = ParamView::Long(name);
        match self.kind_of(k) {
            Some(Kind::Flag) | Some(Kind::Opt) => self.marked(k),
            _ => self.rejected(k),
        }
    }

    /// The token `--rest`, where `rest` is not empty.
    pub open spec fn long(self, rest: Seq<char>) -> State {
        let i = first_eq(rest);
        if i < rest.len() {
            self.assign(Kind::Opt, rest.subrange(0, i), rest.subrange(i + 1, rest.len() as int))
        } else {
            self.long_bare(rest)
        }
    }

    /// The short cluster `chars`, scanned from left to right, where `next` is
    /// the token that follows it, if any. A flag is marked and the scan goes
    /// on. An option ends the scan: its value is what is left of the cluster
    /// or, if nothing is left, the next token (the empty text if there is
    /// none). Any other character is recorded as invalid and the scan goes
    /// on. The second component says whether the next token was taken.
    pub open spec fn cluster(self, chars: Seq<char>, next: Option<Seq<char>>) -> (State, bool)
        decreases chars.len(),
    {
        if chars.len() == 0 {
            (self, false)
        } else {
            let k = ParamView::Short(chars[0]);
            let rest = chars.drop_first();
            match self.kind_of(k) {
                Some(Kind::Flag) => self.marked(k).cluster(rest, next),
                Some(Kind::Opt) => {
                    let cell = self.params[k].cell;
                    if rest.len() > 0 {
                        (self.filled(cell, rest), false)
                    } else {
                        match next {
                            Some(t) => (self.filled(cell, t), true),
                            None => (self.filled(cell, Seq::empty()), false),
                        }
                    }
                },
                _ => self.rejected(k).cluster(rest, next),
            }
        }
    }

    /// The tokens of `toks` from position `i` on, taken one after the other.
    pub open spec fn run(self, toks: Seq<Seq<char>>, i: int) -> State
        decreases toks.len() - i,
    {
        if i < 0 || i >= toks.len() {
            self
        } else {
            let t = toks[i];
            if t.len() >= 2 && t[0] == '-' && t[1] == '-' {
                if t.len() == 2 {
                    State { args: self.args + toks.skip(i + 1), ..self }
                } else {
                    self.long(t.skip(2)).run(toks, i + 1)
                }
            } else if t.len() >= 2 && t[0] == '-' {
                if i + 1 < toks.len() {
                    let done = self.cluster(t.skip(1), Some(toks[i + 1]));
                    if done.1 {
                        done.0.run(toks, i + 2)
                    } else {
                        done.0.run(toks, i + 1)
                    }
                } else {
                    self.cluster(t.skip(1), None).0.run(toks, i + 1)
                }
            } else if first_eq(t) < t.len() {
                let p = first_eq(t);
                self.assign(Kind::Setting, t.subrange(0, p), t.subrange(p + 1, t.len() as int)).run(
                    toks,
                    i + 1,
                )
            } else {
                self.kept(t).run(toks, i + 1)
            }
        }
    }

    /// What parsing the argument vector `toks` leaves: its first element,
    /// the program's name, is passed over.
    pub open spec fn parse(self, toks: Seq<Seq<char>>) -> State {
        self.run(toks, 1)
    }
}

} // verus!
