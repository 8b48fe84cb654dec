//! The parser itself: the registry of parameters, the cells their aliases
//! share, and the single pass over the argument vector.

use crate::param::{key_views, Key, Param, ParamView};
use crate::report::{describe, message};
use crate::state::{first_char, first_eq, CellView, EntryView, Kind, State};
use vstd::prelude::*;
use vstd::string::*;

verus! {

/// One registered key: its kind, the cell it shares with its aliases, and
/// the number of times this spelling was used.
#[derive(Clone, Debug)]
struct Entry {
    key: Param,
    kind: Kind,
    cell: usize,
    occurrences: usize,
}

impl Entry {
    spec fn shape(self) -> EntryView {
        EntryView { kind: self.kind, cell: self.cell as int, occurrences: self.occurrences as nat }
    }

    fn new(key: Param, kind: Kind, cell: usize) -> (e: Entry)
        ensures
            e.key == key,
            e.shape() == (EntryView { kind, cell: cell as int, occurrences: 0 }),
    {
        Entry { key, kind, cell, occurrences: 0 }
    }
}

/// The storage that the aliases of one parameter share.
#[derive(Clone, Debug)]
struct Cell {
    set: bool,
    text: String,
}

impl View for Cell {
    type V = CellView;

    closed spec fn view(&self) -> CellView {
        CellView { set: self.set, text: self.text@ }
    }
}

/// The registry that a list of entries stands for: a later entry replaces
/// an earlier one with the same key.
spec fn registry(s: Seq<Entry>) -> Map<ParamView, EntryView>
    decreases s.len(),
{
    if s.len() == 0 {
        Map::empty()
    } else {
        registry(s.drop_last()).insert(s.last().key@, s.last().shape())
    }
}

spec fn cell_views(s: Seq<Cell>) -> Seq<CellView> {
    Seq::new(s.len(), |i: int| s[i]@)
}

/// The texts of a list of strings.
pub open spec fn texts(s: Seq<String>) -> Seq<Seq<char>> {
    Seq::new(s.len(), |i: int| s[i]@)
}

/// The texts of a list of string slices.
pub open spec fn slice_texts(s: Seq<&str>) -> Seq<Seq<char>> {
    Seq::new(s.len(), |i: int| s[i]@)
}

/// The text of an optional string slice.
pub open spec fn opt_text(s: Option<&str>) -> Option<Seq<char>> {
    match s {
        Some(t) => Some(t@),
        None => None,
    }
}

/// The text of an optional string.
pub open spec fn opt_string(s: Option<String>) -> Option<Seq<char>> {
    match s {
        Some(t) => Some(t@),
        None => None,
    }
}

/// Whether no entry after position `i` has the key of the entry at `i`.
spec fn is_last(s: Seq<Entry>, i: int) -> bool {
    &&& 0 <= i < s.len()
    &&& forall|j: int| i < j < s.len() ==> (#[trigger] s[j]).key@ != s[i].key@
}

proof fn lemma_found(s: Seq<Entry>, i: int)
    requires
        is_last(s, i),
    ensures
        registry(s).dom().contains(s[i].key@),
        registry(s)[s[i].key@] == s[i].shape(),
    decreases s.len(),
{
    if i < s.len() - 1 {
        let t = s.drop_last();
        assert(t[i] == s[i]);
        assert forall|j: int| i < j < t.len() implies (#[trigger] t[j]).key@ != t[i].key@ by {
            assert(t[j] == s[j]);
        }
        assert(s.last() == s[s.len() - 1]);
        lemma_found(t, i);
    }
}

proof fn lemma_absent(s: Seq<Entry>, k: ParamView)
    requires
        forall|j: int| 0 <= j < s.len() ==> (#[trigger] s[j]).key@ != k,
    ensures
        !registry(s).dom().contains(k),
    decreases s.len(),
{
    if s.len() > 0 {
        let t = s.drop_last();
        assert forall|j: int| 0 <= j < t.len() implies (#[trigger] t[j]).key@ != k by {
            assert(t[j] == s[j]);
        }
        assert(s.last() == s[s.len() - 1]);
        lemma_absent(t, k);
    }
}

proof fn lemma_replace(s: Seq<Entry>, i: int, e: Entry)
    requires
        is_last(s, i),
        e.key@ == s[i].key@,
    ensures
        registry(s.update(i, e)) =~= registry(s).insert(e.key@, e.shape()),
    decreases s.len(),
{
    let u = s.update(i, e);
    if i < s.len() - 1 {
        let t = s.drop_last();
        assert(t[i] == s[i]);
        assert forall|j: int| i < j < t.len() implies (#[trigger] t[j]).key@ != t[i].key@ by {
            assert(t[j] == s[j]);
        }
        assert(s.last() == s[s.len() - 1]);
        lemma_replace(t, i, e);
        assert(u.drop_last() =~= t.update(i, e));
        assert(u.last() == s.last());
    } else {
        assert(u.drop_last() =~= s.drop_last());
        assert(u.last() == e);
    }
}

/// The first character of `s`, if it has one.
pub fn leading(s: &str) -> (c: Option<char>)
    ensures
        c == first_char(s@),
{
    if s.unicode_len() > 0 {
        Some(s.get_char(0))
    } else {
        None
    }
}

/// The position of the first `=` in `s`, or the length of `s` if it has none.
pub fn find_eq(s: &str) -> (i: usize)
    ensures
        i == first_eq(s@),
        i <= s@.len(),
{
    let n: usize = s.unicode_len();
    let mut i: usize = 0;
    proof {
        assert(s@.skip(0) =~= s@);
    }
    while i < n
        invariant
            i <= n,
            n == s@.len(),
            first_eq(s@) == i + first_eq(s@.skip(i as int)),
        decreases n - i,
    {
        let ghost t = s@.skip(i as int);
        proof {
            assert(t[0] == s@[i as int]);
            assert(t.drop_first() =~= s@.skip(i + 1));
        }
        if s.get_char(i) == '=' {
            return i;
        }
        i += 1;
    }
    i
}

/// Whatever the registry holds under a key, one of the entries put there.
proof fn lemma_origin(s: Seq<Entry>, k: ParamView) -> (i: int)
    requires
        registry(s).dom().contains(k),
    ensures
        0 <= i < s.len(),
        s[i].key@ == k,
        registry(s)[k] == s[i].shape(),
    decreases s.len(),
{
    if s.len() > 0 && s.last().key@ != k {
        lemma_origin(s.drop_last(), k)
    } else {
        s.len() - 1
    }
}

proof fn lemma_cell_update(s: Seq<Cell>, i: int, c: Cell)
    requires
        0 <= i < s.len(),
    ensures
        cell_views(s.update(i, c)) == cell_views(s).update(i, c@),
{
    assert(cell_views(s.update(i, c)) =~= cell_views(s).update(i, c@));
}

/// Our homebrewed argument parser.
#[derive(Clone, Debug)]
pub struct ArgParser {
    entries: Vec<Entry>,
    cells: Vec<Cell>,
    invalid: Vec<Param>,
    /// Where a handle to an unknown flag points: no parameter reads it.
    spare_flag: bool,
    /// Where a handle to an unknown option points: no parameter reads it.
    spare_text: String,
    /// The positional arguments, in the order in which they were given.
    pub args: Vec<String>,
}

impl View for ArgParser {
    type V = State;

    closed spec fn view(&self) -> State {
        State {
            params: registry(self.entries@),
            cells: cell_views(self.cells@),
            invalid: key_views(self.invalid@),
            args: texts(self.args@),
        }
    }
}

impl Default for ArgParser {
    /// A parser with nothing registered.
    fn default() -> (p: Self)
        ensures
            p.wf(),
            p@ == State::empty(),
    {
        ArgParser::new(0)
    }
}

impl ArgParser {
    /// Every registered key points at a cell that exists.
    pub closed spec fn wf(&self) -> bool {
        forall|i: int|
            0 <= i < self.entries.len() ==> (#[trigger] self.entries[i]).cell < self.cells.len()
    }

    /// The model of a well-formed parser is well-formed.
    pub proof fn lemma_view_wf(&self)
        requires
            self.wf(),
        ensures
            self@.wf(),
    {
        assert forall|k: ParamView| #[trigger] self@.params.dom().contains(k) implies 0
            <= self@.params[k].cell < self@.cells.len() by {
            let i = lemma_origin(self.entries@, k);
        }
    }

    /// The positional arguments, in the order in which they were given.
    pub fn positional(&self) -> (r: &Vec<String>)
        ensures
            texts(r@) == self@.args,
    {
        &self.args
    }

    /// Creates a parser with nothing registered. The capacity is a hint for
    /// the number of flags and options to come.
    pub fn new(capacity: usize) -> (p: Self)
        ensures
            p.wf(),
            p@ == State::empty(),
    {
        let p = ArgParser {
            entries: Vec::with_capacity(capacity),
            cells: Vec::new(),
            invalid: Vec::new(),
            spare_flag: false,
            spare_text: String::new(),
            args: Vec::new(),
        };
        assert(p@.cells =~= State::empty().cells);
        assert(p@.invalid =~= State::empty().invalid);
        assert(p@.args =~= State::empty().args);
        p
    }

    /// Adds a cell at the end and says where it stands.
    fn new_cell(&mut self, set: bool, text: String) -> (c: usize)
        requires
            old(self).wf(),
        ensures
            final(self).wf(),
            c == old(self).cells.len(),
            c < final(self).cells.len(),
            final(self)@ == old(self)@.with_cell(set, text@),
    {
        let c: usize = self.cells.len();
        self.cells.push(Cell { set, text });
        assert(self@.cells =~= old(self)@.with_cell(set, text@).cells);
        c
    }

    /// Registers `key` for the cell `cell`.
    fn register(&mut self, key: Param, kind: Kind, cell: usize)
        requires
            old(self).wf(),
            cell < old(self).cells.len(),
        ensures
            final(self).wf(),
            final(self)@ == old(self)@.register(key@, kind, cell as int),
            final(self).cells == old(self).cells,
    {
        self.entries.push(Entry::new(key, kind, cell));
        assert(self.entries@.drop_last() =~= old(self).entries@);
    }

    /// Adds a flag under each of the given aliases: an alias of one byte is
    /// its short form, a longer one its long form, an empty one is passed
    /// over. The aliases share the flag's value, which starts as `false`;
    /// each has a counter of its own.
    pub fn add_flag(self, flags: &[&str]) -> (r: Self)
        requires
            self.wf(),
        ensures
            r.wf(),
            r@ == self@.add_flag(slice_texts(flags@)),
    {
        let mut p = self;
        let c: usize = p.new_cell(false, String::new());
        let ghost base = p@;
        let ghost names = slice_texts(flags@);
        let n: usize = flags.len();
        let mut i: usize = 0;
        while i < n
            invariant
                p.wf(),
                i <= n,
                n == flags.len(),
                names == slice_texts(flags@),
                c < p.cells.len(),
                p@ == base.register_flags(names.take(i as int), c as int),
            decreases n - i,
        {
            let flag: &str = flags[i];
            proof {
                assert(names.take(i + 1).drop_last() =~= names.take(i as int));
                assert(names.take(i + 1).last() == flag@);
            }
            if flag.as_bytes().len() == 1 {
                if flag.unicode_len() > 0 {
                    p.register(Param::Short(flag.get_char(0)), Kind::Flag, c);
                }
            } else if !flag.is_empty() {
                p.register(Param::Long(flag.to_owned()), Kind::Flag, c);
            }
            i += 1;
        }
        proof {
            assert(names.take(n as int) =~= names);
        }
        p
    }

    /// Adds a value-bearing parameter of kind `kind`.
    fn add_valued(self, kind: Kind, short: Option<char>, long: &str, text: String, set: bool) -> (r:
        Self)
        requires
            self.wf(),
        ensures
            r.wf(),
            r@ == self@.add_valued(kind, short, long@, text@, set),
    {
        let mut p = self;
        let c: usize = p.new_cell(set, text);
        match short {
            Some(ch) => {
                p.register(Param::Short(ch), kind, c);
            },
            None => {},
        }
        if !long.is_empty() {
            p.register(Param::Long(long.to_owned()), kind, c);
        }
        p
    }

    /// Adds an option under the first character of `short`, if it has one,
    /// and under `long`, if it is not empty. It has no value until one is
    /// given on the command line.
    pub fn add_opt(self, short: &str, long: &str) -> (r: Self)
        requires
            self.wf(),
        ensures
            r.wf(),
            r@ == self@.add_valued(Kind::Opt, first_char(short@), long@, Seq::empty(), false),
    {
        self.add_valued(Kind::Opt, leading(short), long, String::new(), false)
    }

    /// Adds an option as `add_opt` does, with `default` as its value. The
    /// default can be read back whether or not the option is given on the
    /// command line.
    pub fn add_opt_default(self, short: &str, long: &str, default: &str) -> (r: Self)
        requires
            self.wf(),
        ensures
            r.wf(),
            r@ == self@.add_valued(Kind::Opt, first_char(short@), long@, default@, true),
    {
        self.add_valued(Kind::Opt, leading(short), long, default.to_owned(), true)
    }

    /// Adds a setting under the name `setting`, if it is not empty. It has
    /// no value until one is given on the command line.
    pub fn add_setting(self, setting: &str) -> (r: Self)
        requires
            self.wf(),
        ensures
            r.wf(),
            r@ == self@.add_valued(Kind::Setting, None, setting@, Seq::empty(), false),
    {
        self.add_valued(Kind::Setting, None, setting, String::new(), false)
    }

    /// Adds a setting as `add_setting` does, with `default` as its value.
    /// The default can be read back whether or not the setting is given on
    /// the command line.
    pub fn add_setting_default(self, setting: &str, default: &str) -> (r: Self)
        requires
            self.wf(),
        ensures
            r.wf(),
            r@ == self@.add_valued(Kind::Setting, None, setting@, default@, true),
    {
        self.add_valued(Kind::Setting, None, setting, default.to_owned(), true)
    }

    /// The position of the entry that `key` resolves to, if it is registered.
    fn lookup(&self, key: &Param) -> (r: Option<usize>)
        ensures
            match r {
                Some(i) => {
                    &&& is_last(self.entries@, i as int)
                    &&& self.entries[i as int].key@ == key@
                    &&& self@.params.dom().contains(key@)
                    &&& self@.params[key@] == self.entries[i as int].shape()
                },
                None => !self@.params.dom().contains(key@),
            },
    {
        let mut i: usize = self.entries.len();
        while i > 0
            invariant
                i <= self.entries.len(),
                forall|j: int|
                    i <= j < self.entries.len() ==> (#[trigger] self.entries[j]).key@ != key@,
            decreases i,
        {
            i = i - 1;
            if self.entries[i].key.same(key) {
                proof {
                    lemma_found(self.entries@, i as int);
                }
                return Some(i);
            }
        }
        proof {
            lemma_absent(self.entries@, key@);
        }
        None
    }

    /// Counts one more use of the entry at `i`, or starts its counter again
    /// at one.
    fn count_use(&mut self, i: usize, reset: bool)
        requires
            old(self).wf(),
            is_last(old(self).entries@, i as int),
        ensures
            final(self).wf(),
            final(self)@ == old(self)@.counted(old(self).entries[i as int].key@, reset),
            final(self).cells == old(self).cells,
    {
        let seen: usize = self.entries[i].occurrences;
        let n: usize = if reset {
            1
        } else if seen < usize::MAX {
            seen + 1
        } else {
            seen
        };
        let ghost before = self.entries@;
        self.entries[i].occurrences = n;
        proof {
            lemma_found(before, i as int);
            lemma_replace(before, i as int, self.entries[i as int]);
            assert(self.entries@ =~= before.update(i as int, self.entries[i as int]));
        }
    }

    /// Stores `text` in the cell `c` and marks it as set.
    fn fill(&mut self, c: usize, text: String)
        requires
            old(self).wf(),
            c < old(self).cells.len(),
        ensures
            final(self).wf(),
            final(self)@ == old(self)@.filled(c as int, text@),
            final(self).entries == old(self).entries,
    {
        self.cells[c].text = text;
        self.cells[c].set = true;
        assert(self@.cells =~= old(self)@.filled(c as int, text@).cells);
    }

    /// Marks the cell `c` as set.
    fn switch_on(&mut self, c: usize)
        requires
            old(self).wf(),
            c < old(self).cells.len(),
        ensures
            final(self).wf(),
            final(self)@ == old(self)@.switched(c as int),
            final(self).entries == old(self).entries,
    {
        self.cells[c].set = true;
        assert(self@.cells =~= old(self)@.switched(c as int).cells);
    }

    /// Records `key` as invalid.
    fn reject(&mut self, key: Param)
        requires
            old(self).wf(),
        ensures
            final(self).wf(),
            final(self)@ == old(self)@.rejected(key@),
    {
        self.invalid.push(key);
        assert(self@.invalid =~= old(self)@.rejected(key@).invalid);
    }

    /// Keeps `token` as a positional argument.
    fn keep(&mut self, token: String)
        requires
            old(self).wf(),
        ensures
            final(self).wf(),
            final(self)@ == old(self)@.kept(token@),
    {
        self.args.push(token);
        assert(self@.args =~= old(self)@.kept(token@).args);
    }

    /// A use of the entry at `i` that gives no value.
    fn mark(&mut self, i: usize)
        requires
            old(self).wf(),
            is_last(old(self).entries@, i as int),
        ensures
            final(self).wf(),
            final(self)@ == old(self)@.marked(old(self).entries[i as int].key@),
    {
        let c: usize = self.entries[i].cell;
        proof {
            lemma_found(self.entries@, i as int);
        }
        self.count_use(i, false);
        self.switch_on(c);
    }

    /// The assignment `name=value` to a parameter of kind `kind`.
    fn assign(&mut self, kind: Kind, name: &str, value: &str)
        requires
            old(self).wf(),
        ensures
            final(self).wf(),
            final(self)@ == old(self)@.assign(kind, name@, value@),
    {
        let key = Param::Long(name.to_owned());
        match self.lookup(&key) {
            Some(i) => {
                if self.entries[i].kind == kind {
                    let c: usize = self.entries[i].cell;
                    let reset = self.cells[c].text.as_str().is_empty();
                    self.count_use(i, reset);
                    self.fill(c, value.to_owned());
                } else {
                    self.reject(key);
                }
            },
            None => {
                self.reject(key);
            },
        }
    }

    /// The token `--name`, without a value.
    fn long_bare(&mut self, name: &str)
        requires
            old(self).wf(),
        ensures
            final(self).wf(),
            final(self)@ == old(self)@.long_bare(name@),
    {
        let key = Param::Long(name.to_owned());
        match self.lookup(&key) {
            Some(i) => {
                match self.entries[i].kind {
                    Kind::Flag | Kind::Opt => {
                        self.mark(i);
                    },
                    Kind::Setting => {
                        self.reject(key);
                    },
                }
            },
            None => {
                self.reject(key);
            },
        }
    }

    /// The token `--rest`, where `rest` is not empty.
    fn long(&mut self, rest: &str)
        requires
            old(self).wf(),
        ensures
            final(self).wf(),
            final(self)@ == old(self)@.long(rest@),
    {
        let n: usize = rest.unicode_len();
        let i: usize = find_eq(rest);
        if i < n {
            self.assign(Kind::Opt, rest.substring_char(0, i), rest.substring_char(i + 1, n));
        } else {
            self.long_bare(rest);
        }
    }

    /// The short cluster `chars`, where `next` is the token after it, if
    /// any. Says whether that token was taken as an option's value.
    fn cluster(&mut self, chars: &str, next: Option<&str>) -> (taken: bool)
        requires
            old(self).wf(),
        ensures
            final(self).wf(),
            (final(self)@, taken) == old(self)@.cluster(chars@, opt_text(next)),
    {
        let ghost start = self@;
        let n: usize = chars.unicode_len();
        let mut i: usize = 0;
        proof {
            assert(chars@.skip(0) =~= chars@);
        }
        while i < n
            invariant
                self.wf(),
                i <= n,
                n == chars@.len(),
                start == old(self)@,
                start.cluster(chars@, opt_text(next)) == self@.cluster(
                    chars@.skip(i as int),
                    opt_text(next),
                ),
            decreases n - i,
        {
            let ch = chars.get_char(i);
            let key = Param::Short(ch);
            proof {
                assert(chars@.skip(i as int)[0] == ch);
                assert(chars@.skip(i as int).drop_first() =~= chars@.skip(i + 1));
            }
            match self.lookup(&key) {
                Some(j) => {
                    match self.entries[j].kind {
                        Kind::Flag => {
                            self.mark(j);
                        },
                        Kind::Opt => {
                            let c: usize = self.entries[j].cell;
                            if i + 1 < n {
                                let rest = chars.substring_char(i + 1, n);
                                proof {
                                    assert(rest@ =~= chars@.skip(i + 1));
                                }
                                self.fill(c, rest.to_owned());
                                return false;
                            }
                            match next {
                                Some(t) => {
                                    self.fill(c, t.to_owned());
                                    return true;
                                },
                                None => {
                                    self.fill(c, String::new());
                                    return false;
                                },
                            }
                        },
                        Kind::Setting => {
                            self.reject(key);
                        },
                    }
                },
                None => {
                    self.reject(key);
                },
            }
            i += 1;
        }
        false
    }

    /// Keeps every token of `args` from position `from` on as a positional
    /// argument.
    fn keep_from(&mut self, args: &Vec<String>, from: usize)
        requires
            old(self).wf(),
            from <= args.len(),
        ensures
            final(self).wf(),
            final(self)@ == (State {
                args: old(self)@.args + texts(args@).skip(from as int),
                ..old(self)@
            }),
    {
        let ghost start = self@;
        let n: usize = args.len();
        let mut j: usize = from;
        while j < n
            invariant
                self.wf(),
                from <= j <= n,
                n == args.len(),
                self@ == (State {
                    args: start.args + texts(args@).subrange(from as int, j as int),
                    ..start
                }),
            decreases n - j,
        {
            let ghost before = self@;
            self.keep(args[j].clone());
            proof {
                assert(before.args.push(args[j as int]@) =~= start.args + texts(args@).subrange(
                    from as int,
                    j + 1,
                ));
            }
            j += 1;
        }
        proof {
            assert(texts(args@).subrange(from as int, n as int) =~= texts(args@).skip(from as int));
        }
    }

    /// Parses the argument vector `args`, whose first element is the
    /// program's name: each token switches a flag on, gives an option or a
    /// setting its value, is recorded as an invalid parameter, or is kept in
    /// `args` as a positional argument. After a lone `--` every token is
    /// kept.
    pub fn parse(&mut self, args: Vec<String>)
        requires
            old(self).wf(),
        ensures
            final(self).wf(),
            final(self)@ == old(self)@.parse(texts(args@)),
    {
        let ghost start = self@;
        let ghost toks = texts(args@);
        let n: usize = args.len();
        let mut i: usize = 1;
        while i < n
            invariant
                self.wf(),
                1 <= i,
                n == args.len(),
                toks == texts(args@),
                start == old(self)@,
                start.run(toks, 1) == self@.run(toks, i as int),
            decreases n - i,
        {
            let arg: &str = args[i].as_str();
            let len: usize = arg.unicode_len();
            proof {
                assert(toks[i as int] == arg@);
            }
            if len >= 2 && arg.get_char(0) == '-' && arg.get_char(1) == '-' {
                if len == 2 {
                    self.keep_from(&args, i + 1);
                    return ;
                }
                let rest = arg.substring_char(2, len);
                proof {
                    assert(rest@ =~= arg@.skip(2));
                }
                self.long(rest);
                i += 1;
            } else if len >= 2 && arg.get_char(0) == '-' {
                let rest = arg.substring_char(1, len);
                proof {
                    assert(rest@ =~= arg@.skip(1));
                }
                if i + 1 < n {
                    proof {
                        assert(toks[i + 1] == args[i + 1]@);
                    }
                    let taken = self.cluster(rest, Some(args[i + 1].as_str()));
                    if taken {
                        i += 2;
                    } else {
                        i += 1;
                    }
                } else {
                    let _ = self.cluster(rest, None);
                    i += 1;
                }
            } else {
                let p: usize = find_eq(arg);
                if p < len {
                    self.assign(Kind::Setting, arg.substring_char(0, p), arg.substring_char(p + 1, len));
                } else {
                    self.keep(arg.to_owned());
                }
                i += 1;
            }
        }
    }

    /// The number of times the spelling `name` was used: zero for a key that
    /// is not registered, and for a setting.
    pub fn count<P: Key + ?Sized>(&self, name: &P) -> (n: usize)
        ensures
            n == self@.count(name.key()),
    {
        let key = name.to_param();
        match self.lookup(&key) {
            Some(i) => {
                match self.entries[i].kind {
                    Kind::Flag | Kind::Opt => self.entries[i].occurrences,
                    Kind::Setting => 0,
                }
            },
            None => 0,
        }
    }

    /// Whether the flag `name` is switched on, or the option or setting
    /// `name` has a value. False for a key that is not registered.
    pub fn found<P: Key + ?Sized>(&self, name: &P) -> (b: bool)
        requires
            self.wf(),
        ensures
            b == self@.found(name.key()),
    {
        let key = name.to_param();
        match self.lookup(&key) {
            Some(i) => self.cells[self.entries[i].cell].set,
            None => false,
        }
    }

    /// A handle on the value of the flag `flag`, shared by its aliases. For
    /// a key that is no flag the handle points at a spare cell, and what is
    /// written through it changes nothing in the parser's state.
    pub fn flag<F: Key + ?Sized>(&mut self, flag: &F) -> (r: &mut bool)
        requires
            old(self).wf(),
        ensures
            final(self).wf(),
            old(self)@.kind_of(flag.key()) == Some(Kind::Flag) ==> {
                let c = old(self)@.params[flag.key()].cell;
                &&& *r == old(self)@.cells[c as int].set
                &&& final(self)@ == old(self)@.set_to(c, *final(r))
            },
            old(self)@.kind_of(flag.key()) != Some(Kind::Flag) ==> final(self)@ == old(self)@,
    {
        let key = flag.to_param();
        match self.lookup(&key) {
            Some(i) => {
                if self.entries[i].kind == Kind::Flag {
                    let c: usize = self.entries[i].cell;
                    proof {
                        let cells = self.cells@;
                        assert forall|b: bool| #[trigger]
                            cell_views(cells.update(c as int, Cell { set: b, text: cells[c as int].text }))
                                == cell_views(cells).update(
                                c as int,
                                CellView { set: b, text: cells[c as int].text@ },
                            ) by {
                            lemma_cell_update(
                                cells,
                                c as int,
                                Cell { set: b, text: cells[c as int].text },
                            );
                        }
                    }
                    return &mut self.cells[c].set;
                }
            },
            None => {},
        }
        &mut self.spare_flag
    }

    /// A handle on the value of the option `opt`, shared by its aliases. For
    /// a key that is no option the handle points at a spare cell, and what
    /// is written through it changes nothing in the parser's state.
    pub fn opt<O: Key + ?Sized>(&mut self, opt: &O) -> (r: &mut String)
        requires
            old(self).wf(),
        ensures
            final(self).wf(),
            old(self)@.kind_of(opt.key()) == Some(Kind::Opt) ==> {
                let c = old(self)@.params[opt.key()].cell;
                &&& r@ == old(self)@.cells[c as int].text
                &&& final(self)@ == old(self)@.text_to(c, final(r)@)
            },
            old(self)@.kind_of(opt.key()) != Some(Kind::Opt) ==> final(self)@ == old(self)@,
    {
        let key = opt.to_param();
        match self.lookup(&key) {
            Some(i) => {
                if self.entries[i].kind == Kind::Opt {
                    let c: usize = self.entries[i].cell;
                    proof {
                        let cells = self.cells@;
                        assert forall|t: String| #[trigger]
                            cell_views(cells.update(c as int, Cell { set: cells[c as int].set, text: t }))
                                == cell_views(cells).update(
                                c as int,
                                CellView { set: cells[c as int].set, text: t@ },
                            ) by {
                            lemma_cell_update(
                                cells,
                                c as int,
                                Cell { set: cells[c as int].set, text: t },
                            );
                        }
                    }
                    return &mut self.cells[c].text;
                }
            },
            None => {},
        }
        &mut self.spare_text
    }

    /// The value of the parameter of kind `kind` under `key`, if it has one.
    fn value(&self, kind: Kind, key: &Param) -> (r: Option<String>)
        requires
            self.wf(),
        ensures
            opt_string(r) == self@.value(kind, key@),
    {
        match self.lookup(key) {
            Some(i) => {
                let c: usize = self.entries[i].cell;
                if self.entries[i].kind == kind && self.cells[c].set {
                    Some(self.cells[c].text.clone())
                } else {
                    None
                }
            },
            None => None,
        }
    }

    /// The value of the option `opt`, if it was given one on the command
    /// line or has a default.
    pub fn get_opt<O: Key + ?Sized>(&self, opt: &O) -> (r: Option<String>)
        requires
            self.wf(),
        ensures
            opt_string(r) == self@.value(Kind::Opt, opt.key()),
    {
        let key = opt.to_param();
        self.value(Kind::Opt, &key)
    }

    /// The value of the setting `setting`, if it was given one on the
    /// command line or has a default.
    pub fn get_setting<O: Key + ?Sized>(&self, setting: &O) -> (r: Option<String>)
        requires
            self.wf(),
        ensures
            opt_string(r) == self@.value(Kind::Setting, setting.key()),
    {
        let key = setting.to_param();
        self.value(Kind::Setting, &key)
    }

    /// Says whether the command line used a parameter that is not
    /// registered: `Ok` if it used none, else the message that names each
    /// of them, in the order in which they were met.
    pub fn found_invalid(&self) -> (r: Result<(), String>)
        ensures
            match r {
                Ok(_) => self@.invalid.len() == 0,
                Err(m) => self@.invalid.len() > 0 && m@ == message(self@.invalid),
            },
    {
        describe(&self.invalid)
    }
}

} // verus!
