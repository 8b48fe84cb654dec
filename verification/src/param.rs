//! Parameter keys: the short (`-s`) and long (`--long`) spellings under which
//! a parameter is registered and looked up.

use vstd::prelude::*;

verus! {

/// The parameter styles for short, e.g. `-s`, and for long, e.g. `--long`.
#[derive(Clone, Debug, Hash)]
pub enum Param {
    Short(char),
    Long(String),
}

/// The mathematical value of a [`Param`].
pub enum ParamView {
    Short(char),
    Long(Seq<char>),
}

impl View for Param {
    type V = ParamView;

    open spec fn view(&self) -> ParamView {
        match *self {
            Param::Short(c) => ParamView::Short(c),
            Param::Long(s) => ParamView::Long(s@),
        }
    }
}

impl Param {
    /// Whether two keys have the same style and the same payload.
    pub fn same(&self, other: &Param) -> (r: bool)
        ensures
            r == (self@ == other@),
    {
        match self {
            Param::Short(a) => match other {
                Param::Short(b) => *a == *b,
                Param::Long(_) => false,
            },
            Param::Long(a) => match other {
                Param::Short(_) => false,
                Param::Long(b) => *a == *b,
            },
        }
    }
}

/// The mathematical values of a list of keys.
pub open spec fn key_views(s: Seq<Param>) -> Seq<ParamView> {
    Seq::new(s.len(), |i: int| s[i]@)
}

impl PartialEq for Param {
    fn eq(&self, other: &Param) -> (r: bool) {
        self.same(other)
    }
}

impl vstd::std_specs::cmp::PartialEqSpecImpl for Param {
    open spec fn obeys_eq_spec() -> bool {
        true
    }

    open spec fn eq_spec(&self, other: &Param) -> bool {
        self@ == other@
    }
}

impl Eq for Param {}

/// Anything that names a parameter: a `char` names the short form, a string
/// slice the long form, and a [`Param`] names itself.
pub trait Key {
    /// The key that this value names.
    spec fn key(&self) -> ParamView;

    /// Builds the key that this value names.
    fn to_param(&self) -> (p: Param)
        ensures
            p@ == self.key(),
    ;
}

impl Key for char {
    open spec fn key(&self) -> ParamView {
        ParamView::Short(*self)
    }

    fn to_param(&self) -> (p: Param) {
        Param::Short(*self)
    }
}

impl Key for str {
    open spec fn key(&self) -> ParamView {
        ParamView::Long(self@)
    }

    fn to_param(&self) -> (p: Param) {
        Param::Long(self.to_owned())
    }
}

impl Key for Param {
    open spec fn key(&self) -> ParamView {
        self@
    }

    fn to_param(&self) -> (p: Param) {
        match self {
            Param::Short(c) => Param::Short(*c),
            Param::Long(s) => Param::Long(s.clone()),
        }
    }
}

} // verus!
