//! Filters: the changes that a template may ask for on a value once it has
//! been bound. A filter is a function from a value to a value; the registry
//! holds the filters that templates may name.

use vstd::prelude::*;
use vstd::string::StringSliceAdditionalSpecFns;
use crate::lexer::{lemma_space_run_start_bounds, space_run_end, space_run_start};
use crate::text::{copy, same, space};

verus! {

/// A text without the whitespace at its two ends.
pub open spec fn trimmed(s: Seq<u8>) -> Seq<u8> {
    let from = space_run_end(s, 0);
    if from >= s.len() {
        Seq::empty()
    } else {
        s.subrange(from, space_run_start(s, s.len() as int))
    }
}

/// Takes the whitespace off both ends of a text.
pub fn trim(s: &[u8]) -> (r: &[u8])
    ensures
        r@ == trimmed(s@),
{
    let len = s.len();
    let mut from: usize = 0;
    while from < len && space(s[from])
        invariant
            len == s@.len(),
            from <= len,
            space_run_end(s@, 0) == space_run_end(s@, from as int),
        decreases len - from,
    {
        from += 1;
    }
    if from == len {
        let none = &s[0..0];
        assert(none@ =~= Seq::<u8>::empty());
        return none;
    }
    let mut to: usize = len;
    proof {
        lemma_space_run_start_bounds(s@, len as int);
    }
    while to > 0 && space(s[to - 1])
        invariant
            len == s@.len(),
            to <= len,
            space_run_start(s@, len as int) == space_run_start(s@, to as int),
        decreases to,
    {
        to -= 1;
    }
    &s[from..to]
}

/// The filters that exist.
#[derive(Debug, Clone, Copy, PartialEq, Eq)]
pub enum Filter {
    /// Takes the whitespace off both ends of a value.
    Trim,
}

impl Filter {
    /// The name by which a template asks for the filter.
    pub open spec fn spec_name(self) -> Seq<u8> {
        match self {
            Filter::Trim => "trim".spec_bytes(),
        }
    }

    /// What the filter makes of a value.
    pub open spec fn spec_apply(self, value: Seq<u8>) -> Seq<u8> {
        match self {
            Filter::Trim => trimmed(value),
        }
    }

    /// The name by which a template asks for the filter.
    pub fn name(&self) -> (r: Vec<u8>)
        ensures
            r@ == self.spec_name(),
    {
        match self {
            Filter::Trim => copy("trim".as_bytes()),
        }
    }

    /// Applies the filter to a value.
    pub fn apply(&self, value: &[u8]) -> (r: Vec<u8>)
        ensures
            r@ == self.spec_apply(value@),
    {
        match self {
            Filter::Trim => copy(trim(value)),
        }
    }
}

/// The first of the filters `fs`, from place `i` on, that has the name
/// `name`.
pub open spec fn find_filter(fs: Seq<Filter>, name: Seq<u8>, i: int) -> Option<Filter>
    decreases fs.len() - i,
{
    if i < 0 || i >= fs.len() {
        None
    } else if fs[i].spec_name() == name {
        Some(fs[i])
    } else {
        find_filter(fs, name, i + 1)
    }
}

/// The filters that templates may name.
#[derive(Debug, Clone)]
pub struct Registry {
    pub filters: Vec<Filter>,
}

impl View for Registry {
    type V = Seq<Filter>;

    open spec fn view(&self) -> Seq<Filter> {
        self.filters@
    }
}

impl Registry {
    /// The filter that the registry holds under `name`.
    pub open spec fn spec_lookup(fs: Seq<Filter>, name: Seq<u8>) -> Option<Filter> {
        find_filter(fs, name, 0)
    }

    /// A registry without filters.
    pub fn new() -> (r: Registry)
        ensures
            r@ == Seq::<Filter>::empty(),
    {
        Registry { filters: Vec::new() }
    }

    /// The registry of the filters that are always there: `trim`.
    pub fn standard() -> (r: Registry)
        ensures
            r@ == seq![Filter::Trim],
    {
        let mut filters: Vec<Filter> = Vec::new();
        filters.push(Filter::Trim);
        assert(filters@ =~= seq![Filter::Trim]);
        Registry { filters }
    }

    /// Adds a filter to the registry.
    pub fn register(&mut self, f: Filter)
        ensures
            final(self)@ == old(self)@.push(f),
    {
        self.filters.push(f);
    }

    /// Looks a filter up by its name.
    pub fn lookup(&self, name: &[u8]) -> (r: Option<Filter>)
        ensures
            r == Registry::spec_lookup(self@, name@),
    {
        let mut i: usize = 0;
        while i < self.filters.len()
            invariant
                i <= self.filters@.len(),
                find_filter(self@, name@, 0) == find_filter(self@, name@, i as int),
            decreases self.filters@.len() - i,
        {
            let f = self.filters[i];
            let n = f.name();
            if same(n.as_slice(), name) {
                return Some(f);
            }
            i += 1;
        }
        None
    }
}

} // verus!
