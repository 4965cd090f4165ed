//! Property-driven style values: a style field is either one fixed value or
//! a list of (property set, value) cases with a default, resolved against a
//! widget's current property set. Resolution picks the first case whose
//! property set matches exactly, else the default.

use vstd::prelude::*;
use crate::property::PropSet;

verus! {

/// A style field that may vary with the widget's interaction state.
#[verifier::ext_equal]
pub enum Value<T> {
    /// The same value in every state.
    Single(T),
    /// Per-state cases, first exact match wins, and the default value
    /// used when no case matches.
    Selector(Vec<(PropSet, T)>, T),
}

/// The first case whose property set is exactly `props`.
pub open spec fn find_match<T>(cases: Seq<(PropSet, T)>, props: PropSet) -> Option<T>
    decreases cases.len(),
{
    if cases.len() == 0 {
        None
    } else if cases[0].0 == props {
        Some(cases[0].1)
    } else {
        find_match(cases.drop_first(), props)
    }
}

impl<T> Value<T> {
    /// The value this field resolves to under `props`.
    pub open spec fn spec_from_props(self, props: PropSet) -> T {
        match self {
            Value::Single(t) => t,
            Value::Selector(cases, def) => match find_match(cases@, props) {
                Some(t) => t,
                None => def,
            },
        }
    }

    /// The value this field resolves to in the default (empty) state when
    /// no case matches; for a `Single` the one value.
    pub open spec fn spec_default(self) -> T {
        match self {
            Value::Single(t) => t,
            Value::Selector(cases, def) => def,
        }
    }

    /// Resolves the field against a widget's current property set.
    pub fn from_props(&self, props: &PropSet) -> (r: &T)
        ensures
            *r == self.spec_from_props(*props),
    {
        match self {
            Value::Single(t) => t,
            Value::Selector(cases, def) => {
                let n = cases.len();
                let mut i: usize = 0;
                proof {
                    assert(cases@.skip(0) =~= cases@);
                }
                while i < n
                    invariant
                        0 <= i <= n,
                        n == cases@.len(),
                        *self == Value::Selector(*cases, *def),
                        find_match(cases@, *props) == find_match(cases@.skip(i as int), *props),
                    decreases n - i,
                {
                    proof {
                        assert(cases@.skip(i as int)[0] == cases@[i as int]);
                        assert(cases@.skip(i as int).drop_first() =~= cases@.skip(i as int + 1));
                    }
                    if cases[i].0 == *props {
                        proof {
                            assert(cases@.skip(i as int)[0].0 == *props);
                            assert(find_match(cases@.skip(i as int), *props) == Some(
                                cases@[i as int].1,
                            ));
                            assert(find_match(cases@, *props) == Some(cases@[i as int].1));
                            assert(self.spec_from_props(*props) == cases@[i as int].1);
                        }
                        return &cases[i].1;
                    }
                    i = i + 1;
                }
                proof {
                    assert(cases@.skip(n as int) =~= Seq::<(PropSet, T)>::empty());
                }
                def
            },
        }
    }

    /// The field's default-state value.
    pub fn default_value(&self) -> (r: &T)
        ensures
            *r == self.spec_default(),
    {
        match self {
            Value::Single(t) => t,
            Value::Selector(_, def) => def,
        }
    }
}

} // verus!
