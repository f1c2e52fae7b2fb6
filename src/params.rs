//! The named parameters captured from a request path.
use crate::matcher::pairs_view;
use vstd::prelude::*;

verus! {

/// Captured path parameters, as (name, value) pairs.
pub struct Params {
    pairs: Vec<(String, String)>,
}

impl View for Params {
    type V = Seq<(Seq<char>, Seq<char>)>;

    closed spec fn view(&self) -> Seq<(Seq<char>, Seq<char>)> {
        pairs_view(self.pairs@)
    }
}

/// `value` is what `pairs` binds to `name`: the first pair under that name.
pub open spec fn binds(pairs: Seq<(Seq<char>, Seq<char>)>, name: Seq<char>, value: Seq<char>) -> bool {
    exists|i: int|
        0 <= i < pairs.len() && (#[trigger] pairs[i]).0 == name && pairs[i].1 == value && forall|j: int|
            0 <= j < i ==> pairs[j].0 != name
}

/// No pair of `pairs` carries `name`.
pub open spec fn unbound(pairs: Seq<(Seq<char>, Seq<char>)>, name: Seq<char>) -> bool {
    forall|i: int| 0 <= i < pairs.len() ==> (#[trigger] pairs[i]).0 != name
}

impl Params {
    /// No parameter at all.
    pub fn new() -> (r: Params)
        ensures
            r@ == Seq::<(Seq<char>, Seq<char>)>::empty(),
    {
        let r = Params { pairs: Vec::new() };
        assert(r@ =~= Seq::<(Seq<char>, Seq<char>)>::empty());
        r
    }

    /// The parameters given as (name, value) pairs.
    pub fn from_pairs(pairs: Vec<(String, String)>) -> (r: Params)
        ensures
            r@ == pairs_view(pairs@),
    {
        Params { pairs }
    }

    /// How many parameters were captured.
    pub fn len(&self) -> (r: usize)
        ensures
            r == self@.len(),
    {
        self.pairs.len()
    }

    /// The value bound to `name`, if any.
    pub fn find(&self, name: &str) -> (r: Option<&str>)
        ensures
            match r {
                Some(v) => binds(self@, name@, v@),
                None => unbound(self@, name@),
            },
    {
        let key = String::from_str(name);
        let mut i: usize = 0;
        while i < self.pairs.len()
            invariant
                i <= self.pairs@.len(),
                key@ == name@,
                self@ == pairs_view(self.pairs@),
                forall|j: int| 0 <= j < i ==> self@[j].0 != name@,
            decreases self.pairs@.len() - i,
        {
            if self.pairs[i].0 == key {
                let v = self.pairs[i].1.as_str();
                assert(self@[i as int].0 == name@);
                return Some(v);
            }
            i = i + 1;
        }
        None
    }
}

} // verus!
