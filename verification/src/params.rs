//! The parameters that a matched pattern binds.

use crate::engine::optional_texts;
use crate::engine::texts;
use vstd::prelude::*;
use vstd::string::StringExecFns;

verus! {

/// A name with the text bound to it.
pub type Binding = (Seq<char>, Seq<char>);

/// The parameters extracted from a path: names with their values, in the
/// order in which the pattern binds them.
#[derive(Clone, Debug)]
pub struct RouteParams {
    entries: Vec<(String, String)>,
}

/// The value of the first binding of `name` in `pairs`, if there is one.
pub open spec fn lookup(pairs: Seq<Binding>, name: Seq<char>) -> Option<Seq<char>>
    decreases pairs.len(),
{
    if pairs.len() == 0 {
        None
    } else if pairs[0].0 == name {
        Some(pairs[0].1)
    } else {
        lookup(pairs.skip(1), name)
    }
}

/// The bindings that the first `k` names get from `groups`. Name `i` (from
/// zero) belongs to group `i + 1`, group 0 being the whole match; a name
/// whose group is missing or took no part in the match gets no binding.
pub open spec fn bound(names: Seq<Seq<char>>, groups: Seq<Option<Seq<char>>>, k: int) -> Seq<
    Binding,
>
    decreases k,
{
    if k <= 0 {
        Seq::empty()
    } else {
        let rest = bound(names, groups, k - 1);
        if k - 1 < names.len() && k < groups.len() && groups[k] is Some {
            rest.push((names[k - 1], groups[k]->0))
        } else {
            rest
        }
    }
}

/// The bindings that `names` get from `groups`.
pub open spec fn bind(names: Seq<Seq<char>>, groups: Seq<Option<Seq<char>>>) -> Seq<Binding> {
    bound(names, groups, names.len() as int)
}

impl View for RouteParams {
    type V = Seq<Binding>;

    closed spec fn view(&self) -> Seq<Binding> {
        self.entries@.map_values(|e: (String, String)| (e.0@, e.1@))
    }
}

impl RouteParams {
    /// No parameters.
    pub fn new() -> (p: RouteParams)
        ensures
            p@ == Seq::<Binding>::empty(),
    {
        let p = RouteParams { entries: Vec::new() };
        assert(p@ =~= Seq::<Binding>::empty());
        p
    }

    /// The number of bindings.
    pub fn len(&self) -> (n: usize)
        ensures
            n == self@.len(),
    {
        self.entries.len()
    }

    /// Adds a binding after those already held.
    pub fn push(&mut self, name: String, value: String)
        ensures
            final(self)@ == old(self)@.push((name@, value@)),
    {
        let ghost before = self@;
        let ghost pair = (name@, value@);
        self.entries.push((name, value));
        assert(self@ =~= before.push(pair));
    }

    /// The value bound to `name`: that of its first binding.
    pub fn get(&self, name: &str) -> (value: Option<&String>)
        ensures
            match value {
                Some(v) => lookup(self@, name@) == Some(v@),
                None => lookup(self@, name@) is None,
            },
    {
        let wanted = String::from_str(name);
        let mut i: usize = 0;
        assert(self@.skip(0) =~= self@);
        while i < self.entries.len()
            invariant
                i <= self.entries.len(),
                wanted@ == name@,
                lookup(self@, name@) == lookup(self@.skip(i as int), name@),
            decreases self.entries.len() - i,
        {
            assert(self@.skip(i as int)[0] == self@[i as int]);
            assert(self@.skip(i as int).skip(1) =~= self@.skip(i + 1));
            if self.entries[i].0 == wanted {
                return Some(&self.entries[i].1);
            }
            i += 1;
        }
        None
    }

    /// The name of the `i`-th binding.
    pub fn name_at(&self, i: usize) -> (name: &String)
        requires
            i < self@.len(),
        ensures
            name@ == self@[i as int].0,
    {
        &self.entries[i].0
    }

    /// The value of the `i`-th binding.
    pub fn value_at(&self, i: usize) -> (value: &String)
        requires
            i < self@.len(),
        ensures
            value@ == self@[i as int].1,
    {
        &self.entries[i].1
    }
}

/// Pairs the names of a pattern with the groups of a match: name `i` takes
/// group `i + 1`, and a name whose group is absent is left out.
pub fn bind_params(names: &Vec<String>, groups: &Vec<Option<String>>) -> (params: RouteParams)
    ensures
        params@ == bind(texts(names@), optional_texts(groups@)),
{
    let mut params = RouteParams::new();
    let mut i: usize = 0;
    while i < names.len()
        invariant
            i <= names.len(),
            params@ == bound(texts(names@), optional_texts(groups@), i as int),
        decreases names.len() - i,
    {
        if i + 1 < groups.len() {
            match &groups[i + 1] {
                Some(g) => {
                    assert(optional_texts(groups@)[i + 1] == Some(g@));
                    assert(texts(names@)[i as int] == names@[i as int]@);
                    params.push(names[i].clone(), g.clone());
                },
                None => {
                    assert(optional_texts(groups@)[i + 1] is None);
                },
            }
        }
        i += 1;
    }
    params
}

} // verus!
