use vstd::prelude::*;

verus! {

/// Whether some pair in an association list carries `name` as its key.
pub open spec fn has_key<T>(pairs: Seq<(String, T)>, name: Seq<char>) -> bool {
    exists|i: int| 0 <= i < pairs.len() && pairs[i].0@ == name
}

/// No two pairs share a key.
pub open spec fn keys_unique<T>(pairs: Seq<(String, T)>) -> bool {
    forall|i: int, j: int|
        0 <= i < j < pairs.len() ==> pairs[i].0@ != pairs[j].0@
}

/// The value of the first pair keyed by `name`, if any.
pub open spec fn lookup<T>(pairs: Seq<(String, T)>, name: Seq<char>) -> Option<T>
    decreases pairs.len(),
{
    if pairs.len() == 0 {
        None
    } else if pairs[0].0@ == name {
        Some(pairs[0].1)
    } else {
        lookup(pairs.drop_first(), name)
    }
}

/// `lookup` finds the pair at `i` when no earlier pair carries the key.
pub proof fn lemma_lookup_at<T>(pairs: Seq<(String, T)>, name: Seq<char>, i: int)
    requires
        0 <= i < pairs.len(),
        pairs[i].0@ == name,
        forall|k: int| 0 <= k < i ==> pairs[k].0@ != name,
    ensures
        lookup(pairs, name) == Some(pairs[i].1),
    decreases i,
{
    if i > 0 {
        assert(pairs.drop_first()[i - 1] == pairs[i]);
        lemma_lookup_at(pairs.drop_first(), name, i - 1);
    }
}

/// `lookup` misses exactly when no pair carries the key.
pub proof fn lemma_lookup_none<T>(pairs: Seq<(String, T)>, name: Seq<char>)
    ensures
        lookup(pairs, name) is None <==> !has_key(pairs, name),
    decreases pairs.len(),
{
    if pairs.len() > 0 {
        lemma_lookup_none(pairs.drop_first(), name);
        if has_key(pairs.drop_first(), name) {
            let w = choose|i: int|
                0 <= i < pairs.drop_first().len() && pairs.drop_first()[i].0@ == name;
            assert(pairs[w + 1].0@ == name);
        }
        if has_key(pairs, name) && pairs[0].0@ != name {
            let w = choose|i: int| 0 <= i < pairs.len() && pairs[i].0@ == name;
            assert(pairs.drop_first()[w - 1].0@ == name);
        }
    }
}

/// Appending a pair under a fresh key keeps keys unique and leaves every
/// existing lookup unchanged.
pub proof fn lemma_lookup_push<T>(pairs: Seq<(String, T)>, name: String, value: T)
    requires
        !has_key(pairs, name@),
    ensures
        keys_unique(pairs) ==> keys_unique(pairs.push((name, value))),
        lookup(pairs.push((name, value)), name@) == Some(value),
        forall|other: Seq<char>| other != name@
            ==> lookup(pairs.push((name, value)), other) == lookup(pairs, other),
    decreases pairs.len(),
{
    let grown = pairs.push((name, value));
    if keys_unique(pairs) {
        assert forall|i: int, j: int| 0 <= i < j < grown.len() implies grown[i].0@ != grown[j].0@
        by {
            if j == pairs.len() as int {
                assert(grown[i] == pairs[i]);
            }
        }
    }
    assert forall|k: int| 0 <= k < pairs.len() implies grown[k].0@ != name@ by {
        assert(grown[k] == pairs[k]);
    }
    lemma_lookup_at(grown, name@, pairs.len() as int);
    assert forall|other: Seq<char>| other != name@
        implies lookup(grown, other) == lookup(pairs, other)
    by {
        lemma_lookup_prefix(pairs, name, value, other);
    }
}

proof fn lemma_lookup_prefix<T>(pairs: Seq<(String, T)>, name: String, value: T, other: Seq<char>)
    requires
        other != name@,
    ensures
        lookup(pairs.push((name, value)), other) == lookup(pairs, other),
    decreases pairs.len(),
{
    let grown = pairs.push((name, value));
    if pairs.len() == 0 {
        assert(grown[0].0@ == name@);
    } else {
        assert(grown[0] == pairs[0]);
        if pairs[0].0@ != other {
            assert(grown.drop_first() =~= pairs.drop_first().push((name, value)));
            lemma_lookup_prefix(pairs.drop_first(), name, value, other);
        }
    }
}

/// The symbol table an assembled program carries: `offsets` maps every label,
/// string and data name to its word address (labels relative to the code
/// origin, strings and data absolute within the data segment), `strings` maps
/// string names to their literal text, and `data` maps data names to their
/// word arrays. All three preserve insertion order.
#[derive(Debug, Clone, PartialEq)]
pub struct Symbols {
    pub offsets: Vec<(String, u16)>,
    pub strings: Vec<(String, String)>,
    pub data: Vec<(String, Vec<u16>)>,
}

impl Symbols {
    /// Each of the three maps keys every name at most once.
    pub open spec fn wf(self) -> bool {
        keys_unique(self.offsets@) && keys_unique(self.strings@) && keys_unique(self.data@)
    }

    /// An empty table.
    pub fn new() -> (s: Symbols)
        ensures
            s.wf(),
            s.offsets@ == Seq::<(String, u16)>::empty(),
            s.strings@ == Seq::<(String, String)>::empty(),
            s.data@ == Seq::<(String, Vec<u16>)>::empty(),
    {
        Symbols { offsets: Vec::new(), strings: Vec::new(), data: Vec::new() }
    }

    /// The recorded word address of `name`, whether label, string or data.
    pub fn offset_of(&self, name: &str) -> (r: Option<u16>)
        ensures
            r == lookup(self.offsets@, name@),
    {
        let owned = String::from_str(name);
        let n = self.offsets.len();
        let mut i: usize = 0;
        while i < n
            invariant
                n == self.offsets@.len(),
                i <= n,
                owned@ == name@,
                forall|k: int| 0 <= k < i ==> self.offsets@[k].0@ != name@,
            decreases n - i,
        {
            if self.offsets[i].0 == owned {
                proof {
                    lemma_lookup_at(self.offsets@, name@, i as int);
                }
                return Some(self.offsets[i].1);
            }
            i = i + 1;
        }
        proof {
            lemma_lookup_none(self.offsets@, name@);
        }
        None
    }

    /// The literal text declared under a string name.
    pub fn string_of(&self, name: &str) -> (r: Option<String>)
        ensures
            r is Some <==> lookup(self.strings@, name@) is Some,
            r matches Some(t) ==> lookup(self.strings@, name@) matches Some(u) && t@ == u@,
    {
        let owned = String::from_str(name);
        let n = self.strings.len();
        let mut i: usize = 0;
        while i < n
            invariant
                n == self.strings@.len(),
                i <= n,
                owned@ == name@,
                forall|k: int| 0 <= k < i ==> self.strings@[k].0@ != name@,
            decreases n - i,
        {
            if self.strings[i].0 == owned {
                proof {
                    lemma_lookup_at(self.strings@, name@, i as int);
                }
                return Some(self.strings[i].1.clone());
            }
            i = i + 1;
        }
        proof {
            lemma_lookup_none(self.strings@, name@);
        }
        None
    }

    /// The word array declared under a data name.
    pub fn data_of(&self, name: &str) -> (r: Option<Vec<u16>>)
        ensures
            r is Some <==> lookup(self.data@, name@) is Some,
            r matches Some(w) ==> lookup(self.data@, name@) matches Some(u) && w@ == u@,
    {
        let owned = String::from_str(name);
        let n = self.data.len();
        let mut i: usize = 0;
        while i < n
            invariant
                n == self.data@.len(),
                i <= n,
                owned@ == name@,
                forall|k: int| 0 <= k < i ==> self.data@[k].0@ != name@,
            decreases n - i,
        {
            if self.data[i].0 == owned {
                proof {
                    lemma_lookup_at(self.data@, name@, i as int);
                }
                return Some(self.data[i].1.clone());
            }
            i = i + 1;
        }
        proof {
            lemma_lookup_none(self.data@, name@);
        }
        None
    }
}

} // verus!
