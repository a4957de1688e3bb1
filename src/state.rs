use vstd::prelude::*;

verus! {

/// The name under which one query's state is kept; the empty name is the
/// default, for a transaction that runs a single query.
#[derive(Clone, Debug, Eq, Hash)]
pub struct SearchAlias(pub String);

impl PartialEq for SearchAlias {
    fn eq(&self, other: &SearchAlias) -> (r: bool) {
        self.0 == other.0
    }
}

impl vstd::std_specs::cmp::PartialEqSpecImpl for SearchAlias {
    open spec fn obeys_eq_spec() -> bool {
        true
    }

    open spec fn eq_spec(&self, other: &SearchAlias) -> bool {
        self.0@ == other.0@
    }
}

impl<'a> From<&'a str> for SearchAlias {
    fn from(value: &'a str) -> (r: SearchAlias)
        ensures
            r.0@ == value@,
    {
        SearchAlias(value.to_owned())
    }
}

impl<'a> vstd::std_specs::convert::FromSpecImpl<&'a str> for SearchAlias {
    /// A `String` cannot be built in a specification, so the result is
    /// described by the `ensures` of `from` instead.
    open spec fn obeys_from_spec() -> bool {
        false
    }

    open spec fn from_spec(v: &'a str) -> SearchAlias {
        arbitrary()
    }
}

impl Default for SearchAlias {
    fn default() -> (r: SearchAlias)
        ensures
            r.0@ == Seq::<char>::empty(),
    {
        SearchAlias(String::new())
    }
}

impl SearchAlias {
    /// The alias as text.
    pub fn as_str(&self) -> (r: &str)
        ensures
            r@ == self.0@,
    {
        self.0.as_str()
    }
}

/// Why a query's state could not be stored or found.
#[derive(Clone, Debug)]
pub enum SearchStateError {
    /// A second query without an alias in one transaction.
    AliasRequired,
    /// No query has run in this transaction.
    NoQuery,
    /// An alias given explicitly was empty.
    EmptyAlias,
    /// Two queries with the same alias.
    DuplicateAlias(SearchAlias),
    /// No result is stored for the document with this key.
    DocLookup(String),
    /// No query has this alias.
    AliasLookup(SearchAlias),
    /// The registry's lock could not be taken.
    Lock(String),
}

/// The entry stored under `key`, if any.
pub open spec fn lookup<S>(entries: Seq<(SearchAlias, S)>, key: Seq<char>) -> Option<S>
    decreases entries.len(),
{
    if entries.len() == 0 {
        None
    } else if entries.last().0.0@ == key {
        Some(entries.last().1)
    } else {
        lookup(entries.drop_last(), key)
    }
}

/// Every alias is stored at most once.
pub open spec fn keys_unique<S>(entries: Seq<(SearchAlias, S)>) -> bool {
    forall|i: int, j: int| 0 <= i < j < entries.len() ==> entries[i].0.0@ != entries[j].0.0@
}

/// The state of each query of the current transaction, by alias; the empty
/// alias stands for the one query that was given none.
pub struct SearchStateManager<S> {
    entries: Vec<(SearchAlias, S)>,
}

impl<S> View for SearchStateManager<S> {
    type V = Seq<(SearchAlias, S)>;

    closed spec fn view(&self) -> Seq<(SearchAlias, S)> {
        self.entries@
    }
}

proof fn lemma_lookup_none<S>(entries: Seq<(SearchAlias, S)>, key: Seq<char>)
    requires
        forall|i: int| 0 <= i < entries.len() ==> (#[trigger] entries[i]).0.0@ != key,
    ensures
        lookup(entries, key) is None,
    decreases entries.len(),
{
    if entries.len() > 0 {
        lemma_lookup_none(entries.drop_last(), key);
    }
}

proof fn lemma_lookup_at<S>(entries: Seq<(SearchAlias, S)>, k: int)
    requires
        keys_unique(entries),
        0 <= k < entries.len(),
    ensures
        lookup(entries, entries[k].0.0@) == Some(entries[k].1),
    decreases entries.len(),
{
    if k < entries.len() - 1 {
        lemma_lookup_at(entries.drop_last(), k);
    }
}

impl<S> SearchStateManager<S> {
    pub open spec fn wf(&self) -> bool {
        keys_unique(self@)
    }

    /// The state stored under `key`.
    pub open spec fn state_of(&self, key: Seq<char>) -> Option<S> {
        lookup(self@, key)
    }

    /// A registry holding no query.
    pub fn new() -> (r: SearchStateManager<S>)
        ensures
            r.wf(),
            forall|k: Seq<char>| r.state_of(k) is None,
    {
        let r = SearchStateManager { entries: Vec::new() };
        assert forall|k: Seq<char>| r.state_of(k) is None by {
            lemma_lookup_none(r@, k);
        }
        r
    }

    fn position(&self, key: &SearchAlias) -> (r: Option<usize>)
        requires
            self.wf(),
        ensures
            r matches Some(i) ==> i < self@.len() && self@[i as int].0.0@ == key.0@,
            r is None ==> forall|i: int| 0 <= i < self@.len() ==> (#[trigger] self@[i]).0.0@ != key.0@,
    {
        let mut i: usize = 0;
        while i < self.entries.len()
            invariant
                i <= self@.len(),
                self@ == self.entries@,
                forall|j: int| 0 <= j < i ==> (#[trigger] self@[j]).0.0@ != key.0@,
            decreases self@.len() - i,
        {
            if self.entries[i].0 == *key {
                return Some(i);
            }
            i = i + 1;
        }
        None
    }

    fn get(&self, key: &SearchAlias) -> (r: Option<&S>)
        requires
            self.wf(),
        ensures
            r matches Some(s) ==> self.state_of(key.0@) == Some(*s),
            r is None ==> self.state_of(key.0@) is None,
    {
        match self.position(key) {
            Some(i) => {
                proof {
                    lemma_lookup_at(self@, i as int);
                }
                Some(&self.entries[i].1)
            },
            None => {
                proof {
                    lemma_lookup_none(self@, key.0@);
                }
                None
            },
        }
    }

    /// Stores `state` under `key`, replacing what was there; says whether
    /// something was replaced.
    fn insert(&mut self, key: SearchAlias, state: S) -> (replaced: bool)
        requires
            old(self).wf(),
        ensures
            final(self).wf(),
            replaced == old(self).state_of(key.0@) is Some,
            final(self).state_of(key.0@) == Some(state),
            forall|k: Seq<char>| k != key.0@ ==> #[trigger] final(self).state_of(k) == old(self).state_of(k),
    {
        let ghost old_entries = self@;
        let ghost kv = key.0@;
        match self.position(&key) {
            Some(i) => {
                proof {
                    lemma_lookup_at(old_entries, i as int);
                }
                let ghost ki = old_entries[i as int];
                self.entries.set(i, (key, state));
                proof {
                    let ne = self@;
                    assert(keys_unique(ne));
                    lemma_lookup_at(ne, i as int);
                    assert forall|k: Seq<char>| k != kv implies #[trigger] lookup(ne, k) == lookup(old_entries, k) by {
                        if exists|j: int| 0 <= j < old_entries.len() && old_entries[j].0.0@ == k {
                            let j = choose|j: int| 0 <= j < old_entries.len() && old_entries[j].0.0@ == k;
                            lemma_lookup_at(old_entries, j);
                            lemma_lookup_at(ne, j);
                        } else {
                            lemma_lookup_none(old_entries, k);
                            assert forall|j: int| 0 <= j < ne.len() implies (#[trigger] ne[j]).0.0@ != k by {
                                if j != i {
                                    assert(ne[j] == old_entries[j]);
                                }
                            }
                            lemma_lookup_none(ne, k);
                        }
                    }
                }
                true
            },
            None => {
                proof {
                    lemma_lookup_none(old_entries, kv);
                }
                self.entries.push((key, state));
                proof {
                    let ne = self@;
                    assert(ne.drop_last() =~= old_entries);
                    assert(keys_unique(ne));
                    assert forall|k: Seq<char>| k != kv implies #[trigger] lookup(ne, k) == lookup(old_entries, k) by {}
                }
                false
            },
        }
    }

    /// The state of the query that was given no alias.
    pub fn get_state_default(&self) -> (r: Result<&S, SearchStateError>)
        requires
            self.wf(),
        ensures
            r matches Ok(s) ==> self.state_of(Seq::empty()) == Some(*s),
            r is Err ==> self.state_of(Seq::empty()) is None && r matches Err(SearchStateError::NoQuery),
    {
        let key = SearchAlias::default();
        match self.get(&key) {
            Some(s) => Ok(s),
            None => Err(SearchStateError::NoQuery),
        }
    }

    /// The state of the query with alias `alias`.
    pub fn get_state_alias(&self, alias: SearchAlias) -> (r: Result<&S, SearchStateError>)
        requires
            self.wf(),
        ensures
            r matches Ok(s) ==> self.state_of(alias.0@) == Some(*s),
            r is Err ==> self.state_of(alias.0@) is None,
            r is Err ==> (r matches Err(SearchStateError::AliasLookup(a)) && a.0@ == alias.0@),
    {
        match self.get(&alias) {
            Some(s) => Ok(s),
            None => Err(SearchStateError::AliasLookup(alias)),
        }
    }

    /// The state of the query with `alias`, or of the one without an alias.
    pub fn get_state(&self, alias: Option<SearchAlias>) -> (r: Result<&S, SearchStateError>)
        requires
            self.wf(),
        ensures
            ({
                let key = match alias {
                    Some(a) => a.0@,
                    None => Seq::empty(),
                };
                &&& r matches Ok(s) ==> self.state_of(key) == Some(*s)
                &&& r is Err ==> self.state_of(key) is None
            }),
            alias is None && r is Err ==> r matches Err(SearchStateError::NoQuery),
            alias is Some && r is Err ==> r matches Err(SearchStateError::AliasLookup(_)),
    {
        match alias {
            Some(a) => self.get_state_alias(a),
            None => self.get_state_default(),
        }
    }

    /// Stores the state of a query without an alias. A second such query in
    /// one transaction replaces the first and is reported as needing an
    /// alias.
    pub fn set_state_default(&mut self, state: S) -> (r: Result<(), SearchStateError>)
        requires
            old(self).wf(),
        ensures
            final(self).wf(),
            final(self).state_of(Seq::empty()) == Some(state),
            forall|k: Seq<char>| k != Seq::<char>::empty() ==> #[trigger] final(self).state_of(k) == old(self).state_of(k),
            r is Ok <==> old(self).state_of(Seq::empty()) is None,
            r is Err ==> r matches Err(SearchStateError::AliasRequired),
    {
        if self.insert(SearchAlias::default(), state) {
            Err(SearchStateError::AliasRequired)
        } else {
            Ok(())
        }
    }

    /// Stores the state of a query under `alias`. An empty alias is refused
    /// and nothing changes; a repeated alias replaces the earlier state and
    /// is reported as a duplicate.
    pub fn set_state_alias(&mut self, state: S, alias: SearchAlias) -> (r: Result<(), SearchStateError>)
        requires
            old(self).wf(),
        ensures
            final(self).wf(),
            alias.0@.len() == 0 ==> final(self)@ == old(self)@ && r matches Err(SearchStateError::EmptyAlias),
            alias.0@.len() > 0 ==> {
                &&& final(self).state_of(alias.0@) == Some(state)
                &&& forall|k: Seq<char>| k != alias.0@ ==> #[trigger] final(self).state_of(k) == old(self).state_of(k)
                &&& (r is Ok <==> old(self).state_of(alias.0@) is None)
                &&& r is Err ==> (r matches Err(SearchStateError::DuplicateAlias(a)) && a.0@ == alias.0@)
            },
    {
        if alias.as_str().is_empty() {
            Err(SearchStateError::EmptyAlias)
        } else {
            let dup = SearchAlias(alias.0.clone());
            if self.insert(alias, state) {
                return Err(SearchStateError::DuplicateAlias(dup));
            }
            Ok(())
        }
    }

    /// Forgets every query's state, as at the end of a transaction.
    pub fn clear(&mut self)
        ensures
            final(self).wf(),
            forall|k: Seq<char>| final(self).state_of(k) is None,
    {
        self.entries = Vec::new();
        assert forall|k: Seq<char>| self.state_of(k) is None by {
            lemma_lookup_none(self@, k);
        }
    }
}

} // verus!
