//! Parameter bindings of a piece: a mapping from parameter names to `side`
//! bytes, kept in insertion order so that encoding is deterministic.
use crate::dictionary::{bytes_eq, lemma_text_bytes_injective};
use vstd::prelude::*;
use vstd::utf8::*;

verus! {

/// One binding in the mathematical model: the parameter's name and its side.
pub type BindingView = (Seq<char>, u8);

/// No key occurs twice among `entries`.
pub open spec fn unique_keys(entries: Seq<BindingView>) -> bool {
    forall|i: int, j: int| 0 <= i < j < entries.len() ==> entries[i].0 != entries[j].0
}

/// The first position in `entries` whose key is `key`, or `entries.len()`
/// where there is none.
pub open spec fn key_position(entries: Seq<BindingView>, key: Seq<char>) -> int
    decreases entries.len(),
{
    if entries.len() == 0 {
        0
    } else if entries[0].0 == key {
        0
    } else {
        1 + key_position(entries.drop_first(), key)
    }
}

/// Binding `key` to `side` as a mapping does: a key that is already bound keeps
/// its place and takes the new side, a new key goes to the end.
pub open spec fn insert_binding(entries: Seq<BindingView>, key: Seq<char>, side: u8) -> Seq<
    BindingView,
> {
    let at = key_position(entries, key);
    if at < entries.len() {
        entries.update(at, (key, side))
    } else {
        entries.push((key, side))
    }
}

/// The side that `entries` binds `key` to, if any.
pub open spec fn lookup_binding(entries: Seq<BindingView>, key: Seq<char>) -> Option<u8> {
    let at = key_position(entries, key);
    if at < entries.len() {
        Some(entries[at].1)
    } else {
        None
    }
}

/// `key_position` is the one place `at` such that no earlier entry has the key
/// and `at` is either the end or an entry with the key.
pub proof fn lemma_key_position(entries: Seq<BindingView>, key: Seq<char>, at: int)
    requires
        0 <= at <= entries.len(),
        forall|k: int| 0 <= k < at ==> entries[k].0 != key,
        at < entries.len() ==> entries[at].0 == key,
    ensures
        key_position(entries, key) == at,
    decreases entries.len(),
{
    if entries.len() > 0 && at > 0 {
        let rest = entries.drop_first();
        assert forall|k: int| 0 <= k < at - 1 implies rest[k].0 != key by {
            assert(rest[k] == entries[k + 1]);
        }
        lemma_key_position(rest, key, at - 1);
    }
}

/// What `key_position` returns lies within bounds, holds the key where it is
/// not the end, and no earlier entry holds the key.
pub proof fn lemma_key_position_found(entries: Seq<BindingView>, key: Seq<char>)
    ensures
        0 <= key_position(entries, key) <= entries.len(),
        key_position(entries, key) < entries.len() ==> entries[key_position(entries, key)].0
            == key,
        forall|k: int| 0 <= k < key_position(entries, key) ==> entries[k].0 != key,
    decreases entries.len(),
{
    if entries.len() > 0 && entries[0].0 != key {
        let rest = entries.drop_first();
        lemma_key_position_found(rest, key);
        let at = key_position(rest, key);
        assert forall|k: int| 0 <= k < at + 1 implies entries[k].0 != key by {
            if k > 0 {
                assert(rest[k - 1] == entries[k]);
            }
        }
        if at < rest.len() {
            assert(rest[at] == entries[at + 1]);
        }
    }
}

/// Binding a key keeps the keys unique.
pub proof fn lemma_insert_keeps_unique(entries: Seq<BindingView>, key: Seq<char>, side: u8)
    requires
        unique_keys(entries),
    ensures
        unique_keys(insert_binding(entries, key, side)),
{
    lemma_key_position_found(entries, key);
}

/// Binding a key that is not bound yet appends it.
pub proof fn lemma_insert_fresh(entries: Seq<BindingView>, key: Seq<char>, side: u8)
    requires
        forall|k: int| 0 <= k < entries.len() ==> entries[k].0 != key,
    ensures
        insert_binding(entries, key, side) == entries.push((key, side)),
{
    lemma_key_position(entries, key, entries.len() as int);
}

/// The keys of `entries`, in order.
pub open spec fn keys_of(entries: Seq<BindingView>) -> Seq<Seq<char>> {
    entries.map_values(|e: BindingView| e.0)
}

/// Both bind the same keys to the same sides, in whatever order.
pub open spec fn same_bindings(a: Seq<BindingView>, b: Seq<BindingView>) -> bool {
    forall|key: Seq<char>| lookup_binding(a, key) == lookup_binding(b, key)
}

/// Among unique keys an entry is found under its own key.
pub proof fn lemma_lookup_entry(entries: Seq<BindingView>, at: int)
    requires
        unique_keys(entries),
        0 <= at < entries.len(),
    ensures
        lookup_binding(entries, entries[at].0) == Some(entries[at].1),
{
    lemma_key_position(entries, entries[at].0, at);
}

/// A key is bound exactly when it is among the keys.
pub proof fn lemma_lookup_is_membership(entries: Seq<BindingView>, key: Seq<char>)
    ensures
        lookup_binding(entries, key) is Some <==> keys_of(entries).to_set().contains(key),
{
    lemma_key_position_found(entries, key);
    let at = key_position(entries, key);
    if at < entries.len() {
        assert(keys_of(entries)[at] == key);
    } else if keys_of(entries).contains(key) {
        let i = choose|i: int| 0 <= i < keys_of(entries).len() && keys_of(entries)[i] == key;
        assert(entries[i].0 == key);
    }
}

/// Unique keys are as many as the entries.
pub proof fn lemma_key_count(entries: Seq<BindingView>)
    requires
        unique_keys(entries),
    ensures
        keys_of(entries).to_set().finite(),
        keys_of(entries).to_set().len() == entries.len(),
{
    let keys = keys_of(entries);
    assert forall|i: int, j: int| 0 <= i < keys.len() && 0 <= j < keys.len() && i != j implies keys[i]
        != keys[j] by {
        if i < j {
            assert(entries[i].0 != entries[j].0);
        } else {
            assert(entries[j].0 != entries[i].0);
        }
    }
    keys.unique_seq_to_set();
    vstd::seq_lib::seq_to_set_is_finite(keys);
}

/// With unique keys, what binds the same has the same number of entries.
pub proof fn lemma_same_bindings_same_len(a: Seq<BindingView>, b: Seq<BindingView>)
    requires
        unique_keys(a),
        unique_keys(b),
        same_bindings(a, b),
    ensures
        a.len() == b.len(),
{
    lemma_key_count(a);
    lemma_key_count(b);
    assert forall|key: Seq<char>|
        keys_of(a).to_set().contains(key) == keys_of(b).to_set().contains(key) by {
        lemma_lookup_is_membership(a, key);
        lemma_lookup_is_membership(b, key);
    }
    assert(keys_of(a).to_set() =~= keys_of(b).to_set());
}

/// With unique keys and as many entries, it is enough that one binds all that
/// the other binds.
pub proof fn lemma_same_bindings(a: Seq<BindingView>, b: Seq<BindingView>)
    requires
        unique_keys(a),
        unique_keys(b),
        a.len() == b.len(),
        forall|i: int| 0 <= i < a.len() ==> lookup_binding(b, #[trigger] a[i].0) == Some(a[i].1),
    ensures
        same_bindings(a, b),
{
    lemma_key_count(a);
    lemma_key_count(b);
    let in_a = keys_of(a).to_set();
    let in_b = keys_of(b).to_set();
    assert forall|key: Seq<char>| in_a.contains(key) implies in_b.contains(key) by {
        let i = choose|i: int| 0 <= i < keys_of(a).len() && keys_of(a)[i] == key;
        assert(a[i].0 == key);
        lemma_lookup_is_membership(b, key);
    }
    vstd::set_lib::lemma_subset_equality(in_a, in_b);
    assert forall|key: Seq<char>| lookup_binding(a, key) == lookup_binding(b, key) by {
        lemma_lookup_is_membership(a, key);
        lemma_lookup_is_membership(b, key);
        if in_a.contains(key) {
            let i = choose|i: int| 0 <= i < keys_of(a).len() && keys_of(a)[i] == key;
            assert(a[i].0 == key);
            lemma_lookup_entry(a, i);
        }
    }
}

/// The parameter bindings of one piece. Keys are unique; entries keep the
/// order in which their keys were first bound. Two values are equal when they
/// bind the same keys to the same sides.
#[derive(Debug, Eq)]
pub struct SpellParams {
    entries: Vec<(String, u8)>,
}

impl View for SpellParams {
    type V = Seq<BindingView>;

    closed spec fn view(&self) -> Seq<BindingView> {
        self.entries@.map_values(|e: (String, u8)| (e.0@, e.1))
    }
}

impl Clone for SpellParams {
    fn clone(&self) -> (copy: Self)
        ensures
            copy@ == self@,
    {
        proof {
            use_type_invariant(self);
        }
        let mut entries: Vec<(String, u8)> = Vec::new();
        let mut i: usize = 0;
        while i < self.entries.len()
            invariant
                i <= self.entries@.len(),
                entries@.len() == i,
                forall|k: int| 0 <= k < i ==> entries@[k] == self.entries@[k],
            decreases self.entries@.len() - i,
        {
            entries.push((self.entries[i].0.clone(), self.entries[i].1));
            i += 1;
        }
        assert(entries@ =~= self.entries@);
        SpellParams { entries }
    }
}

impl PartialEq for SpellParams {
    fn eq(&self, other: &Self) -> (same: bool) {
        proof {
            use_type_invariant(self);
            use_type_invariant(other);
        }
        if self.entries.len() != other.entries.len() {
            proof {
                if same_bindings(self@, other@) {
                    lemma_same_bindings_same_len(self@, other@);
                }
            }
            return false;
        }
        let mut i: usize = 0;
        while i < self.entries.len()
            invariant
                i <= self.entries@.len(),
                self@.len() == self.entries@.len(),
                unique_keys(self@),
                forall|k: int|
                    0 <= k < i ==> lookup_binding(other@, #[trigger] self@[k].0) == Some(
                        self@[k].1,
                    ),
            decreases self.entries@.len() - i,
        {
            let found = other.get(self.entries[i].0.as_str());
            let agrees = match found {
                Some(side) => side == self.entries[i].1,
                None => false,
            };
            if !agrees {
                proof {
                    lemma_lookup_entry(self@, i as int);
                }
                return false;
            }
            i += 1;
        }
        proof {
            lemma_same_bindings(self@, other@);
        }
        true
    }
}

impl vstd::std_specs::cmp::PartialEqSpecImpl for SpellParams {
    open spec fn obeys_eq_spec() -> bool {
        true
    }

    open spec fn eq_spec(&self, other: &Self) -> bool {
        same_bindings(self@, other@)
    }
}

impl SpellParams {
    /// The invariant of the type: no key is bound twice.
    #[verifier::type_invariant]
    pub open spec fn keys_are_unique(&self) -> bool {
        unique_keys(self@)
    }

    /// No bindings at all.
    pub fn new() -> (params: Self)
        ensures
            params@ == Seq::<BindingView>::empty(),
    {
        let params = SpellParams { entries: Vec::new() };
        assert(params@ =~= Seq::<BindingView>::empty());
        params
    }

    /// The number of bound keys.
    pub fn len(&self) -> (n: usize)
        ensures
            n == self@.len(),
            unique_keys(self@),
    {
        proof {
            use_type_invariant(self);
        }
        self.entries.len()
    }

    /// Whether no key is bound.
    pub fn is_empty(&self) -> (empty: bool)
        ensures
            empty == (self@.len() == 0),
    {
        self.entries.len() == 0
    }

    /// The key of the entry at `index`.
    pub fn key_at(&self, index: usize) -> (key: &str)
        requires
            index < self@.len(),
        ensures
            key@ == self@[index as int].0,
    {
        self.entries[index].0.as_str()
    }

    /// The side of the entry at `index`.
    pub fn side_at(&self, index: usize) -> (side: u8)
        requires
            index < self@.len(),
        ensures
            side == self@[index as int].1,
    {
        self.entries[index].1
    }

    fn position(&self, key: &str) -> (at: usize)
        ensures
            at == key_position(self@, key@),
            at <= self@.len(),
    {
        let wanted = key.as_bytes();
        let mut at: usize = 0;
        while at < self.entries.len()
            invariant
                at <= self.entries@.len(),
                wanted@ == encode_utf8(key@),
                forall|k: int| 0 <= k < at ==> self@[k].0 != key@,
            decreases self.entries@.len() - at,
        {
            let candidate = self.entries[at].0.as_str();
            proof {
                lemma_text_bytes_injective(candidate@, key@);
            }
            if bytes_eq(candidate.as_bytes(), wanted) {
                proof {
                    lemma_key_position(self@, key@, at as int);
                }
                return at;
            }
            at += 1;
        }
        proof {
            lemma_key_position(self@, key@, at as int);
        }
        at
    }

    /// The side that `key` is bound to, if it is bound.
    pub fn get(&self, key: &str) -> (side: Option<u8>)
        ensures
            side == lookup_binding(self@, key@),
    {
        let at = self.position(key);
        if at < self.entries.len() {
            Some(self.entries[at].1)
        } else {
            None
        }
    }

    /// Binds `key` to `side` and returns the side it was bound to before, if
    /// any.
    pub fn insert(&mut self, key: String, side: u8) -> (previous: Option<u8>)
        ensures
            final(self)@ == insert_binding(old(self)@, key@, side),
            previous == lookup_binding(old(self)@, key@),
    {
        proof {
            use_type_invariant(&*self);
            lemma_insert_keeps_unique(self@, key@, side);
        }
        let at = self.position(key.as_str());
        if at < self.entries.len() {
            let previous = self.entries[at].1;
            let ghost before = self@;
            let mut entries: Vec<(String, u8)> = Vec::new();
            std::mem::swap(&mut self.entries, &mut entries);
            entries[at] = (key, side);
            assert(entries@.map_values(|e: (String, u8)| (e.0@, e.1)) =~= before.update(
                at as int,
                (key@, side),
            ));
            std::mem::swap(&mut self.entries, &mut entries);
            Some(previous)
        } else {
            let ghost before = self@;
            let mut entries: Vec<(String, u8)> = Vec::new();
            std::mem::swap(&mut self.entries, &mut entries);
            entries.push((key, side));
            assert(entries@.map_values(|e: (String, u8)| (e.0@, e.1)) =~= before.push(
                (key@, side),
            ));
            std::mem::swap(&mut self.entries, &mut entries);
            None
        }
    }
}

} // verus!
