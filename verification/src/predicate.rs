//! Predicates and condition paths: what a packet must satisfy or undergo on its
//! way from a source to some point of the graph.

use vstd::prelude::*;
use vstd::std_specs::cmp::PartialEqSpecImpl;
use vstd::string::StringSliceAdditionalSpecFns;
use crate::text::{lemma_lex_irreflexive, lemma_lex_total, lemma_lex_transitive, lex_less, str_equal, str_less};

verus! {

/// The parameters of a predicate as mathematics: key and value pairs, kept in
/// ascending order of key so that equal contents are equal sequences.
pub type ParamsView = Seq<(Seq<char>, Seq<char>)>;

/// Keys ascend strictly; in particular no key occurs twice.
pub open spec fn sorted_keys(e: ParamsView) -> bool {
    forall|i: int, j: int| 0 <= i < j < e.len() ==> lex_less((#[trigger] e[i]).0, (#[trigger] e[j]).0)
}

/// Whether some entry has this key.
pub open spec fn has_key(e: ParamsView, key: Seq<char>) -> bool {
    exists|i: int| 0 <= i < e.len() && (#[trigger] e[i]).0 == key
}

/// The index of an entry with this key, where there is one.
pub open spec fn index_of(e: ParamsView, key: Seq<char>) -> int {
    choose|i: int| 0 <= i < e.len() && (#[trigger] e[i]).0 == key
}

/// The value stored under a key, if any.
pub open spec fn lookup(e: ParamsView, key: Seq<char>) -> Option<Seq<char>> {
    if has_key(e, key) {
        Some(e[index_of(e, key)].1)
    } else {
        None
    }
}

/// How many leading entries have a key below `key`: where `key` belongs.
pub open spec fn position(e: ParamsView, key: Seq<char>) -> int
    decreases e.len(),
{
    if e.len() == 0 || !lex_less(e[0].0, key) {
        0
    } else {
        1 + position(e.drop_first(), key)
    }
}

/// The entries after storing `value` under `key`: an existing entry is
/// overwritten, a new one is put where the order wants it.
pub open spec fn params_insert(e: ParamsView, key: Seq<char>, value: Seq<char>) -> ParamsView {
    let at = position(e, key);
    if at < e.len() && e[at].0 == key {
        e.update(at, (key, value))
    } else {
        e.insert(at, (key, value))
    }
}

/// In sorted entries a key identifies its entry.
pub proof fn lemma_key_unique(e: ParamsView, i: int, j: int)
    requires
        sorted_keys(e),
        0 <= i < e.len(),
        0 <= j < e.len(),
        e[i].0 == e[j].0,
    ensures
        i == j,
{
    lemma_lex_irreflexive(e[i].0);
}

/// In sorted entries, looking up the key of an entry gives that entry's value.
pub proof fn lemma_lookup_at(e: ParamsView, i: int)
    requires
        sorted_keys(e),
        0 <= i < e.len(),
    ensures
        lookup(e, e[i].0) == Some(e[i].1),
{
    let key = e[i].0;
    assert(has_key(e, key));
    lemma_key_unique(e, i, index_of(e, key));
}

/// The index before which all keys are below `key`, and at which none is.
proof fn lemma_position_is(e: ParamsView, key: Seq<char>, at: int)
    requires
        0 <= at <= e.len(),
        forall|j: int| 0 <= j < at ==> lex_less((#[trigger] e[j]).0, key),
        at == e.len() || !lex_less(e[at].0, key),
    ensures
        position(e, key) == at,
    decreases at,
{
    if at > 0 {
        let rest = e.drop_first();
        assert forall|j: int| 0 <= j < at - 1 implies lex_less((#[trigger] rest[j]).0, key) by {
            assert(rest[j] == e[j + 1]);
        }
        if at < e.len() {
            assert(rest[at - 1] == e[at]);
        }
        lemma_position_is(rest, key, at - 1);
    }
}

/// Entries below the insertion point have smaller keys.
proof fn lemma_position_bounds(e: ParamsView, key: Seq<char>)
    ensures
        0 <= position(e, key) <= e.len(),
        forall|j: int| 0 <= j < position(e, key) ==> lex_less((#[trigger] e[j]).0, key),
        position(e, key) == e.len() || !lex_less(e[position(e, key)].0, key),
    decreases e.len(),
{
    if e.len() == 0 || !lex_less(e[0].0, key) {
    } else {
        let rest = e.drop_first();
        lemma_position_bounds(rest, key);
        assert forall|j: int| 0 <= j < position(e, key) implies lex_less((#[trigger] e[j]).0, key) by {
            if j > 0 {
                assert(rest[j - 1] == e[j]);
            }
        }
        if position(e, key) < e.len() {
            assert(rest[position(rest, key)] == e[position(e, key)]);
        }
    }
}

/// Storing a value keeps the entries sorted.
pub proof fn lemma_insert_sorted(e: ParamsView, key: Seq<char>, value: Seq<char>)
    requires
        sorted_keys(e),
    ensures
        sorted_keys(params_insert(e, key, value)),
        lookup(params_insert(e, key, value), key) == Some(value),
{
    let at = position(e, key);
    let r = params_insert(e, key, value);
    lemma_position_bounds(e, key);
    if at < e.len() && e[at].0 == key {
        assert forall|i: int, j: int| 0 <= i < j < r.len() implies lex_less((#[trigger] r[i]).0, (#[trigger] r[j]).0) by {
            assert(r[i].0 == e[i].0);
            assert(r[j].0 == e[j].0);
        }
    } else {
        assert forall|i: int, j: int| 0 <= i < j < r.len() implies lex_less((#[trigger] r[i]).0, (#[trigger] r[j]).0) by {
            if j < at {
                assert(r[i] == e[i] && r[j] == e[j]);
            } else if j == at {
                assert(r[i] == e[i]);
            } else if i == at {
                assert(r[j] == e[j - 1]);
                lemma_lex_total(e[at].0, key);
                if j - 1 > at {
                    lemma_lex_transitive(key, e[at].0, e[j - 1].0);
                }
            } else if i < at {
                assert(r[i] == e[i] && r[j] == e[j - 1]);
            } else {
                assert(r[i] == e[i - 1] && r[j] == e[j - 1]);
            }
        }
    }
    assert(r[at] == (key, value));
    lemma_lookup_at(r, at);
}

/// Storing a value under one key leaves every other key as it was.
pub proof fn lemma_insert_other(e: ParamsView, key: Seq<char>, value: Seq<char>, other: Seq<char>)
    requires
        sorted_keys(e),
        other != key,
    ensures
        lookup(params_insert(e, key, value), other) == lookup(e, other),
{
    let at = position(e, key);
    let r = params_insert(e, key, value);
    lemma_position_bounds(e, key);
    lemma_insert_sorted(e, key, value);
    let replaced = at < e.len() && e[at].0 == key;
    if has_key(e, other) {
        let i = index_of(e, other);
        let k = if replaced || i < at { i } else { i + 1 };
        assert(r[k] == e[i]);
        lemma_lookup_at(r, k);
        lemma_lookup_at(e, i);
    } else if has_key(r, other) {
        let k = index_of(r, other);
        let i = if replaced || k < at { k } else { k - 1 };
        assert(r[k] == e[i]);
        assert(e[i].0 == other);
    }
}

/// Looking up in all entries but the first: the first key is gone, every
/// other key is found as before.
pub proof fn lemma_lookup_rest(e: ParamsView, key: Seq<char>)
    requires
        sorted_keys(e),
        e.len() > 0,
    ensures
        sorted_keys(e.drop_first()),
        lookup(e.drop_first(), key) == if key == e[0].0 {
            None
        } else {
            lookup(e, key)
        },
{
    let rest = e.drop_first();
    assert forall|i: int, j: int| 0 <= i < j < rest.len() implies lex_less(
        (#[trigger] rest[i]).0,
        (#[trigger] rest[j]).0,
    ) by {
        assert(rest[i] == e[i + 1] && rest[j] == e[j + 1]);
    }
    if has_key(rest, key) {
        let k = index_of(rest, key);
        assert(rest[k] == e[k + 1]);
        lemma_lookup_at(rest, k);
        lemma_lookup_at(e, k + 1);
        lemma_lex_irreflexive(e[0].0);
    } else if key != e[0].0 && has_key(e, key) {
        let i = index_of(e, key);
        assert(rest[i - 1] == e[i]);
    }
}

/// The first of sorted entries has the least key.
proof fn lemma_first_is_least(a: ParamsView, b: ParamsView)
    requires
        sorted_keys(a),
        sorted_keys(b),
        a.len() > 0,
        b.len() > 0,
        forall|key: Seq<char>| lookup(a, key) == lookup(b, key),
    ensures
        !lex_less(a[0].0, b[0].0),
{
    if lex_less(a[0].0, b[0].0) {
        lemma_lookup_at(a, 0);
        assert(lookup(b, a[0].0) is Some);
        let j = index_of(b, a[0].0);
        if j == 0 {
            lemma_lex_irreflexive(a[0].0);
        } else {
            lemma_lex_transitive(a[0].0, b[0].0, b[j].0);
            lemma_lex_irreflexive(a[0].0);
        }
    }
}

/// Parameters are canonical: sorted entries that hold the same value under
/// every key are the same entries. So two predicates with the same
/// parameters are equal, and hash alike, in whatever order the parameters
/// were stored.
pub proof fn lemma_params_canonical(a: ParamsView, b: ParamsView)
    requires
        sorted_keys(a),
        sorted_keys(b),
        forall|key: Seq<char>| lookup(a, key) == lookup(b, key),
    ensures
        a == b,
    decreases a.len(),
{
    if a.len() == 0 {
        if b.len() > 0 {
            lemma_lookup_at(b, 0);
            assert(lookup(a, b[0].0) is None);
        }
        assert(a =~= b);
    } else if b.len() == 0 {
        lemma_lookup_at(a, 0);
        assert(lookup(b, a[0].0) is None);
    } else {
        lemma_first_is_least(a, b);
        lemma_first_is_least(b, a);
        lemma_lex_total(a[0].0, b[0].0);
        lemma_lookup_at(a, 0);
        lemma_lookup_at(b, 0);
        assert(a[0] == b[0]);
        assert forall|key: Seq<char>| lookup(a.drop_first(), key) == lookup(
            b.drop_first(),
            key,
        ) by {
            lemma_lookup_rest(a, key);
            lemma_lookup_rest(b, key);
        }
        lemma_lookup_rest(a, a[0].0);
        lemma_lookup_rest(b, b[0].0);
        lemma_params_canonical(a.drop_first(), b.drop_first());
        assert(a =~= seq![a[0]] + a.drop_first());
        assert(b =~= seq![b[0]] + b.drop_first());
    }
}

/// The order in which two different keys are stored does not matter.
pub proof fn lemma_insert_commutes(
    e: ParamsView,
    key: Seq<char>,
    value: Seq<char>,
    other_key: Seq<char>,
    other_value: Seq<char>,
)
    requires
        sorted_keys(e),
        key != other_key,
    ensures
        params_insert(params_insert(e, key, value), other_key, other_value) == params_insert(
            params_insert(e, other_key, other_value),
            key,
            value,
        ),
{
    let first = params_insert(e, key, value);
    let second = params_insert(e, other_key, other_value);
    let left = params_insert(first, other_key, other_value);
    let right = params_insert(second, key, value);
    lemma_insert_sorted(e, key, value);
    lemma_insert_sorted(e, other_key, other_value);
    lemma_insert_sorted(first, other_key, other_value);
    lemma_insert_sorted(second, key, value);
    assert forall|k: Seq<char>| lookup(left, k) == lookup(right, k) by {
        if k == key {
            lemma_insert_other(first, other_key, other_value, k);
        } else if k == other_key {
            lemma_insert_other(second, key, value, k);
        } else {
            lemma_insert_other(first, other_key, other_value, k);
            lemma_insert_other(e, key, value, k);
            lemma_insert_other(second, key, value, k);
            lemma_insert_other(e, other_key, other_value, k);
        }
    }
    lemma_params_canonical(left, right);
}

/// The parameters of a predicate: a string-to-string map.
#[derive(Debug)]
pub struct Params {
    entries: Vec<(String, String)>,
}

/// The contents of stored entries.
spec fn entries_view(entries: Seq<(String, String)>) -> ParamsView {
    Seq::new(entries.len(), |i: int| (entries[i].0@, entries[i].1@))
}

impl View for Params {
    type V = ParamsView;

    closed spec fn view(&self) -> ParamsView {
        entries_view(self.entries@)
    }
}

impl Params {
    #[verifier::type_invariant]
    spec fn ordered(&self) -> bool {
        sorted_keys(self@)
    }

    /// No parameters.
    pub fn new() -> (params: Self)
        ensures
            params@ == Seq::<(Seq<char>, Seq<char>)>::empty(),
    {
        let entries: Vec<(String, String)> = Vec::new();
        assert(entries_view(entries@) =~= Seq::<(Seq<char>, Seq<char>)>::empty());
        Params { entries }
    }

    /// The number of parameters.
    pub fn len(&self) -> (count: usize)
        ensures
            count == self@.len(),
            sorted_keys(self@),
    {
        proof {
            use_type_invariant(self);
        }
        self.entries.len()
    }

    /// The key of the entry at `index`, in ascending order of key.
    pub fn key_at(&self, index: usize) -> (key: &String)
        requires
            index < self@.len(),
        ensures
            key@ == self@[index as int].0,
    {
        &self.entries[index].0
    }

    /// The value of the entry at `index`.
    pub fn value_at(&self, index: usize) -> (value: &String)
        requires
            index < self@.len(),
        ensures
            value@ == self@[index as int].1,
    {
        &self.entries[index].1
    }

    /// The value stored under `key`, if there is one.
    pub fn get(&self, key: &str) -> (value: Option<&String>)
        ensures
            match value {
                Some(found) => lookup(self@, key@) == Some(found@),
                None => lookup(self@, key@) is None,
            },
    {
        proof {
            use_type_invariant(self);
        }
        let mut i: usize = 0;
        while i < self.entries.len()
            invariant
                i <= self.entries.len(),
                sorted_keys(self@),
                forall|j: int| 0 <= j < i ==> (#[trigger] self@[j]).0 != key@,
            decreases self.entries.len() - i,
        {
            if str_equal(self.entries[i].0.as_str(), key) {
                proof {
                    lemma_lookup_at(self@, i as int);
                }
                return Some(&self.entries[i].1);
            }
            i += 1;
        }
        None
    }

    /// These parameters with `value` stored under `key`, replacing what was
    /// stored there.
    pub fn with(self, key: String, value: String) -> (params: Self)
        ensures
            params@ == params_insert(self@, key@, value@),
    {
        proof {
            use_type_invariant(&self);
            lemma_insert_sorted(self@, key@, value@);
        }
        let ghost before = self@;
        let mut entries = self.entries;
        let mut i: usize = 0;
        while i < entries.len() && str_less(entries[i].0.as_str(), key.as_str())
            invariant
                i <= entries.len(),
                entries@.len() == before.len(),
                forall|j: int| 0 <= j < entries@.len() ==> (#[trigger] entries@[j]).0@ == before[j].0
                    && entries@[j].1@ == before[j].1,
                forall|j: int| 0 <= j < i ==> lex_less((#[trigger] before[j]).0, key@),
            decreases entries.len() - i,
        {
            i += 1;
        }
        proof {
            lemma_position_is(before, key@, i as int);
        }
        if i < entries.len() && str_equal(entries[i].0.as_str(), key.as_str()) {
            entries.set(i, (key, value));
        } else {
            entries.insert(i, (key, value));
        }
        assert(entries_view(entries@) =~= params_insert(before, key@, value@));
        Params { entries }
    }
}

impl Clone for Params {
    fn clone(&self) -> (copy: Self)
        ensures
            copy@ == self@,
    {
        proof {
            use_type_invariant(self);
        }
        let mut entries: Vec<(String, String)> = Vec::new();
        let mut i: usize = 0;
        while i < self.entries.len()
            invariant
                i <= self.entries.len(),
                entries@.len() == i,
                forall|j: int| 0 <= j < i ==> (#[trigger] entries@[j]).0@ == self.entries@[j].0@
                    && entries@[j].1@ == self.entries@[j].1@,
            decreases self.entries.len() - i,
        {
            entries.push((self.entries[i].0.clone(), self.entries[i].1.clone()));
            i += 1;
        }
        assert(entries_view(entries@) =~= self@);
        Params { entries }
    }
}

impl PartialEq for Params {
    fn eq(&self, other: &Self) -> (equal: bool) {
        if self.entries.len() != other.entries.len() {
            assert(self@.len() != other@.len());
            return false;
        }
        let mut i: usize = 0;
        while i < self.entries.len()
            invariant
                i <= self.entries.len(),
                self.entries.len() == other.entries.len(),
                forall|j: int| 0 <= j < i ==> #[trigger] self@[j] == other@[j],
            decreases self.entries.len() - i,
        {
            if self.entries[i].0 != other.entries[i].0 || self.entries[i].1 != other.entries[i].1 {
                assert(self@[i as int] != other@[i as int]);
                return false;
            }
            i += 1;
        }
        assert(self@ =~= other@);
        true
    }
}

impl PartialEqSpecImpl for Params {
    open spec fn obeys_eq_spec() -> bool {
        true
    }

    open spec fn eq_spec(&self, other: &Self) -> bool {
        self@ == other@
    }
}

/// A predicate as mathematics.
pub struct PredicateView {
    pub variant: Seq<char>,
    pub params: ParamsView,
}

/// One condition or action on a path: the identifier of the node kind that
/// produced it, and that node's parameters. Immutable once made.
#[derive(Debug)]
pub struct Predicate {
    variant: String,
    params: Params,
}

impl View for Predicate {
    type V = PredicateView;

    closed spec fn view(&self) -> PredicateView {
        PredicateView { variant: self.variant@, params: self.params@ }
    }
}

impl Predicate {
    pub fn new(variant: String, params: Params) -> (predicate: Self)
        ensures
            predicate@.variant == variant@,
            predicate@.params == params@,
    {
        Predicate { variant, params }
    }

    /// The identifier of the node kind.
    pub fn variant(&self) -> (variant: &String)
        ensures
            variant@ == self@.variant,
    {
        &self.variant
    }

    /// The parameters.
    pub fn params(&self) -> (params: &Params)
        ensures
            params@ == self@.params,
            sorted_keys(self@.params),
    {
        let count = self.params.len();
        &self.params
    }

    /// Feeds the predicate into a running content hash.
    pub fn hash(&self, state: u64) -> (hashed: u64)
        ensures
            hashed == hash_predicate(state, self@),
    {
        let mut hashed = hash_str(state, self.variant.as_str());
        let count = self.params.len();
        let mut i: usize = 0;
        while i < count
            invariant
                i <= count,
                count == self.params@.len(),
                hashed == hash_params(hash_text(state, self.variant@), self.params@.take(i as int)),
            decreases count - i,
        {
            hashed = hash_str(hashed, self.params.key_at(i).as_str());
            hashed = hash_str(hashed, self.params.value_at(i).as_str());
            assert(self.params@.take(i + 1).drop_last() =~= self.params@.take(i as int));
            i += 1;
        }
        assert(self.params@.take(count as int) =~= self.params@);
        hashed
    }
}

impl Clone for Predicate {
    fn clone(&self) -> (copy: Self)
        ensures
            copy@ == self@,
    {
        Predicate { variant: self.variant.clone(), params: self.params.clone() }
    }
}

impl PartialEq for Predicate {
    fn eq(&self, other: &Self) -> (equal: bool) {
        self.variant == other.variant && self.params == other.params
    }
}

impl PartialEqSpecImpl for Predicate {
    open spec fn obeys_eq_spec() -> bool {
        true
    }

    open spec fn eq_spec(&self, other: &Self) -> bool {
        self@ == other@
    }
}

/// Everything a packet must satisfy or undergo from a source up to some
/// point, in order. Paths only ever grow at their end.
pub type ConditionPath = Vec<Predicate>;

/// A path as mathematics.
pub open spec fn path_view(path: Seq<Predicate>) -> Seq<PredicateView> {
    path.map_values(|predicate: Predicate| predicate@)
}

/// Several paths as mathematics.
pub open spec fn paths_view(paths: Seq<Vec<Predicate>>) -> Seq<Seq<PredicateView>> {
    paths.map_values(|path: Vec<Predicate>| path_view(path@))
}

/// A copy of a path.
pub fn clone_path(path: &Vec<Predicate>) -> (copy: Vec<Predicate>)
    ensures
        path_view(copy@) == path_view(path@),
{
    let mut copy: Vec<Predicate> = Vec::new();
    let mut i: usize = 0;
    while i < path.len()
        invariant
            i <= path.len(),
            copy@.len() == i,
            forall|j: int| 0 <= j < i ==> (#[trigger] copy@[j])@ == path@[j]@,
        decreases path.len() - i,
    {
        copy.push(path[i].clone());
        i += 1;
    }
    assert(path_view(copy@) =~= path_view(path@));
    copy
}

/// Whether two paths hold the same predicates in the same order.
pub fn paths_equal(a: &Vec<Predicate>, b: &Vec<Predicate>) -> (equal: bool)
    ensures
        equal == (path_view(a@) == path_view(b@)),
{
    if a.len() != b.len() {
        assert(path_view(a@).len() != path_view(b@).len());
        return false;
    }
    let mut i: usize = 0;
    while i < a.len()
        invariant
            i <= a.len(),
            a.len() == b.len(),
            forall|j: int| 0 <= j < i ==> (#[trigger] a@[j])@ == b@[j]@,
        decreases a.len() - i,
    {
        if a[i] != b[i] {
            assert(path_view(a@)[i as int] != path_view(b@)[i as int]);
            return false;
        }
        i += 1;
    }
    assert(path_view(a@) =~= path_view(b@));
    true
}

/// Start value of the content hash.
pub const HASH_OFFSET: u64 = 0xcbf29ce484222325;

/// Multiplier of the content hash.
pub const HASH_PRIME: u64 = 0x100000001b3;

/// Closes each hashed string, so that where one string ends shows in the hash.
pub const HASH_END_OF_TEXT: u8 = 0xff;

/// One step of the hash: fold a byte in, then multiply, discarding overflow.
pub open spec fn hash_step(state: u64, byte: u8) -> u64 {
    (state ^ (byte as u64)).wrapping_mul(HASH_PRIME)
}

/// The hash after folding in bytes from first to last.
pub open spec fn hash_bytes(state: u64, bytes: Seq<u8>) -> u64
    decreases bytes.len(),
{
    if bytes.len() == 0 {
        state
    } else {
        hash_step(hash_bytes(state, bytes.drop_last()), bytes.last())
    }
}

/// The hash after a string: its UTF-8 bytes, then the end mark.
pub open spec fn hash_text(state: u64, text: Seq<char>) -> u64 {
    hash_step(hash_bytes(state, vstd::utf8::encode_utf8(text)), HASH_END_OF_TEXT)
}

/// The hash after parameters: each key and value in ascending order of key.
pub open spec fn hash_params(state: u64, params: ParamsView) -> u64
    decreases params.len(),
{
    if params.len() == 0 {
        state
    } else {
        hash_text(hash_text(hash_params(state, params.drop_last()), params.last().0), params.last().1)
    }
}

/// The hash after a predicate: its variant, then its parameters.
pub open spec fn hash_predicate(state: u64, predicate: PredicateView) -> u64 {
    hash_params(hash_text(state, predicate.variant), predicate.params)
}

/// The hash after the predicates of a path, from first to last.
pub open spec fn hash_path(state: u64, path: Seq<PredicateView>) -> u64
    decreases path.len(),
{
    if path.len() == 0 {
        state
    } else {
        hash_predicate(hash_path(state, path.drop_last()), path.last())
    }
}

/// The content hash of a whole path. It depends on which parameters each
/// predicate has, never on the order in which they were stored.
pub open spec fn seed_of(path: Seq<PredicateView>) -> u64 {
    hash_path(HASH_OFFSET, path)
}

/// Feeds a string into a running content hash.
pub fn hash_str(state: u64, text: &str) -> (hashed: u64)
    ensures
        hashed == hash_text(state, text@),
{
    let bytes = text.as_bytes();
    let mut hashed = state;
    let mut i: usize = 0;
    while i < bytes.len()
        invariant
            i <= bytes@.len(),
            bytes@ == text.spec_bytes(),
            hashed == hash_bytes(state, bytes@.take(i as int)),
        decreases bytes.len() - i,
    {
        assert(bytes@.take(i + 1).drop_last() =~= bytes@.take(i as int));
        hashed = (hashed ^ (bytes[i] as u64)).wrapping_mul(HASH_PRIME);
        i += 1;
    }
    assert(bytes@.take(bytes@.len() as int) =~= bytes@);
    (hashed ^ (HASH_END_OF_TEXT as u64)).wrapping_mul(HASH_PRIME)
}

/// The content hash of a path.
pub fn path_seed(path: &Vec<Predicate>) -> (seed: u64)
    ensures
        seed == seed_of(path_view(path@)),
{
    let mut seed = HASH_OFFSET;
    let mut i: usize = 0;
    while i < path.len()
        invariant
            i <= path.len(),
            seed == hash_path(HASH_OFFSET, path_view(path@).take(i as int)),
        decreases path.len() - i,
    {
        assert(path_view(path@).take(i + 1).drop_last() =~= path_view(path@).take(i as int));
        seed = path[i].hash(seed);
        i += 1;
    }
    assert(path_view(path@).take(path.len() as int) =~= path_view(path@));
    seed
}

} // verus!
