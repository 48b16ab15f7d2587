//! The values that serialization builds, as plain data, and their conversion
//! into Typst runtime values.

use vstd::prelude::*;
use typst::foundations::{Dict as TypstDict, Value as TypstValue};
use crate::typst_value::{
    array_value, bool_value, bytes_value, dict_insert, dict_new, dict_value, int_value, none_value,
    str_value, typst_array, typst_bool, typst_bytes, typst_dict_insert, typst_dict_keys,
    typst_dict_value, typst_int, typst_str, typst_type_name,
};

verus! {

/// A Typst runtime value as this library builds it.
///
/// Every variant but `Float` holds plain data. A float is built by the caller
/// as a Typst value (`Value::Float`) and carried through unchanged.
#[derive(Debug, PartialEq)]
pub enum Node {
    NoneValue,
    Bool(bool),
    Int(i64),
    Float(TypstValue),
    Str(String),
    Bytes(Vec<u8>),
    Array(Vec<Node>),
    Dict(NodeDict),
}

/// The long name of the Typst type of the value that `v` converts to: the
/// name that Typst's type declarations give each kind, and for a float node
/// the type of the Typst value it carries.
pub open spec fn node_type_name(v: Node) -> Seq<char> {
    match v {
        Node::NoneValue => "none"@,
        Node::Bool(_) => "boolean"@,
        Node::Int(_) => "integer"@,
        Node::Float(f) => typst_type_name(f),
        Node::Str(_) => "string"@,
        Node::Bytes(_) => "bytes"@,
        Node::Array(_) => "array"@,
        Node::Dict(_) => "dictionary"@,
    }
}

/// The entries of a dictionary: keys with their values, in insertion order.
pub type Entries = Seq<(Seq<char>, Node)>;

/// Whether some entry has the key `k`.
pub open spec fn has_key(s: Entries, k: Seq<char>) -> bool {
    exists|i: int| 0 <= i < s.len() && #[trigger] s[i].0 == k
}

/// Whether no two entries share a key.
pub open spec fn keys_distinct(s: Entries) -> bool {
    forall|i: int, j: int| 0 <= i < s.len() && 0 <= j < s.len() && i != j ==> #[trigger] s[i].0 != #[trigger] s[j].0
}

/// The position of the entry with key `k` (meaningful where `has_key(s, k)`).
pub open spec fn key_position(s: Entries, k: Seq<char>) -> int {
    choose|i: int| 0 <= i < s.len() && #[trigger] s[i].0 == k
}

/// An insertion into an insertion-ordered map: an existing key keeps its
/// place and takes the new value; a new key goes last.
pub open spec fn entries_insert(s: Entries, k: Seq<char>, v: Node) -> Entries {
    if has_key(s, k) {
        s.update(key_position(s, k), (k, v))
    } else {
        s.push((k, v))
    }
}

/// The value stored under `k`, if any.
pub open spec fn entries_get(s: Entries, k: Seq<char>) -> Option<Node> {
    if has_key(s, k) {
        Some(s[key_position(s, k)].1)
    } else {
        None
    }
}

/// Reading a key right after inserting it gives back the inserted value,
/// every other key reads as it did before, no key appears twice, and the
/// dictionary grows by one entry exactly when the key is new.
pub proof fn lemma_get_after_insert(s: Entries, k: Seq<char>, v: Node, other: Seq<char>)
    requires
        keys_distinct(s),
    ensures
        keys_distinct(entries_insert(s, k, v)),
        entries_get(entries_insert(s, k, v), k) == Some(v),
        other != k ==> entries_get(entries_insert(s, k, v), other) == entries_get(s, other),
        entries_insert(s, k, v).len() == if has_key(s, k) {
            s.len()
        } else {
            s.len() + 1
        },
{
    let t = entries_insert(s, k, v);
    if has_key(s, k) {
        let p = key_position(s, k);
        assert(t[p].0 == k);
        assert(keys_distinct(t)) by {
            assert forall|i: int, j: int|
                0 <= i < t.len() && 0 <= j < t.len() && i != j implies #[trigger] t[i].0
                != #[trigger] t[j].0 by {
                if i != p && j != p {
                    assert(t[i] == s[i] && t[j] == s[j]);
                } else if i == p {
                    assert(t[j] == s[j]);
                    assert(s[j].0 != s[p].0);
                } else {
                    assert(t[i] == s[i]);
                    assert(s[i].0 != s[p].0);
                }
            }
        }
        assert(has_key(t, k));
        assert(key_position(t, k) == p);
        if other != k {
            if has_key(s, other) {
                let q = key_position(s, other);
                assert(t[q] == s[q]);
                assert(has_key(t, other));
                assert(key_position(t, other) == q);
            } else {
                assert forall|i: int| 0 <= i < t.len() implies #[trigger] t[i].0 != other by {
                    if i != p {
                        assert(t[i] == s[i]);
                    }
                }
            }
        }
    } else {
        let p = s.len() as int;
        assert(t[p].0 == k);
        assert(keys_distinct(t)) by {
            assert forall|i: int, j: int|
                0 <= i < t.len() && 0 <= j < t.len() && i != j implies #[trigger] t[i].0
                != #[trigger] t[j].0 by {
                if i != p && j != p {
                    assert(t[i] == s[i] && t[j] == s[j]);
                } else if i == p {
                    assert(t[j] == s[j]);
                } else {
                    assert(t[i] == s[i]);
                }
            }
        }
        assert(has_key(t, k));
        assert(key_position(t, k) == p);
        if other != k {
            if has_key(s, other) {
                let q = key_position(s, other);
                assert(t[q] == s[q]);
                assert(has_key(t, other));
                assert(key_position(t, other) == q);
            } else {
                assert forall|i: int| 0 <= i < t.len() implies #[trigger] t[i].0 != other by {
                    if i != p {
                        assert(t[i] == s[i]);
                    }
                }
            }
        }
    }
}

/// What writing `value` under `key` leaves: `after` holds each key once,
/// reading `key` gives `value`, every other key reads as in `before`, and
/// the dictionary grew by one entry exactly when the key was new.
pub open spec fn written(before: Entries, after: Entries, key: Seq<char>, value: Node) -> bool {
    &&& keys_distinct(after)
    &&& entries_get(after, key) == Some(value)
    &&& forall|other: Seq<char>|
        other != key ==> #[trigger] entries_get(after, other) == entries_get(before, other)
    &&& after.len() == if has_key(before, key) {
        before.len()
    } else {
        before.len() + 1
    }
}

/// An insertion into entries with distinct keys is a write in the sense of
/// [`written`].
pub proof fn lemma_insert_written(s: Entries, k: Seq<char>, v: Node)
    requires
        keys_distinct(s),
    ensures
        written(s, entries_insert(s, k, v), k, v),
{
    lemma_get_after_insert(s, k, v, k);
    assert forall|other: Seq<char>| other != k implies #[trigger] entries_get(
        entries_insert(s, k, v),
        other,
    ) == entries_get(s, other) by {
        lemma_get_after_insert(s, k, v, other);
    }
}

/// The entries left by inserting `keys[i]` with `vals[i]` for each `i` in
/// order, starting from `s`.
pub open spec fn insert_all(s: Entries, keys: Seq<Seq<char>>, vals: Seq<Node>) -> Entries
    decreases keys.len(),
{
    if keys.len() == 0 || vals.len() == 0 {
        s
    } else {
        entries_insert(insert_all(s, keys.drop_last(), vals.drop_last()), keys.last(), vals.last())
    }
}

/// Inserting fields with distinct names, one after another, into an empty
/// dictionary gives exactly those fields in that order: as many entries as
/// fields, and each name reads back its own value.
pub proof fn lemma_insert_all_distinct(keys: Seq<Seq<char>>, vals: Seq<Node>)
    requires
        keys.no_duplicates(),
        keys.len() == vals.len(),
    ensures
        insert_all(Seq::empty(), keys, vals) == Seq::new(keys.len(), |i: int| (keys[i], vals[i])),
        insert_all(Seq::empty(), keys, vals).len() == keys.len(),
        keys_distinct(insert_all(Seq::empty(), keys, vals)),
        forall|i: int|
            0 <= i < keys.len() ==> entries_get(insert_all(Seq::empty(), keys, vals), #[trigger] keys[i])
                == Some(vals[i]),
    decreases keys.len(),
{
    let z = Seq::new(keys.len(), |i: int| (keys[i], vals[i]));
    if keys.len() > 0 {
        let ki = keys.drop_last();
        let vi = vals.drop_last();
        assert(ki.no_duplicates()) by {
            assert forall|i: int, j: int| 0 <= i < ki.len() && 0 <= j < ki.len() && i != j implies ki[i]
                != ki[j] by {
                assert(ki[i] == keys[i] && ki[j] == keys[j]);
            }
        }
        lemma_insert_all_distinct(ki, vi);
        let zi = Seq::new(ki.len(), |i: int| (ki[i], vi[i]));
        if has_key(zi, keys.last()) {
            let j = choose|j: int| 0 <= j < zi.len() && #[trigger] zi[j].0 == keys.last();
            assert(keys[j] == keys[keys.len() - 1]);
        }
        assert(z =~= zi.push((keys.last(), vals.last())));
    }
    assert(keys_distinct(z)) by {
        assert forall|i: int, j: int| 0 <= i < z.len() && 0 <= j < z.len() && i != j implies #[trigger] z[i].0
            != #[trigger] z[j].0 by {
            assert(z[i].0 == keys[i] && z[j].0 == keys[j]);
        }
    }
    assert forall|i: int| 0 <= i < keys.len() implies entries_get(z, #[trigger] keys[i]) == Some(
        vals[i],
    ) by {
        assert(z[i].0 == keys[i]);
        assert(has_key(z, keys[i]));
        assert(key_position(z, keys[i]) == i);
    }
}

/// A dictionary: string keys, each at most once, in insertion order.
#[derive(Debug, PartialEq)]
pub struct NodeDict {
    entries: Vec<(String, Node)>,
}

impl View for NodeDict {
    type V = Entries;

    closed spec fn view(&self) -> Entries {
        Seq::new(self.entries@.len(), |i: int| (self.entries@[i].0@, self.entries@[i].1))
    }
}

impl NodeDict {
    /// No two entries share a key (the dictionary's type invariant).
    #[verifier::type_invariant]
    pub closed spec fn wf(self) -> bool {
        keys_distinct(self@)
    }

    /// The type invariant, in terms of the entries.
    pub proof fn lemma_wf(&self)
        requires
            self.wf(),
        ensures
            keys_distinct(self@),
    {
    }

    /// An empty dictionary.
    pub fn new() -> (d: NodeDict)
        ensures
            d@ == Seq::<(Seq<char>, Node)>::empty(),
            keys_distinct(d@),
    {
        let d = NodeDict { entries: Vec::new() };
        assert(d@ =~= Seq::<(Seq<char>, Node)>::empty());
        d
    }

    /// The number of entries.
    pub fn len(&self) -> (n: usize)
        ensures
            n == self@.len(),
    {
        self.entries.len()
    }

    /// Inserts `value` under `key`: an existing key keeps its position and
    /// takes the new value, a new key is added last.
    pub fn insert(&mut self, key: String, value: Node)
        ensures
            final(self)@ == entries_insert(old(self)@, key@, value),
            written(old(self)@, final(self)@, key@, value),
    {
        proof {
            use_type_invariant(&*self);
            lemma_insert_written(self@, key@, value);
        }
        let ghost old_view = self@;
        let mut entries: Vec<(String, Node)> = Vec::new();
        std::mem::swap(&mut entries, &mut self.entries);
        assert(old_view == Seq::new(entries@.len(), |i: int| (entries@[i].0@, entries@[i].1)));
        let n = entries.len();
        let mut i: usize = 0;
        while i < n
            invariant
                n == entries@.len(),
                i <= n,
                old_view == old(self)@,
                old_view == Seq::new(entries@.len(), |i: int| (entries@[i].0@, entries@[i].1)),
                keys_distinct(old_view),
                forall|j: int| 0 <= j < i ==> old_view[j].0 != key@,
            decreases n - i,
        {
            if entries[i].0 == key {
                assert(old_view[i as int].0 == key@);
                assert(has_key(old_view, key@));
                assert(key_position(old_view, key@) == i);
                entries.set(i, (key, value));
                let ghost new_view = Seq::new(entries@.len(), |j: int| (entries@[j].0@, entries@[j].1));
                assert(new_view =~= entries_insert(old_view, key@, value));
                self.entries = entries;
                assert(self@ =~= new_view);
                proof {
                    lemma_insert_written(old_view, key@, value);
                }
                return;
            }
            i += 1;
        }
        assert(!has_key(old_view, key@));
        entries.push((key, value));
        let ghost new_view = Seq::new(entries@.len(), |j: int| (entries@[j].0@, entries@[j].1));
        assert(new_view =~= entries_insert(old_view, key@, value));
        self.entries = entries;
        assert(self@ =~= new_view);
    }

    /// The value stored under `key`, if any.
    pub fn get(&self, key: &str) -> (r: Option<&Node>)
        ensures
            match r {
                Some(v) => entries_get(self@, key@) == Some(*v),
                None => entries_get(self@, key@).is_none(),
            },
    {
        proof {
            use_type_invariant(self);
        }
        let wanted = String::from_str(key);
        let n = self.entries.len();
        let mut i: usize = 0;
        while i < n
            invariant
                n == self.entries@.len(),
                i <= n,
                wanted@ == key@,
                keys_distinct(self@),
                forall|j: int| 0 <= j < i ==> self@[j].0 != key@,
            decreases n - i,
        {
            if self.entries[i].0 == wanted {
                assert(self@[i as int].0 == key@);
                assert(has_key(self@, key@));
                assert(key_position(self@, key@) == i);
                return Some(&self.entries[i].1);
            }
            i += 1;
        }
        assert(!has_key(self@, key@));
        None
    }
}

/// Whether `r` is a Typst value that converting `v` may give: each node
/// becomes a Typst value of the same kind with the same contents. A
/// `NoneValue` becomes a value of Typst's type `none`, a float is kept as it
/// is, an array holds the converted items in order, and a dictionary is built
/// by inserting the converted entries in order into a dictionary with no keys.
pub closed spec fn typst_image(v: Node, r: TypstValue) -> bool
    decreases v,
{
    &&& typst_type_name(r) == node_type_name(v)
    &&& match v {
        Node::NoneValue => true,
        Node::Bool(b) => r == typst_bool(b),
        Node::Int(i) => r == typst_int(i),
        Node::Float(f) => r == f,
        Node::Str(s) => r == typst_str(s@),
        Node::Bytes(b) => r == typst_bytes(b@),
        Node::Array(items) => exists|t: Seq<TypstValue>|
            r == #[trigger] typst_array(t) && typst_images(items@, t),
        Node::Dict(d) => exists|td: TypstDict|
            r == #[trigger] typst_dict_value(td) && typst_entries_image(d.entries@, td)
                && typst_dict_keys(td) == string_keys(d.entries@),
    }
}

/// Whether `t` holds the converted nodes of `s`, in order.
closed spec fn typst_images(s: Seq<Node>, t: Seq<TypstValue>) -> bool
    decreases s,
{
    if s.len() == 0 {
        t.len() == 0
    } else {
        &&& t.len() == s.len()
        &&& typst_images(s.drop_last(), t.drop_last())
        &&& typst_image(s.last(), t.last())
    }
}

/// Whether `td` is built by inserting the converted entries `s`, in order,
/// into a dictionary with no keys.
closed spec fn typst_entries_image(s: Seq<(String, Node)>, td: TypstDict) -> bool
    decreases s,
{
    if s.len() == 0 {
        typst_dict_keys(td) == Seq::<Seq<char>>::empty()
    } else {
        exists|td0: TypstDict, tv: TypstValue|
            td == #[trigger] typst_dict_insert(td0, s.last().0@, tv) && typst_entries_image(
                s.drop_last(),
                td0,
            ) && typst_image(s.last().1, tv)
    }
}

/// Whether `t` holds the converted nodes of `s`, in order.
pub open spec fn typst_items_of(s: Seq<Node>, t: Seq<TypstValue>) -> bool {
    &&& t.len() == s.len()
    &&& forall|i: int| 0 <= i < s.len() ==> typst_image(#[trigger] s[i], t[i])
}

/// Whether `td` is built by inserting the entries `s`, each value converted,
/// in order into a dictionary with no keys.
pub open spec fn typst_dict_of(s: Entries, td: TypstDict) -> bool
    decreases s.len(),
{
    if s.len() == 0 {
        typst_dict_keys(td) == Seq::<Seq<char>>::empty()
    } else {
        exists|td0: TypstDict, tv: TypstValue|
            td == #[trigger] typst_dict_insert(td0, s.last().0, tv) && typst_dict_of(
                s.drop_last(),
                td0,
            ) && typst_image(s.last().1, tv)
    }
}

proof fn lemma_images(s: Seq<Node>, t: Seq<TypstValue>)
    ensures
        typst_images(s, t) <==> typst_items_of(s, t),
    decreases s.len(),
{
    if s.len() > 0 {
        lemma_images(s.drop_last(), t.drop_last());
        if typst_items_of(s, t) {
            assert forall|i: int| 0 <= i < s.len() - 1 implies typst_image(
                #[trigger] s.drop_last()[i],
                t.drop_last()[i],
            ) by {
                assert(s.drop_last()[i] == s[i]);
                assert(typst_image(s[i], t[i]));
            }
            assert(typst_image(s[s.len() - 1], t[s.len() - 1]));
        }
        if typst_images(s, t) {
            assert forall|i: int| 0 <= i < s.len() implies typst_image(#[trigger] s[i], t[i]) by {
                if i < s.len() - 1 {
                    assert(s.drop_last()[i] == s[i]);
                    assert(typst_image(s.drop_last()[i], t.drop_last()[i]));
                }
            }
        }
    }
}

proof fn lemma_entries_image(s: Seq<(String, Node)>, td: TypstDict)
    ensures
        typst_entries_image(s, td) <==> typst_dict_of(
            Seq::new(s.len(), |i: int| (s[i].0@, s[i].1)),
            td,
        ),
    decreases s.len(),
{
    let v = Seq::new(s.len(), |i: int| (s[i].0@, s[i].1));
    if s.len() > 0 {
        let init = Seq::new(s.drop_last().len(), |i: int| (s.drop_last()[i].0@, s.drop_last()[i].1));
        assert(init =~= v.drop_last());
        assert(v.last() == (s.last().0@, s.last().1));
        if typst_entries_image(s, td) {
            let (td0, tv) = choose|td0: TypstDict, tv: TypstValue|
                td == #[trigger] typst_dict_insert(td0, s.last().0@, tv) && typst_entries_image(
                    s.drop_last(),
                    td0,
                ) && typst_image(s.last().1, tv);
            lemma_entries_image(s.drop_last(), td0);
            assert(td == typst_dict_insert(td0, v.last().0, tv));
        }
        if typst_dict_of(v, td) {
            let (td0, tv) = choose|td0: TypstDict, tv: TypstValue|
                td == #[trigger] typst_dict_insert(td0, v.last().0, tv) && typst_dict_of(
                    v.drop_last(),
                    td0,
                ) && typst_image(v.last().1, tv);
            lemma_entries_image(s.drop_last(), td0);
            assert(td == typst_dict_insert(td0, s.last().0@, tv));
        }
    }
}

/// What converting a node into Typst may give, one kind at a time: a
/// `NoneValue` becomes a value of Typst's type `none`, the other leaves become
/// the Typst value of the same kind and contents, a float is kept as it is,
/// an array becomes the Typst array of its converted items in order, and a
/// dictionary becomes the Typst dictionary built by inserting its converted
/// entries in order into a dictionary with no keys.
pub proof fn lemma_typst_image(v: Node, r: TypstValue)
    ensures
        typst_image(v, r) <==> {
            &&& typst_type_name(r) == node_type_name(v)
            &&& match v {
                Node::NoneValue => true,
                Node::Bool(b) => r == typst_bool(b),
                Node::Int(i) => r == typst_int(i),
                Node::Float(f) => r == f,
                Node::Str(s) => r == typst_str(s@),
                Node::Bytes(b) => r == typst_bytes(b@),
                Node::Array(items) => exists|t: Seq<TypstValue>|
                    r == #[trigger] typst_array(t) && typst_items_of(items@, t),
                Node::Dict(d) => exists|td: TypstDict|
                    r == #[trigger] typst_dict_value(td) && typst_dict_of(d@, td)
                        && typst_dict_keys(td) == entry_keys(d@),
            }
        },
{
    match v {
        Node::Array(items) => {
            assert forall|t: Seq<TypstValue>| typst_images(items@, t) <==> typst_items_of(items@, t) by {
                lemma_images(items@, t);
            }
        },
        Node::Dict(d) => {
            assert(Seq::new(d.entries@.len(), |i: int| (d.entries@[i].0@, d.entries@[i].1)) == d@);
            assert(entry_keys(d@) =~= string_keys(d.entries@));
            assert forall|td: TypstDict|
                typst_entries_image(d.entries@, td) <==> typst_dict_of(d@, td) by {
                lemma_entries_image(d.entries@, td);
            }
        },
        _ => {},
    }
}

/// The keys of a dictionary, in order.
pub open spec fn entry_keys(s: Entries) -> Seq<Seq<char>> {
    s.map_values(|e: (Seq<char>, Node)| e.0)
}

impl Node {
    /// Converts this node into the Typst value of the same kind and contents.
    pub fn into_typst(self) -> (r: TypstValue)
        ensures
            typst_image(self, r),
        decreases self,
    {
        let ghost v = self;
        match self {
            Node::NoneValue => none_value(),
            Node::Bool(b) => bool_value(b),
            Node::Int(i) => int_value(i),
            Node::Float(f) => f,
            Node::Str(s) => str_value(s),
            Node::Bytes(b) => bytes_value(b),
            Node::Array(items) => {
                let ghost iv = items@;
                let t = nodes_into_typst(items);
                let r = array_value(t);
                assert(r == typst_array(t@) && typst_images(iv, t@));
                r
            },
            Node::Dict(d) => {
                let ghost dv = d@;
                let td = d.into_typst();
                let r = dict_value(td);
                proof {
                    assert(r == typst_dict_value(td) && typst_dict_of(dv, td));
                    lemma_typst_image(v, r);
                }
                r
            },
        }
    }
}

fn nodes_into_typst(items: Vec<Node>) -> (r: Vec<TypstValue>)
    ensures
        typst_images(items@, r@),
    decreases items@,
{
    let ghost all = items@;
    let mut items = items;
    match items.pop() {
        Option::None => {
            let out: Vec<TypstValue> = Vec::new();
            out
        },
        Option::Some(last) => {
            assert(items@ =~= all.drop_last());
            let ghost lv = last;
            let mut out = nodes_into_typst(items);
            let ghost init = out@;
            out.push(last.into_typst());
            assert(out@.drop_last() =~= init);
            assert(typst_image(lv, out@.last()));
            out
        },
    }
}

/// The keys of a sequence of exec entries, in order.
spec fn string_keys(s: Seq<(String, Node)>) -> Seq<Seq<char>> {
    s.map_values(|e: (String, Node)| e.0@)
}

fn entries_into_typst(entries: Vec<(String, Node)>) -> (r: TypstDict)
    requires
        string_keys(entries@).no_duplicates(),
    ensures
        typst_entries_image(entries@, r),
        typst_dict_keys(r) == string_keys(entries@),
    decreases entries@,
{
    let ghost all = entries@;
    let mut entries = entries;
    match entries.pop() {
        Option::None => {
            let d = dict_new();
            assert(string_keys(all) =~= Seq::<Seq<char>>::empty());
            d
        },
        Option::Some(last) => {
            assert(entries@ =~= all.drop_last());
            assert(string_keys(entries@) =~= string_keys(all).drop_last());
            assert(string_keys(all) =~= string_keys(entries@).push(last.0@));
            let mut d = entries_into_typst(entries);
            let ghost d0 = d;
            let (key, node) = last;
            let ghost k = key@;
            let ghost nv = node;
            proof {
                if string_keys(all).drop_last().contains(k) {
                    let j = choose|j: int|
                        0 <= j < string_keys(all).drop_last().len() && string_keys(all).drop_last()[j] == k;
                    assert(string_keys(all)[j] == string_keys(all)[all.len() - 1]);
                }
            }
            let tv = node.into_typst();
            dict_insert(&mut d, key, tv);
            assert(d == typst_dict_insert(d0, all.last().0@, tv) && typst_entries_image(
                all.drop_last(),
                d0,
            ) && typst_image(all.last().1, tv));
            d
        },
    }
}

impl NodeDict {
    /// Converts this dictionary into a Typst dictionary with the same entries
    /// in the same order.
    pub fn into_typst(self) -> (r: TypstDict)
        ensures
            typst_dict_of(self@, r),
            typst_dict_keys(r) == entry_keys(self@),
        decreases self,
    {
        proof {
            use_type_invariant(&self);
            assert(entry_keys(self@) =~= string_keys(self.entries@));
            assert(Seq::new(self.entries@.len(), |i: int| (self.entries@[i].0@, self.entries@[i].1))
                == self@);
        }
        let ghost ev = self.entries@;
        let r = entries_into_typst(self.entries);
        proof {
            lemma_entries_image(ev, r);
        }
        r
    }
}

} // verus!
