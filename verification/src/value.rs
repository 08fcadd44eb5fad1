//! The standalone tree value: what a document holds when no static shape is
//! supplied, and the ordered dictionary at its heart.

use vstd::prelude::*;
use vstd::string::StringExecFns;
use crate::integer::Integer;
use crate::scalar::{Real, Uid};

verus! {

broadcast use vstd::seq::group_seq_axioms, vstd::std_specs::vec::axiom_vec_index_decreases,
    vstd::std_specs::vec::axiom_vec_decreases_to_view;

/// The mathematical form of a tree value.
#[verifier::ext_equal]
pub enum ValueS {
    Boolean(bool),
    Integer(int),
    Real(Seq<char>),
    String(Seq<char>),
    Uid(u64),
    Dictionary(Seq<(Seq<char>, ValueS)>),
    Array(Seq<ValueS>),
}

/// One node of the weakly-typed tree: a scalar, an ordered dictionary, or an
/// array. There is no date alternative: the event vocabulary the engines
/// speak carries no date token, so a date never reaches this tree.
#[derive(Debug, PartialEq)]
pub enum Value {
    Boolean(bool),
    Integer(Integer),
    Real(Real),
    String(String),
    Uid(Uid),
    Dictionary(Dictionary),
    Array(Vec<Value>),
}

/// An ordered mapping from string keys to values: keys are unique, a later
/// insert overwrites in place, and iteration order is insertion order — never
/// a sorted order.
#[derive(Debug, PartialEq)]
pub struct Dictionary {
    pub(crate) entries: Vec<(String, Value)>,
}

impl View for Value {
    type V = ValueS;

    open spec fn view(&self) -> ValueS
        decreases self,
    {
        match self {
            Value::Boolean(b) => ValueS::Boolean(*b),
            Value::Integer(i) => ValueS::Integer(i.value()),
            Value::Real(r) => ValueS::Real(r@),
            Value::String(s) => ValueS::String(s@),
            Value::Uid(u) => ValueS::Uid(u.value()),
            Value::Dictionary(d) => ValueS::Dictionary(d@),
            Value::Array(v) => ValueS::Array(Value::vals_view(v@)),
        }
    }
}

impl Value {
    /// The views of a run of dictionary entries, elementwise.
    pub open spec fn entries_view(s: Seq<(String, Value)>) -> Seq<(Seq<char>, ValueS)>
        decreases s,
    {
        if s.len() == 0 {
            Seq::empty()
        } else {
            Value::entries_view(s.subrange(0, s.len() - 1)).push(
                (s[s.len() - 1].0@, s[s.len() - 1].1.view()),
            )
        }
    }

    /// The views of a run of values, elementwise.
    pub open spec fn vals_view(s: Seq<Value>) -> Seq<ValueS>
        decreases s,
    {
        if s.len() == 0 {
            Seq::empty()
        } else {
            Value::vals_view(s.subrange(0, s.len() - 1)).push(s[s.len() - 1].view())
        }
    }

    /// The boolean this value holds, if it is a boolean.
    pub fn as_boolean(&self) -> (r: Option<bool>)
        ensures
            r == (match self@ {
                ValueS::Boolean(b) => Some(b),
                _ => None::<bool>,
            }),
    {
        match self {
            Value::Boolean(b) => Some(*b),
            _ => None,
        }
    }

    /// The text this value holds, if it is a string.
    pub fn as_string(&self) -> (r: Option<&str>)
        ensures
            match r {
                Some(t) => self@ is String && self@->String_0 == t@,
                None => !(self@ is String),
            },
    {
        match self {
            Value::String(s) => Some(s.as_str()),
            _ => None,
        }
    }

    /// The decimal rendering of the real this value holds, if it is a real.
    pub fn as_real(&self) -> (r: Option<&Real>)
        ensures
            match r {
                Some(t) => self@ is Real && self@->Real_0 == t@,
                None => !(self@ is Real),
            },
    {
        match self {
            Value::Real(t) => Some(t),
            _ => None,
        }
    }

    /// The value as an unsigned 64-bit integer, if it is an integer in that
    /// range.
    pub fn as_unsigned_integer(&self) -> (r: Option<u64>)
        ensures
            match r {
                Some(n) => self@ is Integer && self@->Integer_0 == n as int,
                None => !(self@ is Integer && 0 <= self@->Integer_0 <= u64::MAX),
            },
    {
        match self {
            Value::Integer(i) => i.as_unsigned(),
            _ => None,
        }
    }

    /// The value as a signed 64-bit integer, if it is an integer in that
    /// range.
    pub fn as_signed_integer(&self) -> (r: Option<i64>)
        ensures
            match r {
                Some(n) => self@ is Integer && self@->Integer_0 == n as int,
                None => !(self@ is Integer && i64::MIN <= self@->Integer_0 <= i64::MAX),
            },
    {
        match self {
            Value::Integer(i) => i.as_signed(),
            _ => None,
        }
    }

    /// The dictionary this value holds, if it is a dictionary.
    pub fn as_dictionary(&self) -> (r: Option<&Dictionary>)
        ensures
            match r {
                Some(d) => self@ is Dictionary && self@->Dictionary_0 == d@,
                None => !(self@ is Dictionary),
            },
    {
        match self {
            Value::Dictionary(d) => Some(d),
            _ => None,
        }
    }
}

/// `Value::entries_view` is the elementwise view.
pub broadcast proof fn lemma_entries_view(s: Seq<(String, Value)>)
    ensures
        (#[trigger] Value::entries_view(s)).len() == s.len(),
        forall|i: int|
            0 <= i < s.len() ==> Value::entries_view(s)[i] == (s[i].0@, s[i].1@),
    decreases s.len(),
{
    if s.len() > 0 {
        lemma_entries_view(s.subrange(0, s.len() - 1));
        assert(Value::entries_view(s) == Value::entries_view(s.subrange(0, s.len() - 1)).push(
            (s[s.len() - 1].0@, s[s.len() - 1].1.view()),
        ));
        assert(Value::entries_view(s).len() == s.len());
    } else {
        assert(Value::entries_view(s) =~= Value::entries_view(Seq::empty()));
    }
}

/// A dictionary's view is the elementwise view of its entries.
pub(crate) proof fn lemma_dict_view(d: &Dictionary)
    ensures
        d@ == Value::entries_view(d.entries@),
{
}

/// `Value::vals_view` is the elementwise view.
pub broadcast proof fn lemma_vals_view(s: Seq<Value>)
    ensures
        (#[trigger] Value::vals_view(s)).len() == s.len(),
        forall|i: int| 0 <= i < s.len() ==> Value::vals_view(s)[i] == s[i]@,
    decreases s.len(),
{
    if s.len() > 0 {
        lemma_vals_view(s.subrange(0, s.len() - 1));
        assert(Value::vals_view(s) == Value::vals_view(s.subrange(0, s.len() - 1)).push(
            s[s.len() - 1].view(),
        ));
        assert(Value::vals_view(s).len() == s.len());
    } else {
        assert(Value::vals_view(s) =~= Value::vals_view(Seq::empty()));
    }
}

/// The keys of an entry run, in order.
pub open spec fn dict_keys(s: Seq<(Seq<char>, ValueS)>) -> Seq<Seq<char>> {
    s.map_values(|e: (Seq<char>, ValueS)| e.0)
}

/// The value stored under a key: the first entry that carries it.
pub open spec fn dict_get(s: Seq<(Seq<char>, ValueS)>, key: Seq<char>) -> Option<ValueS>
    decreases s.len(),
{
    if s.len() == 0 {
        None
    } else if s[0].0 == key {
        Some(s[0].1)
    } else {
        dict_get(s.subrange(1, s.len() as int), key)
    }
}

/// The entry run after storing a value under a key: an entry already carrying
/// the key keeps its position and takes the new value; otherwise the new
/// entry goes to the end.
pub open spec fn dict_insert(s: Seq<(Seq<char>, ValueS)>, key: Seq<char>, v: ValueS) -> Seq<
    (Seq<char>, ValueS),
>
    decreases s.len(),
{
    if s.len() == 0 {
        seq![(key, v)]
    } else if s[0].0 == key {
        seq![(s[0].0, v)] + s.subrange(1, s.len() as int)
    } else {
        seq![s[0]] + dict_insert(s.subrange(1, s.len() as int), key, v)
    }
}

impl View for Dictionary {
    type V = Seq<(Seq<char>, ValueS)>;

    closed spec fn view(&self) -> Seq<(Seq<char>, ValueS)>
        decreases self,
    {
        Value::entries_view(self.entries@)
    }
}

impl Dictionary {
    /// Keys are unique.
    pub open spec fn wf(&self) -> bool {
        crate::typed::distinct_names(dict_keys(self@))
    }

    /// An empty dictionary.
    pub fn new() -> (d: Dictionary)
        ensures
            d@ == Seq::<(Seq<char>, ValueS)>::empty(),
            d.wf(),
    {
        let d = Dictionary { entries: Vec::new() };
        proof {
            assert(d@ =~= Seq::<(Seq<char>, ValueS)>::empty());
        }
        d
    }

    /// How many entries the dictionary holds.
    pub fn len(&self) -> (n: usize)
        ensures
            n == self@.len(),
    {
        proof {
            lemma_entries_view(self.entries@);
        }
        self.entries.len()
    }

    /// Store a value under a key: an entry already carrying the key keeps its
    /// position and takes the new value, otherwise the entry is appended, so
    /// iteration order remains insertion order.
    pub fn insert(&mut self, key: String, value: Value)
        ensures
            final(self)@ == dict_insert(old(self)@, key@, value@),
            old(self).wf() ==> final(self).wf(),
    {
        proof {
            lemma_entries_view(self.entries@);
        }
        let ghost oldview = self@;
        let mut i: usize = 0;
        let n = self.entries.len();
        loop
            invariant_except_break
                i <= n,
                n == self.entries.len(),
                self@ == oldview,
                oldview == Value::entries_view(self.entries@),
                forall|j: int| 0 <= j < i ==> oldview[j].0 != key@,
            ensures
                self@ == dict_insert(oldview, key@, value@),
            decreases n - i,
        {
            proof {
                lemma_entries_view(self.entries@);
            }
            if i >= n {
                let ghost oldentries = self.entries@;
                self.entries.push((key, value));
                proof {
                    lemma_entries_view(self.entries@);
                    assert(self.entries@ =~= oldentries.push((key, value)));
                    lemma_dict_insert_missing(oldview, key@, value@);
                    assert(self@ =~= oldview.push((key@, value@)));
                }
                break ;
            }
            let hit = self.entries[i].0 == key;
            if hit {
                let ghost oldentries = self.entries@;
                let prev = self.entries.remove(i);
                self.entries.insert(i, (prev.0, value));
                proof {
                    lemma_entries_view(self.entries@);
                    assert(self.entries@ =~= oldentries.update(i as int, (
                        oldentries[i as int].0,
                        value,
                    )));
                    lemma_dict_insert_found(oldview, key@, value@, i as int);
                    assert(self@ =~= oldview.update(i as int, (oldview[i as int].0, value@)));
                }
                break ;
            }
            i = i + 1;
        }
        proof {
            if old(self).wf() {
                lemma_dict_insert_keys(oldview, key@, value@);
            }
        }
    }

    /// The value stored under a key, if any.
    pub fn get(&self, key: &str) -> (r: Option<&Value>)
        ensures
            match r {
                Some(v) => dict_get(self@, key@) == Some(v@),
                None => dict_get(self@, key@) is None,
            },
    {
        proof {
            lemma_entries_view(self.entries@);
            assert(self@.subrange(0, self@.len() as int) =~= self@);
        }
        self.get_from(key, 0)
    }

    /// The value stored under a key, looking from the given entry on.
    fn get_from(&self, key: &str, i: usize) -> (r: Option<&Value>)
        requires
            i <= self.entries@.len(),
    ensures
            match r {
                Some(v) => dict_get(self@.subrange(i as int, self@.len() as int), key@) == Some(
                    v@,
                ),
                None => dict_get(self@.subrange(i as int, self@.len() as int), key@) is None,
            },
        decreases self.entries@.len() - i,
    {
        proof {
            lemma_entries_view(self.entries@);
            let sub = self@.subrange(i as int, self@.len() as int);
            if i < self.entries@.len() {
                assert(sub[0] == self@[i as int]);
                assert(sub.subrange(1, sub.len() as int) =~= self@.subrange(
                    i + 1,
                    self@.len() as int,
                ));
            }
        }
        if i >= self.entries.len() {
            None
        } else {
            let probe = String::from_str(key);
            let hit = self.entries[i].0 == probe;
            if hit {
                Some(&self.entries[i].1)
            } else {
                self.get_from(key, i + 1)
            }
        }
    }

    /// The entries, in insertion order.
    pub fn entries(&self) -> (r: &Vec<(String, Value)>)
        ensures
            Value::entries_view(r@) == self@,
    {
        &self.entries
    }
}

/// Storing an absent key appends the entry.
pub proof fn lemma_dict_insert_missing(s: Seq<(Seq<char>, ValueS)>, key: Seq<char>, v: ValueS)
    requires
        forall|j: int| 0 <= j < s.len() ==> s[j].0 != key,
    ensures
        dict_insert(s, key, v) == s.push((key, v)),
    decreases s.len(),
{
    if s.len() == 0 {
        assert(dict_insert(s, key, v) =~= s.push((key, v)));
    } else {
        let rest = s.subrange(1, s.len() as int);
        lemma_dict_insert_missing(rest, key, v);
        assert(seq![s[0]] + rest.push((key, v)) =~= s.push((key, v)));
    }
}

/// Storing a present key overwrites its value in place.
pub proof fn lemma_dict_insert_found(s: Seq<(Seq<char>, ValueS)>, key: Seq<char>, v: ValueS, i: int)
    requires
        0 <= i < s.len(),
        s[i].0 == key,
        forall|j: int| 0 <= j < i ==> s[j].0 != key,
    ensures
        dict_insert(s, key, v) == s.update(i, (s[i].0, v)),
    decreases i,
{
    let rest = s.subrange(1, s.len() as int);
    if i == 0 {
        assert(dict_insert(s, key, v) =~= s.update(0, (s[0].0, v)));
    } else {
        lemma_dict_insert_found(rest, key, v, i - 1);
        assert(seq![s[0]] + rest.update(i - 1, (rest[i - 1].0, v)) =~= s.update(
            i,
            (s[i].0, v),
        ));
    }
}

/// Storing a value never disturbs the order of keys, and never duplicates
/// one: the key list afterwards is the old list, plus the key at the end if
/// it was new.
pub proof fn lemma_dict_insert_keys(s: Seq<(Seq<char>, ValueS)>, key: Seq<char>, v: ValueS)
    requires
        crate::typed::distinct_names(dict_keys(s)),
    ensures
        crate::typed::distinct_names(dict_keys(dict_insert(s, key, v))),
        dict_keys(dict_insert(s, key, v)) == if (exists|j: int|
            0 <= j < s.len() && (#[trigger] s[j]).0 == key) {
            dict_keys(s)
        } else {
            dict_keys(s).push(key)
        },
    decreases s.len(),
{
    if exists|j: int| 0 <= j < s.len() && (#[trigger] s[j]).0 == key {
        let j = choose|j: int| 0 <= j < s.len() && (#[trigger] s[j]).0 == key;
        assert(forall|l: int| 0 <= l < j ==> s[l].0 != key) by {
            assert(forall|l: int|
                0 <= l < j ==> dict_keys(s)[l] != dict_keys(s)[j] && (#[trigger] s[l]).0
                    == dict_keys(s)[l]);
        }
        lemma_dict_insert_found(s, key, v, j);
        assert(dict_keys(s.update(j, (s[j].0, v))) =~= dict_keys(s));
    } else {
        assert(forall|j: int| 0 <= j < s.len() ==> (#[trigger] s[j]).0 != key);
        lemma_dict_insert_missing(s, key, v);
        assert(dict_keys(s.push((key, v))) =~= dict_keys(s).push(key));
    }
}

} // verus!
