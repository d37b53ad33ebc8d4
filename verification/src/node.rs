//! The declarative document's node tree: the library's own representation of
//! a declaration node, its entries (positional arguments and named
//! properties) and its nested children. The front end converts the concrete
//! markup into this shape before parsing.

use vstd::prelude::*;

verus! {

broadcast use vstd::std_specs::vec::group_vec_axioms;

use crate::strutil::str_eq;

/// A scalar value carried by an entry.
pub enum Value {
    Str(String),
    Int(i128),
    Bool(bool),
    Null,
}

/// One entry of a node: a positional argument when `name` is `None`, a named
/// property otherwise.
pub struct Entry {
    pub name: Option<String>,
    pub value: Value,
}

/// A declaration node: a name, its entries in document order, and its nested
/// child nodes.
pub struct Node {
    pub name: String,
    pub entries: Vec<Entry>,
    pub children: Vec<Node>,
}

/// Mathematical model of a [`Value`].
pub enum ValueV {
    Str(Seq<char>),
    Int(int),
    Bool(bool),
    Null,
}

/// Mathematical model of an [`Entry`].
pub struct EntryV {
    pub name: Option<Seq<char>>,
    pub value: ValueV,
}

/// Mathematical model of a [`Node`].
pub struct NodeV {
    pub name: Seq<char>,
    pub entries: Seq<EntryV>,
    pub children: Seq<NodeV>,
}

impl Value {
    pub open spec fn v(&self) -> ValueV {
        match self {
            Value::Str(s) => ValueV::Str(s@),
            Value::Int(i) => ValueV::Int(*i as int),
            Value::Bool(b) => ValueV::Bool(*b),
            Value::Null => ValueV::Null,
        }
    }

    pub fn as_string(&self) -> (r: Option<&String>)
        ensures
            match r {
                Some(s) => self.v() is Str && self.v()->Str_0 == s@,
                None => !(self.v() is Str),
            },
    {
        match self {
            Value::Str(s) => Some(s),
            _ => None,
        }
    }

    pub fn as_bool(&self) -> (r: Option<bool>)
        ensures
            match r {
                Some(b) => self.v() == ValueV::Bool(b),
                None => !(self.v() is Bool),
            },
    {
        match self {
            Value::Bool(b) => Some(*b),
            _ => None,
        }
    }

    pub fn as_integer(&self) -> (r: Option<i128>)
        ensures
            match r {
                Some(i) => self.v() == ValueV::Int(i as int),
                None => !(self.v() is Int),
            },
    {
        match self {
            Value::Int(i) => Some(*i),
            _ => None,
        }
    }
}

/// The string carried by the value, or the empty string when it is not a
/// string: the "unwrap or default" reading used all over the parser.
pub open spec fn spec_str_or_empty(v: ValueV) -> Seq<char> {
    match v {
        ValueV::Str(s) => s,
        _ => Seq::empty(),
    }
}

/// The boolean carried by the value, or `false` when it is not a boolean.
pub open spec fn spec_bool_or_false(v: ValueV) -> bool {
    match v {
        ValueV::Bool(b) => b,
        _ => false,
    }
}

impl Value {
    pub fn str_or_empty(&self) -> (r: String)
        ensures
            r@ == spec_str_or_empty(self.v()),
    {
        match self {
            Value::Str(s) => s.clone(),
            _ => String::new(),
        }
    }

    pub fn bool_or_false(&self) -> (r: bool)
        ensures
            r == spec_bool_or_false(self.v()),
    {
        match self {
            Value::Bool(b) => *b,
            _ => false,
        }
    }
}

impl Entry {
    pub open spec fn v(&self) -> EntryV {
        EntryV {
            name: match &self.name {
                Some(n) => Some(n@),
                None => None,
            },
            value: self.value.v(),
        }
    }
}

/// The entries of a sequence of exec entries, as models.
pub open spec fn entries_v(es: Seq<Entry>) -> Seq<EntryV> {
    Seq::new(es.len(), |i: int| es[i].v())
}

impl Node {
    pub open spec fn v(&self) -> NodeV
        decreases *self,
    {
        NodeV {
            name: self.name@,
            entries: entries_v(self.entries@),
            children: nodes_v_of(self.children@),
        }
    }
}

/// The models of a sequence of exec nodes.
pub open spec fn nodes_v_of(ns: Seq<Node>) -> Seq<NodeV>
    decreases ns,
{
    if ns.len() == 0 {
        Seq::empty()
    } else {
        seq![ns[0].v()] + nodes_v_of(ns.drop_first())
    }
}

pub broadcast proof fn lemma_nodes_v_of_index(ns: Seq<Node>, i: int)
    requires
        0 <= i < ns.len(),
    ensures
        nodes_v_of(ns).len() == ns.len(),
        #[trigger] nodes_v_of(ns)[i] == ns[i].v(),
    decreases ns.len(),
{
    lemma_nodes_v_of_len(ns);
    if i > 0 {
        lemma_nodes_v_of_index(ns.drop_first(), i - 1);
    }
}

pub proof fn lemma_nodes_v_of_len(ns: Seq<Node>)
    ensures
        nodes_v_of(ns).len() == ns.len(),
    decreases ns.len(),
{
    if ns.len() > 0 {
        lemma_nodes_v_of_len(ns.drop_first());
    }
}

/// The first positional value of a sequence of entries, if any.
pub open spec fn spec_first_arg(es: Seq<EntryV>) -> Option<ValueV>
    decreases es.len(),
{
    if es.len() == 0 {
        None
    } else if es[0].name is None {
        Some(es[0].value)
    } else {
        spec_first_arg(es.drop_first())
    }
}

/// The value of the last property with the given name, if any.
pub open spec fn spec_prop(es: Seq<EntryV>, key: Seq<char>) -> Option<ValueV>
    decreases es.len(),
{
    if es.len() == 0 {
        None
    } else {
        let rest = spec_prop(es.drop_last(), key);
        if es.last().name == Some(key) {
            Some(es.last().value)
        } else {
            rest
        }
    }
}

impl Node {
    fn first_arg_from(&self, i: usize) -> (r: Option<&Value>)
        requires
            i <= self.entries@.len(),
        ensures
            match r {
                Some(v) => spec_first_arg(self.v().entries.skip(i as int)) == Some(v.v()),
                None => spec_first_arg(self.v().entries.skip(i as int)) is None,
            },
        decreases self.entries@.len() - i,
    {
        proof {
            assert(self.v().entries.len() == self.entries@.len());
        }
        if i == self.entries.len() {
            proof {
                assert(self.v().entries.skip(i as int).len() == 0);
            }
            None
        } else {
            proof {
                let tail = self.v().entries.skip(i as int);
                assert(tail[0] == self.v().entries[i as int]);
                assert(self.v().entries[i as int] == self.entries@[i as int].v());
                assert(tail.drop_first() =~= self.v().entries.skip(i as int + 1));
            }
            let e = &self.entries[i];
            match &e.name {
                None => Some(&e.value),
                Some(_) => self.first_arg_from(i + 1),
            }
        }
    }

    /// The first positional value, mirroring [`spec_first_arg`].
    pub fn first_arg(&self) -> (r: Option<&Value>)
        ensures
            match r {
                Some(v) => spec_first_arg(self.v().entries) == Some(v.v()),
                None => spec_first_arg(self.v().entries) is None,
            },
    {
        let r = self.first_arg_from(0);
        proof {
            assert(self.v().entries.skip(0) =~= self.v().entries);
        }
        r
    }

    /// The value of the last property named `key`, mirroring [`spec_prop`].
    pub fn prop(&self, key: &str) -> (r: Option<&Value>)
        ensures
            match r {
                Some(v) => spec_prop(self.v().entries, key@) == Some(v.v()),
                None => spec_prop(self.v().entries, key@) is None,
            },
    {
        let n: usize = self.entries.len();
        let mut found: Option<&Value> = None;
        let mut i: usize = 0;
        proof {
            assert(self.v().entries.take(0) =~= Seq::<EntryV>::empty());
        }
        while i < n
            invariant
                n == self.entries@.len(),
                self.v().entries.len() == n,
                0 <= i <= n,
                match found {
                    Some(v) => spec_prop(self.v().entries.take(i as int), key@) == Some(v.v()),
                    None => spec_prop(self.v().entries.take(i as int), key@) is None,
                },
            decreases n - i,
        {
            proof {
                let pre = self.v().entries.take(i as int + 1);
                assert(pre.drop_last() =~= self.v().entries.take(i as int));
                assert(pre.last() == self.v().entries[i as int]);
                assert(self.v().entries[i as int] == self.entries@[i as int].v());
            }
            let e = &self.entries[i];
            match &e.name {
                Some(en) => {
                    if str_eq(en.as_str(), key) {
                        found = Some(&e.value);
                    }
                }
                None => {}
            }
            i = i + 1;
        }
        proof {
            assert(self.v().entries.take(n as int) =~= self.v().entries);
        }
        found
    }
}

} // verus!
