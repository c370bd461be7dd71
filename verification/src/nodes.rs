use vstd::prelude::*;
use ordered_hash_map::OrderedHashMap;
use crate::decimal::{decimal, usize_to_decimal, u64_to_decimal};
use crate::editor::SerdeConnection;
use crate::node_constants::{constant_entries, constant_of, constant_view, NodeConstant, edited, NodeConstantContent, NodeConstantMessage, NodeConstantMessageContent, NodeConstantStorage, NodeConstantView};

verus! {

/// The insertion-ordered map of `ordered_hash_map` that holds the ports and
/// the constants of a node; opaque here, read through the contents named
/// below.
#[verifier::external_type_specification]
#[verifier::external_body]
#[verifier::reject_recursive_types(K)]
#[verifier::reject_recursive_types(V)]
#[verifier::reject_recursive_types(S)]
pub struct ExOrderedHashMap<K, V, S>(OrderedHashMap<K, V, S>);

/// The default hasher of that map, which its type names; opaque here.
#[verifier::external_type_specification]
#[verifier::external_body]
pub struct ExDefaultHashBuilder(ordered_hash_map::ordered_map::DefaultHashBuilder);

/// Why an edit of the node graph was refused.
#[derive(Clone, Debug)]
pub enum NodeError {
    NoInput(String),
    NoOutput(String),
    SameNodeLink,
    NodeIndexError(usize),
    /// The content type codes of the output and of the input.
    IncompatiblePorts(u32, u32),
    IncompatibleConstants,
    MissingConstant(String),
}

/// The message of an error; the content types of ports are named by their codes.
pub open spec fn error_text(e: NodeError) -> Seq<char> {
    match e {
        NodeError::NoInput(x) => "No such input "@ + x@,
        NodeError::NoOutput(x) => "No such output "@ + x@,
        NodeError::SameNodeLink => "Cannot link to same node"@,
        NodeError::NodeIndexError(i) => "No such node with index "@ + decimal(i as nat),
        NodeError::IncompatiblePorts(a, b) => "Incompatible port types: "@ + decimal(a as nat) + " and "@ + decimal(b as nat),
        NodeError::IncompatibleConstants => "Incompatible constants"@,
        NodeError::MissingConstant(x) => "No constant named "@ + x@,
    }
}

impl NodeError {
    /// The message of the error.
    pub fn to_display_string(&self) -> (r: String)
        ensures
            r@ == error_text(*self),
    {
        match self {
            NodeError::NoInput(x) => {
                let mut r = String::from_str("No such input ");
                r.append(x.as_str());
                r
            },
            NodeError::NoOutput(x) => {
                let mut r = String::from_str("No such output ");
                r.append(x.as_str());
                r
            },
            NodeError::SameNodeLink => String::from_str("Cannot link to same node"),
            NodeError::NodeIndexError(i) => {
                let mut r = String::from_str("No such node with index ");
                let d = usize_to_decimal(*i);
                r.append(d.as_str());
                r
            },
            NodeError::IncompatiblePorts(a, b) => {
                let mut r = String::from_str("Incompatible port types: ");
                let da = u64_to_decimal(*a as u64);
                r.append(da.as_str());
                r.append(" and ");
                let db = u64_to_decimal(*b as u64);
                r.append(db.as_str());
                r
            },
            NodeError::IncompatibleConstants => String::from_str("Incompatible constants"),
            NodeError::MissingConstant(x) => {
                let mut r = String::from_str("No constant named ");
                r.append(x.as_str());
                r
            },
        }
    }
}

/// An output port: the code of the content type it gives.
#[derive(Clone, Copy, Debug)]
pub struct OutputDefinition {
    pub port_type: u32,
}

/// A link into an input port: the node it comes from, by identity, and
/// that node's output port.
#[derive(Clone, Debug)]
pub struct Connection {
    pub node: u64,
    pub port: String,
}

/// An input port: the code of the content type it takes, and its link.
#[derive(Clone, Debug)]
pub struct InputDefinition {
    pub port_type: u32,
    pub connection: Option<Connection>,
}

/// A link as plain values: source node and output port.
pub open spec fn conn_view(c: Option<Connection>) -> Option<(u64, Seq<char>)> {
    match c {
        Some(x) => Some((x.node, x.port@)),
        None => None,
    }
}

/// An input port as plain values.
pub open spec fn input_view(d: InputDefinition) -> (u32, Option<(u64, Seq<char>)>) {
    (d.port_type, conn_view(d.connection))
}

/// The entries of a node's input map, in insertion order: port name, type
/// code and link.
pub uninterp spec fn input_entries(m: OrderedHashMap<String, InputDefinition>) -> Seq<(Seq<char>, (u32, Option<(u64, Seq<char>)>))>;

/// The entries of a node's output map, in insertion order: port name and
/// type code.
pub uninterp spec fn output_entries(m: OrderedHashMap<String, OutputDefinition>) -> Seq<(Seq<char>, u32)>;

/// Some entry of `e` has key `k`.
pub open spec fn has_key<V>(e: Seq<(Seq<char>, V)>, k: Seq<char>) -> bool {
    exists|i: int| 0 <= i < e.len() && #[trigger] e[i].0 == k
}

/// No two entries of `e` have the same key.
pub open spec fn keys_distinct<V>(e: Seq<(Seq<char>, V)>) -> bool {
    forall|i: int, j: int| 0 <= i < j < e.len() ==> #[trigger] e[i].0 != #[trigger] e[j].0
}

/// The entry does not have key `k`.
pub open spec fn key_is_not<V>(k: Seq<char>) -> spec_fn((Seq<char>, V)) -> bool {
    |x: (Seq<char>, V)| x.0 != k
}

/// The entries after `k` is inserted with `v`: an entry with key `k` is
/// dropped, and `(k, v)` comes last.
pub open spec fn inserted<V>(e: Seq<(Seq<char>, V)>, k: Seq<char>, v: V) -> Seq<(Seq<char>, V)> {
    e.filter(key_is_not(k)).push((k, v))
}

/// The entries after the value of key `k` is replaced by `v` in place.
pub open spec fn replaced<V>(e: Seq<(Seq<char>, V)>, k: Seq<char>, v: V) -> Seq<(Seq<char>, V)> {
    e.map_values(|x: (Seq<char>, V)| if x.0 == k { (k, v) } else { x })
}

/// Dropping the entries of a key that is not there keeps every entry.
proof fn lemma_filter_keeps_all<V>(e: Seq<(Seq<char>, V)>, k: Seq<char>)
    requires
        !has_key(e, k),
    ensures
        e.filter(key_is_not(k)) == e,
    decreases e.len(),
{
    reveal(Seq::filter);
    if e.len() > 0 {
        assert(!has_key(e.drop_last(), k)) by {
            if has_key(e.drop_last(), k) {
                let i = choose|i: int| 0 <= i < e.drop_last().len() && #[trigger] e.drop_last()[i].0 == k;
                assert(e[i].0 == k);
            }
        }
        lemma_filter_keeps_all(e.drop_last(), k);
        assert(e.last().0 != k) by {
            assert(e[e.len() - 1].0 != k);
        }
        let p = key_is_not::<V>(k);
        assert(p(e.last()));
        assert(e.filter(p) == e.drop_last().filter(p).push(e.last()));
        assert(e.drop_last().push(e.last()) =~= e);
    }
}

/// Inserting a key that is not there appends it.
pub proof fn lemma_insert_new_key<V>(e: Seq<(Seq<char>, V)>, k: Seq<char>, v: V)
    requires
        !has_key(e, k),
    ensures
        inserted(e, k, v) == e.push((k, v)),
{
    lemma_filter_keeps_all(e, k);
}

/// Inserting key `k` with value `v` into a map's entries, whether the key
/// is there or not, puts `(k, v)` last and leaves no other entry of `k`,
/// while every entry of another key stays, and nothing else comes in; keys
/// that were distinct stay distinct.
pub proof fn lemma_insert_any_key<V>(e: Seq<(Seq<char>, V)>, k: Seq<char>, v: V)
    ensures
        inserted(e, k, v).last() == (k, v),
        forall|i: int| 0 <= i < inserted(e, k, v).len() - 1 ==> (#[trigger] inserted(e, k, v)[i]).0 != k,
        forall|x: (Seq<char>, V)| x.0 != k ==> (#[trigger] inserted(e, k, v).contains(x) <==> e.contains(x)),
        keys_distinct(e) ==> keys_distinct(inserted(e, k, v)),
{
    let f = e.filter(key_is_not(k));
    let r = inserted(e, k, v);
    assert forall|i: int| 0 <= i < r.len() - 1 implies (#[trigger] r[i]).0 != k by {
        e.lemma_filter_pred(key_is_not(k), i);
        assert(r[i] == f[i]);
    }
    assert forall|x: (Seq<char>, V)| x.0 != k implies (#[trigger] r.contains(x) <==> e.contains(x)) by {
        if r.contains(x) {
            let i = choose|i: int| 0 <= i < r.len() && r[i] == x;
            assert(i < r.len() - 1);
            assert(f.contains(x)) by {
                assert(f[i] == x);
            }
            e.lemma_filter_contains_rev(key_is_not(k), x);
        }
        if e.contains(x) {
            let i = choose|i: int| 0 <= i < e.len() && e[i] == x;
            e.lemma_filter_contains(key_is_not(k), i);
            let j = choose|j: int| 0 <= j < f.len() && f[j] == x;
            assert(r[j] == x);
        }
    }
    if keys_distinct(e) {
        assert forall|i: int, j: int| 0 <= i < j < r.len() implies #[trigger] r[i].0 != #[trigger] r[j].0 by {
            if j == r.len() - 1 {
                e.lemma_filter_pred(key_is_not(k), i);
                assert(r[i] == f[i]);
            } else {
                lemma_filter_distinct(e, k, i, j);
                assert(r[i] == f[i] && r[j] == f[j]);
            }
        }
    }
}

/// Replacing the value of key `k` keeps every entry in its place with its
/// key, gives the entries of `k` the new value, and leaves every other entry
/// as it was.
pub proof fn lemma_replace_in_place<V>(e: Seq<(Seq<char>, V)>, k: Seq<char>, v: V)
    ensures
        replaced(e, k, v).len() == e.len(),
        forall|i: int| 0 <= i < e.len() ==> (#[trigger] replaced(e, k, v)[i]).0 == e[i].0,
        forall|i: int| 0 <= i < e.len() && e[i].0 == k ==> (#[trigger] replaced(e, k, v)[i]).1 == v,
        forall|i: int| 0 <= i < e.len() && e[i].0 != k ==> #[trigger] replaced(e, k, v)[i] == e[i],
{
}

/// Filtering out one key keeps the other keys distinct.
proof fn lemma_filter_distinct<V>(e: Seq<(Seq<char>, V)>, k: Seq<char>, i: int, j: int)
    requires
        keys_distinct(e),
        0 <= i < j < e.filter(key_is_not(k)).len(),
    ensures
        e.filter(key_is_not(k))[i].0 != e.filter(key_is_not(k))[j].0,
    decreases e.len(),
{
    reveal(Seq::filter);
    let f = e.filter(key_is_not(k));
    if e.len() > 0 {
        let d = e.drop_last();
        let fd = d.filter(key_is_not(k));
        assert(keys_distinct(d)) by {
            assert forall|a: int, b: int| 0 <= a < b < d.len() implies #[trigger] d[a].0 != #[trigger] d[b].0 by {
                assert(e[a] == d[a] && e[b] == d[b]);
            }
        }
        if key_is_not::<V>(k)(e.last()) {
            if j == f.len() - 1 {
                assert(f[j] == e.last());
                assert(f[i] == fd[i]);
                d.lemma_filter_contains_rev(key_is_not(k), fd[i]);
                let a = choose|a: int| 0 <= a < d.len() && d[a] == fd[i];
                assert(e[a] == d[a]);
            } else {
                assert(f[i] == fd[i] && f[j] == fd[j]);
                lemma_filter_distinct(d, k, i, j);
            }
        } else {
            assert(f == fd);
            lemma_filter_distinct(d, k, i, j);
        }
    }
}

/// With distinct keys, replacing the value of the key at place `i` changes
/// that entry alone.
proof fn lemma_replace_at<V>(s: Seq<(Seq<char>, V)>, i: int, v: V)
    requires
        0 <= i < s.len(),
        keys_distinct(s),
    ensures
        replaced(s, s[i].0, v) == s.update(i, (s[i].0, v)),
{
    assert forall|j: int| 0 <= j < s.len() && j != i implies s[j].0 != s[i].0 by {
        if j < i {
            assert(s[j].0 != s[i].0);
        } else {
            assert(s[i].0 != s[j].0);
        }
    }
    assert(replaced(s, s[i].0, v) =~= s.update(i, (s[i].0, v)));
}

/// The input entries after input `input_port` is linked to output
/// `output_port` of node `source`, whose type there is `source_output`:
/// changed only where the input exists and the types agree.
pub open spec fn link_target(
    e: Seq<(Seq<char>, (u32, Option<(u64, Seq<char>)>))>,
    input_port: Seq<char>,
    source: u64,
    source_output: Option<u32>,
    output_port: Seq<char>,
) -> Seq<(Seq<char>, (u32, Option<(u64, Seq<char>)>))> {
    match input_of(e, input_port) {
        Some(d) => match source_output {
            Some(t) => if t == d.0 {
                replaced(e, input_port, (d.0, Some((source, output_port))))
            } else {
                e
            },
            None => e,
        },
        None => e,
    }
}

/// What linking answers: a missing input, then a missing output, then
/// types that differ, are refused in that order.
pub open spec fn link_result(
    r: Result<(), NodeError>,
    e: Seq<(Seq<char>, (u32, Option<(u64, Seq<char>)>))>,
    input_port: Seq<char>,
    source_output: Option<u32>,
    output_port: Seq<char>,
) -> bool {
    match input_of(e, input_port) {
        None => r matches Err(NodeError::NoInput(n)) && n@ == input_port,
        Some(d) => match source_output {
            None => r matches Err(NodeError::NoOutput(n)) && n@ == output_port,
            Some(t) => if t == d.0 {
                r is Ok
            } else {
                r matches Err(NodeError::IncompatiblePorts(a, b)) && a == t && b == d.0
            },
        },
    }
}

/// An input entry with its link dropped.
pub open spec fn unlinked(x: (Seq<char>, (u32, Option<(u64, Seq<char>)>))) -> (Seq<char>, (u32, Option<(u64, Seq<char>)>)) {
    (x.0, (x.1.0, None))
}

/// The input entries with the links from output `port` of node `source` dropped.
pub open spec fn unlinked_from(
    e: Seq<(Seq<char>, (u32, Option<(u64, Seq<char>)>))>,
    source: u64,
    port: Seq<char>,
) -> Seq<(Seq<char>, (u32, Option<(u64, Seq<char>)>))> {
    e.map_values(|x: (Seq<char>, (u32, Option<(u64, Seq<char>)>))| if x.1.1 == Some((source, port)) { unlinked(x) } else { x })
}

/// The input entries with the links from nodes not in `live` dropped.
pub open spec fn dead_dropped(
    e: Seq<(Seq<char>, (u32, Option<(u64, Seq<char>)>))>,
    live: Seq<u64>,
) -> Seq<(Seq<char>, (u32, Option<(u64, Seq<char>)>))> {
    e.map_values(|x: (Seq<char>, (u32, Option<(u64, Seq<char>)>))| match x.1.1 {
        Some(c) => if live.contains(c.0) { x } else { unlinked(x) },
        None => x,
    })
}

/// `OrderedHashMap::new`: the map holds no entry.
#[verifier::external_body]
fn new_input_map() -> (r: OrderedHashMap<String, InputDefinition>)
    ensures
        input_entries(r) == Seq::<(Seq<char>, (u32, Option<(u64, Seq<char>)>))>::empty(),
{
    OrderedHashMap::new()
}

/// `OrderedHashMap::new`: the map holds no entry.
#[verifier::external_body]
fn new_output_map() -> (r: OrderedHashMap<String, OutputDefinition>)
    ensures
        output_entries(r) == Seq::<(Seq<char>, u32)>::empty(),
{
    OrderedHashMap::new()
}

/// `OrderedHashMap::insert`: a new key is put last; a key already there
/// takes the new value and moves to the end.
#[verifier::external_body]
fn insert_input(m: &mut OrderedHashMap<String, InputDefinition>, key: String, value: InputDefinition)
    ensures
        input_entries(*final(m)) == inserted(input_entries(*old(m)), key@, input_view(value)),
{
    m.insert(key, value);
}

/// `OrderedHashMap::insert`: a new key is put last; a key already there
/// takes the new value and moves to the end.
#[verifier::external_body]
fn insert_output(m: &mut OrderedHashMap<String, OutputDefinition>, key: String, value: OutputDefinition)
    ensures
        output_entries(*final(m)) == inserted(output_entries(*old(m)), key@, value.port_type),
{
    m.insert(key, value);
}

/// `OrderedHashMap::get_mut`, writing `value` over the value found: the
/// entry keeps its place. Gives whether the key was there.
#[verifier::external_body]
fn set_input(m: &mut OrderedHashMap<String, InputDefinition>, key: &str, value: InputDefinition) -> (r: bool)
    ensures
        r == has_key(input_entries(*old(m)), key@),
        input_entries(*final(m)) == replaced(input_entries(*old(m)), key@, input_view(value)),
{
    match m.get_mut(key) {
        Some(slot) => {
            *slot = value;
            true
        },
        None => false,
    }
}

/// `OrderedHashMap::iter`, each entry copied, in insertion order; the keys
/// of a map are distinct.
#[verifier::external_body]
fn input_list(m: &OrderedHashMap<String, InputDefinition>) -> (r: Vec<(String, InputDefinition)>)
    ensures
        r@.map_values(|e: (String, InputDefinition)| (e.0@, input_view(e.1))) == input_entries(*m),
        forall|i: int, j: int| 0 <= i < j < r@.len() ==> #[trigger] r@[i].0@ != #[trigger] r@[j].0@,
{
    m.iter().map(|(k, v)| (k.clone(), v.clone())).collect()
}

/// `OrderedHashMap::iter`, each entry copied, in insertion order; the keys
/// of a map are distinct.
#[verifier::external_body]
fn output_list(m: &OrderedHashMap<String, OutputDefinition>) -> (r: Vec<(String, OutputDefinition)>)
    ensures
        r@.map_values(|e: (String, OutputDefinition)| (e.0@, e.1.port_type)) == output_entries(*m),
        forall|i: int, j: int| 0 <= i < j < r@.len() ==> #[trigger] r@[i].0@ != #[trigger] r@[j].0@,
{
    m.iter().map(|(k, v)| (k.clone(), *v)).collect()
}


/// The entries of the inputs of `n`.
pub open spec fn ins(n: GraphNode) -> Seq<(Seq<char>, (u32, Option<(u64, Seq<char>)>))> {
    input_entries(n.inputs)
}

/// The entries of the outputs of `n`.
pub open spec fn outs(n: GraphNode) -> Seq<(Seq<char>, u32)> {
    output_entries(n.outputs)
}

/// The type code of output port `k`, if there is such a port.
pub open spec fn port_type_of(e: Seq<(Seq<char>, u32)>, k: Seq<char>) -> Option<u32> {
    if has_key(e, k) {
        Some(e[choose|i: int| 0 <= i < e.len() && #[trigger] e[i].0 == k].1)
    } else {
        None
    }
}

/// The entry of input port `k`, if there is such a port.
pub open spec fn input_of(e: Seq<(Seq<char>, (u32, Option<(u64, Seq<char>)>))>, k: Seq<char>) -> Option<(u32, Option<(u64, Seq<char>)>)> {
    if has_key(e, k) {
        Some(e[choose|i: int| 0 <= i < e.len() && #[trigger] e[i].0 == k].1)
    } else {
        None
    }
}

/// A node of the graph editor, apart from its place and size on the
/// canvas, which the caller keeps beside it: its identity, its title, the
/// kind of node it stands for, its ports and its constants.
pub struct GraphNode {
    pub id: u64,
    pub title: String,
    pub identifier: String,
    pub inputs: OrderedHashMap<String, InputDefinition>,
    pub outputs: OrderedHashMap<String, OutputDefinition>,
    pub constants: NodeConstantStorage,
}

/// Whether `x` is one of `v`.
fn contains_id(v: &Vec<u64>, x: u64) -> (r: bool)
    ensures
        r == v@.contains(x),
{
    let mut i: usize = 0;
    while i < v.len()
        invariant
            i <= v@.len(),
            forall|j: int| 0 <= j < i ==> v@[j] != x,
        decreases v@.len() - i,
    {
        if v[i] == x {
            return true;
        }
        i = i + 1;
    }
    false
}

/// Finds the entry of key `k` in a list of copied entries with distinct keys.
pub(crate) fn find_entry<V>(l: &Vec<(String, V)>, k: &str) -> (r: Option<usize>)
    ensures
        match r {
            Some(i) => i < l@.len() && l@[i as int].0@ == k@,
            None => forall|i: int| 0 <= i < l@.len() ==> l@[i].0@ != k@,
        },
{
    let key = k.to_owned();
    let mut i: usize = 0;
    while i < l.len()
        invariant
            i <= l@.len(),
            key@ == k@,
            forall|j: int| 0 <= j < i ==> l@[j].0@ != k@,
        decreases l@.len() - i,
    {
        if l[i].0 == key {
            return Some(i);
        }
        i = i + 1;
    }
    None
}

impl GraphNode {
    /// A node with no port, titled `title`, standing for the node kind
    /// `identifier`; its identity is given when it is stored.
    pub fn new(title: String, identifier: String) -> (r: Self)
        ensures
            r.id == 0,
            r.title == title,
            r.identifier == identifier,
            ins(r) == Seq::<(Seq<char>, (u32, Option<(u64, Seq<char>)>))>::empty(),
            outs(r) == Seq::<(Seq<char>, u32)>::empty(),
            r.constants.wf(),
            constant_entries(r.constants.constants) == Seq::<(Seq<char>, NodeConstantView)>::empty(),
    {
        GraphNode {
            id: 0,
            title,
            identifier,
            inputs: new_input_map(),
            outputs: new_output_map(),
            constants: NodeConstantStorage::new(),
        }
    }

    /// Adds an unlinked input port, or resets the port of that name.
    pub fn add_input(&mut self, name: &str, port_type: u32)
        ensures
            ins(*final(self)) == inserted(ins(*old(self)), name@, (port_type, None::<(u64, Seq<char>)>)),
            outs(*final(self)) == outs(*old(self)),
            final(self).id == old(self).id,
            final(self).title == old(self).title,
            final(self).identifier == old(self).identifier,
            final(self).constants == old(self).constants,
    {
        insert_input(&mut self.inputs, name.to_owned(), InputDefinition { port_type, connection: None });
    }

    /// Adds an output port, or retypes the port of that name.
    pub fn add_output(&mut self, name: &str, port_type: u32)
        ensures
            outs(*final(self)) == inserted(outs(*old(self)), name@, port_type),
            ins(*final(self)) == ins(*old(self)),
            final(self).id == old(self).id,
            final(self).title == old(self).title,
            final(self).identifier == old(self).identifier,
            final(self).constants == old(self).constants,
    {
        insert_output(&mut self.outputs, name.to_owned(), OutputDefinition { port_type });
    }

    /// The type code of output port `name`, if the node has it.
    pub fn output_type(&self, name: &str) -> (r: Option<u32>)
        ensures
            r == port_type_of(outs(*self), name@),
    {
        let l = output_list(&self.outputs);
        proof {
            let e = outs(*self);
            assert(e.len() == l@.len());
            assert forall|i: int| 0 <= i < e.len() implies #[trigger] e[i] == (l@[i].0@, l@[i].1.port_type) by {}
        }
        match find_entry(&l, name) {
            Some(i) => {
                proof {
                    let e = outs(*self);
                    assert(e[i as int].0 == name@);
                    let c = choose|j: int| 0 <= j < e.len() && #[trigger] e[j].0 == name@;
                    if c != i {
                        if c < i {
                            assert(l@[c].0@ != l@[i as int].0@);
                        } else {
                            assert(l@[i as int].0@ != l@[c].0@);
                        }
                    }
                }
                Some(l[i].1.port_type)
            },
            None => {
                proof {
                    let e = outs(*self);
                    if has_key(e, name@) {
                        let c = choose|j: int| 0 <= j < e.len() && #[trigger] e[j].0 == name@;
                        assert(l@[c].0@ == name@);
                    }
                }
                None
            },
        }
    }

    /// Drops the link into input port `input_port`.
    pub fn unlink(&mut self, input_port: &str) -> (r: Result<(), NodeError>)
        ensures
            final(self).id == old(self).id,
            final(self).title == old(self).title,
            final(self).identifier == old(self).identifier,
            final(self).constants == old(self).constants,
            outs(*final(self)) == outs(*old(self)),
            match input_of(ins(*old(self)), input_port@) {
                Some(d) => r is Ok && ins(*final(self)) == replaced(
                    ins(*old(self)),
                    input_port@,
                    (d.0, None::<(u64, Seq<char>)>),
                ),
                None => r matches Err(NodeError::NoInput(n)) && n@ == input_port@ && ins(*final(self)) == ins(*old(self)),
            },
    {
        match self.input(input_port) {
            Some(d) => {
                set_input(&mut self.inputs, input_port, InputDefinition { port_type: d.port_type, connection: None });
                Ok(())
            },
            None => Err(NodeError::NoInput(input_port.to_owned())),
        }
    }

    /// Links input port `input_port` to output port `output_port` of node
    /// `source`, whose type there is `source_output` (none where the source
    /// has no such port). The input must exist, the output too, and their
    /// types must agree.
    pub fn link_from(&mut self, input_port: &str, source: u64, source_output: Option<u32>, output_port: &str) -> (r: Result<(), NodeError>)
        ensures
            final(self).id == old(self).id,
            final(self).title == old(self).title,
            final(self).identifier == old(self).identifier,
            final(self).constants == old(self).constants,
            outs(*final(self)) == outs(*old(self)),
            ins(*final(self)) == link_target(ins(*old(self)), input_port@, source, source_output, output_port@),
            link_result(r, ins(*old(self)), input_port@, source_output, output_port@),
    {
        match self.input(input_port) {
            None => Err(NodeError::NoInput(input_port.to_owned())),
            Some(d) => match source_output {
                None => Err(NodeError::NoOutput(output_port.to_owned())),
                Some(t) => {
                    if t == d.port_type {
                        let conn = Connection { node: source, port: output_port.to_owned() };
                        set_input(&mut self.inputs, input_port, InputDefinition { port_type: d.port_type, connection: Some(conn) });
                        Ok(())
                    } else {
                        Err(NodeError::IncompatiblePorts(t, d.port_type))
                    }
                },
            },
        }
    }

    /// Drops every link into this node that comes from output port
    /// `output_port` of node `source`.
    pub fn unlink_from(&mut self, source: u64, output_port: &str)
        ensures
            final(self).id == old(self).id,
            final(self).title == old(self).title,
            final(self).identifier == old(self).identifier,
            final(self).constants == old(self).constants,
            outs(*final(self)) == outs(*old(self)),
            ins(*final(self)) == unlinked_from(ins(*old(self)), source, output_port@),
    {
        let ghost e = ins(*self);
        let l = input_list(&self.inputs);
        let port = output_port.to_owned();
        let n = l.len();
        proof {
            assert(e.len() == l@.len());
            assert forall|i: int| 0 <= i < e.len() implies #[trigger] e[i] == (l@[i].0@, input_view(l@[i].1)) by {}
        }
        let mut i: usize = 0;
        while i < n
            invariant
                n == l@.len(),
                n == e.len(),
                i <= n,
                port@ == output_port@,
                forall|j: int| 0 <= j < e.len() ==> #[trigger] e[j] == (l@[j].0@, input_view(l@[j].1)),
                forall|a: int, b: int| 0 <= a < b < l@.len() ==> #[trigger] l@[a].0@ != #[trigger] l@[b].0@,
                ins(*self).len() == e.len(),
                forall|j: int| 0 <= j < i ==> #[trigger] ins(*self)[j] == unlinked_from(e, source, output_port@)[j],
                forall|j: int| i <= j < e.len() ==> #[trigger] ins(*self)[j] == e[j],
                self.id == old(self).id,
                self.title == old(self).title,
                self.identifier == old(self).identifier,
                self.constants == old(self).constants,
                outs(*self) == outs(*old(self)),
            decreases n - i,
        {
            let d = &l[i].1;
            let hit = match &d.connection {
                Some(c) => c.node == source && c.port == port,
                None => false,
            };
            if hit {
                let ghost cur = ins(*self);
                proof {
                    assert forall|a: int, b: int| 0 <= a < b < cur.len() implies #[trigger] cur[a].0 != #[trigger] cur[b].0 by {
                        assert(cur[a].0 == e[a].0 && cur[b].0 == e[b].0);
                        assert(l@[a].0@ != l@[b].0@);
                    }
                    assert(cur[i as int].0 == l@[i as int].0@);
                    lemma_replace_at(cur, i as int, (d.port_type, None::<(u64, Seq<char>)>));
                }
                set_input(&mut self.inputs, l[i].0.as_str(), InputDefinition { port_type: d.port_type, connection: None });
            }
            i = i + 1;
        }
        proof {
            assert(ins(*self) =~= unlinked_from(e, source, output_port@));
        }
    }

    /// Drops every link into this node from a node that is not in `live`.
    pub fn remove_dead_connections(&mut self, live: &Vec<u64>)
        ensures
            final(self).id == old(self).id,
            final(self).title == old(self).title,
            final(self).identifier == old(self).identifier,
            final(self).constants == old(self).constants,
            outs(*final(self)) == outs(*old(self)),
            ins(*final(self)) == dead_dropped(ins(*old(self)), live@),
    {
        let ghost e = ins(*self);
        let l = input_list(&self.inputs);
        let n = l.len();
        proof {
            assert(e.len() == l@.len());
            assert forall|i: int| 0 <= i < e.len() implies #[trigger] e[i] == (l@[i].0@, input_view(l@[i].1)) by {}
        }
        let mut i: usize = 0;
        while i < n
            invariant
                n == l@.len(),
                n == e.len(),
                i <= n,
                forall|j: int| 0 <= j < e.len() ==> #[trigger] e[j] == (l@[j].0@, input_view(l@[j].1)),
                forall|a: int, b: int| 0 <= a < b < l@.len() ==> #[trigger] l@[a].0@ != #[trigger] l@[b].0@,
                ins(*self).len() == e.len(),
                forall|j: int| 0 <= j < i ==> #[trigger] ins(*self)[j] == dead_dropped(e, live@)[j],
                forall|j: int| i <= j < e.len() ==> #[trigger] ins(*self)[j] == e[j],
                self.id == old(self).id,
                self.title == old(self).title,
                self.identifier == old(self).identifier,
                self.constants == old(self).constants,
                outs(*self) == outs(*old(self)),
            decreases n - i,
        {
            let d = &l[i].1;
            let dead = match &d.connection {
                Some(c) => !contains_id(live, c.node),
                None => false,
            };
            if dead {
                let ghost cur = ins(*self);
                proof {
                    assert forall|a: int, b: int| 0 <= a < b < cur.len() implies #[trigger] cur[a].0 != #[trigger] cur[b].0 by {
                        assert(cur[a].0 == e[a].0 && cur[b].0 == e[b].0);
                        assert(l@[a].0@ != l@[b].0@);
                    }
                    assert(cur[i as int].0 == l@[i as int].0@);
                    lemma_replace_at(cur, i as int, (d.port_type, None::<(u64, Seq<char>)>));
                }
                set_input(&mut self.inputs, l[i].0.as_str(), InputDefinition { port_type: d.port_type, connection: None });
            }
            i = i + 1;
        }
        proof {
            assert(ins(*self) =~= dead_dropped(e, live@));
        }
    }

    /// A copy of the node with every input unlinked.
    pub fn clone_without_links(&self) -> (r: GraphNode)
        ensures
            r.id == self.id,
            r.title@ == self.title@,
            r.identifier@ == self.identifier@,
            ins(r) == ins(*self).map_values(|x: (Seq<char>, (u32, Option<(u64, Seq<char>)>))| unlinked(x)),
            outs(r) == outs(*self),
            constant_entries(r.constants.constants) == constant_entries(self.constants.constants),
    {
        let ghost e = ins(*self);
        let ghost o = outs(*self);
        let l = input_list(&self.inputs);
        let lo = output_list(&self.outputs);
        let mut inputs = new_input_map();
        let mut outputs = new_output_map();
        let mut i: usize = 0;
        while i < l.len()
            invariant
                i <= l@.len(),
                e.len() == l@.len(),
                forall|j: int| 0 <= j < e.len() ==> #[trigger] e[j] == (l@[j].0@, input_view(l@[j].1)),
                forall|a: int, b: int| 0 <= a < b < l@.len() ==> #[trigger] l@[a].0@ != #[trigger] l@[b].0@,
                input_entries(inputs) == e.subrange(0, i as int).map_values(
                    |x: (Seq<char>, (u32, Option<(u64, Seq<char>)>))| unlinked(x),
                ),
            decreases l@.len() - i,
        {
            let ghost before = input_entries(inputs);
            proof {
                assert(!has_key(before, l@[i as int].0@)) by {
                    if has_key(before, l@[i as int].0@) {
                        let j = choose|j: int| 0 <= j < before.len() && #[trigger] before[j].0 == l@[i as int].0@;
                        assert(before[j].0 == e[j].0);
                        assert(l@[j].0@ != l@[i as int].0@);
                    }
                }
                lemma_insert_new_key(before, l@[i as int].0@, (l@[i as int].1.port_type, None::<(u64, Seq<char>)>));
            }
            let key = l[i].0.clone();
            insert_input(&mut inputs, key, InputDefinition { port_type: l[i].1.port_type, connection: None });
            i = i + 1;
            proof {
                assert(input_entries(inputs) =~= e.subrange(0, i as int).map_values(
                    |x: (Seq<char>, (u32, Option<(u64, Seq<char>)>))| unlinked(x),
                ));
            }
        }
        let mut k: usize = 0;
        while k < lo.len()
            invariant
                k <= lo@.len(),
                o == lo@.map_values(|x: (String, OutputDefinition)| (x.0@, x.1.port_type)),
                forall|a: int, b: int| 0 <= a < b < lo@.len() ==> #[trigger] lo@[a].0@ != #[trigger] lo@[b].0@,
                output_entries(outputs) == o.subrange(0, k as int),
            decreases lo@.len() - k,
        {
            let ghost before = output_entries(outputs);
            proof {
                assert(!has_key(before, lo@[k as int].0@)) by {
                    if has_key(before, lo@[k as int].0@) {
                        let j = choose|j: int| 0 <= j < before.len() && #[trigger] before[j].0 == lo@[k as int].0@;
                        assert(before[j].0 == o[j].0);
                        assert(lo@[j].0@ != lo@[k as int].0@);
                    }
                }
                lemma_insert_new_key(before, lo@[k as int].0@, lo@[k as int].1.port_type);
            }
            let key = lo[k].0.clone();
            insert_output(&mut outputs, key, lo[k].1);
            k = k + 1;
            proof {
                assert(output_entries(outputs) =~= o.subrange(0, k as int));
            }
        }
        proof {
            assert(e.subrange(0, e.len() as int) =~= e);
            assert(o.subrange(0, o.len() as int) =~= o);
        }
        GraphNode {
            id: self.id,
            title: self.title.clone(),
            identifier: self.identifier.clone(),
            inputs,
            outputs,
            constants: self.constants.copied(),
        }
    }

    /// Adds constant `key` holding `value`; `real_text` is the caller's
    /// text of a real number.
    pub fn add_constant(&mut self, key: &str, value: NodeConstantContent, real_text: &str)
        requires
            old(self).constants.wf(),
        ensures
            final(self).constants.wf(),
            constant_entries(final(self).constants.constants) == inserted(
                constant_entries(old(self).constants.constants),
                key@,
                NodeConstantView {
                    buffer: crate::node_constants::buffer_of(crate::node_constants::content_view(value), real_text@),
                    ok: true,
                    content: crate::node_constants::content_view(value),
                    default_value: crate::node_constants::content_view(value),
                    use_external: false,
                },
            ),
            final(self).id == old(self).id,
            final(self).title == old(self).title,
            final(self).identifier == old(self).identifier,
            ins(*final(self)) == ins(*old(self)),
            outs(*final(self)) == outs(*old(self)),
    {
        self.constants.add_constant(key, value, real_text);
    }

    /// Applies an edit to a constant of the node; see
    /// `NodeConstantStorage::modify_constant`.
    pub fn modify_constant(&mut self, msg: NodeConstantMessage, real_bits: Option<u64>) -> (r: Result<(), NodeError>)
        requires
            old(self).constants.wf(),
        ensures
            final(self).constants.wf(),
            match constant_of(constant_entries(old(self).constants.constants), msg@.0) {
                Some(c) => r is Ok && constant_entries(final(self).constants.constants) == replaced(
                    constant_entries(old(self).constants.constants),
                    msg@.0,
                    edited(c, msg@.1, real_bits),
                ),
                None => r matches Err(NodeError::MissingConstant(k)) && k@ == msg@.0
                    && constant_entries(final(self).constants.constants) == constant_entries(old(self).constants.constants),
            },
            final(self).id == old(self).id,
            final(self).title == old(self).title,
            final(self).identifier == old(self).identifier,
            ins(*final(self)) == ins(*old(self)),
            outs(*final(self)) == outs(*old(self)),
    {
        self.constants.modify_constant(msg, real_bits)
    }

    /// Puts a saved value back into constant `key`; see
    /// `NodeConstantStorage::restore_constant`.
    pub fn restore_constant(&mut self, key: &str, saved: NodeConstantContent, real_text: &str)
        requires
            old(self).constants.wf(),
        ensures
            final(self).constants.wf(),
            constant_entries(final(self).constants.constants) == crate::node_constants::one_restored(
                constant_entries(old(self).constants.constants),
                key@,
                crate::node_constants::content_view(saved),
                real_text@,
            ),
            final(self).id == old(self).id,
            final(self).title == old(self).title,
            final(self).identifier == old(self).identifier,
            ins(*final(self)) == ins(*old(self)),
            outs(*final(self)) == outs(*old(self)),
    {
        self.constants.restore_constant(key, saved, real_text);
    }

    /// The input ports, in order, with their entries.
    pub fn input_ports(&self) -> (r: Vec<(String, InputDefinition)>)
        ensures
            r@.map_values(|e: (String, InputDefinition)| (e.0@, input_view(e.1))) == ins(*self),
    {
        input_list(&self.inputs)
    }

    /// The output ports, in order, with their entries.
    pub fn output_ports(&self) -> (r: Vec<(String, OutputDefinition)>)
        ensures
            r@.map_values(|e: (String, OutputDefinition)| (e.0@, e.1.port_type)) == outs(*self),
    {
        output_list(&self.outputs)
    }

    /// The entry of input port `name`, if the node has it.
    pub fn input(&self, name: &str) -> (r: Option<InputDefinition>)
        ensures
            match r {
                Some(d) => input_of(ins(*self), name@) == Some(input_view(d)),
                None => input_of(ins(*self), name@) is None,
            },
    {
        let l = input_list(&self.inputs);
        proof {
            let e = ins(*self);
            assert(e.len() == l@.len());
            assert forall|i: int| 0 <= i < e.len() implies #[trigger] e[i] == (l@[i].0@, input_view(l@[i].1)) by {}
        }
        match find_entry(&l, name) {
            Some(i) => {
                proof {
                    let e = ins(*self);
                    assert(e[i as int].0 == name@);
                    let c = choose|j: int| 0 <= j < e.len() && #[trigger] e[j].0 == name@;
                    if c != i {
                        if c < i {
                            assert(l@[c].0@ != l@[i as int].0@);
                        } else {
                            assert(l@[i as int].0@ != l@[c].0@);
                        }
                    }
                }
                let d = &l[i].1;
                let conn = match &d.connection {
                    Some(c) => Some(Connection { node: c.node, port: c.port.clone() }),
                    None => None,
                };
                Some(InputDefinition { port_type: d.port_type, connection: conn })
            },
            None => {
                proof {
                    let e = ins(*self);
                    if has_key(e, name@) {
                        let c = choose|j: int| 0 <= j < e.len() && #[trigger] e[j].0 == name@;
                        assert(l@[c].0@ == name@);
                    }
                }
                None
            },
        }
    }
}


/// The identities of the nodes, in order.
pub open spec fn ids(s: Seq<GraphNode>) -> Seq<u64> {
    s.map_values(|n: GraphNode| n.id)
}

/// `a` is `b` but for its inputs.
pub open spec fn same_but_inputs(a: GraphNode, b: GraphNode) -> bool {
    &&& a.id == b.id
    &&& a.title == b.title
    &&& a.identifier == b.identifier
    &&& outs(a) == outs(b)
    &&& a.constants == b.constants
}

/// The nodes chosen in the editor, by identity. A chosen node that was
/// removed from the graph no longer counts.
#[derive(Clone, Debug)]
pub struct NodeSelection {
    pub selected_nodes: Vec<u64>,
}

impl NodeSelection {
    /// Nothing chosen.
    pub fn new() -> (r: Self)
        ensures
            r.selected_nodes@ == Seq::<u64>::empty(),
    {
        NodeSelection { selected_nodes: Vec::new() }
    }

    /// Forgets the choice.
    pub fn clear(&mut self)
        ensures
            final(self).selected_nodes@ == Seq::<u64>::empty(),
    {
        self.selected_nodes.clear();
    }

    /// Whether node `id`, a node of the graph, is chosen.
    pub fn contains_node(&self, id: u64) -> (r: bool)
        ensures
            r == self.selected_nodes@.contains(id),
    {
        contains_id(&self.selected_nodes, id)
    }

    /// Chooses node `id`, a node of the graph, unless it is chosen already.
    pub fn add_to_selection(&mut self, id: u64)
        ensures
            final(self).selected_nodes@ == (if old(self).selected_nodes@.contains(id) {
                old(self).selected_nodes@
            } else {
                old(self).selected_nodes@.push(id)
            }),
    {
        if !self.contains_node(id) {
            self.selected_nodes.push(id);
        }
    }
}

/// The nodes of the editor's graph, in drawing order, with the choice of
/// nodes and whether Shift is held; `next_id` is the identity the next
/// stored node gets.
pub struct GraphNodeStorage {
    pub nodes: Vec<GraphNode>,
    pub selection: NodeSelection,
    pub shift_mod: bool,
    pub next_id: u64,
}

/// The nodes of `s` whose identity is not in `sel`, in order.
pub open spec fn kept(s: Seq<GraphNode>, sel: Seq<u64>) -> Seq<GraphNode>
    decreases s.len(),
{
    if s.len() == 0 {
        s
    } else if sel.contains(s.last().id) {
        kept(s.drop_last(), sel)
    } else {
        kept(s.drop_last(), sel).push(s.last())
    }
}

/// `s` with `x` chosen too.
pub open spec fn with_chosen(s: Seq<u64>, x: u64) -> Seq<u64> {
    if s.contains(x) {
        s
    } else {
        s.push(x)
    }
}

/// The choice `sel` after the nodes at places `idx` of `nodes` are chosen
/// in turn; places past the end are passed over.
pub open spec fn chosen_all(sel: Seq<u64>, nodes: Seq<GraphNode>, idx: Seq<usize>) -> Seq<u64>
    decreases idx.len(),
{
    if idx.len() == 0 {
        sel
    } else {
        let prev = chosen_all(sel, nodes, idx.drop_last());
        if idx.last() < nodes.len() {
            with_chosen(prev, nodes[idx.last() as int].id)
        } else {
            prev
        }
    }
}

/// The input entries after input `input_port` is unlinked, where it exists.
pub open spec fn unlink_target(
    e: Seq<(Seq<char>, (u32, Option<(u64, Seq<char>)>))>,
    input_port: Seq<char>,
) -> Seq<(Seq<char>, (u32, Option<(u64, Seq<char>)>))> {
    match input_of(e, input_port) {
        Some(d) => replaced(e, input_port, (d.0, None::<(u64, Seq<char>)>)),
        None => e,
    }
}

/// Where putting saved links back into a node stopped.
pub enum RestoreEnd {
    /// Every link was made, or a link that was not saved ended the list.
    Done,
    BadIndex(usize),
    SameNode,
    NoInput(Seq<char>),
    NoOutput(Seq<char>),
    Incompatible(u32, u32),
}

/// The saved links of a node as plain values: input port, and source node
/// place and output port, if a link was saved.
pub open spec fn saved_view(c: Seq<(String, Option<SerdeConnection>)>) -> Seq<(Seq<char>, Option<(usize, Seq<char>)>)> {
    c.map_values(|x: (String, Option<SerdeConnection>)| (x.0@, match x.1 {
        Some(s) => Some((s.node_index, s.port@)),
        None => None,
    }))
}

/// The inputs `e` of node `target` after the saved links `conns` are put
/// back in turn, each from the output of the node at the saved place, and
/// where that stopped: at the first link that was not saved, or at the
/// first that cannot be made.
pub open spec fn restored(
    e: Seq<(Seq<char>, (u32, Option<(u64, Seq<char>)>))>,
    nodes: Seq<GraphNode>,
    target: int,
    conns: Seq<(Seq<char>, Option<(usize, Seq<char>)>)>,
) -> (Seq<(Seq<char>, (u32, Option<(u64, Seq<char>)>))>, RestoreEnd)
    decreases conns.len(),
{
    if conns.len() == 0 {
        (e, RestoreEnd::Done)
    } else {
        match conns[0].1 {
            None => (e, RestoreEnd::Done),
            Some(c) => if c.0 >= nodes.len() {
                (e, RestoreEnd::BadIndex(c.0))
            } else if c.0 == target {
                (e, RestoreEnd::SameNode)
            } else {
                let ot = port_type_of(outs(nodes[c.0 as int]), c.1);
                match input_of(e, conns[0].0) {
                    None => (e, RestoreEnd::NoInput(conns[0].0)),
                    Some(d) => match ot {
                        None => (e, RestoreEnd::NoOutput(c.1)),
                        Some(t) => if t != d.0 {
                            (e, RestoreEnd::Incompatible(t, d.0))
                        } else {
                            restored(link_target(e, conns[0].0, nodes[c.0 as int].id, ot, c.1), nodes, target, conns.drop_first())
                        },
                    },
                }
            },
        }
    }
}

/// What restoring answers for where it stopped.
pub open spec fn restore_answer(r: Result<(), NodeError>, end: RestoreEnd) -> bool {
    match end {
        RestoreEnd::Done => r is Ok,
        RestoreEnd::BadIndex(i) => r matches Err(NodeError::NodeIndexError(j)) && j == i,
        RestoreEnd::SameNode => r matches Err(NodeError::SameNodeLink),
        RestoreEnd::NoInput(n) => r matches Err(NodeError::NoInput(m)) && m@ == n,
        RestoreEnd::NoOutput(n) => r matches Err(NodeError::NoOutput(m)) && m@ == n,
        RestoreEnd::Incompatible(a, b) => r matches Err(NodeError::IncompatiblePorts(x, y)) && x == a && y == b,
    }
}

/// `a` is a copy of `b` with every input unlinked.
pub open spec fn node_copy(a: GraphNode, b: GraphNode) -> bool {
    &&& a.title@ == b.title@
    &&& a.identifier@ == b.identifier@
    &&& ins(a) == ins(b).map_values(|x: (Seq<char>, (u32, Option<(u64, Seq<char>)>))| unlinked(x))
    &&& outs(a) == outs(b)
    &&& constant_entries(a.constants.constants) == constant_entries(b.constants.constants)
}

/// The chosen nodes still in the graph, in the order they were chosen.
pub open spec fn chosen_nodes(s: Seq<GraphNode>, sel: Seq<u64>) -> Seq<GraphNode>
    decreases sel.len(),
{
    if sel.len() == 0 {
        Seq::empty()
    } else {
        let prev = chosen_nodes(s, sel.drop_last());
        if ids(s).contains(sel.last()) {
            prev.push(s[choose|i: int| 0 <= i < s.len() && #[trigger] s[i].id == sel.last()])
        } else {
            prev
        }
    }
}

/// A message to the graph that does not depend on where things lie on the
/// canvas; a rectangle selection comes with the places of the nodes inside
/// the rectangle, in order.
#[derive(Clone, Debug)]
pub enum GraphEvent {
    LinkNode { from: usize, output_port: String, to: usize, input_port: String },
    UnlinkOutput { node: usize, output_port: String },
    UnlinkInput { node: usize, input_port: String },
    Unselect,
    Select(usize),
    SquareSelect(Vec<usize>),
    SetShift(bool),
    DeleteSelectedNode,
    /// An edit of a constant of the node chosen alone, with the caller's
    /// reading of the edit's text as a real number.
    ConstantEdit(NodeConstantMessage, Option<u64>),
}

/// The place of the node chosen alone, where exactly one node is chosen
/// and it is still in the graph.
pub open spec fn solitary_index(nodes: Seq<GraphNode>, sel: Seq<u64>) -> Option<int> {
    if sel.len() == 1 && ids(nodes).contains(sel[0]) {
        Some(choose|i: int| 0 <= i < nodes.len() && #[trigger] nodes[i].id == sel[0])
    } else {
        None
    }
}

/// The graph `f` is `o` after an edit `m` of a constant of the node chosen
/// alone: that node's constant named by the edit is edited, all else is
/// kept; with no node chosen alone, nothing changes.
pub open spec fn constant_edited(
    o: GraphNodeStorage,
    f: GraphNodeStorage,
    m: (Seq<char>, NodeConstantMessageContent),
    real_bits: Option<u64>,
) -> bool {
    &&& f.selection == o.selection
    &&& f.shift_mod == o.shift_mod
    &&& match solitary_index(o.nodes@, o.selection.selected_nodes@) {
        Some(i) => {
            let a = o.nodes@[i];
            let n = f.nodes@[i];
            &&& f.nodes@.len() == o.nodes@.len()
            &&& forall|k: int| 0 <= k < o.nodes@.len() && k != i ==> #[trigger] f.nodes@[k] == o.nodes@[k]
            &&& n.id == a.id && n.title == a.title && n.identifier == a.identifier
            &&& ins(n) == ins(a) && outs(n) == outs(a)
            &&& constant_entries(n.constants.constants) == replaced(
                constant_entries(a.constants.constants),
                m.0,
                edited(constant_of(constant_entries(a.constants.constants), m.0).unwrap(), m.1, real_bits),
            )
        },
        None => f.nodes == o.nodes,
    }
}

impl GraphNodeStorage {
    /// Every node has its own identity, below `next_id`, and well-formed constants.
    pub open spec fn wf(&self) -> bool {
        &&& forall|i: int, j: int| 0 <= i < j < self.nodes@.len() ==> #[trigger] self.nodes@[i].id != #[trigger] self.nodes@[j].id
        &&& forall|i: int| 0 <= i < self.nodes@.len() ==> #[trigger] self.nodes@[i].id < self.next_id
        &&& forall|i: int| 0 <= i < self.nodes@.len() ==> (#[trigger] self.nodes@[i]).constants.wf()
    }

    /// An empty graph.
    pub fn new() -> (r: Self)
        ensures
            r.wf(),
            r.nodes@.len() == 0,
            r.selection.selected_nodes@ == Seq::<u64>::empty(),
            !r.shift_mod,
            r.next_id == 0,
    {
        GraphNodeStorage { nodes: Vec::new(), selection: NodeSelection::new(), shift_mod: false, next_id: 0 }
    }

    /// Stores `node` last, under a new identity, which it gives.
    pub fn insert_node(&mut self, node: GraphNode) -> (id: u64)
        requires
            old(self).wf(),
            old(self).next_id < u64::MAX,
            node.constants.wf(),
        ensures
            final(self).wf(),
            id == old(self).next_id,
            final(self).next_id == old(self).next_id + 1,
            final(self).nodes@ == old(self).nodes@.push(GraphNode { id, ..node }),
            final(self).selection == old(self).selection,
            final(self).shift_mod == old(self).shift_mod,
    {
        let id = self.next_id;
        let mut node = node;
        node.id = id;
        self.nodes.push(node);
        self.next_id = id + 1;
        id
    }

    /// Where node `id` stands, if it is in the graph.
    pub fn lookup_node(&self, id: u64) -> (r: Option<usize>)
        requires
            self.wf(),
        ensures
            match r {
                Some(i) => i < self.nodes@.len() && self.nodes@[i as int].id == id,
                None => !ids(self.nodes@).contains(id),
            },
    {
        let mut i: usize = 0;
        while i < self.nodes.len()
            invariant
                i <= self.nodes@.len(),
                forall|j: int| 0 <= j < i ==> self.nodes@[j].id != id,
            decreases self.nodes@.len() - i,
        {
            if self.nodes[i].id == id {
                return Some(i);
            }
            i = i + 1;
        }
        proof {
            if ids(self.nodes@).contains(id) {
                let j = choose|j: int| 0 <= j < ids(self.nodes@).len() && ids(self.nodes@)[j] == id;
                assert(self.nodes@[j].id == id);
            }
        }
        None
    }

    /// The identities of the nodes, in order.
    fn live_ids(&self) -> (r: Vec<u64>)
        ensures
            r@ == ids(self.nodes@),
    {
        let mut r: Vec<u64> = Vec::new();
        let mut i: usize = 0;
        while i < self.nodes.len()
            invariant
                i <= self.nodes@.len(),
                r@ == ids(self.nodes@.subrange(0, i as int)),
            decreases self.nodes@.len() - i,
        {
            r.push(self.nodes[i].id);
            i = i + 1;
            assert(r@ =~= ids(self.nodes@.subrange(0, i as int)));
        }
        assert(self.nodes@.subrange(0, self.nodes@.len() as int) =~= self.nodes@);
        r
    }

    /// Drops every link from a node that is no longer in the graph.
    pub fn remove_dead_connections(&mut self)
        requires
            old(self).wf(),
        ensures
            final(self).wf(),
            final(self).nodes@.len() == old(self).nodes@.len(),
            forall|k: int| 0 <= k < old(self).nodes@.len() ==> same_but_inputs(#[trigger] final(self).nodes@[k], old(self).nodes@[k])
                && ins(final(self).nodes@[k]) == dead_dropped(ins(old(self).nodes@[k]), ids(old(self).nodes@)),
            final(self).selection == old(self).selection,
            final(self).shift_mod == old(self).shift_mod,
            final(self).next_id == old(self).next_id,
    {
        let live = self.live_ids();
        let n = self.nodes.len();
        let mut k: usize = 0;
        while k < n
            invariant
                n == self.nodes@.len(),
                n == old(self).nodes@.len(),
                k <= n,
                live@ == ids(old(self).nodes@),
                forall|j: int| 0 <= j < k ==> same_but_inputs(#[trigger] self.nodes@[j], old(self).nodes@[j])
                    && ins(self.nodes@[j]) == dead_dropped(ins(old(self).nodes@[j]), live@),
                forall|j: int| k <= j < n ==> #[trigger] self.nodes@[j] == old(self).nodes@[j],
                self.selection == old(self).selection,
                self.shift_mod == old(self).shift_mod,
                self.next_id == old(self).next_id,
            decreases n - k,
        {
            self.nodes[k].remove_dead_connections(&live);
            k = k + 1;
        }
        proof {
            assert forall|i: int, j: int| 0 <= i < j < self.nodes@.len() implies #[trigger] self.nodes@[i].id != #[trigger] self.nodes@[j].id by {
                assert(self.nodes@[i].id == old(self).nodes@[i].id);
                assert(self.nodes@[j].id == old(self).nodes@[j].id);
            }
            assert forall|i: int| 0 <= i < self.nodes@.len() implies #[trigger] self.nodes@[i].id < self.next_id by {
                assert(self.nodes@[i].id == old(self).nodes@[i].id);
            }
            assert(ids(self.nodes@) =~= ids(old(self).nodes@));
        }
    }

    /// Links input `input_port` of node `target_id` to output `output_port`
    /// of node `source_id`, then drops the links from removed nodes.
    pub fn link_from_to(&mut self, source_id: usize, output_port: &str, target_id: usize, input_port: &str) -> (r: Result<(), NodeError>)
        requires
            old(self).wf(),
        ensures
            final(self).wf(),
            final(self).selection == old(self).selection,
            final(self).shift_mod == old(self).shift_mod,
            final(self).next_id == old(self).next_id,
            final(self).nodes@.len() == old(self).nodes@.len(),
            if source_id == target_id {
                r matches Err(NodeError::SameNodeLink) && final(self).nodes@ == old(self).nodes@
            } else if source_id >= old(self).nodes@.len() {
                r matches Err(NodeError::NodeIndexError(i)) && i == source_id && final(self).nodes@ == old(self).nodes@
            } else if target_id >= old(self).nodes@.len() {
                r matches Err(NodeError::NodeIndexError(i)) && i == target_id && final(self).nodes@ == old(self).nodes@
            } else {
                let o = old(self).nodes@;
                let ot = port_type_of(outs(o[source_id as int]), output_port@);
                &&& link_result(r, ins(o[target_id as int]), input_port@, ot, output_port@)
                &&& forall|k: int| 0 <= k < o.len() ==> same_but_inputs(#[trigger] final(self).nodes@[k], o[k])
                    && ins(final(self).nodes@[k]) == dead_dropped(
                        if k == target_id {
                            link_target(ins(o[k]), input_port@, o[source_id as int].id, ot, output_port@)
                        } else {
                            ins(o[k])
                        },
                        ids(o),
                    )
            },
    {
        if source_id == target_id {
            return Err(NodeError::SameNodeLink);
        }
        if source_id >= self.nodes.len() {
            return Err(NodeError::NodeIndexError(source_id));
        }
        if target_id >= self.nodes.len() {
            return Err(NodeError::NodeIndexError(target_id));
        }
        let src_id = self.nodes[source_id].id;
        let out_type = self.nodes[source_id].output_type(output_port);
        let res = self.nodes[target_id].link_from(input_port, src_id, out_type, output_port);
        proof {
            assert(ids(self.nodes@) =~= ids(old(self).nodes@));
        }
        self.remove_dead_connections();
        res
    }

    /// Unlinks input `input_port` of node `node_id`, then drops the links
    /// from removed nodes.
    pub fn unlink_input(&mut self, node_id: usize, input_port: &str) -> (r: Result<(), NodeError>)
        requires
            old(self).wf(),
        ensures
            final(self).wf(),
            final(self).selection == old(self).selection,
            final(self).shift_mod == old(self).shift_mod,
            final(self).next_id == old(self).next_id,
            final(self).nodes@.len() == old(self).nodes@.len(),
            if node_id >= old(self).nodes@.len() {
                r matches Err(NodeError::NoInput(n)) && n@ == input_port@ && final(self).nodes@ == old(self).nodes@
            } else {
                let o = old(self).nodes@;
                &&& (if input_of(ins(o[node_id as int]), input_port@) is Some {
                    r is Ok
                } else {
                    r matches Err(NodeError::NoInput(n)) && n@ == input_port@
                })
                &&& forall|k: int| 0 <= k < o.len() ==> same_but_inputs(#[trigger] final(self).nodes@[k], o[k])
                    && ins(final(self).nodes@[k]) == dead_dropped(
                        if k == node_id { unlink_target(ins(o[k]), input_port@) } else { ins(o[k]) },
                        ids(o),
                    )
            },
    {
        if node_id >= self.nodes.len() {
            return Err(NodeError::NoInput(input_port.to_owned()));
        }
        let res = self.nodes[node_id].unlink(input_port);
        proof {
            assert(ids(self.nodes@) =~= ids(old(self).nodes@));
        }
        self.remove_dead_connections();
        res
    }

    /// Drops every link from output `output_port` of node `node_id`, then
    /// the links from removed nodes.
    pub fn unlink_output(&mut self, node_id: usize, output_port: &str) -> (r: Result<(), NodeError>)
        requires
            old(self).wf(),
        ensures
            final(self).wf(),
            final(self).selection == old(self).selection,
            final(self).shift_mod == old(self).shift_mod,
            final(self).next_id == old(self).next_id,
            final(self).nodes@.len() == old(self).nodes@.len(),
            if node_id >= old(self).nodes@.len() {
                r matches Err(NodeError::NoOutput(n)) && n@ == output_port@ && final(self).nodes@ == old(self).nodes@
            } else {
                let o = old(self).nodes@;
                &&& r is Ok
                &&& forall|k: int| 0 <= k < o.len() ==> same_but_inputs(#[trigger] final(self).nodes@[k], o[k])
                    && ins(final(self).nodes@[k]) == dead_dropped(
                        if k == node_id {
                            ins(o[k])
                        } else {
                            unlinked_from(ins(o[k]), o[node_id as int].id, output_port@)
                        },
                        ids(o),
                    )
            },
    {
        if node_id >= self.nodes.len() {
            return Err(NodeError::NoOutput(output_port.to_owned()));
        }
        let src_id = self.nodes[node_id].id;
        let n = self.nodes.len();
        let mut k: usize = 0;
        while k < n
            invariant
                n == self.nodes@.len(),
                n == old(self).nodes@.len(),
                node_id < n,
                k <= n,
                src_id == old(self).nodes@[node_id as int].id,
                forall|j: int| 0 <= j < k ==> same_but_inputs(#[trigger] self.nodes@[j], old(self).nodes@[j])
                    && ins(self.nodes@[j]) == (if j == node_id {
                        ins(old(self).nodes@[j])
                    } else {
                        unlinked_from(ins(old(self).nodes@[j]), src_id, output_port@)
                    }),
                forall|j: int| k <= j < n ==> #[trigger] self.nodes@[j] == old(self).nodes@[j],
                self.selection == old(self).selection,
                self.shift_mod == old(self).shift_mod,
                self.next_id == old(self).next_id,
            decreases n - k,
        {
            if k != node_id {
                self.nodes[k].unlink_from(src_id, output_port);
            }
            k = k + 1;
        }
        proof {
            assert(ids(self.nodes@) =~= ids(old(self).nodes@));
            assert forall|i: int, j: int| 0 <= i < j < self.nodes@.len() implies #[trigger] self.nodes@[i].id != #[trigger] self.nodes@[j].id by {
                assert(self.nodes@[i].id == old(self).nodes@[i].id);
                assert(self.nodes@[j].id == old(self).nodes@[j].id);
            }
            assert forall|i: int| 0 <= i < self.nodes@.len() implies #[trigger] self.nodes@[i].id < self.next_id by {
                assert(self.nodes@[i].id == old(self).nodes@[i].id);
            }
        }
        self.remove_dead_connections();
        Ok(())
    }
    /// Forgets the choice of nodes.
    pub fn unselect_nodes(&mut self)
        ensures
            final(self).selection.selected_nodes@ == Seq::<u64>::empty(),
            final(self).nodes == old(self).nodes,
            final(self).shift_mod == old(self).shift_mod,
            final(self).next_id == old(self).next_id,
    {
        self.selection.clear();
    }

    /// Chooses the node at place `i`, if there is one.
    pub fn add_to_selection(&mut self, i: usize)
        ensures
            final(self).selection.selected_nodes@ == (if i < old(self).nodes@.len() {
                with_chosen(old(self).selection.selected_nodes@, old(self).nodes@[i as int].id)
            } else {
                old(self).selection.selected_nodes@
            }),
            final(self).nodes == old(self).nodes,
            final(self).shift_mod == old(self).shift_mod,
            final(self).next_id == old(self).next_id,
    {
        if i < self.nodes.len() {
            let id = self.nodes[i].id;
            self.selection.add_to_selection(id);
        }
    }

    /// Whether the node at place `i` is chosen; false past the end.
    pub fn is_selected(&self, i: usize) -> (r: bool)
        ensures
            r == (i < self.nodes@.len() && self.selection.selected_nodes@.contains(self.nodes@[i as int].id)),
    {
        if i < self.nodes.len() {
            self.selection.contains_node(self.nodes[i].id)
        } else {
            false
        }
    }

    /// Chooses the node at place `i` alone.
    pub fn select_node(&mut self, i: usize)
        ensures
            final(self).selection.selected_nodes@ == (if i < old(self).nodes@.len() {
                seq![old(self).nodes@[i as int].id]
            } else {
                Seq::<u64>::empty()
            }),
            final(self).nodes == old(self).nodes,
            final(self).shift_mod == old(self).shift_mod,
            final(self).next_id == old(self).next_id,
    {
        self.unselect_nodes();
        self.add_to_selection(i);
        proof {
            if i < old(self).nodes@.len() {
                assert(Seq::<u64>::empty().push(old(self).nodes@[i as int].id) =~= seq![old(self).nodes@[i as int].id]);
            }
        }
    }

    /// The place of the chosen node, where exactly one node is chosen and
    /// it is still in the graph.
    pub fn get_solitary_node(&self) -> (r: Option<usize>)
        requires
            self.wf(),
        ensures
            match r {
                Some(i) => self.selection.selected_nodes@.len() == 1 && i < self.nodes@.len()
                    && self.nodes@[i as int].id == self.selection.selected_nodes@[0],
                None => self.selection.selected_nodes@.len() != 1
                    || !ids(self.nodes@).contains(self.selection.selected_nodes@[0]),
            },
    {
        if self.selection.selected_nodes.len() != 1 {
            return None;
        }
        self.lookup_node(self.selection.selected_nodes[0])
    }

    /// Chooses, in turn, the nodes at places `idx`.
    fn add_all_to_selection(&mut self, idx: &Vec<usize>)
        ensures
            final(self).selection.selected_nodes@ == chosen_all(old(self).selection.selected_nodes@, old(self).nodes@, idx@),
            final(self).nodes == old(self).nodes,
            final(self).shift_mod == old(self).shift_mod,
            final(self).next_id == old(self).next_id,
    {
        let mut j: usize = 0;
        while j < idx.len()
            invariant
                j <= idx@.len(),
                self.selection.selected_nodes@ == chosen_all(old(self).selection.selected_nodes@, old(self).nodes@, idx@.subrange(0, j as int)),
                self.nodes == old(self).nodes,
                self.shift_mod == old(self).shift_mod,
                self.next_id == old(self).next_id,
            decreases idx@.len() - j,
        {
            self.add_to_selection(idx[j]);
            proof {
                assert(idx@.subrange(0, j + 1 as int).drop_last() =~= idx@.subrange(0, j as int));
            }
            j = j + 1;
        }
        proof {
            assert(idx@.subrange(0, idx@.len() as int) =~= idx@);
        }
    }

    /// Removes every chosen node from the graph, keeping the order of the
    /// others, and forgets the choice. Links into the others from removed
    /// nodes are left to be dropped by the next edit.
    pub fn delete_selected_nodes(&mut self)
        requires
            old(self).wf(),
        ensures
            final(self).wf(),
            final(self).nodes@ == kept(old(self).nodes@, old(self).selection.selected_nodes@),
            final(self).selection.selected_nodes@ == Seq::<u64>::empty(),
            final(self).shift_mod == old(self).shift_mod,
            final(self).next_id == old(self).next_id,
    {
        let ghost o = self.nodes@;
        let ghost sel = self.selection.selected_nodes@;
        let mut rest: Vec<GraphNode> = Vec::new();
        std::mem::swap(&mut rest, &mut self.nodes);
        let n = rest.len();
        let mut i: usize = 0;
        while i < n
            invariant
                n == o.len(),
                i <= n,
                rest@ == o.subrange(i as int, n as int),
                self.nodes@ == kept(o.subrange(0, i as int), sel),
                sel == self.selection.selected_nodes@,
                self.shift_mod == old(self).shift_mod,
                self.next_id == old(self).next_id,
                forall|a: int, b: int| 0 <= a < b < self.nodes@.len() ==> #[trigger] self.nodes@[a].id != #[trigger] self.nodes@[b].id,
                forall|a: int| 0 <= a < self.nodes@.len() ==> #[trigger] self.nodes@[a].id < self.next_id,
                forall|a: int|
                    #![trigger self.nodes@[a]]
                    0 <= a < self.nodes@.len() ==> exists|c: int| #![trigger o[c]] 0 <= c < i && o[c] == self.nodes@[a],
                forall|a: int, b: int| 0 <= a < b < o.len() ==> #[trigger] o[a].id != #[trigger] o[b].id,
                forall|a: int| 0 <= a < o.len() ==> #[trigger] o[a].id < old(self).next_id,
            decreases n - i,
        {
            let node = rest.remove(0);
            proof {
                assert(node == o[i as int]);
                assert(o.subrange(0, i + 1 as int).drop_last() =~= o.subrange(0, i as int));
                assert(o.subrange(0, i + 1 as int).last() == o[i as int]);
            }
            let chosen = self.selection.contains_node(node.id);
            if !chosen {
                proof {
                    assert forall|a: int| 0 <= a < self.nodes@.len() implies #[trigger] self.nodes@[a].id != node.id by {
                        let c = choose|c: int| #![trigger o[c]] 0 <= c < i && o[c] == self.nodes@[a];
                        assert(o[c].id != o[i as int].id);
                    }
                }
                self.nodes.push(node);
            }
            proof {
                assert(rest@ =~= o.subrange(i + 1 as int, n as int));
            }
            i = i + 1;
        }
        proof {
            assert(o.subrange(0, n as int) =~= o);
        }
        self.selection.clear();
    }

    /// Stores, after the graph's nodes, a copy of each node of `buffer` with
    /// its inputs unlinked, each under a new identity.
    pub fn instantiate(&mut self, buffer: &GraphNodeStorage)
        requires
            old(self).wf(),
            buffer.wf(),
            old(self).next_id + buffer.nodes@.len() <= u64::MAX,
        ensures
            final(self).wf(),
            final(self).nodes@.len() == old(self).nodes@.len() + buffer.nodes@.len(),
            final(self).nodes@.subrange(0, old(self).nodes@.len() as int) == old(self).nodes@,
            forall|k: int| 0 <= k < buffer.nodes@.len() ==> node_copy(#[trigger] final(self).nodes@[old(self).nodes@.len() + k], buffer.nodes@[k])
                && final(self).nodes@[old(self).nodes@.len() + k].id == old(self).next_id + k,
            final(self).next_id == old(self).next_id + buffer.nodes@.len(),
            final(self).selection == old(self).selection,
            final(self).shift_mod == old(self).shift_mod,
    {
        let n0 = self.nodes.len();
        let mut k: usize = 0;
        while k < buffer.nodes.len()
            invariant
                k <= buffer.nodes@.len(),
                n0 == old(self).nodes@.len(),
                self.wf(),
                buffer.wf(),
                self.next_id == old(self).next_id + k,
                old(self).next_id + buffer.nodes@.len() <= u64::MAX,
                self.nodes@.len() == n0 + k,
                self.nodes@.subrange(0, n0 as int) == old(self).nodes@,
                forall|j: int| 0 <= j < k ==> node_copy(#[trigger] self.nodes@[n0 + j], buffer.nodes@[j])
                    && self.nodes@[n0 + j].id == old(self).next_id + j,
                self.selection == old(self).selection,
                self.shift_mod == old(self).shift_mod,
            decreases buffer.nodes@.len() - k,
        {
            let copy = buffer.nodes[k].clone_without_links();
            let ghost before = self.nodes@;
            self.insert_node(copy);
            proof {
                assert(self.nodes@.subrange(0, n0 as int) =~= before.subrange(0, n0 as int));
                assert forall|j: int| 0 <= j < k + 1 implies node_copy(#[trigger] self.nodes@[n0 + j], buffer.nodes@[j])
                    && self.nodes@[n0 + j].id == old(self).next_id + j by {
                    if j < k {
                        assert(self.nodes@[n0 + j] == before[n0 + j]);
                    }
                }
            }
            k = k + 1;
        }
    }

    /// A new graph holding a copy of each chosen node still in the graph, in
    /// the order they were chosen, with their inputs unlinked; none where
    /// nothing is chosen.
    pub fn clone_selection(&self) -> (r: Option<GraphNodeStorage>)
        requires
            self.wf(),
        ensures
            match r {
                None => self.selection.selected_nodes@.len() == 0,
                Some(b) => {
                    let c = chosen_nodes(self.nodes@, self.selection.selected_nodes@);
                    &&& self.selection.selected_nodes@.len() > 0
                    &&& b.wf()
                    &&& b.selection.selected_nodes@ == Seq::<u64>::empty()
                    &&& !b.shift_mod
                    &&& b.nodes@.len() == c.len()
                    &&& forall|k: int| 0 <= k < c.len() ==> node_copy(#[trigger] b.nodes@[k], c[k]) && b.nodes@[k].id == k
                },
            },
    {
        let sel = &self.selection.selected_nodes;
        if sel.len() == 0 {
            return None;
        }
        let mut res = GraphNodeStorage::new();
        let mut j: usize = 0;
        while j < sel.len()
            invariant
                self.wf(),
                j <= sel@.len(),
                sel == &self.selection.selected_nodes,
                res.wf(),
                res.selection.selected_nodes@ == Seq::<u64>::empty(),
                !res.shift_mod,
                res.next_id == res.nodes@.len(),
                res.nodes@.len() == chosen_nodes(self.nodes@, sel@.subrange(0, j as int)).len(),
                res.nodes@.len() <= j,
                forall|k: int| 0 <= k < res.nodes@.len() ==> node_copy(#[trigger] res.nodes@[k], chosen_nodes(self.nodes@, sel@.subrange(0, j as int))[k])
                    && res.nodes@[k].id == k,
            decreases sel@.len() - j,
        {
            let ghost prevc = chosen_nodes(self.nodes@, sel@.subrange(0, j as int));
            proof {
                assert(sel@.subrange(0, j + 1 as int).drop_last() =~= sel@.subrange(0, j as int));
                assert(sel@.subrange(0, j + 1 as int).last() == sel@[j as int]);
            }
            match self.lookup_node(sel[j]) {
                Some(i) => {
                    proof {
                        let x = sel@[j as int];
                        assert(ids(self.nodes@)[i as int] == x);
                        assert(ids(self.nodes@).contains(x));
                        let c = choose|c: int| 0 <= c < self.nodes@.len() && #[trigger] self.nodes@[c].id == x;
                        if c != i {
                            if c < i {
                                assert(self.nodes@[c].id != self.nodes@[i as int].id);
                            } else {
                                assert(self.nodes@[i as int].id != self.nodes@[c].id);
                            }
                        }
                    }
                    let copy = self.nodes[i].clone_without_links();
                    let ghost before = res.nodes@;
                    res.insert_node(copy);
                    proof {
                        let now = chosen_nodes(self.nodes@, sel@.subrange(0, j + 1 as int));
                        assert(now == prevc.push(self.nodes@[i as int]));
                        assert forall|k: int| 0 <= k < res.nodes@.len() implies node_copy(#[trigger] res.nodes@[k], now[k])
                            && res.nodes@[k].id == k by {
                            if k < before.len() {
                                assert(res.nodes@[k] == before[k]);
                            }
                        }
                    }
                },
                None => {
                    proof {
                        assert(chosen_nodes(self.nodes@, sel@.subrange(0, j + 1 as int)) == prevc);
                    }
                },
            }
            j = j + 1;
        }
        proof {
            assert(sel@.subrange(0, sel@.len() as int) =~= sel@);
        }
        Some(res)
    }

    /// The links of node `k` as they are saved: for each input port in
    /// order, the place of the node it is linked from and that node's output
    /// port, or nothing where the input is unlinked or its source was removed.
    pub fn saved_connections(&self, k: usize) -> (r: Vec<(String, Option<SerdeConnection>)>)
        requires
            self.wf(),
            k < self.nodes@.len(),
        ensures
            r@.len() == ins(self.nodes@[k as int]).len(),
            forall|i: int| 0 <= i < r@.len() ==> {
                let x = #[trigger] ins(self.nodes@[k as int])[i];
                &&& r@[i].0@ == x.0
                &&& match x.1.1 {
                    Some(c) => if ids(self.nodes@).contains(c.0) {
                        r@[i].1 matches Some(s) && s.node_index < self.nodes@.len()
                            && self.nodes@[s.node_index as int].id == c.0 && s.port@ == c.1
                    } else {
                        r@[i].1 is None
                    },
                    None => r@[i].1 is None,
                }
            },
    {
        let l = self.nodes[k].input_ports();
        let ghost e = ins(self.nodes@[k as int]);
        proof {
            assert(e.len() == l@.len());
            assert forall|j: int| 0 <= j < e.len() implies #[trigger] e[j] == (l@[j].0@, input_view(l@[j].1)) by {}
        }
        let mut r: Vec<(String, Option<SerdeConnection>)> = Vec::new();
        let mut i: usize = 0;
        while i < l.len()
            invariant
                self.wf(),
                k < self.nodes@.len(),
                e == ins(self.nodes@[k as int]),
                i <= l@.len(),
                e.len() == l@.len(),
                forall|j: int| 0 <= j < e.len() ==> #[trigger] e[j] == (l@[j].0@, input_view(l@[j].1)),
                r@.len() == i,
                forall|j: int| 0 <= j < i ==> {
                    let x = #[trigger] e[j];
                    &&& r@[j].0@ == x.0
                    &&& match x.1.1 {
                        Some(c) => if ids(self.nodes@).contains(c.0) {
                            r@[j].1 matches Some(s) && s.node_index < self.nodes@.len()
                                && self.nodes@[s.node_index as int].id == c.0 && s.port@ == c.1
                        } else {
                            r@[j].1 is None
                        },
                        None => r@[j].1 is None,
                    }
                },
            decreases l@.len() - i,
        {
            let saved = match &l[i].1.connection {
                Some(c) => match self.lookup_node(c.node) {
                    Some(idx) => {
                        let port = c.port.clone();
                        proof {
                            assert(ids(self.nodes@)[idx as int] == c.node);
                        }
                        Some(SerdeConnection { node_index: idx, port })
                    },
                    None => None,
                },
                None => None,
            };
            proof {
                let x = e[i as int];
                assert(x.1.1 == conn_view(l@[i as int].1.connection));
                match l@[i as int].1.connection {
                    Some(cc) => {
                        if ids(self.nodes@).contains(cc.node) {
                            assert(saved is Some);
                        } else {
                            assert(saved is None);
                        }
                    },
                    None => {},
                }
                assert(match x.1.1 {
                    Some(c) => if ids(self.nodes@).contains(c.0) {
                        saved matches Some(s) && s.node_index < self.nodes@.len()
                            && self.nodes@[s.node_index as int].id == c.0 && s.port@ == c.1
                    } else {
                        saved is None
                    },
                    None => saved is None,
                });
            }
            let name = l[i].0.clone();
            let ghost prev = r@;
            r.push((name, saved));
            proof {
                let x = e[i as int];
                assert(x == (l@[i as int].0@, input_view(l@[i as int].1)));
                assert(x.1.1 == conn_view(l@[i as int].1.connection));
                assert(r@[i as int].0@ == x.0);
                assert(r@[i as int].1 == saved);
                assert forall|j: int| 0 <= j < i implies #[trigger] r@[j] == prev[j] by {}
            }
            i = i + 1;
        }
        r
    }

    /// Puts the saved links `conns` of node `target` back in turn, each from
    /// the output of the node at the saved place; see `restored`. A link
    /// that was not saved ends the list; a link that cannot be made ends it
    /// with its error.
    pub fn restore_links(&mut self, target: usize, conns: &Vec<(String, Option<SerdeConnection>)>) -> (r: Result<(), NodeError>)
        requires
            old(self).wf(),
            target < old(self).nodes@.len(),
        ensures
            final(self).wf(),
            final(self).selection == old(self).selection,
            final(self).shift_mod == old(self).shift_mod,
            final(self).next_id == old(self).next_id,
            final(self).nodes@.len() == old(self).nodes@.len(),
            forall|k: int| 0 <= k < old(self).nodes@.len() && k != target ==> #[trigger] final(self).nodes@[k] == old(self).nodes@[k],
            same_but_inputs(final(self).nodes@[target as int], old(self).nodes@[target as int]),
            ({
                let (e, end) = restored(ins(old(self).nodes@[target as int]), old(self).nodes@, target as int, saved_view(conns@));
                ins(final(self).nodes@[target as int]) == e && restore_answer(r, end)
            }),
    {
        let ghost o = self.nodes@;
        let ghost all = saved_view(conns@);
        let n = conns.len();
        proof {
            assert(all.subrange(0, n as int) =~= all);
        }
        let mut i: usize = 0;
        while i < n
            invariant
                o == old(self).nodes@,
                n == conns@.len(),
                all == saved_view(conns@),
                i <= n,
                target < o.len(),
                self.wf(),
                self.nodes@.len() == o.len(),
                forall|k: int| 0 <= k < o.len() && k != target ==> #[trigger] self.nodes@[k] == o[k],
                same_but_inputs(self.nodes@[target as int], o[target as int]),
                restored(ins(self.nodes@[target as int]), o, target as int, all.subrange(i as int, n as int))
                    == restored(ins(o[target as int]), o, target as int, all),
                self.selection == old(self).selection,
                self.shift_mod == old(self).shift_mod,
                self.next_id == old(self).next_id,
            decreases n - i,
        {
            let ghost rest = all.subrange(i as int, n as int);
            proof {
                assert(rest[0] == all[i as int]);
                assert(rest.drop_first() =~= all.subrange(i + 1, n as int));
            }
            match &conns[i].1 {
                None => {
                    return Ok(());
                },
                Some(c) => {
                    if c.node_index >= self.nodes.len() {
                        return Err(NodeError::NodeIndexError(c.node_index));
                    }
                    if c.node_index == target {
                        return Err(NodeError::SameNodeLink);
                    }
                    let src_id = self.nodes[c.node_index].id;
                    let out_type = self.nodes[c.node_index].output_type(c.port.as_str());
                    proof {
                        assert(self.nodes@[c.node_index as int] == o[c.node_index as int]);
                    }
                    let ghost before = self.nodes@;
                    let res = self.nodes[target].link_from(conns[i].0.as_str(), src_id, out_type, c.port.as_str());
                    proof {
                        assert forall|a: int, b: int| 0 <= a < b < self.nodes@.len() implies #[trigger] self.nodes@[a].id != #[trigger] self.nodes@[b].id by {
                            assert(self.nodes@[a].id == before[a].id);
                            assert(self.nodes@[b].id == before[b].id);
                        }
                        assert forall|a: int| 0 <= a < self.nodes@.len() implies #[trigger] self.nodes@[a].id < self.next_id by {
                            assert(self.nodes@[a].id == before[a].id);
                        }
                        assert forall|a: int| 0 <= a < self.nodes@.len() implies (#[trigger] self.nodes@[a]).constants.wf() by {
                            assert(self.nodes@[a].constants == before[a].constants);
                        }
                        assert forall|k: int| 0 <= k < o.len() && k != target implies #[trigger] self.nodes@[k] == o[k] by {
                            assert(self.nodes@[k] == before[k]);
                        }
                    }
                    match res {
                        Err(e) => {
                            return Err(e);
                        },
                        Ok(()) => {},
                    }
                },
            }
            i = i + 1;
        }
        proof {
            assert(all.subrange(n as int, n as int) =~= Seq::<(Seq<char>, Option<(usize, Seq<char>)>)>::empty());
        }
        Ok(())
    }

    /// Removes every node.
    pub fn clear(&mut self)
        requires
            old(self).wf(),
        ensures
            final(self).wf(),
            final(self).nodes@.len() == 0,
            final(self).selection == old(self).selection,
            final(self).shift_mod == old(self).shift_mod,
            final(self).next_id == old(self).next_id,
    {
        self.nodes.clear();
    }

    /// Handles a message: links and unlinks answer as `link_from_to`,
    /// `unlink_output` and `unlink_input` do, and every other message is
    /// answered `Ok`. A click chooses a node, dropping the earlier choice
    /// unless Shift is held or the node is chosen already; a rectangle
    /// chooses the nodes inside it, dropping the earlier choice unless Shift
    /// is held.
    pub fn handle_message(&mut self, msg: GraphEvent) -> (r: Result<(), NodeError>)
        requires
            old(self).wf(),
            msg matches GraphEvent::ConstantEdit(m, _) ==> (solitary_index(old(self).nodes@, old(self).selection.selected_nodes@) matches Some(i)
                ==> has_key(constant_entries(old(self).nodes@[i].constants.constants), m@.0)),
        ensures
            final(self).wf(),
            final(self).next_id == old(self).next_id,
            match msg {
                GraphEvent::LinkNode { .. } => final(self).shift_mod == old(self).shift_mod
                    && final(self).selection == old(self).selection,
                GraphEvent::UnlinkOutput { .. } => final(self).shift_mod == old(self).shift_mod
                    && final(self).selection == old(self).selection,
                GraphEvent::UnlinkInput { .. } => final(self).shift_mod == old(self).shift_mod
                    && final(self).selection == old(self).selection,
                GraphEvent::Unselect => r is Ok && final(self).nodes == old(self).nodes
                    && final(self).shift_mod == old(self).shift_mod
                    && final(self).selection.selected_nodes@ == Seq::<u64>::empty(),
                GraphEvent::Select(i) => {
                    let base = if !old(self).shift_mod && !(i < old(self).nodes@.len()
                        && old(self).selection.selected_nodes@.contains(old(self).nodes@[i as int].id)) {
                        Seq::<u64>::empty()
                    } else {
                        old(self).selection.selected_nodes@
                    };
                    &&& r is Ok
                    &&& final(self).nodes == old(self).nodes
                    &&& final(self).shift_mod == old(self).shift_mod
                    &&& final(self).selection.selected_nodes@ == (if i < old(self).nodes@.len() {
                        with_chosen(base, old(self).nodes@[i as int].id)
                    } else {
                        base
                    })
                },
                GraphEvent::SquareSelect(idx) => {
                    let base = if old(self).shift_mod { old(self).selection.selected_nodes@ } else { Seq::<u64>::empty() };
                    &&& r is Ok
                    &&& final(self).nodes == old(self).nodes
                    &&& final(self).shift_mod == old(self).shift_mod
                    &&& final(self).selection.selected_nodes@ == chosen_all(base, old(self).nodes@, idx@)
                },
                GraphEvent::SetShift(b) => r is Ok && final(self).nodes == old(self).nodes
                    && final(self).selection == old(self).selection && final(self).shift_mod == b,
                GraphEvent::DeleteSelectedNode => r is Ok
                    && final(self).nodes@ == kept(old(self).nodes@, old(self).selection.selected_nodes@)
                    && final(self).selection.selected_nodes@ == Seq::<u64>::empty()
                    && final(self).shift_mod == old(self).shift_mod,
                GraphEvent::ConstantEdit(m, real_bits) => r is Ok && constant_edited(*old(self), *final(self), m@, real_bits),
            },
            msg matches GraphEvent::LinkNode { from, output_port, to, input_port } ==> {
                &&& final(self).nodes@.len() == old(self).nodes@.len()
                &&& if from == to {
                    r matches Err(NodeError::SameNodeLink) && final(self).nodes@ == old(self).nodes@
                } else if from >= old(self).nodes@.len() {
                    r matches Err(NodeError::NodeIndexError(i)) && i == from && final(self).nodes@ == old(self).nodes@
                } else if to >= old(self).nodes@.len() {
                    r matches Err(NodeError::NodeIndexError(i)) && i == to && final(self).nodes@ == old(self).nodes@
                } else {
                    let o = old(self).nodes@;
                    let ot = port_type_of(outs(o[from as int]), output_port@);
                    &&& link_result(r, ins(o[to as int]), input_port@, ot, output_port@)
                    &&& forall|k: int| 0 <= k < o.len() ==> same_but_inputs(#[trigger] final(self).nodes@[k], o[k])
                        && ins(final(self).nodes@[k]) == dead_dropped(
                            if k == to {
                                link_target(ins(o[k]), input_port@, o[from as int].id, ot, output_port@)
                            } else {
                                ins(o[k])
                            },
                            ids(o),
                        )
                }
            },
            msg matches GraphEvent::UnlinkOutput { node, output_port } ==> {
                &&& final(self).nodes@.len() == old(self).nodes@.len()
                &&& if node >= old(self).nodes@.len() {
                    r matches Err(NodeError::NoOutput(n)) && n@ == output_port@ && final(self).nodes@ == old(self).nodes@
                } else {
                    let o = old(self).nodes@;
                    &&& r is Ok
                    &&& forall|k: int| 0 <= k < o.len() ==> same_but_inputs(#[trigger] final(self).nodes@[k], o[k])
                        && ins(final(self).nodes@[k]) == dead_dropped(
                            if k == node { ins(o[k]) } else { unlinked_from(ins(o[k]), o[node as int].id, output_port@) },
                            ids(o),
                        )
                }
            },
            msg matches GraphEvent::UnlinkInput { node, input_port } ==> {
                &&& final(self).nodes@.len() == old(self).nodes@.len()
                &&& if node >= old(self).nodes@.len() {
                    r matches Err(NodeError::NoInput(n)) && n@ == input_port@ && final(self).nodes@ == old(self).nodes@
                } else {
                    let o = old(self).nodes@;
                    &&& (if input_of(ins(o[node as int]), input_port@) is Some {
                        r is Ok
                    } else {
                        r matches Err(NodeError::NoInput(n)) && n@ == input_port@
                    })
                    &&& forall|k: int| 0 <= k < o.len() ==> same_but_inputs(#[trigger] final(self).nodes@[k], o[k])
                        && ins(final(self).nodes@[k]) == dead_dropped(
                            if k == node { unlink_target(ins(o[k]), input_port@) } else { ins(o[k]) },
                            ids(o),
                        )
                }
            },
    {
        match msg {
            GraphEvent::LinkNode { from, output_port, to, input_port } => {
                self.link_from_to(from, output_port.as_str(), to, input_port.as_str())
            },
            GraphEvent::UnlinkOutput { node, output_port } => self.unlink_output(node, output_port.as_str()),
            GraphEvent::UnlinkInput { node, input_port } => self.unlink_input(node, input_port.as_str()),
            GraphEvent::Unselect => {
                self.unselect_nodes();
                Ok(())
            },
            GraphEvent::Select(i) => {
                if !self.shift_mod && !self.is_selected(i) {
                    self.selection.clear();
                }
                self.add_to_selection(i);
                Ok(())
            },
            GraphEvent::SquareSelect(idx) => {
                if !self.shift_mod {
                    self.selection.clear();
                }
                self.add_all_to_selection(&idx);
                Ok(())
            },
            GraphEvent::SetShift(b) => {
                self.shift_mod = b;
                Ok(())
            },
            GraphEvent::DeleteSelectedNode => {
                self.delete_selected_nodes();
                Ok(())
            },
            GraphEvent::ConstantEdit(m, real_bits) => {
                if let Some(i) = self.get_solitary_node() {
                    proof {
                        let x = self.selection.selected_nodes@[0];
                        assert(ids(self.nodes@)[i as int] == x);
                        let c = choose|c: int| 0 <= c < self.nodes@.len() && #[trigger] self.nodes@[c].id == x;
                        if c != i {
                            if c < i {
                                assert(self.nodes@[c].id != self.nodes@[i as int].id);
                            } else {
                                assert(self.nodes@[i as int].id != self.nodes@[c].id);
                            }
                        }
                        assert(self.nodes@[i as int].constants.wf());
                    }
                    let ghost before = self.nodes@;
                    let _ = self.nodes[i].modify_constant(m, real_bits);
                    proof {
                        assert forall|k: int| 0 <= k < self.nodes@.len() implies (#[trigger] self.nodes@[k]).constants.wf() by {
                            if k != i {
                                assert(self.nodes@[k] == before[k]);
                            }
                        }
                        assert forall|a: int, b: int| 0 <= a < b < self.nodes@.len() implies #[trigger] self.nodes@[a].id != #[trigger] self.nodes@[b].id by {
                            assert(self.nodes@[a].id == before[a].id);
                            assert(self.nodes@[b].id == before[b].id);
                        }
                        assert forall|a: int| 0 <= a < self.nodes@.len() implies #[trigger] self.nodes@[a].id < self.next_id by {
                            assert(self.nodes@[a].id == before[a].id);
                        }
                    }
                } else {
                    proof {
                        if self.selection.selected_nodes@.len() == 1 && ids(self.nodes@).contains(self.selection.selected_nodes@[0]) {
                            assert(false);
                        }
                    }
                }
                Ok(())
            },
        }
    }

    /// An edit of a constant of the node chosen alone, made through
    /// `handle_message` where that node has the constant the edit names:
    /// `None`, with the graph untouched, where it lacks it (the editor stops
    /// on such an edit); else the answer of `handle_message`, which is `Ok`.
    pub fn edit_selected_constant(&mut self, msg: NodeConstantMessage, real_bits: Option<u64>) -> (r: Option<Result<(), NodeError>>)
        requires
            old(self).wf(),
        ensures
            final(self).wf(),
            final(self).next_id == old(self).next_id,
            match solitary_index(old(self).nodes@, old(self).selection.selected_nodes@) {
                Some(i) => if has_key(constant_entries(old(self).nodes@[i].constants.constants), msg@.0) {
                    r matches Some(Ok(_)) && constant_edited(*old(self), *final(self), msg@, real_bits)
                } else {
                    r is None && *final(self) == *old(self)
                },
                None => r matches Some(Ok(_)) && constant_edited(*old(self), *final(self), msg@, real_bits),
            },
    {
        let view = self.view_selected_constants();
        match view {
            Some(storage) => {
                let l = storage.entries();
                let found = find_entry(&l, msg.key());
                proof {
                    let i = solitary_index(self.nodes@, self.selection.selected_nodes@).unwrap();
                    let e = constant_entries(self.nodes@[i].constants.constants);
                    assert(e.len() == l@.len());
                    assert forall|j: int| 0 <= j < e.len() implies #[trigger] e[j].0 == l@[j].0@ by {
                        assert(e[j] == l@.map_values(|x: (String, NodeConstant)| (x.0@, constant_view(x.1)))[j]);
                    }
                    match found {
                        Some(k) => {
                            assert(e[k as int].0 == msg@.0);
                        },
                        None => {
                            if has_key(e, msg@.0) {
                                let j = choose|j: int| 0 <= j < e.len() && #[trigger] e[j].0 == msg@.0;
                                assert(l@[j].0@ == msg@.0);
                            }
                        },
                    }
                }
                match found {
                    None => None,
                    Some(_) => Some(self.handle_message(GraphEvent::ConstantEdit(msg, real_bits))),
                }
            },
            None => Some(self.handle_message(GraphEvent::ConstantEdit(msg, real_bits))),
        }
    }

    /// A copy of the constants of the node chosen alone, if there is one.
    pub fn view_selected_constants(&self) -> (r: Option<NodeConstantStorage>)
        requires
            self.wf(),
        ensures
            match solitary_index(self.nodes@, self.selection.selected_nodes@) {
                Some(i) => r matches Some(c) && constant_entries(c.constants) == constant_entries(self.nodes@[i].constants.constants),
                None => r is None,
            },
    {
        match self.get_solitary_node() {
            Some(i) => {
                proof {
                    let x = self.selection.selected_nodes@[0];
                    assert(ids(self.nodes@)[i as int] == x);
                    let c = choose|c: int| 0 <= c < self.nodes@.len() && #[trigger] self.nodes@[c].id == x;
                    if c != i {
                        if c < i {
                            assert(self.nodes@[c].id != self.nodes@[i as int].id);
                        } else {
                            assert(self.nodes@[i as int].id != self.nodes@[c].id);
                        }
                    }
                }
                Some(self.nodes[i].constants.copied())
            },
            None => None,
        }
    }
}


/// After dead links are dropped, every link left comes from a node of
/// the graph.
pub proof fn lemma_dead_dropped_links_live(e: Seq<(Seq<char>, (u32, Option<(u64, Seq<char>)>))>, live: Seq<u64>)
    ensures
        forall|i: int| 0 <= i < e.len() ==> ((#[trigger] dead_dropped(e, live)[i]).1.1 matches Some(c) ==> live.contains(c.0)),
        dead_dropped(e, live).len() == e.len(),
{
}

/// Linking an input that exists to an output of the same type, from a node
/// of the graph, leaves the input linked to that output.
pub proof fn lemma_link_connects(
    e: Seq<(Seq<char>, (u32, Option<(u64, Seq<char>)>))>,
    input_port: Seq<char>,
    source: u64,
    source_output: Option<u32>,
    output_port: Seq<char>,
    live: Seq<u64>,
)
    requires
        keys_distinct(e),
        input_of(e, input_port) matches Some(d) && source_output == Some(d.0),
        live.contains(source),
    ensures
        input_of(dead_dropped(link_target(e, input_port, source, source_output, output_port), live), input_port)
            == Some((input_of(e, input_port).unwrap().0, Some((source, output_port)))),
{
    let d = input_of(e, input_port)->0;
    let i = choose|i: int| 0 <= i < e.len() && #[trigger] e[i].0 == input_port;
    lemma_replace_at(e, i, (d.0, Some((source, output_port))));
    let f = dead_dropped(link_target(e, input_port, source, source_output, output_port), live);
    assert(f[i].0 == input_port);
    assert forall|j: int| 0 <= j < f.len() && #[trigger] f[j].0 == input_port implies j == i by {
        assert(f[j].0 == e[j].0);
        if j < i {
            assert(e[j].0 != e[i].0);
        } else if j > i {
            assert(e[i].0 != e[j].0);
        }
    }
}

/// Once the links from an output are dropped, no input of the node is
/// linked to that output.
pub proof fn lemma_unlink_output_clears(
    e: Seq<(Seq<char>, (u32, Option<(u64, Seq<char>)>))>,
    source: u64,
    output_port: Seq<char>,
    live: Seq<u64>,
)
    ensures
        forall|i: int| 0 <= i < e.len() ==> (#[trigger] dead_dropped(unlinked_from(e, source, output_port), live)[i]).1.1 != Some((source, output_port)),
{
}

/// Deleting the chosen nodes keeps exactly the nodes not chosen, in their order.
pub proof fn lemma_kept_nodes(s: Seq<GraphNode>, sel: Seq<u64>)
    ensures
        forall|i: int| 0 <= i < kept(s, sel).len() ==> !sel.contains((#[trigger] kept(s, sel)[i]).id) && s.contains(kept(s, sel)[i]),
        forall|i: int| 0 <= i < s.len() && !sel.contains((#[trigger] s[i]).id) ==> kept(s, sel).contains(s[i]),
    decreases s.len(),
{
    if s.len() > 0 {
        lemma_kept_nodes(s.drop_last(), sel);
        let k = kept(s, sel);
        let k0 = kept(s.drop_last(), sel);
        assert forall|i: int| 0 <= i < k.len() implies !sel.contains((#[trigger] k[i]).id) && s.contains(k[i]) by {
            if i < k0.len() {
                assert(k[i] == k0[i]);
                assert(s.drop_last().contains(k0[i]));
                let j = choose|j: int| 0 <= j < s.drop_last().len() && s.drop_last()[j] == k0[i];
                assert(s[j] == k0[i]);
            } else {
                assert(k[i] == s.last());
                assert(s[s.len() - 1] == s.last());
            }
        }
        assert forall|i: int| 0 <= i < s.len() && !sel.contains((#[trigger] s[i]).id) implies k.contains(s[i]) by {
            if i < s.len() - 1 {
                assert(s.drop_last()[i] == s[i]);
                assert(k0.contains(s[i]));
                let j = choose|j: int| 0 <= j < k0.len() && k0[j] == s[i];
                assert(k[j] == s[i]);
            } else {
                assert(s[i] == s.last());
                assert(k[k.len() - 1] == s.last());
            }
        }
    }
}

/// Choosing a node never chooses one twice, and the node is then chosen.
pub proof fn lemma_chosen_once(s: Seq<u64>, x: u64)
    requires
        s.no_duplicates(),
    ensures
        with_chosen(s, x).no_duplicates(),
        with_chosen(s, x).contains(x),
{
    if !s.contains(x) {
        assert(s.push(x)[s.len() as int] == x);
        assert forall|i: int, j: int| 0 <= i < s.push(x).len() && 0 <= j < s.push(x).len() && i != j implies s.push(x)[i] != s.push(x)[j] by {
            if i < s.len() && j < s.len() {
                assert(s[i] != s[j]);
            } else if i < s.len() {
                assert(s.push(x)[i] == s[i]);
            } else {
                assert(s.push(x)[j] == s[j]);
            }
        }
    } else {
        let i = choose|i: int| 0 <= i < s.len() && s[i] == x;
        assert(s[i] == x);
    }
}

/// The inputs `e` with the first `j` linked as in `e` and the others unlinked.
pub open spec fn linked_upto(
    e: Seq<(Seq<char>, (u32, Option<(u64, Seq<char>)>))>,
    j: int,
) -> Seq<(Seq<char>, (u32, Option<(u64, Seq<char>)>))> {
    Seq::new(e.len(), |i: int| if i < j { e[i] } else { unlinked(e[i]) })
}

proof fn lemma_restore_from(
    nodes: Seq<GraphNode>,
    k: int,
    conns: Seq<(Seq<char>, Option<(usize, Seq<char>)>)>,
    j: int,
)
    requires
        0 <= k < nodes.len(),
        0 <= j <= conns.len(),
        keys_distinct(ins(nodes[k])),
        conns.len() == ins(nodes[k]).len(),
        forall|i: int| 0 <= i < conns.len() ==> {
            let x = #[trigger] ins(nodes[k])[i];
            &&& conns[i].0 == x.0
            &&& conns[i].1 matches Some(c) && c.0 < nodes.len() && c.0 != k && x.1.1 == Some((nodes[c.0 as int].id, c.1))
                && port_type_of(outs(nodes[c.0 as int]), c.1) == Some(x.1.0)
        },
    ensures
        restored(linked_upto(ins(nodes[k]), j), nodes, k, conns.subrange(j, conns.len() as int)) == (ins(nodes[k]), RestoreEnd::Done),
    decreases conns.len() - j,
{
    let e = ins(nodes[k]);
    let cur = linked_upto(e, j);
    let rest = conns.subrange(j, conns.len() as int);
    if j == conns.len() {
        assert(cur =~= e);
    } else {
        let x = e[j];
        let c = conns[j].1->0;
        assert(rest[0] == conns[j]);
        assert(rest.drop_first() =~= conns.subrange(j + 1, conns.len() as int));
        assert(keys_distinct(cur)) by {
            assert forall|a: int, b: int| 0 <= a < b < cur.len() implies #[trigger] cur[a].0 != #[trigger] cur[b].0 by {
                assert(cur[a].0 == e[a].0 && cur[b].0 == e[b].0);
            }
        }
        assert(cur[j].0 == x.0);
        let w = choose|i: int| 0 <= i < cur.len() && #[trigger] cur[i].0 == x.0;
        if w != j {
            if w < j {
                assert(cur[w].0 != cur[j].0);
            } else {
                assert(cur[j].0 != cur[w].0);
            }
        }
        assert(input_of(cur, x.0) == Some((x.1.0, None::<(u64, Seq<char>)>)));
        lemma_replace_at(cur, j, (x.1.0, Some((nodes[c.0 as int].id, c.1))));
        assert(link_target(cur, x.0, nodes[c.0 as int].id, Some(x.1.0), c.1) =~= linked_upto(e, j + 1));
        lemma_restore_from(nodes, k, conns, j + 1);
    }
}

/// Saving the links of a node and putting them back into a copy of it
/// with no link gives the node's inputs back, where every input is linked
/// from another node of the graph whose output port still has the input's
/// type.
pub proof fn lemma_saved_links_restore(
    nodes: Seq<GraphNode>,
    k: int,
    conns: Seq<(Seq<char>, Option<(usize, Seq<char>)>)>,
)
    requires
        0 <= k < nodes.len(),
        keys_distinct(ins(nodes[k])),
        conns.len() == ins(nodes[k]).len(),
        forall|i: int| 0 <= i < conns.len() ==> {
            let x = #[trigger] ins(nodes[k])[i];
            &&& conns[i].0 == x.0
            &&& conns[i].1 matches Some(c) && c.0 < nodes.len() && c.0 != k && x.1.1 == Some((nodes[c.0 as int].id, c.1))
                && port_type_of(outs(nodes[c.0 as int]), c.1) == Some(x.1.0)
        },
    ensures
        restored(
            ins(nodes[k]).map_values(|x: (Seq<char>, (u32, Option<(u64, Seq<char>)>))| unlinked(x)),
            nodes,
            k,
            conns,
        ) == (ins(nodes[k]), RestoreEnd::Done),
{
    let e = ins(nodes[k]);
    assert(linked_upto(e, 0) =~= e.map_values(|x: (Seq<char>, (u32, Option<(u64, Seq<char>)>))| unlinked(x)));
    assert(conns.subrange(0, conns.len() as int) =~= conns);
    lemma_restore_from(nodes, k, conns, 0);
}

/// A field of a saved node as the reader of the saved file found it.
#[derive(Clone, Debug)]
pub enum SavedField<T> {
    Missing,
    Malformed,
    Present(T),
}

/// A node of a saved graph as the reader found it: its identifier, whether
/// its position could be read, its saved constants (name, value where it
/// read as one, and the text of a real number), the node that the registry
/// makes for the identifier where it knows it, and its saved links (input
/// port, and source node place and output port where the link read as one).
pub struct SavedNode {
    pub identifier: SavedField<String>,
    pub position: SavedField<()>,
    pub constants: SavedField<Vec<(String, Option<NodeConstantContent>, String)>>,
    pub fresh: Option<GraphNode>,
    pub connections: Vec<(String, Option<SerdeConnection>)>,
}

/// Why a saved graph was not loaded whole.
#[derive(Clone, Debug)]
pub enum GraphLoadError {
    /// The saved graph is no list of nodes.
    NotArray,
    /// A node lacks a field.
    NotFound(String),
    /// A field of a node is not of its form.
    WrongFormat(String),
    /// A node lacks a field, or the registry knows no node of its identifier.
    NodeNotFound(String),
    /// A node's position does not read as one.
    BadPosition,
    /// A saved link cannot be made.
    Link(NodeError),
}

/// Why a saved node is refused, as plain values.
pub enum LoadFailure {
    NotFound(Seq<char>),
    WrongFormat(Seq<char>),
    NodeNotFound(Seq<char>),
    BadPosition,
}

/// Why saved node `r` is refused, if it is: its fields are looked at in
/// turn (identifier, position, constants), then the registry's node.
pub open spec fn record_failure(r: SavedNode) -> Option<LoadFailure> {
    match r.identifier {
        SavedField::Missing => Some(LoadFailure::NotFound("identifier"@)),
        SavedField::Malformed => Some(LoadFailure::WrongFormat("identifier"@)),
        SavedField::Present(id) => match r.position {
            SavedField::Missing => Some(LoadFailure::NodeNotFound("position"@)),
            SavedField::Malformed => Some(LoadFailure::BadPosition),
            SavedField::Present(_) => match r.constants {
                SavedField::Missing => Some(LoadFailure::NodeNotFound("constants"@)),
                SavedField::Malformed => Some(LoadFailure::WrongFormat("constants"@)),
                SavedField::Present(_) => if r.fresh is None {
                    Some(LoadFailure::NodeNotFound(id@))
                } else {
                    None
                },
            },
        },
    }
}

/// The refusal of a saved node that an error reports, if it reports one.
pub open spec fn failure_of(e: GraphLoadError) -> Option<LoadFailure> {
    match e {
        GraphLoadError::NotFound(s) => Some(LoadFailure::NotFound(s@)),
        GraphLoadError::WrongFormat(s) => Some(LoadFailure::WrongFormat(s@)),
        GraphLoadError::NodeNotFound(s) => Some(LoadFailure::NodeNotFound(s@)),
        GraphLoadError::BadPosition => Some(LoadFailure::BadPosition),
        _ => None,
    }
}

/// Saved constants as plain values.
pub open spec fn saved_constants_view(v: Seq<(String, Option<NodeConstantContent>, String)>) -> Seq<
    (Seq<char>, Option<crate::node_constants::ContentView>, Seq<char>),
> {
    v.map_values(|x: (String, Option<NodeConstantContent>, String)| (x.0@, match x.1 {
        Some(c) => Some(crate::node_constants::content_view(c)),
        None => None,
    }, x.2@))
}

/// The saved constants of a saved node; none where they could not be read.
pub open spec fn record_constants(r: SavedNode) -> Seq<(Seq<char>, Option<crate::node_constants::ContentView>, Seq<char>)> {
    match r.constants {
        SavedField::Present(v) => saved_constants_view(v@),
        _ => Seq::empty(),
    }
}

/// The constant entries `e` after the saved constants `s` are put back in
/// turn; a saved value that did not read as one is passed over.
pub open spec fn constants_after(
    e: Seq<(Seq<char>, NodeConstantView)>,
    s: Seq<(Seq<char>, Option<crate::node_constants::ContentView>, Seq<char>)>,
) -> Seq<(Seq<char>, NodeConstantView)>
    decreases s.len(),
{
    if s.len() == 0 {
        e
    } else {
        let p = constants_after(e, s.drop_last());
        match s.last().1 {
            Some(c) => crate::node_constants::one_restored(p, s.last().0, c, s.last().2),
            None => p,
        }
    }
}

/// Node `n` is saved node `r` loaded under identity `id`: the registry's
/// node with its saved constants put back (its links aside).
pub open spec fn loaded_as(n: GraphNode, r: SavedNode, id: u64) -> bool {
    &&& r.fresh is Some
    &&& n.id == id
    &&& n.title == r.fresh->0.title
    &&& n.identifier == r.fresh->0.identifier
    &&& outs(n) == outs(r.fresh->0)
    &&& constant_entries(n.constants.constants) == constants_after(
        constant_entries(r.fresh->0.constants.constants),
        record_constants(r),
    )
}

/// Where putting back the saved links of the node at place `i` of the
/// loaded graph `nodes` ends, and the inputs it leaves.
pub open spec fn links_back(nodes: Seq<GraphNode>, recs: Seq<SavedNode>, i: int) -> (
    Seq<(Seq<char>, (u32, Option<(u64, Seq<char>)>))>,
    RestoreEnd,
) {
    restored(ins(recs[i].fresh->0), nodes, i, saved_view(recs[i].connections@))
}

/// Restoring saved links reads the graph only through the places, the
/// identities and the outputs of its nodes.
pub proof fn lemma_restored_reads_ids_and_outputs(
    e: Seq<(Seq<char>, (u32, Option<(u64, Seq<char>)>))>,
    a: Seq<GraphNode>,
    b: Seq<GraphNode>,
    target: int,
    conns: Seq<(Seq<char>, Option<(usize, Seq<char>)>)>,
)
    requires
        a.len() == b.len(),
        forall|k: int| #![trigger a[k]] 0 <= k < a.len() ==> a[k].id == b[k].id && outs(a[k]) == outs(b[k]),
    ensures
        restored(e, a, target, conns) == restored(e, b, target, conns),
    decreases conns.len(),
{
    if conns.len() > 0 {
        if let Some(c) = conns[0].1 {
            if c.0 < a.len() && c.0 != target {
                let ot = port_type_of(outs(a[c.0 as int]), c.1);
                assert(a[c.0 as int].id == b[c.0 as int].id && outs(a[c.0 as int]) == outs(b[c.0 as int]));
                lemma_restored_reads_ids_and_outputs(
                    link_target(e, conns[0].0, a[c.0 as int].id, ot, c.1),
                    a,
                    b,
                    target,
                    conns.drop_first(),
                );
            }
        }
    }
}

/// One step of putting saved links back: once node `t` of the loaded graph
/// has its links back, the nodes before it keep theirs, read on the graph
/// as it now is.
proof fn lemma_links_step(prev: Seq<GraphNode>, now: Seq<GraphNode>, recs: Seq<SavedNode>, t: int)
    requires
        0 <= t < prev.len(),
        recs.len() == prev.len(),
        now.len() == prev.len(),
        forall|k: int| 0 <= k < prev.len() && k != t ==> #[trigger] now[k] == prev[k],
        same_but_inputs(now[t], prev[t]),
        forall|k: int| 0 <= k < t ==> ins(#[trigger] prev[k]) == links_back(prev, recs, k).0 && links_back(prev, recs, k).1 is Done,
        ins(now[t]) == links_back(prev, recs, t).0,
    ensures
        forall|k: int| 0 <= k < t ==> ins(#[trigger] now[k]) == links_back(now, recs, k).0 && links_back(now, recs, k).1 is Done,
        ins(now[t]) == links_back(now, recs, t).0,
        links_back(now, recs, t).1 == links_back(prev, recs, t).1,
{
    assert forall|k: int| #![trigger prev[k]] 0 <= k < prev.len() implies prev[k].id == now[k].id && outs(prev[k]) == outs(now[k]) by {
        if k != t {
            assert(now[k] == prev[k]);
        }
    }
    assert forall|k: int| 0 <= k <= t implies links_back(prev, recs, k) == links_back(now, recs, k) by {
        lemma_restored_reads_ids_and_outputs(ins(recs[k].fresh->0), prev, now, k, saved_view(recs[k].connections@));
    }
    assert forall|k: int| 0 <= k < t implies ins(#[trigger] now[k]) == links_back(now, recs, k).0 && links_back(now, recs, k).1 is Done by {
        assert(now[k] == prev[k]);
        assert(links_back(prev, recs, k) == links_back(now, recs, k));
    }
    assert(links_back(prev, recs, t) == links_back(now, recs, t));
}

impl GraphNodeStorage {
    /// Puts back a saved graph, as the editor loads one: a saved graph that
    /// is no list of nodes is refused, leaving the graph as it was; else the
    /// graph is emptied, the saved nodes are loaded in turn under new
    /// identities (the first refused node ends the load with its error,
    /// keeping the nodes loaded before it), and then the saved links of each
    /// node are put back in turn (the first link that cannot be made ends
    /// the load with its error).
    pub fn load_saved(&mut self, saved: Option<Vec<SavedNode>>) -> (r: Result<(), GraphLoadError>)
        requires
            old(self).wf(),
            saved matches Some(v) ==> old(self).next_id + v@.len() < u64::MAX,
            saved matches Some(v) ==> forall|i: int|
                0 <= i < v@.len() && (#[trigger] v@[i]).fresh is Some ==> v@[i].fresh->0.constants.wf(),
        ensures
            final(self).wf(),
            final(self).selection == old(self).selection,
            final(self).shift_mod == old(self).shift_mod,
            match saved {
                None => r matches Err(GraphLoadError::NotArray) && *final(self) == *old(self),
                Some(v) => {
                    let recs = v@;
                    let n = final(self).nodes@;
                    &&& forall|f: int|
                        0 <= f < recs.len() && (#[trigger] record_failure(recs[f])) is Some && (forall|j: int|
                            0 <= j < f ==> record_failure(recs[j]) is None) ==> {
                            &&& r matches Err(e) && failure_of(e) == record_failure(recs[f])
                            &&& n.len() == f
                            &&& forall|i: int|
                                0 <= i < f ==> loaded_as(#[trigger] n[i], recs[i], (old(self).next_id + i) as u64) && ins(n[i])
                                    == ins(recs[i].fresh->0)
                        }
                    &&& (forall|j: int| 0 <= j < recs.len() ==> record_failure(recs[j]) is None) ==> {
                        &&& n.len() == recs.len()
                        &&& forall|i: int| 0 <= i < recs.len() ==> loaded_as(#[trigger] n[i], recs[i], (old(self).next_id + i) as u64)
                        &&& forall|t: int|
                            0 <= t < recs.len() && !((#[trigger] links_back(n, recs, t)).1 is Done) && (forall|i: int|
                                0 <= i < t ==> links_back(n, recs, i).1 is Done) ==> {
                                &&& r matches Err(GraphLoadError::Link(ne)) && restore_answer(Err(ne), links_back(n, recs, t).1)
                                &&& forall|i: int| 0 <= i <= t ==> ins(#[trigger] n[i]) == links_back(n, recs, i).0
                                &&& forall|i: int| t < i < recs.len() ==> ins(#[trigger] n[i]) == ins(recs[i].fresh->0)
                            }
                        &&& (forall|i: int| 0 <= i < recs.len() ==> links_back(n, recs, i).1 is Done) ==> r is Ok && forall|i: int|
                            0 <= i < recs.len() ==> ins(#[trigger] n[i]) == links_back(n, recs, i).0
                    }
                },
            },
    {
        let v = match saved {
            None => return Err(GraphLoadError::NotArray),
            Some(v) => v,
        };
        let ghost recs = v@;
        let ghost base = self.next_id;
        self.clear();
        let total = v.len();
        let mut rest = v;
        let mut links: Vec<Vec<(String, Option<SerdeConnection>)>> = Vec::new();
        let mut i: usize = 0;
        while i < total
            invariant
                saved is Some,
                saved->0@ == recs,
                base == old(self).next_id,
                self.wf(),
                self.selection == old(self).selection,
                self.shift_mod == old(self).shift_mod,
                total == recs.len(),
                i <= total,
                rest@ == recs.subrange(i as int, total as int),
                self.next_id == base + i,
                base + total < u64::MAX,
                self.nodes@.len() == i,
                links@.len() == i,
                forall|k: int| 0 <= k < recs.len() && (#[trigger] recs[k]).fresh is Some ==> recs[k].fresh->0.constants.wf(),
                forall|j: int| 0 <= j < i ==> (#[trigger] record_failure(recs[j])) is None,
                forall|j: int|
                    0 <= j < i ==> loaded_as(#[trigger] self.nodes@[j], recs[j], (base + j) as u64) && ins(self.nodes@[j]) == ins(
                        recs[j].fresh->0,
                    ),
                forall|j: int| 0 <= j < i ==> (#[trigger] links@[j])@ == recs[j].connections@,
            decreases total - i,
        {
            let rec = rest.remove(0);
            proof {
                assert(rec == recs[i as int]);
            }
            let SavedNode { identifier, position, constants, fresh, connections } = rec;
            let id = match identifier {
                SavedField::Missing => {
                    proof {
                        reveal_strlit("identifier");
                    }
                    proof {
                        assert(record_failure(recs[i as int]) is Some);
                    }
                    return Err(GraphLoadError::NotFound(String::from_str("identifier")));
                },
                SavedField::Malformed => {
                    proof {
                        reveal_strlit("identifier");
                    }
                    proof {
                        assert(record_failure(recs[i as int]) is Some);
                    }
                    return Err(GraphLoadError::WrongFormat(String::from_str("identifier")));
                },
                SavedField::Present(id) => id,
            };
            match position {
                SavedField::Missing => {
                    proof {
                        reveal_strlit("position");
                    }
                    proof {
                        assert(record_failure(recs[i as int]) is Some);
                    }
                    return Err(GraphLoadError::NodeNotFound(String::from_str("position")));
                },
                SavedField::Malformed => {
                    proof {
                        assert(record_failure(recs[i as int]) is Some);
                    }
                    return Err(GraphLoadError::BadPosition);
                },
                SavedField::Present(_) => {},
            }
            let cs = match constants {
                SavedField::Missing => {
                    proof {
                        reveal_strlit("constants");
                    }
                    proof {
                        assert(record_failure(recs[i as int]) is Some);
                    }
                    return Err(GraphLoadError::NodeNotFound(String::from_str("constants")));
                },
                SavedField::Malformed => {
                    proof {
                        reveal_strlit("constants");
                    }
                    proof {
                        assert(record_failure(recs[i as int]) is Some);
                    }
                    return Err(GraphLoadError::WrongFormat(String::from_str("constants")));
                },
                SavedField::Present(cs) => cs,
            };
            let mut node = match fresh {
                None => {
                    proof {
                        assert(record_failure(recs[i as int]) is Some);
                    }
                    return Err(GraphLoadError::NodeNotFound(id));
                },
                Some(nd) => nd,
            };
            let ghost f0 = node;
            let ghost sv = saved_constants_view(cs@);
            let mut j: usize = 0;
            while j < cs.len()
                invariant
                    j <= cs@.len(),
                    sv == saved_constants_view(cs@),
                    node.constants.wf(),
                    node.id == f0.id,
                    node.title == f0.title,
                    node.identifier == f0.identifier,
                    ins(node) == ins(f0),
                    outs(node) == outs(f0),
                    constant_entries(node.constants.constants) == constants_after(
                        constant_entries(f0.constants.constants),
                        sv.subrange(0, j as int),
                    ),
                decreases cs@.len() - j,
            {
                let entry = &cs[j];
                proof {
                    assert(sv.subrange(0, j + 1).drop_last() =~= sv.subrange(0, j as int));
                    assert(sv.subrange(0, j + 1).last() == sv[j as int]);
                }
                match &entry.1 {
                    Some(c) => {
                        node.restore_constant(entry.0.as_str(), c.copied(), entry.2.as_str());
                    },
                    None => {},
                }
                j = j + 1;
            }
            proof {
                assert(sv.subrange(0, cs@.len() as int) =~= sv);
            }
            self.insert_node(node);
            links.push(connections);
            i = i + 1;
        }
        let ghost loaded = self.nodes@;
        let mut t: usize = 0;
        while t < total
            invariant
                saved is Some,
                saved->0@ == recs,
                base == old(self).next_id,
                self.wf(),
                self.selection == old(self).selection,
                self.shift_mod == old(self).shift_mod,
                total == recs.len(),
                t <= total,
                self.nodes@.len() == total,
                loaded.len() == total,
                links@.len() == total,
                forall|j: int| 0 <= j < total ==> (#[trigger] links@[j])@ == recs[j].connections@,
                forall|j: int| 0 <= j < total ==> (#[trigger] record_failure(recs[j])) is None,
                forall|k: int| 0 <= k < total ==> same_but_inputs(#[trigger] self.nodes@[k], loaded[k]),
                forall|k: int| 0 <= k < total ==> loaded_as(#[trigger] loaded[k], recs[k], (base + k) as u64),
                forall|k: int| t <= k < total ==> ins(#[trigger] self.nodes@[k]) == ins(recs[k].fresh->0),
                forall|k: int|
                    0 <= k < t ==> ins(#[trigger] self.nodes@[k]) == links_back(self.nodes@, recs, k).0 && links_back(
                        self.nodes@,
                        recs,
                        k,
                    ).1 is Done,
            decreases total - t,
        {
            let ghost prev = self.nodes@;
            let res = self.restore_links(t, &links[t]);
            proof {
                assert(saved_view(links@[t as int]@) == saved_view(recs[t as int].connections@));
                assert(ins(prev[t as int]) == ins(recs[t as int].fresh->0));
                assert(links_back(prev, recs, t as int) == restored(ins(prev[t as int]), prev, t as int, saved_view(links@[t as int]@)));
                lemma_links_step(prev, self.nodes@, recs, t as int);
                assert forall|k: int| 0 <= k < total implies same_but_inputs(#[trigger] self.nodes@[k], loaded[k]) by {
                    if k != t {
                        assert(self.nodes@[k] == prev[k]);
                    }
                }
            }
            match res {
                Err(e) => {
                    proof {
                        let n = self.nodes@;
                        assert(restore_answer(Err(e), links_back(n, recs, t as int).1));
                        assert(!(links_back(n, recs, t as int).1 is Done));
                        assert(ins(n[t as int]) == links_back(n, recs, t as int).0);
                        assert forall|i: int| 0 <= i < recs.len() implies loaded_as(#[trigger] n[i], recs[i], (old(self).next_id + i) as u64) by {
                            assert(same_but_inputs(n[i], loaded[i]));
                            assert(loaded_as(loaded[i], recs[i], (base + i) as u64));
                        }
                        assert forall|i: int| 0 <= i < t implies links_back(n, recs, i).1 is Done && ins(#[trigger] n[i])
                            == links_back(n, recs, i).0 by {
                            assert(ins(n[i]) == links_back(n, recs, i).0);
                        }
                        assert forall|i: int| 0 <= i < t implies (#[trigger] links_back(n, recs, i)).1 is Done by {
                            assert(ins(n[i]) == links_back(n, recs, i).0);
                        }
                        assert forall|i: int| t < i < recs.len() implies ins(#[trigger] n[i]) == ins(recs[i].fresh->0) by {
                            assert(ins(n[i]) == ins(recs[i].fresh->0));
                        }
                    }
                    return Err(GraphLoadError::Link(e));
                },
                Ok(()) => {
                    proof {
                        let n = self.nodes@;
                        assert(links_back(n, recs, t as int).1 is Done);
                        assert forall|k: int| 0 <= k < t + 1 implies ins(#[trigger] n[k]) == links_back(n, recs, k).0
                            && links_back(n, recs, k).1 is Done by {
                            if k < t {
                                assert(ins(n[k]) == links_back(n, recs, k).0);
                            }
                        }
                    }
                },
            }
            let ghost before = t;
            t = t + 1;
            assert(t == before + 1);
            assert(forall|k: int| 0 <= k < t ==> ins(#[trigger] self.nodes@[k]) == links_back(self.nodes@, recs, k).0
                && links_back(self.nodes@, recs, k).1 is Done);
        }
        proof {
            let n = self.nodes@;
            assert(forall|j: int| 0 <= j < recs.len() ==> record_failure(recs[j]) is None);
            assert(n.len() == recs.len());
            assert forall|i: int| 0 <= i < recs.len() implies loaded_as(#[trigger] n[i], recs[i], (old(self).next_id + i) as u64) by {
                assert(same_but_inputs(n[i], loaded[i]));
                assert(loaded_as(loaded[i], recs[i], (base + i) as u64));
            }
            assert forall|i: int| 0 <= i < recs.len() implies links_back(n, recs, i).1 is Done && ins(#[trigger] n[i])
                == links_back(n, recs, i).0 by {
                assert(ins(n[i]) == links_back(n, recs, i).0);
            }
            assert forall|i: int| 0 <= i < recs.len() implies (#[trigger] links_back(n, recs, i)).1 is Done by {
                assert(ins(n[i]) == links_back(n, recs, i).0);
            }
        }
        Ok(())
    }
}

} // verus!
