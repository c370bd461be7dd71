use vstd::prelude::*;
use crate::decimal::{i64_to_decimal, lemma_signed_round_trip, parse_i64, parse_signed, signed_decimal};
use crate::nodes::{has_key, inserted, keys_distinct, replaced, NodeError};
use ordered_hash_map::OrderedHashMap;

verus! {

/// What the editor of a node constant currently holds.
#[derive(Clone, Debug)]
pub enum NodeConstantBuffer {
    Check(bool),
    Text(String),
}

/// What an edit of a node constant carries.
#[derive(Clone, Debug)]
pub enum NodeConstantMessageContent {
    Check(bool),
    Text(String),
    ToggleExternal(bool),
}

/// An edit of the node constant named `key`.
#[derive(Clone, Debug)]
pub struct NodeConstantMessage {
    key: String,
    value: NodeConstantMessageContent,
}

impl View for NodeConstantMessage {
    type V = (Seq<char>, NodeConstantMessageContent);

    closed spec fn view(&self) -> (Seq<char>, NodeConstantMessageContent) {
        (self.key@, self.value)
    }
}

impl NodeConstantMessage {
    /// The name of the constant the edit is for.
    pub fn key(&self) -> (r: &str)
        ensures
            r@ == self@.0,
    {
        self.key.as_str()
    }

    /// The name of the constant and the edit.
    pub fn into_parts(self) -> (r: (String, NodeConstantMessageContent))
        ensures
            (r.0@, r.1) == self@,
    {
        (self.key, self.value)
    }

    /// The edit handler of a check box: it turns a flag into an edit of constant `key`.
    pub fn check(key: String) -> (f: impl Fn(bool) -> NodeConstantMessage)
        ensures
            forall|x: bool| #[trigger] f.requires((x,)),
            forall|x: bool, m: NodeConstantMessage|
                f.ensures((x,), m) ==> m@ == (key@, NodeConstantMessageContent::Check(x)),
    {
        move|x: bool| -> (m: NodeConstantMessage)
            ensures
                m@ == (key@, NodeConstantMessageContent::Check(x)),
            { NodeConstantMessage { key: key.clone(), value: NodeConstantMessageContent::Check(x) } }
    }

    /// The edit handler of a text field: it turns a text into an edit of constant `key`.
    pub fn text(key: String) -> (f: impl Fn(String) -> NodeConstantMessage)
        ensures
            forall|x: String| #[trigger] f.requires((x,)),
            forall|x: String, m: NodeConstantMessage|
                f.ensures((x,), m) ==> m@ == (key@, NodeConstantMessageContent::Text(x)),
    {
        move|x: String| -> (m: NodeConstantMessage)
            ensures
                m@ == (key@, NodeConstantMessageContent::Text(x)),
            { NodeConstantMessage { key: key.clone(), value: NodeConstantMessageContent::Text(x) } }
    }

    /// The edit handler of the switch that makes constant `key` come from outside the graph.
    pub fn external_toggle(key: String) -> (f: impl Fn(bool) -> NodeConstantMessage)
        ensures
            forall|x: bool| #[trigger] f.requires((x,)),
            forall|x: bool, m: NodeConstantMessage|
                f.ensures((x,), m) ==> m@ == (key@, NodeConstantMessageContent::ToggleExternal(x)),
    {
        move|x: bool| -> (m: NodeConstantMessage)
            ensures
                m@ == (key@, NodeConstantMessageContent::ToggleExternal(x)),
            { NodeConstantMessage { key: key.clone(), value: NodeConstantMessageContent::ToggleExternal(x) } }
    }
}


/// The value of a node constant. A real number is held by the bits of its
/// 64-bit floating-point value (`f64::to_bits`); only the caller reads or
/// writes it as a number.
#[derive(Clone, Debug)]
pub enum NodeConstantContent {
    Boolean(bool),
    Text(String),
    Integer(i64),
    Real(u64),
}

/// A constant's value, as contracts see it.
pub enum ContentView {
    Boolean(bool),
    Text(Seq<char>),
    Integer(i64),
    Real(u64),
}

/// What an editor buffer holds, as contracts see it.
pub enum BufferView {
    Check(bool),
    Text(Seq<char>),
}

/// The value as contracts see it.
pub open spec fn content_view(c: NodeConstantContent) -> ContentView {
    match c {
        NodeConstantContent::Boolean(b) => ContentView::Boolean(b),
        NodeConstantContent::Text(s) => ContentView::Text(s@),
        NodeConstantContent::Integer(i) => ContentView::Integer(i),
        NodeConstantContent::Real(x) => ContentView::Real(x),
    }
}

/// The buffer as contracts see it.
pub open spec fn buffer_view(b: NodeConstantBuffer) -> BufferView {
    match b {
        NodeConstantBuffer::Check(x) => BufferView::Check(x),
        NodeConstantBuffer::Text(s) => BufferView::Text(s@),
    }
}

/// Two values are of the same kind.
pub open spec fn same_kind(a: ContentView, b: ContentView) -> bool {
    ||| a is Boolean && b is Boolean
    ||| a is Text && b is Text
    ||| a is Integer && b is Integer
    ||| a is Real && b is Real
}

/// What the editor of a value shows: a check box for a flag, else text;
/// a real number shows `real_text`, the caller's text of it.
pub open spec fn buffer_of(c: ContentView, real_text: Seq<char>) -> BufferView {
    match c {
        ContentView::Boolean(b) => BufferView::Check(b),
        ContentView::Text(s) => BufferView::Text(s),
        ContentView::Integer(i) => BufferView::Text(signed_decimal(i as int)),
        ContentView::Real(_) => BufferView::Text(real_text),
    }
}

impl NodeConstantContent {
    /// Whether the two values are of the same kind.
    pub fn is_compatible(&self, other: &Self) -> (r: bool)
        ensures
            r == same_kind(content_view(*self), content_view(*other)),
    {
        match (self, other) {
            (NodeConstantContent::Boolean(_), NodeConstantContent::Boolean(_)) => true,
            (NodeConstantContent::Text(_), NodeConstantContent::Text(_)) => true,
            (NodeConstantContent::Integer(_), NodeConstantContent::Integer(_)) => true,
            (NodeConstantContent::Real(_), NodeConstantContent::Real(_)) => true,
            _ => false,
        }
    }

    /// A copy of the value.
    pub fn copied(&self) -> (r: Self)
        ensures
            content_view(r) == content_view(*self),
    {
        match self {
            NodeConstantContent::Boolean(b) => NodeConstantContent::Boolean(*b),
            NodeConstantContent::Text(s) => NodeConstantContent::Text(s.clone()),
            NodeConstantContent::Integer(i) => NodeConstantContent::Integer(*i),
            NodeConstantContent::Real(x) => NodeConstantContent::Real(*x),
        }
    }

    /// Takes the value of `other` where it is of the same kind; refuses it otherwise.
    pub fn commit_changes(&mut self, other: &Self) -> (r: Result<(), NodeError>)
        ensures
            if same_kind(content_view(*old(self)), content_view(*other)) {
                r is Ok && content_view(*final(self)) == content_view(*other)
            } else {
                r matches Err(NodeError::IncompatibleConstants) && *final(self) == *old(self)
            },
    {
        if self.is_compatible(other) {
            *self = other.copied();
            Ok(())
        } else {
            Err(NodeError::IncompatibleConstants)
        }
    }

    /// The editor buffer of the value; `real_text` is the caller's text of
    /// a real number.
    pub fn to_buffer(&self, real_text: &str) -> (r: NodeConstantBuffer)
        ensures
            buffer_view(r) == buffer_of(content_view(*self), real_text@),
    {
        match self {
            NodeConstantContent::Boolean(b) => NodeConstantBuffer::Check(*b),
            NodeConstantContent::Text(s) => NodeConstantBuffer::Text(s.clone()),
            NodeConstantContent::Integer(i) => NodeConstantBuffer::Text(i64_to_decimal(*i)),
            NodeConstantContent::Real(_) => NodeConstantBuffer::Text(real_text.to_owned()),
        }
    }
}

/// A constant of a node: the editor's buffer, whether the buffer reads as
/// a value, the value, the value it started from, and whether the value
/// comes from outside the graph.
#[derive(Clone, Debug)]
pub struct NodeConstant {
    pub buffer: NodeConstantBuffer,
    pub ok: bool,
    pub content: NodeConstantContent,
    pub default_value: NodeConstantContent,
    pub use_external: bool,
}

/// A constant as contracts see it.
pub struct NodeConstantView {
    pub buffer: BufferView,
    pub ok: bool,
    pub content: ContentView,
    pub default_value: ContentView,
    pub use_external: bool,
}

/// The constant as contracts see it.
pub open spec fn constant_view(c: NodeConstant) -> NodeConstantView {
    NodeConstantView {
        buffer: buffer_view(c.buffer),
        ok: c.ok,
        content: content_view(c.content),
        default_value: content_view(c.default_value),
        use_external: c.use_external,
    }
}

/// The value and the value it started from are of the same kind.
pub open spec fn kinds_agree(c: NodeConstantView) -> bool {
    same_kind(c.content, c.default_value)
}

/// The constant after its buffer is read: a flag from a check box, a text
/// from text, an integer from text that reads as one, a real number from
/// text that the caller read as `real_bits`. Where the buffer does not read as
/// a value of the constant's kind, the constant is marked not ok and takes
/// its starting value back.
pub open spec fn parsed(c: NodeConstantView, real_bits: Option<u64>) -> NodeConstantView {
    let v: Option<ContentView> = match (c.content, c.buffer) {
        (ContentView::Text(_), BufferView::Text(t)) => Some(ContentView::Text(t)),
        (ContentView::Boolean(_), BufferView::Check(b)) => Some(ContentView::Boolean(b)),
        (ContentView::Integer(_), BufferView::Text(t)) => match parse_signed(t) {
            Some(n) => Some(ContentView::Integer(n as i64)),
            None => None,
        },
        (ContentView::Real(_), BufferView::Text(_)) => match real_bits {
            Some(x) => Some(ContentView::Real(x)),
            None => None,
        },
        _ => None,
    };
    match v {
        Some(x) => NodeConstantView { content: x, ok: true, ..c },
        None => NodeConstantView { content: c.default_value, ok: false, ..c },
    }
}

impl NodeConstant {
    /// A constant holding `content`, which is also its starting value, shown
    /// in its editor; `real_text` is the caller's text of a real number.
    pub fn new(content: NodeConstantContent, real_text: &str) -> (r: Self)
        ensures
            constant_view(r) == (NodeConstantView {
                buffer: buffer_of(content_view(content), real_text@),
                ok: true,
                content: content_view(content),
                default_value: content_view(content),
                use_external: false,
            }),
    {
        let buffer = content.to_buffer(real_text);
        let default_value = content.copied();
        NodeConstant { buffer, default_value, content, ok: true, use_external: false }
    }

    /// Shows the value in the editor again.
    pub fn update_buffer(&mut self, real_text: &str)
        ensures
            constant_view(*final(self)) == (NodeConstantView {
                buffer: buffer_of(content_view(old(self).content), real_text@),
                ..constant_view(*old(self))
            }),
    {
        self.buffer = self.content.to_buffer(real_text);
    }

    /// Puts the edited check box or text in the buffer.
    pub fn commit_buffer(&mut self, other: NodeConstantMessage)
        ensures
            constant_view(*final(self)) == (match other@.1 {
                NodeConstantMessageContent::Check(x) => NodeConstantView { buffer: BufferView::Check(x), ..constant_view(*old(self)) },
                NodeConstantMessageContent::Text(x) => NodeConstantView { buffer: BufferView::Text(x@), ..constant_view(*old(self)) },
                NodeConstantMessageContent::ToggleExternal(_) => constant_view(*old(self)),
            }),
    {
        let (_, value) = other.into_parts();
        match value {
            NodeConstantMessageContent::Check(x) => {
                self.buffer = NodeConstantBuffer::Check(x);
            },
            NodeConstantMessageContent::Text(x) => {
                self.buffer = NodeConstantBuffer::Text(x);
            },
            _ => {},
        }
    }

    /// Reads the buffer into the value: see `parsed`. `real_bits` is the
    /// caller's reading of a text buffer as a real number.
    pub fn parse_buffer(&mut self, real_bits: Option<u64>)
        requires
            kinds_agree(constant_view(*old(self))),
        ensures
            constant_view(*final(self)) == parsed(constant_view(*old(self)), real_bits),
    {
        let ok = match (&self.content, &self.buffer) {
            (NodeConstantContent::Text(_), NodeConstantBuffer::Text(t)) => {
                self.content = NodeConstantContent::Text(t.clone());
                true
            },
            (NodeConstantContent::Boolean(_), NodeConstantBuffer::Check(b)) => {
                self.content = NodeConstantContent::Boolean(*b);
                true
            },
            (NodeConstantContent::Integer(_), NodeConstantBuffer::Text(t)) => match parse_i64(t.as_str()) {
                Some(n) => {
                    self.content = NodeConstantContent::Integer(n);
                    true
                },
                None => false,
            },
            (NodeConstantContent::Real(_), NodeConstantBuffer::Text(_)) => match real_bits {
                Some(x) => {
                    self.content = NodeConstantContent::Real(x);
                    true
                },
                None => false,
            },
            _ => false,
        };
        self.ok = ok;
        if !ok {
            let d = self.default_value.copied();
            self.content = d;
        }
    }

    /// A copy of the constant.
    pub fn copied(&self) -> (r: Self)
        ensures
            constant_view(r) == constant_view(*self),
    {
        let buffer = match &self.buffer {
            NodeConstantBuffer::Check(b) => NodeConstantBuffer::Check(*b),
            NodeConstantBuffer::Text(t) => NodeConstantBuffer::Text(t.clone()),
        };
        NodeConstant {
            buffer,
            ok: self.ok,
            content: self.content.copied(),
            default_value: self.default_value.copied(),
            use_external: self.use_external,
        }
    }
}

/// The entries of a node's constant map, in insertion order: name and constant.
pub uninterp spec fn constant_entries(m: OrderedHashMap<String, NodeConstant>) -> Seq<(Seq<char>, NodeConstantView)>;

/// `OrderedHashMap::new`: the map holds no entry.
#[verifier::external_body]
fn new_constant_map() -> (r: OrderedHashMap<String, NodeConstant>)
    ensures
        constant_entries(r) == Seq::<(Seq<char>, NodeConstantView)>::empty(),
{
    OrderedHashMap::new()
}

/// `OrderedHashMap::insert`: a new key is put last; a key already there
/// takes the new value and moves to the end.
#[verifier::external_body]
fn insert_constant(m: &mut OrderedHashMap<String, NodeConstant>, key: String, value: NodeConstant)
    ensures
        constant_entries(*final(m)) == inserted(constant_entries(*old(m)), key@, constant_view(value)),
{
    m.insert(key, value);
}

/// `OrderedHashMap::get_mut`, writing `value` over the value found: the
/// entry keeps its place. Gives whether the key was there.
#[verifier::external_body]
fn set_constant(m: &mut OrderedHashMap<String, NodeConstant>, key: &str, value: NodeConstant) -> (r: bool)
    ensures
        r == has_key(constant_entries(*old(m)), key@),
        constant_entries(*final(m)) == replaced(constant_entries(*old(m)), key@, constant_view(value)),
{
    match m.get_mut(key) {
        Some(slot) => {
            *slot = value;
            true
        },
        None => false,
    }
}

/// `OrderedHashMap::iter`, each entry copied, in insertion order; the keys
/// of a map are distinct.
#[verifier::external_body]
fn constant_list(m: &OrderedHashMap<String, NodeConstant>) -> (r: Vec<(String, NodeConstant)>)
    ensures
        r@.map_values(|e: (String, NodeConstant)| (e.0@, constant_view(e.1))) == constant_entries(*m),
        forall|i: int, j: int| 0 <= i < j < r@.len() ==> #[trigger] r@[i].0@ != #[trigger] r@[j].0@,
{
    m.iter().map(|(k, v)| (k.clone(), v.clone())).collect()
}

/// The constant entries `e` after the saved value `saved` is put back into
/// constant `key`: where that constant exists and the value is of its kind,
/// it takes the value and shows it (`real_text` being the text of a real
/// number); otherwise nothing changes.
pub open spec fn one_restored(
    e: Seq<(Seq<char>, NodeConstantView)>,
    key: Seq<char>,
    saved: ContentView,
    real_text: Seq<char>,
) -> Seq<(Seq<char>, NodeConstantView)> {
    match constant_of(e, key) {
        Some(c) => if same_kind(c.content, saved) {
            replaced(e, key, NodeConstantView { content: saved, buffer: buffer_of(saved, real_text), ..c })
        } else {
            e
        },
        None => e,
    }
}

/// The constant named `k`, if there is one.
pub open spec fn constant_of(e: Seq<(Seq<char>, NodeConstantView)>, k: Seq<char>) -> Option<NodeConstantView> {
    if has_key(e, k) {
        Some(e[choose|i: int| 0 <= i < e.len() && #[trigger] e[i].0 == k].1)
    } else {
        None
    }
}

/// The constant after an edit: a switch of where the value comes from is
/// recorded; a check box or text goes to the buffer, which is then read.
pub open spec fn edited(c: NodeConstantView, msg: NodeConstantMessageContent, real_bits: Option<u64>) -> NodeConstantView {
    match msg {
        NodeConstantMessageContent::ToggleExternal(e) => NodeConstantView { use_external: e, ..c },
        NodeConstantMessageContent::Check(x) => parsed(NodeConstantView { buffer: BufferView::Check(x), ..c }, real_bits),
        NodeConstantMessageContent::Text(x) => parsed(NodeConstantView { buffer: BufferView::Text(x@), ..c }, real_bits),
    }
}

/// The constants of a node, by name, in the order they were added.
pub struct NodeConstantStorage {
    pub constants: OrderedHashMap<String, NodeConstant>,
}

impl NodeConstantStorage {
    /// Each constant's value is of the kind of its starting value.
    pub open spec fn wf(&self) -> bool {
        forall|i: int| 0 <= i < constant_entries(self.constants).len() ==> kinds_agree(#[trigger] constant_entries(self.constants)[i].1)
    }

    /// No constant.
    pub fn new() -> (r: Self)
        ensures
            r.wf(),
            constant_entries(r.constants) == Seq::<(Seq<char>, NodeConstantView)>::empty(),
    {
        NodeConstantStorage { constants: new_constant_map() }
    }

    /// Adds constant `key` holding `value`, or replaces the constant of
    /// that name; `real_text` is the caller's text of a real number.
    pub fn add_constant(&mut self, key: &str, value: NodeConstantContent, real_text: &str)
        requires
            old(self).wf(),
        ensures
            final(self).wf(),
            constant_entries(final(self).constants) == inserted(
                constant_entries(old(self).constants),
                key@,
                NodeConstantView {
                    buffer: buffer_of(content_view(value), real_text@),
                    ok: true,
                    content: content_view(value),
                    default_value: content_view(value),
                    use_external: false,
                },
            ),
    {
        let c = NodeConstant::new(value, real_text);
        let ghost e = constant_entries(self.constants);
        let ghost v = constant_view(c);
        insert_constant(&mut self.constants, key.to_owned(), c);
        proof {
            let f = constant_entries(self.constants);
            reveal(Seq::filter);
            e.filter(crate::nodes::key_is_not::<NodeConstantView>(key@)).lemma_filter_len(crate::nodes::key_is_not::<NodeConstantView>(key@));
            assert forall|i: int| 0 <= i < f.len() implies kinds_agree(#[trigger] f[i].1) by {
                if i < f.len() - 1 {
                    let g = e.filter(crate::nodes::key_is_not::<NodeConstantView>(key@));
                    assert(f[i] == g[i]);
                    broadcast use vstd::seq_lib::group_filter_ensures;
                    assert(g.contains(g[i]));
                    lemma_filter_member(e, key@, g[i]);
                }
            }
        }
    }

    /// A copy of the constants.
    pub fn copied(&self) -> (r: Self)
        ensures
            constant_entries(r.constants) == constant_entries(self.constants),
    {
        let l = constant_list(&self.constants);
        let mut m = new_constant_map();
        let ghost e = constant_entries(self.constants);
        let mut i: usize = 0;
        while i < l.len()
            invariant
                i <= l@.len(),
                e == l@.map_values(|x: (String, NodeConstant)| (x.0@, constant_view(x.1))),
                forall|a: int, b: int| 0 <= a < b < l@.len() ==> #[trigger] l@[a].0@ != #[trigger] l@[b].0@,
                constant_entries(m) == e.subrange(0, i as int),
            decreases l@.len() - i,
        {
            let ghost before = constant_entries(m);
            proof {
                assert(!has_key(before, l@[i as int].0@)) by {
                    if has_key(before, l@[i as int].0@) {
                        let j = choose|j: int| 0 <= j < before.len() && #[trigger] before[j].0 == l@[i as int].0@;
                        assert(before[j].0 == e[j].0);
                        assert(l@[j].0@ != l@[i as int].0@);
                    }
                }
                crate::nodes::lemma_insert_new_key(before, l@[i as int].0@, constant_view(l@[i as int].1));
            }
            insert_constant(&mut m, l[i].0.clone(), l[i].1.copied());
            i = i + 1;
            proof {
                assert(constant_entries(m) =~= e.subrange(0, i as int));
            }
        }
        proof {
            assert(e.subrange(0, e.len() as int) =~= e);
        }
        NodeConstantStorage { constants: m }
    }

    /// The constants, in order, with their names.
    pub fn entries(&self) -> (r: Vec<(String, NodeConstant)>)
        ensures
            r@.map_values(|e: (String, NodeConstant)| (e.0@, constant_view(e.1))) == constant_entries(self.constants),
    {
        constant_list(&self.constants)
    }

    /// Applies an edit to the constant it names; see `edited`. `real_bits`
    /// is the caller's reading of the edit's text as a real number. An edit
    /// of a constant the node lacks is refused.
    pub fn modify_constant(&mut self, msg: NodeConstantMessage, real_bits: Option<u64>) -> (r: Result<(), NodeError>)
        requires
            old(self).wf(),
        ensures
            final(self).wf(),
            match constant_of(constant_entries(old(self).constants), msg@.0) {
                Some(c) => r is Ok && constant_entries(final(self).constants) == replaced(
                    constant_entries(old(self).constants),
                    msg@.0,
                    edited(c, msg@.1, real_bits),
                ),
                None => r matches Err(NodeError::MissingConstant(k)) && k@ == msg@.0
                    && constant_entries(final(self).constants) == constant_entries(old(self).constants),
            },
    {
        let ghost e = constant_entries(self.constants);
        let ghost mv = msg@;
        let l = constant_list(&self.constants);
        let (key, value) = msg.into_parts();
        let found = crate::nodes::find_entry(&l, key.as_str());
        proof {
            assert(e.len() == l@.len());
            assert forall|j: int| 0 <= j < e.len() implies #[trigger] e[j] == (l@[j].0@, constant_view(l@[j].1)) by {}
        }
        match found {
            None => {
                proof {
                    if has_key(e, key@) {
                        let j = choose|j: int| 0 <= j < e.len() && #[trigger] e[j].0 == key@;
                        assert(l@[j].0@ == key@);
                    }
                }
                Err(NodeError::MissingConstant(key))
            },
            Some(k) => {
                proof {
                    assert(e[k as int].0 == key@);
                    let c = choose|j: int| 0 <= j < e.len() && #[trigger] e[j].0 == key@;
                    if c != k {
                        if c < k {
                            assert(l@[c].0@ != l@[k as int].0@);
                        } else {
                            assert(l@[k as int].0@ != l@[c].0@);
                        }
                    }
                    assert(kinds_agree(e[k as int].1));
                }
                let mut cst = l[k].1.copied();
                match value {
                    NodeConstantMessageContent::ToggleExternal(x) => {
                        cst.use_external = x;
                    },
                    NodeConstantMessageContent::Check(x) => {
                        cst.buffer = NodeConstantBuffer::Check(x);
                        cst.parse_buffer(real_bits);
                    },
                    NodeConstantMessageContent::Text(x) => {
                        cst.buffer = NodeConstantBuffer::Text(x);
                        cst.parse_buffer(real_bits);
                    },
                }
                let ghost nv = constant_view(cst);
                set_constant(&mut self.constants, key.as_str(), cst);
                proof {
                    let f = constant_entries(self.constants);
                    assert forall|j: int| 0 <= j < f.len() implies kinds_agree(#[trigger] f[j].1) by {
                        if e[j].0 == key@ {
                            assert(f[j].1 == nv);
                        } else {
                            assert(f[j] == e[j]);
                        }
                    }
                }
                Ok(())
            },
        }
    }
}

impl NodeConstantStorage {
    /// Puts a saved value back into constant `key` where the constant exists
    /// and the value is of its kind, showing it in the editor; otherwise
    /// leaves the constants as they are. `real_text` is the caller's text of
    /// a real number.
    pub fn restore_constant(&mut self, key: &str, saved: NodeConstantContent, real_text: &str)
        requires
            old(self).wf(),
        ensures
            final(self).wf(),
            constant_entries(final(self).constants) == one_restored(
                constant_entries(old(self).constants),
                key@,
                content_view(saved),
                real_text@,
            ),
    {
        let ghost e = constant_entries(self.constants);
        let l = constant_list(&self.constants);
        proof {
            assert(e.len() == l@.len());
            assert forall|j: int| 0 <= j < e.len() implies #[trigger] e[j] == (l@[j].0@, constant_view(l@[j].1)) by {}
        }
        match crate::nodes::find_entry(&l, key) {
            None => {
                proof {
                    if has_key(e, key@) {
                        let j = choose|j: int| 0 <= j < e.len() && #[trigger] e[j].0 == key@;
                        assert(l@[j].0@ == key@);
                    }
                }
            },
            Some(k) => {
                proof {
                    assert(e[k as int].0 == key@);
                    let c = choose|j: int| 0 <= j < e.len() && #[trigger] e[j].0 == key@;
                    if c != k {
                        if c < k {
                            assert(l@[c].0@ != l@[k as int].0@);
                        } else {
                            assert(l@[k as int].0@ != l@[c].0@);
                        }
                    }
                }
                if l[k].1.content.is_compatible(&saved) {
                    let mut cst = l[k].1.copied();
                    cst.buffer = saved.to_buffer(real_text);
                    cst.content = saved;
                    let ghost nv = constant_view(cst);
                    set_constant(&mut self.constants, key, cst);
                    proof {
                        let f = constant_entries(self.constants);
                        assert forall|j: int| 0 <= j < f.len() implies kinds_agree(#[trigger] f[j].1) by {
                            if e[j].0 == key@ {
                                assert(f[j].1 == nv);
                                assert(kinds_agree(e[k as int].1));
                            } else {
                                assert(f[j] == e[j]);
                            }
                        }
                    }
                }
            },
        }
    }
}

/// An entry kept by dropping the entries of a key is an entry of the list.
proof fn lemma_filter_member(e: Seq<(Seq<char>, NodeConstantView)>, k: Seq<char>, x: (Seq<char>, NodeConstantView))
    requires
        e.filter(crate::nodes::key_is_not::<NodeConstantView>(k)).contains(x),
    ensures
        e.contains(x),
    decreases e.len(),
{
    reveal(Seq::filter);
    if e.len() > 0 {
        let p = crate::nodes::key_is_not::<NodeConstantView>(k);
        let sub = e.drop_last().filter(p);
        if sub.contains(x) {
            lemma_filter_member(e.drop_last(), k, x);
            let j = choose|j: int| 0 <= j < e.drop_last().len() && e.drop_last()[j] == x;
            assert(e[j] == x);
        } else {
            assert(x == e.last());
            assert(e[e.len() - 1] == x);
        }
    }
}

/// Reading a constant's buffer keeps its value of the kind it started
/// with, and marks the constant ok exactly when the buffer read as a value.
pub proof fn lemma_parsed_keeps_kind(c: NodeConstantView, real_bits: Option<u64>)
    requires
        kinds_agree(c),
    ensures
        kinds_agree(parsed(c, real_bits)),
        same_kind(parsed(c, real_bits).content, c.content),
        !parsed(c, real_bits).ok ==> parsed(c, real_bits).content == c.default_value,
{
}

/// An integer constant whose editor shows its value reads that value back.
pub proof fn lemma_integer_buffer_round_trip(c: NodeConstantView, i: i64)
    requires
        c.content is Integer,
        c.buffer == buffer_of(ContentView::Integer(i), Seq::empty()),
    ensures
        parsed(c, None).ok,
        parsed(c, None).content == ContentView::Integer(i),
{
    lemma_signed_round_trip(i);
}

/// What an edit does to a constant: the edit is shown in the editor; a
/// text constant takes the text typed; a flag takes the box's state; an
/// integer takes the number typed where the text reads as one, and typing
/// the decimal text of a number sets exactly that number; where the edit
/// does not read as a value of the constant's kind, the constant is marked
/// not ok and takes its starting value back. Switching where the value
/// comes from changes only that switch; no edit changes the starting value.
pub proof fn lemma_edits_set_values(c: NodeConstantView, t: String, b: bool, n: i64, real_bits: Option<u64>)
    ensures
        c.content is Text ==> edited(c, NodeConstantMessageContent::Text(t), real_bits).content == ContentView::Text(t@)
            && edited(c, NodeConstantMessageContent::Text(t), real_bits).ok,
        edited(c, NodeConstantMessageContent::Text(t), real_bits).buffer == BufferView::Text(t@),
        c.content is Boolean ==> edited(c, NodeConstantMessageContent::Check(b), real_bits).content == ContentView::Boolean(b)
            && edited(c, NodeConstantMessageContent::Check(b), real_bits).ok,
        c.content is Integer && parse_signed(t@) is Some ==> edited(c, NodeConstantMessageContent::Text(t), real_bits).content
            == ContentView::Integer(parse_signed(t@).unwrap() as i64) && edited(c, NodeConstantMessageContent::Text(t), real_bits).ok,
        c.content is Integer && parse_signed(t@) is None ==> edited(c, NodeConstantMessageContent::Text(t), real_bits).content
            == c.default_value && !edited(c, NodeConstantMessageContent::Text(t), real_bits).ok,
        c.content is Integer && t@ == signed_decimal(n as int) ==> edited(c, NodeConstantMessageContent::Text(t), real_bits).content
            == ContentView::Integer(n),
        c.content is Real && real_bits is Some ==> edited(c, NodeConstantMessageContent::Text(t), real_bits).content
            == ContentView::Real(real_bits->0),
        edited(c, NodeConstantMessageContent::ToggleExternal(b), real_bits) == (NodeConstantView { use_external: b, ..c }),
        edited(c, NodeConstantMessageContent::Text(t), real_bits).default_value == c.default_value,
        edited(c, NodeConstantMessageContent::Check(b), real_bits).default_value == c.default_value,
        edited(c, NodeConstantMessageContent::Text(t), real_bits).use_external == c.use_external,
{
    lemma_signed_round_trip(n);
}

} // verus!
