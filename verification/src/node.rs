//! The decisions taken while reading a playlist `NODE` element of an XML
//! file: which attributes are known, when the node's kind and header are
//! settled so that its children can be read, and which error a node that
//! never settles is answered with.

use vstd::prelude::*;
use crate::location::chars_of;

verus! {

/// An attribute of a playlist `NODE` element.
#[derive(Debug, Clone, Copy, PartialEq, Eq)]
pub enum NodeAttribute {
    /// `@Name`: the node's name.
    Name,
    /// `@Type`: `0` for a folder, `1` for a playlist.
    Type,
    /// `@Count`: the number of nodes in a folder.
    Count,
    /// `@KeyType`: how a playlist's tracks are keyed.
    KeyType,
    /// `@Entries`: the number of tracks in a playlist.
    Entries,
}

/// The attribute that an XML attribute key names, if it is one of the five.
pub open spec fn attribute_named(key: Seq<char>) -> Option<NodeAttribute> {
    if key == "@Name"@ {
        Some(NodeAttribute::Name)
    } else if key == "@Type"@ {
        Some(NodeAttribute::Type)
    } else if key == "@Count"@ {
        Some(NodeAttribute::Count)
    } else if key == "@KeyType"@ {
        Some(NodeAttribute::KeyType)
    } else if key == "@Entries"@ {
        Some(NodeAttribute::Entries)
    } else {
        None
    }
}

/// The key of an attribute in the XML file.
pub open spec fn attribute_key(a: NodeAttribute) -> Seq<char> {
    match a {
        NodeAttribute::Name => "@Name"@,
        NodeAttribute::Type => "@Type"@,
        NodeAttribute::Count => "@Count"@,
        NodeAttribute::KeyType => "@KeyType"@,
        NodeAttribute::Entries => "@Entries"@,
    }
}

fn same_chars(a: &Vec<char>, b: &Vec<char>) -> (r: bool)
    ensures
        r == (a@ == b@),
{
    if a.len() != b.len() {
        return false;
    }
    for i in 0..a.len()
        invariant
            a@.len() == b@.len(),
            forall|j: int| 0 <= j < i ==> a@[j] == b@[j],
    {
        if a[i] != b[i] {
            return false;
        }
    }
    assert(a@ =~= b@);
    true
}

fn str_eq(a: &str, b: &str) -> (r: bool)
    ensures
        r == (a@ == b@),
{
    same_chars(&chars_of(a), &chars_of(b))
}

impl NodeAttribute {
    /// The attribute that `key` names, or `None` for a key that a playlist
    /// node does not have.
    pub fn from_key(key: &str) -> (a: Option<NodeAttribute>)
        ensures
            a == attribute_named(key@),
    {
        if str_eq(key, "@Name") {
            Some(NodeAttribute::Name)
        } else if str_eq(key, "@Type") {
            Some(NodeAttribute::Type)
        } else if str_eq(key, "@Count") {
            Some(NodeAttribute::Count)
        } else if str_eq(key, "@KeyType") {
            Some(NodeAttribute::KeyType)
        } else if str_eq(key, "@Entries") {
            Some(NodeAttribute::Entries)
        } else {
            None
        }
    }

    /// The key of the attribute in the XML file.
    pub fn key(&self) -> (k: &'static str)
        ensures
            k@ == attribute_key(*self),
    {
        match self {
            NodeAttribute::Name => "@Name",
            NodeAttribute::Type => "@Type",
            NodeAttribute::Count => "@Count",
            NodeAttribute::KeyType => "@KeyType",
            NodeAttribute::Entries => "@Entries",
        }
    }
}

/// The value read for an attribute.
#[derive(Debug)]
pub enum NodeAttributeValue {
    /// A value of `@Name`.
    Name(String),
    /// A value of `@Type`.
    Type(String),
    /// A value of `@Count`.
    Count(usize),
    /// A value of `@KeyType`.
    KeyType(String),
    /// A value of `@Entries`.
    Entries(usize),
}

/// The attributes of a node read so far; for each, the last value read.
#[derive(Debug)]
pub struct NodeHeader {
    /// `@Type`.
    pub node_type: Option<String>,
    /// `@Name`.
    pub name: Option<String>,
    /// `@Count`.
    pub count: Option<usize>,
    /// `@KeyType`.
    pub key_type: Option<String>,
    /// `@Entries`.
    pub entries: Option<usize>,
}

/// What to do after an attribute has been read.
#[derive(Debug)]
pub enum NodeDecision {
    /// Read the next attribute.
    Pending,
    /// The node is a folder with this name: read its nodes.
    Folder {
        /// Name of the folder.
        name: String,
    },
    /// The node is a playlist with this name and key type: read its tracks.
    Playlist {
        /// Name of the playlist.
        name: String,
        /// Key type of the playlist.
        keytype: String,
    },
    /// The node's type is neither `0` nor `1`: the node is refused.
    UnknownType(String),
}

/// The decision for a header: a node whose type is `0` is a folder as soon
/// as its name and count are known; one whose type is `1` is a playlist as
/// soon as its name, entries and key type are known; any other type is
/// refused at once; without a type nothing is decided.
pub open spec fn decision_of(h: NodeHeader) -> NodeDecision {
    match h.node_type {
        None => NodeDecision::Pending,
        Some(t) => if t@ == "0"@ {
            if h.name is Some && h.count is Some {
                NodeDecision::Folder { name: h.name->0 }
            } else {
                NodeDecision::Pending
            }
        } else if t@ == "1"@ {
            if h.name is Some && h.entries is Some && h.key_type is Some {
                NodeDecision::Playlist { name: h.name->0, keytype: h.key_type->0 }
            } else {
                NodeDecision::Pending
            }
        } else {
            NodeDecision::UnknownType(t)
        },
    }
}

/// The attribute that a node whose attributes have all been read without a
/// decision is reported to lack: the first missing one of name and count for
/// a folder, of name, entries and key type for a playlist, and the type
/// otherwise.
pub open spec fn missing_of(h: NodeHeader) -> NodeAttribute {
    match h.node_type {
        Some(t) => if t@ == "0"@ {
            if h.name is None {
                NodeAttribute::Name
            } else {
                NodeAttribute::Count
            }
        } else if t@ == "1"@ {
            if h.name is None {
                NodeAttribute::Name
            } else if h.entries is None {
                NodeAttribute::Entries
            } else {
                NodeAttribute::KeyType
            }
        } else {
            NodeAttribute::Type
        },
        None => NodeAttribute::Type,
    }
}

/// `h` after the value `v` has been read: its attribute takes the value, the
/// others keep theirs.
pub open spec fn recorded(h: NodeHeader, v: NodeAttributeValue) -> NodeHeader {
    match v {
        NodeAttributeValue::Name(s) => NodeHeader { name: Some(s), ..h },
        NodeAttributeValue::Type(s) => NodeHeader { node_type: Some(s), ..h },
        NodeAttributeValue::Count(n) => NodeHeader { count: Some(n), ..h },
        NodeAttributeValue::KeyType(s) => NodeHeader { key_type: Some(s), ..h },
        NodeAttributeValue::Entries(n) => NodeHeader { entries: Some(n), ..h },
    }
}

impl NodeHeader {
    /// A node of which no attribute has been read.
    pub fn new() -> (h: NodeHeader)
        ensures
            h.node_type is None && h.name is None && h.count is None && h.key_type is None
                && h.entries is None,
    {
        NodeHeader { node_type: None, name: None, count: None, key_type: None, entries: None }
    }

    /// Takes in the value read for an attribute.
    pub fn record(&mut self, v: NodeAttributeValue)
        ensures
            *final(self) == recorded(*old(self), v),
    {
        match v {
            NodeAttributeValue::Name(s) => self.name = Some(s),
            NodeAttributeValue::Type(s) => self.node_type = Some(s),
            NodeAttributeValue::Count(n) => self.count = Some(n),
            NodeAttributeValue::KeyType(s) => self.key_type = Some(s),
            NodeAttributeValue::Entries(n) => self.entries = Some(n),
        }
    }

    /// What to do now that the attributes read so far are known.
    pub fn decision(&self) -> (d: NodeDecision)
        ensures
            d == decision_of(*self),
    {
        match &self.node_type {
            None => NodeDecision::Pending,
            Some(t) => {
                if str_eq(t.as_str(), "0") {
                    match (&self.name, &self.count) {
                        (Some(name), Some(_)) => NodeDecision::Folder { name: name.clone() },
                        _ => NodeDecision::Pending,
                    }
                } else if str_eq(t.as_str(), "1") {
                    match (&self.name, &self.entries, &self.key_type) {
                        (Some(name), Some(_), Some(k)) => NodeDecision::Playlist {
                            name: name.clone(),
                            keytype: k.clone(),
                        },
                        _ => NodeDecision::Pending,
                    }
                } else {
                    NodeDecision::UnknownType(t.clone())
                }
            },
        }
    }

    /// The attribute reported missing when the node's attributes have all
    /// been read without a decision.
    pub fn missing(&self) -> (a: NodeAttribute)
        ensures
            a == missing_of(*self),
    {
        match &self.node_type {
            Some(t) => {
                if str_eq(t.as_str(), "0") {
                    if self.name.is_none() {
                        NodeAttribute::Name
                    } else {
                        NodeAttribute::Count
                    }
                } else if str_eq(t.as_str(), "1") {
                    if self.name.is_none() {
                        NodeAttribute::Name
                    } else if self.entries.is_none() {
                        NodeAttribute::Entries
                    } else {
                        NodeAttribute::KeyType
                    }
                } else {
                    NodeAttribute::Type
                }
            },
            None => NodeAttribute::Type,
        }
    }
}

/// A node left undecided lacks the attribute it is reported to lack: when
/// every attribute has been read and the decision is still pending, the
/// attribute that `missing` names has no value.
pub proof fn lemma_missing_is_absent(h: NodeHeader)
    requires
        decision_of(h) is Pending,
    ensures
        missing_of(h) == NodeAttribute::Name ==> h.name is None,
        missing_of(h) == NodeAttribute::Type ==> h.node_type is None,
        missing_of(h) == NodeAttribute::Count ==> h.count is None,
        missing_of(h) == NodeAttribute::Entries ==> h.entries is None,
        missing_of(h) == NodeAttribute::KeyType ==> h.key_type is None,
{
}

/// The attribute that a value was read for.
pub open spec fn attribute_of(v: NodeAttributeValue) -> NodeAttribute {
    match v {
        NodeAttributeValue::Name(_) => NodeAttribute::Name,
        NodeAttributeValue::Type(_) => NodeAttribute::Type,
        NodeAttributeValue::Count(_) => NodeAttribute::Count,
        NodeAttributeValue::KeyType(_) => NodeAttribute::KeyType,
        NodeAttributeValue::Entries(_) => NodeAttribute::Entries,
    }
}

/// Reading a value for one attribute settles that attribute, whatever came
/// before: the last value read for an attribute is the one that counts.
pub proof fn lemma_last_value_counts(h: NodeHeader, v: NodeAttributeValue, w: NodeAttributeValue)
    requires
        attribute_of(v) == attribute_of(w),
    ensures
        recorded(recorded(h, v), w) == recorded(h, w),
{
}

/// Values of two different attributes can be read in either order.
pub proof fn lemma_record_commutes(h: NodeHeader, v: NodeAttributeValue, w: NodeAttributeValue)
    requires
        attribute_of(v) != attribute_of(w),
    ensures
        recorded(recorded(h, v), w) == recorded(recorded(h, w), v),
{
}

/// The header after reading the values `vs` in order, from a node of which
/// nothing had been read.
pub open spec fn read_all(vs: Seq<NodeAttributeValue>) -> NodeHeader
    decreases vs.len(),
{
    if vs.len() == 0 {
        NodeHeader { node_type: None, name: None, count: None, key_type: None, entries: None }
    } else {
        recorded(read_all(vs.drop_last()), vs.last())
    }
}

/// The last value that `vs` holds for the attribute `a`.
pub open spec fn last_value(vs: Seq<NodeAttributeValue>, a: NodeAttribute) -> Option<NodeAttributeValue>
    decreases vs.len(),
{
    if vs.len() == 0 {
        None
    } else if attribute_of(vs.last()) == a {
        Some(vs.last())
    } else {
        last_value(vs.drop_last(), a)
    }
}

/// The text of a value, where it has one.
pub open spec fn text_of(v: Option<NodeAttributeValue>) -> Option<String> {
    match v {
        Some(NodeAttributeValue::Name(s)) => Some(s),
        Some(NodeAttributeValue::Type(s)) => Some(s),
        Some(NodeAttributeValue::KeyType(s)) => Some(s),
        _ => None,
    }
}

/// The number of a value, where it has one.
pub open spec fn number_of(v: Option<NodeAttributeValue>) -> Option<usize> {
    match v {
        Some(NodeAttributeValue::Count(n)) => Some(n),
        Some(NodeAttributeValue::Entries(n)) => Some(n),
        _ => None,
    }
}

/// A node's header depends only on the last value read for each attribute,
/// not on the order in which the attributes came.
pub proof fn lemma_read_all_last_values(vs: Seq<NodeAttributeValue>)
    ensures
        read_all(vs).name == text_of(last_value(vs, NodeAttribute::Name)),
        read_all(vs).node_type == text_of(last_value(vs, NodeAttribute::Type)),
        read_all(vs).key_type == text_of(last_value(vs, NodeAttribute::KeyType)),
        read_all(vs).count == number_of(last_value(vs, NodeAttribute::Count)),
        read_all(vs).entries == number_of(last_value(vs, NodeAttribute::Entries)),
    decreases vs.len(),
{
    if vs.len() > 0 {
        lemma_read_all_last_values(vs.drop_last());
    }
}

/// What a node is decided to be, and the attribute it is reported to lack,
/// do not depend on the numbers of `@Count` and `@Entries`, only on whether
/// they were read.
pub proof fn lemma_numbers_do_not_matter(h1: NodeHeader, h2: NodeHeader)
    requires
        h1.node_type == h2.node_type,
        h1.name == h2.name,
        h1.key_type == h2.key_type,
        h1.count is Some <==> h2.count is Some,
        h1.entries is Some <==> h2.entries is Some,
    ensures
        decision_of(h1) == decision_of(h2),
        missing_of(h1) == missing_of(h2),
{
}

/// No two of the values are for the same attribute.
pub open spec fn distinct_attributes(vs: Seq<NodeAttributeValue>) -> bool {
    forall|i: int, j: int|
        0 <= i < j < vs.len() ==> attribute_of(#[trigger] vs[i]) != attribute_of(#[trigger] vs[j])
}

/// Two values that read alike up to the number of `@Count` or `@Entries`:
/// the same attribute, and the same text where they hold text.
pub open spec fn reads_alike(v: NodeAttributeValue, w: NodeAttributeValue) -> bool {
    attribute_of(v) == attribute_of(w) && text_of(Some(v)) == text_of(Some(w))
}

/// The decision taken while reading the values `vs` in order: the first one
/// that is not pending, after some prefix of `vs`; pending if there is none.
pub open spec fn first_decision(vs: Seq<NodeAttributeValue>) -> NodeDecision
    decreases vs.len(),
{
    if vs.len() == 0 {
        NodeDecision::Pending
    } else if first_decision(vs.drop_last()) is Pending {
        decision_of(read_all(vs))
    } else {
        first_decision(vs.drop_last())
    }
}

proof fn lemma_last_value_distinct(vs: Seq<NodeAttributeValue>, a: NodeAttribute)
    requires
        distinct_attributes(vs),
    ensures
        forall|i: int|
            0 <= i < vs.len() && attribute_of(#[trigger] vs[i]) == a ==> last_value(vs, a) == Some(
                vs[i],
            ),
        (forall|i: int| 0 <= i < vs.len() ==> attribute_of(#[trigger] vs[i]) != a) ==> last_value(
            vs,
            a,
        ) is None,
    decreases vs.len(),
{
    if vs.len() > 0 {
        let rest = vs.drop_last();
        assert(distinct_attributes(rest)) by {
            assert forall|i: int, j: int| 0 <= i < j < rest.len() implies attribute_of(
                #[trigger] rest[i],
            ) != attribute_of(#[trigger] rest[j]) by {
                assert(rest[i] == vs[i] && rest[j] == vs[j]);
            }
        }
        lemma_last_value_distinct(rest, a);
        assert forall|i: int| 0 <= i < vs.len() && attribute_of(#[trigger] vs[i]) == a implies last_value(
            vs,
            a,
        ) == Some(vs[i]) by {
            if i < vs.len() - 1 {
                assert(attribute_of(vs[i]) != attribute_of(vs[vs.len() - 1]));
                assert(rest[i] == vs[i]);
            }
        }
        if forall|i: int| 0 <= i < vs.len() ==> attribute_of(#[trigger] vs[i]) != a {
            assert forall|i: int| 0 <= i < rest.len() implies attribute_of(#[trigger] rest[i]) != a by {
                assert(rest[i] == vs[i]);
            }
            assert(attribute_of(vs[vs.len() - 1]) != a);
        }
    }
}

proof fn lemma_settled_decision_stays(vs: Seq<NodeAttributeValue>)
    requires
        vs.len() > 0,
        distinct_attributes(vs),
        !(decision_of(read_all(vs.drop_last())) is Pending),
    ensures
        decision_of(read_all(vs)) == decision_of(read_all(vs.drop_last())),
{
    let rest = vs.drop_last();
    let last = vs.last();
    lemma_read_all_last_values(rest);
    let h = read_all(rest);
    // An attribute that already has a value was read before, so the last
    // value is for another attribute.
    assert forall|a: NodeAttribute| last_value(rest, a) is Some implies attribute_of(last) != a by {
        lemma_last_value_found(rest, a);
        let k = choose|k: int| 0 <= k < rest.len() && attribute_of(#[trigger] rest[k]) == a;
        assert(rest[k] == vs[k]);
        assert(attribute_of(vs[k]) != attribute_of(vs[vs.len() - 1]));
    }
    assert(read_all(vs) == recorded(h, last));
}

proof fn lemma_last_value_found(vs: Seq<NodeAttributeValue>, a: NodeAttribute)
    requires
        last_value(vs, a) is Some,
    ensures
        exists|k: int| 0 <= k < vs.len() && attribute_of(#[trigger] vs[k]) == a,
    decreases vs.len(),
{
    if attribute_of(vs.last()) == a {
        assert(attribute_of(vs[vs.len() - 1]) == a);
    } else {
        lemma_last_value_found(vs.drop_last(), a);
        let k = choose|k: int| 0 <= k < vs.drop_last().len() && attribute_of(
            #[trigger] vs.drop_last()[k],
        ) == a;
        assert(vs[k] == vs.drop_last()[k]);
    }
}

/// With each attribute read at most once, the decision taken while reading
/// is the decision for the whole node: once settled, it stays.
pub proof fn lemma_first_decision_is_final(vs: Seq<NodeAttributeValue>)
    requires
        distinct_attributes(vs),
    ensures
        first_decision(vs) == decision_of(read_all(vs)),
    decreases vs.len(),
{
    if vs.len() > 0 {
        let rest = vs.drop_last();
        assert(distinct_attributes(rest)) by {
            assert forall|i: int, j: int| 0 <= i < j < rest.len() implies attribute_of(
                #[trigger] rest[i],
            ) != attribute_of(#[trigger] rest[j]) by {
                assert(rest[i] == vs[i] && rest[j] == vs[j]);
            }
        }
        lemma_first_decision_is_final(rest);
        if !(first_decision(rest) is Pending) {
            lemma_settled_decision_stays(vs);
        }
    }
}

proof fn lemma_alike_text(vs: Seq<NodeAttributeValue>, ws: Seq<NodeAttributeValue>, a: NodeAttribute)
    requires
        distinct_attributes(vs),
        distinct_attributes(ws),
        forall|i: int|
            0 <= i < vs.len() ==> exists|j: int| 0 <= j < ws.len() && reads_alike(#[trigger] vs[i], ws[j]),
        forall|j: int|
            0 <= j < ws.len() ==> exists|i: int| 0 <= i < vs.len() && reads_alike(vs[i], #[trigger] ws[j]),
    ensures
        text_of(last_value(vs, a)) == text_of(last_value(ws, a)),
        last_value(vs, a) is Some <==> last_value(ws, a) is Some,
{
    lemma_last_value_distinct(vs, a);
    lemma_last_value_distinct(ws, a);
    if exists|i: int| 0 <= i < vs.len() && attribute_of(#[trigger] vs[i]) == a {
        let i = choose|i: int| 0 <= i < vs.len() && attribute_of(#[trigger] vs[i]) == a;
        let j = choose|j: int| 0 <= j < ws.len() && reads_alike(vs[i], ws[j]);
        assert(attribute_of(ws[j]) == a);
    } else if exists|j: int| 0 <= j < ws.len() && attribute_of(#[trigger] ws[j]) == a {
        let j = choose|j: int| 0 <= j < ws.len() && attribute_of(#[trigger] ws[j]) == a;
        let i = choose|i: int| 0 <= i < vs.len() && reads_alike(vs[i], ws[j]);
        assert(attribute_of(vs[i]) == a);
    }
}

/// A node reads the same whatever the order of its attributes and whatever
/// the numbers of its `@Count` and `@Entries`: when two sequences of values,
/// each reading every attribute at most once, hold values that read alike,
/// the decision taken while reading them is the same, and so is the
/// attribute a node left undecided is reported to lack.
pub proof fn lemma_reading_order_free(vs: Seq<NodeAttributeValue>, ws: Seq<NodeAttributeValue>)
    requires
        distinct_attributes(vs),
        distinct_attributes(ws),
        forall|i: int|
            0 <= i < vs.len() ==> exists|j: int| 0 <= j < ws.len() && reads_alike(#[trigger] vs[i], ws[j]),
        forall|j: int|
            0 <= j < ws.len() ==> exists|i: int| 0 <= i < vs.len() && reads_alike(vs[i], #[trigger] ws[j]),
    ensures
        first_decision(vs) == first_decision(ws),
        missing_of(read_all(vs)) == missing_of(read_all(ws)),
{
    lemma_read_all_last_values(vs);
    lemma_read_all_last_values(ws);
    lemma_alike_text(vs, ws, NodeAttribute::Name);
    lemma_alike_text(vs, ws, NodeAttribute::Type);
    lemma_alike_text(vs, ws, NodeAttribute::Count);
    lemma_alike_text(vs, ws, NodeAttribute::KeyType);
    lemma_alike_text(vs, ws, NodeAttribute::Entries);
    lemma_last_value_distinct(vs, NodeAttribute::Count);
    lemma_last_value_distinct(ws, NodeAttribute::Count);
    lemma_last_value_distinct(vs, NodeAttribute::Entries);
    lemma_last_value_distinct(ws, NodeAttribute::Entries);
    lemma_numbers_do_not_matter(read_all(vs), read_all(ws));
    lemma_first_decision_is_final(vs);
    lemma_first_decision_is_final(ws);
}

} // verus!
