use vstd::prelude::*;
use vstd::string::StringExecFns;

verus! {

/// An inclusive range of integers: the exact domain of the primitive type that
/// an integer leaf was made from.
#[derive(Clone, Copy, Debug, PartialEq, Eq, Structural)]
pub struct IntRange {
    pub start: i128,
    pub end: i128,
}

impl IntRange {
    pub open spec fn contains(self, v: int) -> bool {
        self.start <= v <= self.end
    }
}

/// The payload of one tree node.
#[derive(Debug)]
pub enum DataEnum {
    /// An aggregate: a struct, a tuple, a sequence, or the entries of a map.
    Node(Vec<ParsedData>),
    /// One map entry: the key and the value.
    Pair(Box<(ParsedData, ParsedData)>),
    /// An enum value: the variant's name and its payload.
    Enum(String, Vec<ParsedData>),
    Data(Vec<u8>),
    String(String),
    /// An integer and the range of the type it was made from.
    Int(i128, IntRange),
    /// A binary64 floating-point number, held as its bit pattern.
    Float(u64),
    Bool(bool),
    /// A unit value, or an absent optional value.
    Empty,
}

/// One tree node: its payload, the name it is addressed by, and the mark that
/// a decode pass sets once the node has handed out its value.
#[derive(Debug)]
pub struct ParsedData {
    pub data: DataEnum,
    pub name: String,
    pub need_delete: bool,
}

/// Why building or reading a tree failed.
#[derive(Debug)]
pub enum Error {
    /// A value's own failure while it was written or read.
    SerdeError(String),
    /// The node at hand is not of the kind that was asked for.
    UnexpectedType(String),
    /// A payload was asked of an enum that carries none.
    Syntax,
}

/// The mathematical form of a tree node.
#[verifier::ext_equal]
pub struct Tree {
    pub data: Payload,
    pub name: Seq<char>,
    pub consumed: bool,
}

/// The mathematical form of a node's payload.
#[verifier::ext_equal]
pub enum Payload {
    Node(Seq<Tree>),
    Pair(Box<Tree>, Box<Tree>),
    Enum(Seq<char>, Seq<Tree>),
    Data(Seq<u8>),
    Text(Seq<char>),
    Int(i128, IntRange),
    Float(u64),
    Bool(bool),
    Empty,
}

pub open spec fn tree_of(t: ParsedData) -> Tree
    decreases t,
{
    Tree {
        data: match t.data {
            DataEnum::Node(v) => Payload::Node(Seq::new(v@.len(), |i: int| if 0 <= i < v@.len() { tree_of(v@[i]) } else { arbitrary() })),
            DataEnum::Pair(b) => Payload::Pair(Box::new(tree_of(b.0)), Box::new(tree_of(b.1))),
            DataEnum::Enum(n, v) => Payload::Enum(n@, Seq::new(v@.len(), |i: int| if 0 <= i < v@.len() { tree_of(v@[i]) } else { arbitrary() })),
            DataEnum::Data(b) => Payload::Data(b@),
            DataEnum::String(s) => Payload::Text(s@),
            DataEnum::Int(v, r) => Payload::Int(v, r),
            DataEnum::Float(b) => Payload::Float(b),
            DataEnum::Bool(b) => Payload::Bool(b),
            DataEnum::Empty => Payload::Empty,
        },
        name: t.name@,
        consumed: t.need_delete,
    }
}

/// Every integer leaf of the tree lies in its range.
pub open spec fn wf(t: Tree) -> bool
    decreases t,
{
    match t.data {
        Payload::Node(s) => forall|i: int| 0 <= i < s.len() ==> wf(#[trigger] s[i]),
        Payload::Pair(k, v) => wf(*k) && wf(*v),
        Payload::Enum(_, s) => forall|i: int| 0 <= i < s.len() ==> wf(#[trigger] s[i]),
        Payload::Int(v, r) => r.contains(v as int),
        _ => true,
    }
}

impl View for ParsedData {
    type V = Tree;

    open spec fn view(&self) -> Tree {
        tree_of(*self)
    }
}

/// The views of a sequence of nodes.
pub open spec fn views(s: Seq<ParsedData>) -> Seq<Tree> {
    Seq::new(s.len(), |i: int| s[i]@)
}

/// A fresh, unnamed leaf.
pub open spec fn leaf(data: Payload) -> Tree {
    Tree { data, name: Seq::empty(), consumed: false }
}

pub open spec fn range(lo: int, hi: int) -> IntRange {
    IntRange { start: lo as i128, end: hi as i128 }
}

/// A copy of a byte string.
pub(crate) fn copy_bytes(b: &[u8]) -> (r: Vec<u8>)
    ensures
        r@ == b@,
{
    let mut c: Vec<u8> = Vec::new();
    for i in 0..b.len()
        invariant
            c@ == b@.subrange(0, i as int),
    {
        c.push(b[i]);
        proof { assert(c@ =~= b@.subrange(0, i + 1)); }
    }
    proof { assert(c@ =~= b@); }
    c
}

impl ParsedData {
    /// A fresh, unnamed node with the given payload.
    pub fn with_data(data: DataEnum) -> (r: ParsedData)
        ensures
            r.data == data,
            r.name@ == Seq::<char>::empty(),
            !r.need_delete,
    {
        ParsedData { data, name: String::new(), need_delete: false }
    }

    pub fn from_bool(b: bool) -> (r: ParsedData)
        ensures
            r@ == leaf(Payload::Bool(b)),
    {
        ParsedData::with_data(DataEnum::Bool(b))
    }

    pub fn from_i8(v: i8) -> (r: ParsedData)
        ensures
            r@ == leaf(Payload::Int(v as i128, range(i8::MIN as int, i8::MAX as int))),
            wf(r@),
    {
        ParsedData::with_data(DataEnum::Int(v as i128, IntRange { start: i8::MIN as i128, end: i8::MAX as i128 }))
    }

    pub fn from_i16(v: i16) -> (r: ParsedData)
        ensures
            r@ == leaf(Payload::Int(v as i128, range(i16::MIN as int, i16::MAX as int))),
            wf(r@),
    {
        ParsedData::with_data(DataEnum::Int(v as i128, IntRange { start: i16::MIN as i128, end: i16::MAX as i128 }))
    }

    pub fn from_i32(v: i32) -> (r: ParsedData)
        ensures
            r@ == leaf(Payload::Int(v as i128, range(i32::MIN as int, i32::MAX as int))),
            wf(r@),
    {
        ParsedData::with_data(DataEnum::Int(v as i128, IntRange { start: i32::MIN as i128, end: i32::MAX as i128 }))
    }

    pub fn from_i64(v: i64) -> (r: ParsedData)
        ensures
            r@ == leaf(Payload::Int(v as i128, range(i64::MIN as int, i64::MAX as int))),
            wf(r@),
    {
        ParsedData::with_data(DataEnum::Int(v as i128, IntRange { start: i64::MIN as i128, end: i64::MAX as i128 }))
    }

    pub fn from_u8(v: u8) -> (r: ParsedData)
        ensures
            r@ == leaf(Payload::Int(v as i128, range(0, u8::MAX as int))),
            wf(r@),
    {
        ParsedData::with_data(DataEnum::Int(v as i128, IntRange { start: 0, end: u8::MAX as i128 }))
    }

    pub fn from_u16(v: u16) -> (r: ParsedData)
        ensures
            r@ == leaf(Payload::Int(v as i128, range(0, u16::MAX as int))),
            wf(r@),
    {
        ParsedData::with_data(DataEnum::Int(v as i128, IntRange { start: 0, end: u16::MAX as i128 }))
    }

    pub fn from_u32(v: u32) -> (r: ParsedData)
        ensures
            r@ == leaf(Payload::Int(v as i128, range(0, u32::MAX as int))),
            wf(r@),
    {
        ParsedData::with_data(DataEnum::Int(v as i128, IntRange { start: 0, end: u32::MAX as i128 }))
    }

    pub fn from_u64(v: u64) -> (r: ParsedData)
        ensures
            r@ == leaf(Payload::Int(v as i128, range(0, u64::MAX as int))),
            wf(r@),
    {
        ParsedData::with_data(DataEnum::Int(v as i128, IntRange { start: 0, end: u64::MAX as i128 }))
    }

    /// A float leaf, from the bit pattern of a binary64 number.
    pub fn from_float_bits(bits: u64) -> (r: ParsedData)
        ensures
            r@ == leaf(Payload::Float(bits)),
    {
        ParsedData::with_data(DataEnum::Float(bits))
    }

    pub fn from_str(s: &str) -> (r: ParsedData)
        ensures
            r@ == leaf(Payload::Text(s@)),
    {
        ParsedData::with_data(DataEnum::String(String::from_str(s)))
    }

    pub fn from_string(s: String) -> (r: ParsedData)
        ensures
            r@ == leaf(Payload::Text(s@)),
    {
        ParsedData::with_data(DataEnum::String(s))
    }

    pub fn from_bytes(b: &[u8]) -> (r: ParsedData)
        ensures
            r@ == leaf(Payload::Data(b@)),
    {
        ParsedData::with_data(DataEnum::Data(copy_bytes(b)))
    }

    /// An unnamed aggregate of the given children.
    pub fn from_nodes(v: Vec<ParsedData>) -> (r: ParsedData)
        ensures
            r@ == leaf(Payload::Node(views(v@))),
    {
        let ghost g = v@;
        let r = ParsedData::with_data(DataEnum::Node(v));
        proof { assert(r@.data->Node_0 =~= views(g)); }
        r
    }

    /// The unit marker, also written for an absent optional value.
    pub fn empty() -> (r: ParsedData)
        ensures
            r@ == leaf(Payload::Empty),
    {
        ParsedData::with_data(DataEnum::Empty)
    }

    /// A copy of the whole tree.
    pub fn duplicate(&self) -> (r: ParsedData)
        ensures
            r@ == self@,
        decreases self,
    {
        let name = self.name.clone();
        match &self.data {
            DataEnum::Node(v) => {
                let c = ParsedData::duplicate_children(v);
                let r = ParsedData { data: DataEnum::Node(c), name, need_delete: self.need_delete };
                proof {
                    assert forall|i: int| 0 <= i < c@.len() implies r@.data->Node_0[i] == self@.data->Node_0[i] by {
                        assert(c@[i]@ == v@[i]@);
                    }
                    assert(r@.data->Node_0 =~= self@.data->Node_0);
                }
                r
            },
            DataEnum::Enum(n, v) => {
                let c = ParsedData::duplicate_children(v);
                let r = ParsedData { data: DataEnum::Enum(n.clone(), c), name, need_delete: self.need_delete };
                proof {
                    assert forall|i: int| 0 <= i < c@.len() implies r@.data->Enum_1[i] == self@.data->Enum_1[i] by {
                        assert(c@[i]@ == v@[i]@);
                    }
                    assert(r@.data->Enum_1 =~= self@.data->Enum_1);
                }
                r
            },
            DataEnum::Pair(b) => {
                let data = DataEnum::Pair(Box::new((b.0.duplicate(), b.1.duplicate())));
                ParsedData { data, name, need_delete: self.need_delete }
            },
            DataEnum::Data(b) => ParsedData { data: DataEnum::Data(copy_bytes(b.as_slice())), name, need_delete: self.need_delete },
            DataEnum::String(t) => ParsedData { data: DataEnum::String(t.clone()), name, need_delete: self.need_delete },
            DataEnum::Int(v, r) => ParsedData { data: DataEnum::Int(*v, *r), name, need_delete: self.need_delete },
            DataEnum::Float(b) => ParsedData { data: DataEnum::Float(*b), name, need_delete: self.need_delete },
            DataEnum::Bool(b) => ParsedData { data: DataEnum::Bool(*b), name, need_delete: self.need_delete },
            DataEnum::Empty => ParsedData { data: DataEnum::Empty, name, need_delete: self.need_delete },
        }
    }

    fn duplicate_children(v: &Vec<ParsedData>) -> (r: Vec<ParsedData>)
        ensures
            r@.len() == v@.len(),
            forall|i: int| 0 <= i < v@.len() ==> #[trigger] r@[i]@ == v@[i]@,
        decreases v,
    {
        let mut out: Vec<ParsedData> = Vec::new();
        for i in 0..v.len()
            invariant
                out@.len() == i,
                forall|j: int| 0 <= j < i ==> #[trigger] out@[j]@ == v@[j]@,
        {
            proof { vstd::std_specs::vec::axiom_vec_index_decreases(*v, i as int); }
            out.push(v[i].duplicate());
        }
        out
    }
}

fn same_bytes(a: &Vec<u8>, b: &Vec<u8>) -> (r: bool)
    ensures
        r == (a@ == b@),
{
    if a.len() != b.len() {
        return false;
    }
    let mut i: usize = 0;
    while i < a.len()
        invariant
            a@.len() == b@.len(),
            i <= a@.len(),
            forall|j: int| 0 <= j < i ==> a@[j] == b@[j],
        decreases a@.len() - i,
    {
        if a[i] != b[i] {
            return false;
        }
        i = i + 1;
    }
    proof { assert(a@ =~= b@); }
    true
}

/// Do the two trees have the same view?
fn same_tree(a: &ParsedData, b: &ParsedData) -> (r: bool)
    ensures
        r == (a@ == b@),
    decreases a,
{
    if a.need_delete != b.need_delete || a.name != b.name {
        return false;
    }
    let same_data = match (&a.data, &b.data) {
        (DataEnum::Node(x), DataEnum::Node(y)) => {
            let r = same_children(x, y);
            proof {
                assert(a@.data->Node_0 =~= views(x@));
                assert(b@.data->Node_0 =~= views(y@));
            }
            r
        },
        (DataEnum::Enum(n, x), DataEnum::Enum(m, y)) => {
            let r = *n == *m && same_children(x, y);
            proof {
                assert(a@.data->Enum_1 =~= views(x@));
                assert(b@.data->Enum_1 =~= views(y@));
            }
            r
        },
        (DataEnum::Pair(p), DataEnum::Pair(q)) => same_tree(&p.0, &q.0) && same_tree(&p.1, &q.1),
        (DataEnum::Data(x), DataEnum::Data(y)) => same_bytes(x, y),
        (DataEnum::String(x), DataEnum::String(y)) => *x == *y,
        (DataEnum::Int(v, r), DataEnum::Int(w, q)) => *v == *w && *r == *q,
        (DataEnum::Float(x), DataEnum::Float(y)) => *x == *y,
        (DataEnum::Bool(x), DataEnum::Bool(y)) => *x == *y,
        (DataEnum::Empty, DataEnum::Empty) => true,
        _ => false,
    };
    proof {
        if same_data {
            assert(a@.data == b@.data);
            assert(a@ =~= b@);
        } else {
            assert(a@.data != b@.data);
        }
    }
    same_data
}

fn same_children(x: &Vec<ParsedData>, y: &Vec<ParsedData>) -> (r: bool)
    ensures
        r == (views(x@) == views(y@)),
    decreases x,
{
    if x.len() != y.len() {
        proof { assert(views(x@).len() != views(y@).len()); }
        return false;
    }
    let mut i: usize = 0;
    while i < x.len()
        invariant
            x@.len() == y@.len(),
            i <= x@.len(),
            forall|j: int| 0 <= j < i ==> #[trigger] x@[j]@ == y@[j]@,
        decreases x@.len() - i,
    {
        proof { vstd::std_specs::vec::axiom_vec_index_decreases(*x, i as int); }
        if !same_tree(&x[i], &y[i]) {
            proof { assert(views(x@)[i as int] != views(y@)[i as int]); }
            return false;
        }
        i = i + 1;
    }
    proof { assert(views(x@) =~= views(y@)); }
    true
}

impl PartialEq for ParsedData {
    fn eq(&self, other: &ParsedData) -> (r: bool) {
        same_tree(self, other)
    }
}

impl vstd::std_specs::cmp::PartialEqSpecImpl for ParsedData {
    open spec fn obeys_eq_spec() -> bool {
        true
    }

    open spec fn eq_spec(&self, other: &ParsedData) -> bool {
        self@ == other@
    }
}

impl Clone for ParsedData {
    /// A copy of the whole tree.
    fn clone(&self) -> (r: ParsedData)
        ensures
            r@ == self@,
    {
        self.duplicate()
    }
}

impl Default for DataEnum {
    /// The unit marker.
    fn default() -> (r: DataEnum)
        ensures
            r == DataEnum::Empty,
    {
        DataEnum::Empty
    }
}

impl Default for ParsedData {
    /// An unnamed unit marker.
    fn default() -> (r: ParsedData)
        ensures
            r@ == leaf(Payload::Empty),
    {
        ParsedData::empty()
    }
}

} // verus!
