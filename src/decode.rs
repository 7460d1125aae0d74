use vstd::prelude::*;
use vstd::string::{StrSliceExecFns, StringExecFns};
use crate::encode::renamed;
use crate::tree::{copy_bytes, leaf, views, DataEnum, Error, ParsedData, Payload, Tree};

verus! {

/// The node marked as having handed out its value.
pub open spec fn consumed(t: Tree) -> Tree {
    Tree { consumed: true, ..t }
}

/// The error for a node that is not of the kind `kind`.
pub open spec fn shape_error(e: Error, kind: Seq<char>) -> bool {
    e matches Error::UnexpectedType(s) && s@ == kind
}

/// The children that have not handed out their value yet.
pub open spec fn kept(s: Seq<Tree>) -> Seq<Tree> {
    s.filter(|c: Tree| !c.consumed)
}

fn shape(kind: &str) -> (e: Error)
    ensures
        shape_error(e, kind@),
{
    Error::UnexpectedType(String::from_str(kind))
}

impl ParsedData {
    /// Reads a boolean leaf and marks it consumed.
    pub fn take_bool(&mut self) -> (r: Result<bool, Error>)
        ensures
            match old(self)@.data {
                Payload::Bool(b) => r == Ok::<bool, Error>(b) && final(self)@ == consumed(old(self)@),
                _ => r is Err && shape_error(r->Err_0, "bool"@) && final(self)@ == old(self)@,
            },
    {
        match &self.data {
            DataEnum::Bool(b) => {
                let b = *b;
                self.need_delete = true;
                Ok(b)
            },
            _ => Err(shape("bool")),
        }
    }

    /// Reads an integer leaf and marks it consumed.
    pub fn take_int(&mut self) -> (r: Result<i128, Error>)
        ensures
            match old(self)@.data {
                Payload::Int(v, _) => r == Ok::<i128, Error>(v) && final(self)@ == consumed(old(self)@),
                _ => r is Err && shape_error(r->Err_0, "integer"@) && final(self)@ == old(self)@,
            },
    {
        match &self.data {
            DataEnum::Int(v, _) => {
                let v = *v;
                self.need_delete = true;
                Ok(v)
            },
            _ => Err(shape("integer")),
        }
    }

    /// Reads a float leaf, as its bit pattern, and marks it consumed.
    pub fn take_float_bits(&mut self) -> (r: Result<u64, Error>)
        ensures
            match old(self)@.data {
                Payload::Float(b) => r == Ok::<u64, Error>(b) && final(self)@ == consumed(old(self)@),
                _ => r is Err && shape_error(r->Err_0, "float"@) && final(self)@ == old(self)@,
            },
    {
        match &self.data {
            DataEnum::Float(b) => {
                let b = *b;
                self.need_delete = true;
                Ok(b)
            },
            _ => Err(shape("float")),
        }
    }

    /// Reads a text leaf and marks it consumed.
    pub fn take_text(&mut self) -> (r: Result<String, Error>)
        ensures
            match old(self)@.data {
                Payload::Text(s) => r is Ok && r->Ok_0@ == s && final(self)@ == consumed(old(self)@),
                _ => r is Err && shape_error(r->Err_0, "string"@) && final(self)@ == old(self)@,
            },
    {
        match &self.data {
            DataEnum::String(s) => {
                let s = s.clone();
                self.need_delete = true;
                Ok(s)
            },
            _ => Err(shape("string")),
        }
    }

    /// Reads a bytes leaf and marks it consumed.
    pub fn take_bytes(&mut self) -> (r: Result<Vec<u8>, Error>)
        ensures
            match old(self)@.data {
                Payload::Data(b) => r is Ok && r->Ok_0@ == b && final(self)@ == consumed(old(self)@),
                _ => r is Err && shape_error(r->Err_0, "bytes"@) && final(self)@ == old(self)@,
            },
    {
        match &self.data {
            DataEnum::Data(b) => {
                let b = copy_bytes(b.as_slice());
                self.need_delete = true;
                Ok(b)
            },
            _ => Err(shape("bytes")),
        }
    }

    /// Checks for the unit marker; nothing is marked.
    pub fn expect_empty(&self) -> (r: Result<(), Error>)
        ensures
            self@.data is Empty ==> r is Ok,
            !(self@.data is Empty) ==> r is Err && shape_error(r->Err_0, "None"@),
    {
        match &self.data {
            DataEnum::Empty => Ok(()),
            _ => Err(shape("None")),
        }
    }

    /// Is this the unit marker, that is, an absent optional value?
    pub fn is_empty_marker(&self) -> (r: bool)
        ensures
            r == self@.data is Empty,
    {
        match &self.data {
            DataEnum::Empty => true,
            _ => false,
        }
    }
}

fn strip_consumed(v: &Vec<ParsedData>) -> (r: Vec<ParsedData>)
    ensures
        views(r@) == kept(views(v@)),
{
    let ghost sv = views(v@);
    let mut out: Vec<ParsedData> = Vec::new();
    let mut i: usize = 0;
    proof { assert(sv.take(0) =~= Seq::<Tree>::empty()); reveal(Seq::filter); }
    while i < v.len()
        invariant
            i <= v@.len(),
            sv == views(v@),
            views(out@) == kept(sv.take(i as int)),
        decreases v@.len() - i,
    {
        proof {
            assert(sv.take(i + 1).drop_last() =~= sv.take(i as int));
            reveal(Seq::filter);
        }
        if !v[i].need_delete {
            out.push(v[i].duplicate());
            proof { assert(views(out@) =~= kept(sv.take(i + 1))); }
        } else {
            proof { assert(views(out@) =~= kept(sv.take(i + 1))); }
        }
        i = i + 1;
    }
    proof { assert(sv.take(v@.len() as int) =~= sv); }
    out
}

impl ParsedData {
    /// Drops the children that have handed out their value, and counts those
    /// left. Only an aggregate has children.
    pub fn remaining(&mut self) -> (r: Result<usize, Error>)
        ensures
            match old(self)@.data {
                Payload::Node(s) => r is Ok && r->Ok_0 == kept(s).len()
                    && final(self)@ == (Tree { data: Payload::Node(kept(s)), ..old(self)@ }),
                _ => r is Err && shape_error(r->Err_0, "seq"@) && final(self)@ == old(self)@,
            },
    {
        let ghost before = *self;
        let r = match &mut self.data {
            DataEnum::Node(v) => {
                let ghost sv = views(v@);
                proof { assert(before@.data->Node_0 =~= sv); }
                let kept_children = strip_consumed(v);
                let n = kept_children.len();
                *v = kept_children;
                proof { assert(views(v@) == kept(sv)); }
                Ok(n)
            },
            _ => Err(shape("seq")),
        };
        proof {
            if before@.data is Node {
                assert(self@.data->Node_0 =~= views(self.data->Node_0@));
            }
        }
        r
    }
}

/// How a self-describing read takes a node.
#[derive(Clone, Copy, Debug, PartialEq, Eq, Structural)]
pub enum AnyShape {
    /// An aggregate whose children are read in turn.
    Sequence,
    /// An aggregate of entries, read by key.
    Mapping,
    /// Not an aggregate: read by the kind of its payload.
    Single,
}

/// A child as an entry keyed by its own name.
pub open spec fn named_entry(c: Tree) -> Tree {
    Tree {
        data: Payload::Pair(Box::new(leaf(Payload::Text(c.name))), Box::new(c)),
        name: c.name,
        consumed: false,
    }
}

/// A child as an entry keyed by a field name.
pub open spec fn field_entry(field: Seq<char>, c: Tree) -> Tree {
    Tree {
        data: Payload::Pair(Box::new(leaf(Payload::Text(field))), Box::new(c)),
        name: Seq::empty(),
        consumed: false,
    }
}

/// The children of an aggregate read as a struct with the given field names.
pub open spec fn struct_entries(s: Seq<Tree>, fields: Seq<&str>) -> Seq<Tree> {
    Seq::new(s.len(), |i: int| field_entry(fields[i]@, s[i]))
}

/// Writing a struct field by field and reading it back as a struct with the
/// same field names gives, for each field in turn, an entry keyed by the field's
/// name whose value holds exactly what was written for it.
pub proof fn struct_round_trip(fields: Seq<&str>, values: Seq<Tree>)
    requires
        fields.len() == values.len(),
    ensures
        ({
            let written = Seq::new(values.len(), |i: int| renamed(values[i], fields[i]@));
            let read = struct_entries(written, fields);
            &&& read.len() == values.len()
            &&& forall|i: int|
                0 <= i < values.len() ==> (#[trigger] read[i]).data is Pair && read[i].data->Pair_0.data
                    == Payload::Text(fields[i]@) && read[i].data->Pair_1.data == values[i].data
        }),
{
}

pub open spec fn has_blank_name(s: Seq<Tree>) -> bool {
    exists|i: int| 0 <= i < s.len() && (#[trigger] s[i]).name.len() == 0
}

/// A self-describing read: an aggregate with one child stands for that child;
/// one with an unnamed child is a sequence; any other aggregate becomes a map
/// of its children keyed by their names.
pub open spec fn settled(t: Tree) -> (Tree, AnyShape)
    decreases t,
{
    match t.data {
        Payload::Node(s) => if s.len() == 1 {
            settled(s[0])
        } else if has_blank_name(s) {
            (t, AnyShape::Sequence)
        } else {
            (
                Tree {
                    data: Payload::Node(Seq::new(s.len(), |i: int| named_entry(s[i]))),
                    name: Seq::empty(),
                    consumed: false,
                },
                AnyShape::Mapping,
            )
        },
        _ => (t, AnyShape::Single),
    }
}

impl ParsedData {
    /// Reads the next element of a sequence: drops the consumed children, then
    /// removes the last child left and hands it out. Elements thus come last
    /// first, and each is handed out once, whatever it holds.
    pub fn take_last_child(&mut self) -> (r: Result<Option<ParsedData>, Error>)
        ensures
            match old(self)@.data {
                Payload::Node(s) => if kept(s).len() == 0 {
                    r is Ok && r->Ok_0 is None && final(self)@ == (Tree { data: Payload::Node(kept(s)), ..old(self)@ })
                } else {
                    r is Ok && r->Ok_0 is Some && r->Ok_0->Some_0@ == kept(s).last()
                        && final(self)@ == (Tree { data: Payload::Node(kept(s).drop_last()), ..old(self)@ })
                },
                _ => r is Err && shape_error(r->Err_0, "seq"@) && final(self)@ == old(self)@,
            },
    {
        let n = match self.remaining() {
            Ok(n) => n,
            Err(e) => {
                return Err(e);
            },
        };
        if n == 0 {
            return Ok(None);
        }
        let ghost mid = *self;
        let r = match &mut self.data {
            DataEnum::Node(v) => v.pop(),
            _ => None,
        };
        proof {
            let s = mid@.data->Node_0;
            assert(s =~= views(mid.data->Node_0@));
            assert forall|i: int| 0 <= i < s.len() - 1 implies self@.data->Node_0[i] == s.drop_last()[i] by {
                assert(self@.data->Node_0[i] == self.data->Node_0@[i]@);
            }
            assert(self@.data->Node_0 =~= s.drop_last());
        }
        Ok(r)
    }

    /// Drops the consumed children, then hands out copies of the key and the
    /// value of the last entry left, without marking it.
    pub fn next_entry(&mut self) -> (r: Result<Option<(ParsedData, ParsedData)>, Error>)
        ensures
            match old(self)@.data {
                Payload::Node(s) => final(self)@ == (Tree { data: Payload::Node(kept(s)), ..old(self)@ }) && (
                if kept(s).len() == 0 {
                    r is Ok && r->Ok_0 is None
                } else {
                    match kept(s).last().data {
                        Payload::Pair(k, v) => r is Ok && r->Ok_0 is Some && r->Ok_0->Some_0.0@ == *k
                            && r->Ok_0->Some_0.1@ == *v,
                        _ => r is Err && shape_error(r->Err_0, "Map"@),
                    }
                }),
                _ => r is Err && shape_error(r->Err_0, "seq"@) && final(self)@ == old(self)@,
            },
    {
        let n = match self.remaining() {
            Ok(n) => n,
            Err(e) => {
                return Err(e);
            },
        };
        if n == 0 {
            return Ok(None);
        }
        match &self.data {
            DataEnum::Node(v) => {
                proof { assert(self@.data->Node_0[n - 1] == v@[n - 1]@); }
                match &v[n - 1].data {
                    DataEnum::Pair(b) => Ok(Some((b.0.duplicate(), b.1.duplicate()))),
                    _ => Err(shape("Map")),
                }
            },
            _ => Err(shape("seq")),
        }
    }

    /// Marks the last child consumed.
    pub fn consume_last(&mut self)
        requires
            old(self)@.data is Node,
            old(self)@.data->Node_0.len() > 0,
        ensures
            ({
                let s = old(self)@.data->Node_0;
                final(self)@ == (Tree {
                    data: Payload::Node(s.update(s.len() - 1, consumed(s[s.len() - 1]))),
                    ..old(self)@
                })
            }),
    {
        let ghost before = *self;
        match &mut self.data {
            DataEnum::Node(v) => {
                let n = v.len();
                v[n - 1].need_delete = true;
            },
            _ => {},
        }
        proof {
            let s = before@.data->Node_0;
            let t = s.update(s.len() - 1, consumed(s[s.len() - 1]));
            assert forall|i: int| 0 <= i < s.len() implies self@.data->Node_0[i] == t[i] by {
                assert(self@.data->Node_0[i] == self.data->Node_0@[i]@);
                assert(s[i] == before.data->Node_0@[i]@);
            }
            assert(self@.data->Node_0 =~= t);
        }
    }

    /// Reads an aggregate as a struct: each child becomes an entry keyed by the
    /// field name at its position. Fails where there are fewer names than
    /// children.
    pub fn struct_as_map(&mut self, fields: &[&str]) -> (r: Result<(), Error>)
        ensures
            match old(self)@.data {
                Payload::Node(s) => if s.len() <= fields@.len() {
                    r is Ok && final(self)@ == (Tree {
                        data: Payload::Node(struct_entries(s, fields@)),
                        name: Seq::empty(),
                        consumed: old(self)@.consumed,
                    })
                } else {
                    r is Err && shape_error(r->Err_0, "struct"@) && final(self)@ == old(self)@
                },
                _ => r is Err && shape_error(r->Err_0, "struct"@) && final(self)@ == old(self)@,
            },
    {
        let ghost before = self@;
        let mut out: Vec<ParsedData> = Vec::new();
        match &self.data {
            DataEnum::Node(v) => {
                if v.len() > fields.len() {
                    return Err(shape("struct"));
                }
                proof {
                    assert forall|j: int| 0 <= j < v@.len() implies #[trigger] before.data->Node_0[j] == v@[j]@ by {}
                }
                let mut i: usize = 0;
                while i < v.len()
                    invariant
                        i <= v@.len(),
                        v@.len() <= fields@.len(),
                        before == self@,
                        self.data == DataEnum::Node(*v),
                        out@.len() == i,
                        forall|j: int| 0 <= j < i ==> #[trigger] out@[j]@ == field_entry(fields@[j]@, v@[j]@),
                        forall|j: int| 0 <= j < v@.len() ==> #[trigger] before.data->Node_0[j] == v@[j]@,
                    decreases v@.len() - i,
                {
                    let key = ParsedData::from_str(fields[i]);
                    let child = v[i].duplicate();
                    out.push(ParsedData { data: DataEnum::Pair(Box::new((key, child))), name: String::new(), need_delete: false });
                    i = i + 1;
                }
            },
            _ => {
                return Err(shape("struct"));
            },
        }
        let ghost kids = out@;
        *self = ParsedData { data: DataEnum::Node(out), name: String::new(), need_delete: self.need_delete };
        proof {
            let s = before.data->Node_0;
            let t = struct_entries(s, fields@);
            assert forall|i: int| 0 <= i < s.len() implies self@.data->Node_0[i] == t[i] by {
                assert(self@.data->Node_0[i] == kids[i]@);
            }
            assert(self@.data->Node_0 =~= t);
        }
        Ok(())
    }
}

impl ParsedData {
    /// Prepares a self-describing read of this node (see `settled`) and says how
    /// to take what it became.
    pub fn settle_any(&mut self) -> (r: AnyShape)
        ensures
            (final(self)@, r) == settled(old(self)@),
        decreases *old(self),
    {
        let ghost before = *self;
        let n = match &self.data {
            DataEnum::Node(v) => v.len(),
            _ => {
                return AnyShape::Single;
            },
        };
        if n == 1 {
            let child = match &mut self.data {
                DataEnum::Node(v) => v.pop().unwrap(),
                _ => ParsedData::empty(),
            };
            proof {
                vstd::std_specs::vec::axiom_vec_index_decreases(before.data->Node_0, 0);
                assert(child@ == before@.data->Node_0[0]);
            }
            *self = child;
            let r = self.settle_any();
            return r;
        }
        let mut out: Vec<ParsedData> = Vec::new();
        match &self.data {
            DataEnum::Node(v) => {
                let mut i: usize = 0;
                while i < v.len()
                    invariant
                        i <= v@.len(),
                        v@.len() != 1,
                        before == *self,
                        before == *old(self),
                        self.data == DataEnum::Node(*v),
                        out@.len() == i,
                        forall|j: int| 0 <= j < i ==> (#[trigger] v@[j]@).name.len() > 0,
                        forall|j: int| 0 <= j < i ==> #[trigger] out@[j]@ == named_entry(v@[j]@),
                    decreases v@.len() - i,
                {
                    if v[i].name.as_str().unicode_len() == 0 {
                        proof {
                            assert(before@.data->Node_0[i as int] == v@[i as int]@);
                            assert(has_blank_name(before@.data->Node_0));
                        }
                        return AnyShape::Sequence;
                    }
                    let key = ParsedData::from_string(v[i].name.clone());
                    let child = v[i].duplicate();
                    let name = v[i].name.clone();
                    out.push(ParsedData { data: DataEnum::Pair(Box::new((key, child))), name, need_delete: false });
                    i = i + 1;
                }
                proof {
                    let s = before@.data->Node_0;
                    assert forall|j: int| 0 <= j < s.len() implies (#[trigger] s[j]).name.len() > 0 by {
                        assert(s[j] == v@[j]@);
                    }
                }
            },
            _ => {},
        }
        let ghost kids = out@;
        *self = ParsedData { data: DataEnum::Node(out), name: String::new(), need_delete: false };
        proof {
            let s = before@.data->Node_0;
            let t = Seq::new(s.len(), |i: int| named_entry(s[i]));
            assert forall|i: int| 0 <= i < s.len() implies self@.data->Node_0[i] == t[i] by {
                assert(self@.data->Node_0[i] == kids[i]@);
                assert(s[i] == before.data->Node_0@[i]@);
            }
            assert(self@.data->Node_0 =~= t);
        }
        AnyShape::Mapping
    }
}

} // verus!
