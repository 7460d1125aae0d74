use vstd::prelude::*;
use vstd::string::StringExecFns;
use crate::text::{int_text, int_to_text, nat_text, nat_to_text};
use crate::tree::{views, DataEnum, ParsedData, Payload, Tree};

verus! {

/// The tree with another name.
pub open spec fn renamed(t: Tree, name: Seq<char>) -> Tree {
    Tree { name, ..t }
}

/// The name a map entry is addressed by: the rendering of a text, integer or
/// boolean key; a float key's own name, which its writer sets to the number's
/// rendering; nothing for any other key.
pub open spec fn key_name(k: Tree) -> Seq<char> {
    match k.data {
        Payload::Text(s) => s,
        Payload::Int(v, _) => int_text(v as int),
        Payload::Bool(b) => if b {
            seq!['t', 'r', 'u', 'e']
        } else {
            seq!['f', 'a', 'l', 's', 'e']
        },
        Payload::Float(_) => k.name,
        _ => Seq::empty(),
    }
}

/// An aggregate under construction: the children written so far, and the name
/// the finished node will carry.
#[derive(Debug)]
pub struct Layer {
    pub inner: Vec<ParsedData>,
    pub final_name: String,
}

impl Layer {
    pub fn new(final_name: String) -> (r: Layer)
        ensures
            r.inner@.len() == 0,
            r.final_name@ == final_name@,
    {
        Layer { inner: Vec::new(), final_name }
    }

    /// Adds the next element of a sequence or tuple, named by its position.
    pub fn push_element(&mut self, value: ParsedData)
        ensures
            views(final(self).inner@) == views(old(self).inner@).push(
                renamed(value@, nat_text(old(self).inner@.len())),
            ),
            final(self).final_name == old(self).final_name,
    {
        let mut value = value;
        value.name = nat_to_text(self.inner.len() as u128);
        self.inner.push(value);
        proof {
            assert(views(self.inner@) =~= views(old(self).inner@).push(
                renamed(value@, nat_text(old(self).inner@.len())),
            ));
        }
    }

    /// Adds a field of a tuple struct, under the name it already carries.
    pub fn push_unnamed(&mut self, value: ParsedData)
        ensures
            views(final(self).inner@) == views(old(self).inner@).push(value@),
            final(self).final_name == old(self).final_name,
    {
        self.inner.push(value);
        proof { assert(views(self.inner@) =~= views(old(self).inner@).push(value@)); }
    }

    /// Adds a named field of a struct.
    pub fn push_field(&mut self, name: &str, value: ParsedData)
        ensures
            views(final(self).inner@) == views(old(self).inner@).push(renamed(value@, name@)),
            final(self).final_name == old(self).final_name,
    {
        let mut value = value;
        value.name = String::from_str(name);
        self.inner.push(value);
        proof { assert(views(self.inner@) =~= views(old(self).inner@).push(renamed(value@, name@))); }
    }

    /// Adds the key of the next map entry; its value follows.
    pub fn push_key(&mut self, key: ParsedData)
        ensures
            views(final(self).inner@) == views(old(self).inner@).push(renamed(key@, key_name(key@))),
            final(self).final_name == old(self).final_name,
    {
        let mut k = key;
        let name = match &k.data {
            DataEnum::String(s) => s.clone(),
            DataEnum::Int(v, _) => int_to_text(*v),
            DataEnum::Bool(b) => {
                if *b {
                    proof { reveal_strlit("true"); }
                    String::from_str("true")
                } else {
                    proof { reveal_strlit("false"); }
                    String::from_str("false")
                }
            },
            DataEnum::Float(_) => k.name.clone(),
            _ => String::new(),
        };
        proof { assert(name@ == key_name(key@)); }
        k.name = name;
        proof { assert(k@ =~~= renamed(key@, key_name(key@))); }
        self.inner.push(k);
        proof {
            assert(views(self.inner@) =~= views(old(self).inner@).push(renamed(key@, key_name(key@))));
        }
    }

    /// Joins the value of a map entry to the key written last.
    pub fn push_value(&mut self, value: ParsedData)
        requires
            old(self).inner@.len() > 0,
        ensures
            ({
                let n = old(self).inner@.len() - 1;
                let k = old(self).inner@[n]@;
                views(final(self).inner@) == views(old(self).inner@).update(
                    n,
                    Tree { data: Payload::Pair(Box::new(k), Box::new(value@)), name: k.name, consumed: false },
                )
            }),
            final(self).final_name == old(self).final_name,
    {
        let key = self.inner.pop().unwrap();
        let name = key.name.clone();
        let pair = ParsedData { data: DataEnum::Pair(Box::new((key, value))), name, need_delete: false };
        self.inner.push(pair);
        proof {
            let n = old(self).inner@.len() - 1;
            let k = old(self).inner@[n]@;
            assert(views(self.inner@) =~= views(old(self).inner@).update(
                n,
                Tree { data: Payload::Pair(Box::new(k), Box::new(value@)), name: k.name, consumed: false },
            ));
        }
    }

    /// Closes the layer as an aggregate node under its name.
    pub fn end(self) -> (r: ParsedData)
        ensures
            r@ == (Tree { data: Payload::Node(views(self.inner@)), name: self.final_name@, consumed: false }),
    {
        let ghost kids = self.inner@;
        let r = ParsedData { data: DataEnum::Node(self.inner), name: self.final_name, need_delete: false };
        proof { assert(r@.data->Node_0 =~= views(kids)); }
        r
    }

    /// Closes the layer as an enum value: the variant is the layer's name, and
    /// the node carries that name too.
    pub fn end_variant(self) -> (r: ParsedData)
        ensures
            r@ == (Tree {
                data: Payload::Enum(self.final_name@, views(self.inner@)),
                name: self.final_name@,
                consumed: false,
            }),
    {
        let ghost kids = self.inner@;
        let name = self.final_name.clone();
        let r = ParsedData { data: DataEnum::Enum(self.final_name, self.inner), name, need_delete: false };
        proof { assert(r@.data->Enum_1 =~= views(kids)); }
        r
    }
}

impl ParsedData {
    /// A unit struct: the unit marker under the struct's name.
    pub fn unit_struct(name: &str) -> (r: ParsedData)
        ensures
            r@ == (Tree { data: Payload::Empty, name: name@, consumed: false }),
    {
        ParsedData { data: DataEnum::Empty, name: String::from_str(name), need_delete: false }
    }

    /// A unit variant of the enum `name`: no payload.
    pub fn unit_variant(name: &str, variant: &str) -> (r: ParsedData)
        ensures
            r@ == (Tree { data: Payload::Enum(variant@, Seq::empty()), name: name@, consumed: false }),
    {
        let r = ParsedData {
            data: DataEnum::Enum(String::from_str(variant), Vec::new()),
            name: String::from_str(name),
            need_delete: false,
        };
        proof { assert(r@.data->Enum_1 =~= Seq::<Tree>::empty()); }
        r
    }

    /// A variant with one payload, named by the variant's index.
    pub fn newtype_variant(index: u32, variant: &str, value: ParsedData) -> (r: ParsedData)
        ensures
            r@ == (Tree {
                data: Payload::Enum(variant@, seq![value@]),
                name: nat_text(index as nat),
                consumed: false,
            }),
    {
        let ghost v = value@;
        let mut payload: Vec<ParsedData> = Vec::new();
        payload.push(value);
        let r = ParsedData {
            data: DataEnum::Enum(String::from_str(variant), payload),
            name: nat_to_text(index as u128),
            need_delete: false,
        };
        proof { assert(r@.data->Enum_1 =~= seq![v]); }
        r
    }
}

} // verus!
