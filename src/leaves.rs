use vstd::prelude::*;
use crate::path::{child_path, join_path};
use crate::tree::{views, DataEnum, IntRange, ParsedData, Payload, Tree};

verus! {

/// The value of a numeric leaf.
#[derive(Clone, Copy, Debug, PartialEq, Eq, Structural)]
pub enum Number {
    Int(i128, IntRange),
    /// A binary64 number, as its bit pattern.
    Float(u64),
}

/// A numeric leaf and its path.
#[derive(Debug)]
pub struct Leaf {
    pub path: String,
    pub number: Number,
}

pub open spec fn leaf_entries(s: Seq<Leaf>) -> Seq<(Seq<char>, Number)> {
    Seq::new(s.len(), |i: int| (s[i].path@, s[i].number))
}

/// The numeric leaves of a tree below `prefix`, each under its path.
pub open spec fn numbers(t: Tree, prefix: Seq<char>) -> Seq<(Seq<char>, Number)>
    decreases t, 1nat,
{
    numbers_at(t, child_path(prefix, t.name))
}

/// The numeric leaves of a tree at the path `id`, in the order of a walk.
pub open spec fn numbers_at(t: Tree, id: Seq<char>) -> Seq<(Seq<char>, Number)>
    decreases t, 0nat,
{
    match t.data {
        Payload::Node(s) => numbers_seq(s, id, s.len()),
        Payload::Pair(_, v) => numbers(*v, id),
        Payload::Enum(_, s) => numbers_seq(s, id, s.len()),
        Payload::Int(v, r) => seq![(id, Number::Int(v, r))],
        Payload::Float(b) => seq![(id, Number::Float(b))],
        _ => Seq::empty(),
    }
}

/// The numeric leaves of the first `n` children.
pub open spec fn numbers_seq(s: Seq<Tree>, id: Seq<char>, n: nat) -> Seq<(Seq<char>, Number)>
    decreases s, n,
{
    if n == 0 || n > s.len() {
        Seq::empty()
    } else {
        numbers_seq(s, id, (n - 1) as nat) + numbers(s[n - 1], id)
    }
}

/// Appends to `out` the numeric leaves of `data`, whose paths start at `id`.
pub fn collect_numbers(data: &ParsedData, out: &mut Vec<Leaf>, id: &str)
    ensures
        leaf_entries(final(out)@) == leaf_entries(old(out)@) + numbers(data@, id@),
    decreases data, 1nat,
{
    let path = join_path(id, data.name.as_str());
    collect_at(data, out, path);
}

/// Appends to `out` the numeric leaves of `data`, which sits at `path`.
fn collect_at(data: &ParsedData, out: &mut Vec<Leaf>, path: String)
    ensures
        leaf_entries(final(out)@) == leaf_entries(old(out)@) + numbers_at(data@, path@),
    decreases data, 0nat,
{
    let ghost id = path@;
    let ghost start = leaf_entries(out@);
    match &data.data {
        DataEnum::Node(a) => {
            proof { assert(data@.data->Node_0 =~= views(a@)); }
            collect_children(a, out, &path);
        },
        DataEnum::Enum(_, a) => {
            proof { assert(data@.data->Enum_1 =~= views(a@)); }
            collect_children(a, out, &path);
        },
        DataEnum::Pair(b) => {
            collect_numbers(&b.1, out, path.as_str());
        },
        DataEnum::Int(v, r) => {
            out.push(Leaf { path, number: Number::Int(*v, *r) });
            proof { assert(leaf_entries(out@) =~= start + numbers_at(data@, id)); }
        },
        DataEnum::Float(b) => {
            out.push(Leaf { path, number: Number::Float(*b) });
            proof { assert(leaf_entries(out@) =~= start + numbers_at(data@, id)); }
        },
        _ => {
            proof { assert(leaf_entries(out@) =~= start + numbers_at(data@, id)); }
        },
    }
}

fn collect_children(a: &Vec<ParsedData>, out: &mut Vec<Leaf>, id: &String)
    ensures
        leaf_entries(final(out)@) == leaf_entries(old(out)@) + numbers_seq(views(a@), id@, a@.len()),
    decreases a,
{
    let ghost sa = views(a@);
    let ghost start = leaf_entries(out@);
    let mut i: usize = 0;
    while i < a.len()
        invariant
            i <= a@.len(),
            sa.len() == a@.len(),
            forall|j: int| 0 <= j < a@.len() ==> #[trigger] sa[j] == a@[j]@,
            leaf_entries(out@) == start + numbers_seq(sa, id@, i as nat),
        decreases a@.len() - i,
    {
        proof { vstd::std_specs::vec::axiom_vec_index_decreases(*a, i as int); }
        collect_numbers(&a[i], out, id.as_str());
        proof {
            assert(sa[i as int] == a@[i as int]@);
            assert(leaf_entries(out@) =~= start + numbers_seq(sa, id@, (i + 1) as nat));
        }
        i = i + 1;
    }
}

/// The numeric leaves of a tree whose root sits at the empty path.
pub fn numeric_leaves(data: &ParsedData) -> (r: Vec<Leaf>)
    ensures
        leaf_entries(r@) == numbers_at(data@, Seq::empty()),
{
    let mut out: Vec<Leaf> = Vec::new();
    proof { assert(leaf_entries(out@) =~= Seq::empty()); }
    collect_at(data, &mut out, String::new());
    proof { assert(leaf_entries(out@) =~= numbers_at(data@, Seq::empty())); }
    out
}

} // verus!
