use vstd::prelude::*;
use crate::path::{child_path, float_changed, floats_changed, join_path};
use crate::tree::{views, DataEnum, ParsedData, Payload, Tree};

verus! {

/// A numeric leaf that differs between two trees: its value on the left and
/// on the right. The difference is left minus right.
#[derive(Clone, Copy, Debug, PartialEq, Eq, Structural)]
pub enum Change {
    Int(i128, i128),
    /// Two binary64 numbers, as bit patterns.
    Float(u64, u64),
}

/// One entry of a difference: the path of the leaf and how it changed.
#[derive(Debug)]
pub struct Delta {
    pub path: String,
    pub change: Change,
}

pub open spec fn entries(s: Seq<Delta>) -> Seq<(Seq<char>, Change)> {
    Seq::new(s.len(), |i: int| (s[i].path@, s[i].change))
}

/// The changed numeric leaves between two trees of one shape, each under its
/// path, for trees that sit below `prefix`.
pub open spec fn diff(l: Tree, r: Tree, prefix: Seq<char>) -> Seq<(Seq<char>, Change)>
    decreases l, 1nat,
{
    diff_at(l, r, child_path(prefix, l.name))
}

/// The changed numeric leaves between two trees of one shape that sit at the
/// path `id`, in the order of a walk of the left tree. Positions are aligned;
/// where the shapes part, nothing further is compared.
pub open spec fn diff_at(l: Tree, r: Tree, id: Seq<char>) -> Seq<(Seq<char>, Change)>
    decreases l, 0nat,
{
    match (l.data, r.data) {
        (Payload::Node(a), Payload::Node(b)) => diff_seq(a, b, id, if a.len() <= b.len() { a.len() } else { b.len() }),
        (Payload::Pair(_, lv), Payload::Pair(_, rv)) => diff(*lv, *rv, id),
        (Payload::Enum(_, a), Payload::Enum(_, b)) => diff_seq(a, b, id, if a.len() <= b.len() { a.len() } else { b.len() }),
        (Payload::Int(x, _), Payload::Int(y, _)) => if x != y {
            seq![(id, Change::Int(x, y))]
        } else {
            Seq::empty()
        },
        (Payload::Float(x), Payload::Float(y)) => if float_changed(x, y) {
            seq![(id, Change::Float(x, y))]
        } else {
            Seq::empty()
        },
        _ => Seq::empty(),
    }
}

/// The differences of the first `n` aligned pairs of children.
pub open spec fn diff_seq(a: Seq<Tree>, b: Seq<Tree>, id: Seq<char>, n: nat) -> Seq<(Seq<char>, Change)>
    decreases a, n,
{
    if n == 0 || n > a.len() || n > b.len() {
        Seq::empty()
    } else {
        diff_seq(a, b, id, (n - 1) as nat) + diff(a[n - 1], b[n - 1], id)
    }
}

/// Appends to `map` the changed numeric leaves between `left` and `right`,
/// whose paths start at `id`.
pub fn caculate_delta_data(left: &ParsedData, right: &ParsedData, map: &mut Vec<Delta>, id: &str)
    ensures
        entries(final(map)@) == entries(old(map)@) + diff(left@, right@, id@),
    decreases left, 1nat,
{
    let path = join_path(id, left.name.as_str());
    delta_at(left, right, map, path);
}

/// Appends to `map` the changed numeric leaves between `left` and `right`,
/// which sit at the path `path`.
fn delta_at(left: &ParsedData, right: &ParsedData, map: &mut Vec<Delta>, path: String)
    ensures
        entries(final(map)@) == entries(old(map)@) + diff_at(left@, right@, path@),
    decreases left, 0nat,
{
    let ghost id = path@;
    let ghost start = entries(map@);
    match (&left.data, &right.data) {
        (DataEnum::Node(a), DataEnum::Node(b)) => {
            proof {
                assert(left@.data->Node_0 =~= views(a@));
                assert(right@.data->Node_0 =~= views(b@));
            }
            caculate_delta_children(a, b, map, &path);
        },
        (DataEnum::Enum(_, a), DataEnum::Enum(_, b)) => {
            proof {
                assert(left@.data->Enum_1 =~= views(a@));
                assert(right@.data->Enum_1 =~= views(b@));
            }
            caculate_delta_children(a, b, map, &path);
        },
        (DataEnum::Pair(lb), DataEnum::Pair(rb)) => {
            caculate_delta_data(&lb.1, &rb.1, map, path.as_str());
        },
        (DataEnum::Int(x, _), DataEnum::Int(y, _)) => {
            if *x != *y {
                map.push(Delta { path, change: Change::Int(*x, *y) });
            }
            proof { assert(entries(map@) =~= start + diff_at(left@, right@, id)); }
        },
        (DataEnum::Float(x), DataEnum::Float(y)) => {
            if floats_changed(*x, *y) {
                map.push(Delta { path, change: Change::Float(*x, *y) });
            }
            proof { assert(entries(map@) =~= start + diff_at(left@, right@, id)); }
        },
        _ => {
            proof { assert(entries(map@) =~= start + diff_at(left@, right@, id)); }
        },
    }
}

/// The changed numeric leaves between two trees. The root sits at the empty
/// path: a field `x` of a struct is found at `----x`.
pub fn tree_delta(left: &ParsedData, right: &ParsedData) -> (r: Vec<Delta>)
    ensures
        entries(r@) == diff_at(left@, right@, Seq::empty()),
{
    let mut map: Vec<Delta> = Vec::new();
    proof { assert(entries(map@) =~= Seq::empty()); }
    delta_at(left, right, &mut map, String::new());
    proof { assert(entries(map@) =~= diff_at(left@, right@, Seq::empty())); }
    map
}

/// A tree differs from itself nowhere.
pub proof fn diff_reflexive(t: Tree, id: Seq<char>)
    ensures
        diff_at(t, t, id) == Seq::<(Seq<char>, Change)>::empty(),
    decreases t, 0nat,
{
    match t.data {
        Payload::Node(a) => diff_seq_reflexive(a, id, a.len()),
        Payload::Pair(_, v) => diff_reflexive(*v, child_path(id, v.name)),
        Payload::Enum(_, a) => diff_seq_reflexive(a, id, a.len()),
        _ => {},
    }
}

proof fn diff_seq_reflexive(a: Seq<Tree>, id: Seq<char>, n: nat)
    requires
        n <= a.len(),
    ensures
        diff_seq(a, a, id, n) == Seq::<(Seq<char>, Change)>::empty(),
    decreases a, n,
{
    if n > 0 {
        diff_seq_reflexive(a, id, (n - 1) as nat);
        diff_reflexive(a[n - 1], child_path(id, a[n - 1].name));
        assert(diff(a[n - 1], a[n - 1], id) == diff_at(a[n - 1], a[n - 1], child_path(id, a[n - 1].name)));
        assert(diff_seq(a, a, id, n) =~= Seq::<(Seq<char>, Change)>::empty());
    }
}

fn caculate_delta_children(a: &Vec<ParsedData>, b: &Vec<ParsedData>, map: &mut Vec<Delta>, id: &String)
    ensures
        entries(final(map)@) == entries(old(map)@) + diff_seq(
            views(a@),
            views(b@),
            id@,
            if a@.len() <= b@.len() { a@.len() } else { b@.len() },
        ),
    decreases a,
{
    let ghost sa = views(a@);
    let ghost sb = views(b@);
    let ghost start = entries(map@);
    let n = if a.len() <= b.len() { a.len() } else { b.len() };
    let mut i: usize = 0;
    while i < n
        invariant
            n <= a@.len(),
            n <= b@.len(),
            n == if a@.len() <= b@.len() { a@.len() } else { b@.len() },
            sa.len() == a@.len(),
            sb.len() == b@.len(),
            forall|j: int| 0 <= j < a@.len() ==> #[trigger] sa[j] == a@[j]@,
            forall|j: int| 0 <= j < b@.len() ==> #[trigger] sb[j] == b@[j]@,
            i <= n,
            entries(map@) == start + diff_seq(sa, sb, id@, i as nat),
        decreases n - i,
    {
        proof { vstd::std_specs::vec::axiom_vec_index_decreases(*a, i as int); }
        let ghost before = entries(map@);
        caculate_delta_data(&a[i], &b[i], map, id.as_str());
        proof {
            assert(sa[i as int] == a@[i as int]@);
            assert(diff_seq(sa, sb, id@, (i + 1) as nat) == diff_seq(sa, sb, id@, i as nat) + diff(sa[i as int], sb[i as int], id@));
            assert(entries(map@) =~= start + diff_seq(sa, sb, id@, (i + 1) as nat));
        }
        i = i + 1;
    }
}

} // verus!
