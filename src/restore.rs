use vstd::prelude::*;
use crate::diff::{diff, diff_at, diff_seq, Change};
use crate::leaves::{numbers, numbers_at, numbers_seq};
use crate::path::{child_path, float_changed};
use crate::rewrite::{find_rule, lookup, rewrite, rewrite_at, IntEdit};
use crate::tree::{Payload, Tree};

verus! {

/// The integer rules that apply a difference: each entry's path is shifted by
/// left minus right (float entries shift by nothing).
pub open spec fn shift_rules(d: Seq<(Seq<char>, Change)>) -> Seq<(Seq<char>, IntEdit)> {
    Seq::new(
        d.len(),
        |i: int|
            (
                d[i].0,
                match d[i].1 {
                    Change::Int(x, y) => IntEdit::Shift((x - y) as i128),
                    Change::Float(_, _) => IntEdit::Shift(0),
                },
            ),
    )
}

/// Two numeric leaves of one kind; integers of one range, the left one inside
/// it, and their difference an `i128`.
pub open spec fn same_leaf(a: Tree, b: Tree) -> bool {
    match (a.data, b.data) {
        (Payload::Int(x, rx), Payload::Int(y, ry)) => rx == ry && rx.contains(x as int) && i128::MIN <= x - y
            <= i128::MAX,
        (Payload::Float(_), Payload::Float(_)) => true,
        _ => false,
    }
}

/// The rule that the difference of two numeric leaves holds for them.
pub open spec fn child_rule(a: Tree, b: Tree) -> Option<IntEdit> {
    match (a.data, b.data) {
        (Payload::Int(x, _), Payload::Int(y, _)) => if x != y {
            Some(IntEdit::Shift((x - y) as i128))
        } else {
            None
        },
        (Payload::Float(x), Payload::Float(y)) => if float_changed(x, y) {
            Some(IntEdit::Shift(0))
        } else {
            None
        },
        _ => None,
    }
}

proof fn lemma_find_rule_prefix<E>(x: Seq<(Seq<char>, E)>, y: Seq<(Seq<char>, E)>, p: Seq<char>, n: nat)
    requires
        n <= x.len(),
    ensures
        find_rule(x + y, p, n) == find_rule(x, p, n),
    decreases n,
{
    if n > 0 {
        lemma_find_rule_prefix(x, y, p, (n - 1) as nat);
        assert((x + y)[n - 1] == x[n - 1]);
    }
}

proof fn lemma_find_rule_concat<E>(x: Seq<(Seq<char>, E)>, y: Seq<(Seq<char>, E)>, p: Seq<char>, m: nat)
    requires
        m <= y.len(),
    ensures
        find_rule(x + y, p, x.len() + m) == match find_rule(x, p, x.len()) {
            Some(e) => Some(e),
            None => find_rule(y, p, m),
        },
    decreases m,
{
    if m == 0 {
        lemma_find_rule_prefix(x, y, p, x.len());
    } else {
        lemma_find_rule_concat(x, y, p, (m - 1) as nat);
        assert((x + y)[x.len() + m - 1] == y[m - 1]);
        assert((x.len() + m - 1) as nat == x.len() + (m - 1) as nat);
    }
}

proof fn lemma_lookup_concat<E>(x: Seq<(Seq<char>, E)>, y: Seq<(Seq<char>, E)>, p: Seq<char>)
    ensures
        lookup(x + y, p) == match lookup(x, p) {
            Some(e) => Some(e),
            None => lookup(y, p),
        },
{
    lemma_find_rule_concat(x, y, p, y.len());
    assert((x + y).len() == x.len() + y.len());
}

/// Two trees of one shape made of aggregates and numeric leaves: the same
/// names throughout, aggregates of the same length, leaves as `same_leaf` says.
pub open spec fn same_shape(l: Tree, r: Tree) -> bool
    decreases l,
{
    l.name == r.name && match (l.data, r.data) {
        (Payload::Node(a), Payload::Node(b)) => a.len() == b.len() && forall|i: int|
            0 <= i < a.len() ==> same_shape(#[trigger] a[i], b[i]),
        _ => same_leaf(l, r),
    }
}

/// For each leaf of two trees of one shape, in the order of a walk: its path
/// and the rule their difference holds for it.
pub open spec fn leaf_rules(l: Tree, r: Tree, id: Seq<char>) -> Seq<(Seq<char>, Option<IntEdit>)>
    decreases l, 0nat,
{
    match (l.data, r.data) {
        (Payload::Node(a), Payload::Node(b)) => leaf_rules_seq(a, b, id, a.len()),
        _ => seq![(id, child_rule(l, r))],
    }
}

pub open spec fn leaf_rules_seq(a: Seq<Tree>, b: Seq<Tree>, id: Seq<char>, n: nat) -> Seq<(Seq<char>, Option<IntEdit>)>
    decreases a, n,
{
    if n == 0 || n > a.len() || n > b.len() {
        Seq::empty()
    } else {
        leaf_rules_seq(a, b, id, (n - 1) as nat) + leaf_rules(a[n - 1], b[n - 1], child_path(id, a[n - 1].name))
    }
}

/// The rules among `s`, in order.
pub open spec fn present(s: Seq<(Seq<char>, Option<IntEdit>)>) -> Seq<(Seq<char>, IntEdit)>
    decreases s.len(),
{
    if s.len() == 0 {
        Seq::empty()
    } else {
        let last = s.last();
        match last.1 {
            Some(e) => present(s.drop_last()).push((last.0, e)),
            None => present(s.drop_last()),
        }
    }
}

/// No two entries share a path.
pub open spec fn distinct_paths<E>(s: Seq<(Seq<char>, E)>) -> bool {
    forall|i: int, j: int| 0 <= i < j < s.len() ==> (#[trigger] s[i]).0 != (#[trigger] s[j]).0
}

/// Every integer leaf of `l` is found, with its value and range, at the same
/// place in `t`.
pub open spec fn holds_ints_of(t: Tree, l: Tree) -> bool
    decreases l,
{
    match (t.data, l.data) {
        (Payload::Node(a), Payload::Node(b)) => a.len() == b.len() && forall|i: int|
            0 <= i < b.len() ==> holds_ints_of(a[i], #[trigger] b[i]),
        (_, Payload::Int(_, _)) => t.data == l.data,
        _ => true,
    }
}

proof fn lemma_present_concat(x: Seq<(Seq<char>, Option<IntEdit>)>, y: Seq<(Seq<char>, Option<IntEdit>)>)
    ensures
        present(x + y) == present(x) + present(y),
    decreases y.len(),
{
    if y.len() == 0 {
        assert(x + y =~= x);
        assert(present(x) + present(y) =~= present(x));
    } else {
        lemma_present_concat(x, y.drop_last());
        assert((x + y).drop_last() =~= x + y.drop_last());
        assert((x + y).last() == y.last());
        match y.last().1 {
            Some(e) => {
                assert(present(x) + present(y) =~= (present(x) + present(y.drop_last())).push((y.last().0, e)));
            },
            None => {},
        }
    }
}

/// The rules of a difference are those that its leaves hold.
proof fn lemma_diff_rules(l: Tree, r: Tree, id: Seq<char>)
    requires
        same_shape(l, r),
    ensures
        shift_rules(diff_at(l, r, id)) == present(leaf_rules(l, r, id)),
    decreases l, 0nat,
{
    match (l.data, r.data) {
        (Payload::Node(a), Payload::Node(b)) => {
            lemma_diff_rules_seq(a, b, id, a.len());
        },
        _ => {
            assert(same_leaf(l, r));
            let one = seq![(id, child_rule(l, r))];
            let none = Seq::<(Seq<char>, Option<IntEdit>)>::empty();
            assert(one.drop_last() =~= none);
            assert(present(none) == Seq::<(Seq<char>, IntEdit)>::empty());
            assert(one.last() == (id, child_rule(l, r)));
            match child_rule(l, r) {
                Some(e) => {
                    assert(present(one) == seq![(id, e)]);
                },
                None => {
                    assert(present(one) == Seq::<(Seq<char>, IntEdit)>::empty());
                },
            }
            assert(shift_rules(diff_at(l, r, id)) =~= present(one));
        },
    }
}

proof fn lemma_diff_rules_seq(a: Seq<Tree>, b: Seq<Tree>, id: Seq<char>, n: nat)
    requires
        a.len() == b.len(),
        n <= a.len(),
        forall|i: int| 0 <= i < a.len() ==> same_shape(#[trigger] a[i], b[i]),
    ensures
        shift_rules(diff_seq(a, b, id, n)) == present(leaf_rules_seq(a, b, id, n)),
    decreases a, n,
{
    if n == 0 {
        assert(shift_rules(diff_seq(a, b, id, n)) =~= Seq::empty());
    } else {
        let j = n - 1;
        lemma_diff_rules_seq(a, b, id, (n - 1) as nat);
        let pj = child_path(id, a[j].name);
        lemma_diff_rules(a[j], b[j], pj);
        let x = diff_seq(a, b, id, (n - 1) as nat);
        let y = diff(a[j], b[j], id);
        assert(y == diff_at(a[j], b[j], pj));
        assert(shift_rules(x + y) =~= shift_rules(x) + shift_rules(y));
        lemma_present_concat(leaf_rules_seq(a, b, id, (n - 1) as nat), leaf_rules(a[j], b[j], pj));
    }
}

pub open spec fn paths_of<E>(s: Seq<(Seq<char>, E)>) -> Seq<Seq<char>> {
    Seq::new(s.len(), |i: int| s[i].0)
}

/// The leaves that `leaf_rules` lists are the numeric leaves, path by path.
proof fn lemma_leaf_rule_paths(l: Tree, r: Tree, id: Seq<char>)
    requires
        same_shape(l, r),
    ensures
        paths_of(leaf_rules(l, r, id)) == paths_of(numbers_at(l, id)),
    decreases l, 0nat,
{
    match (l.data, r.data) {
        (Payload::Node(a), Payload::Node(b)) => {
            lemma_leaf_rule_paths_seq(a, b, id, a.len());
        },
        _ => {
            assert(same_leaf(l, r));
            assert(paths_of(leaf_rules(l, r, id)) =~= paths_of(numbers_at(l, id)));
        },
    }
}

proof fn lemma_leaf_rule_paths_seq(a: Seq<Tree>, b: Seq<Tree>, id: Seq<char>, n: nat)
    requires
        a.len() == b.len(),
        n <= a.len(),
        forall|i: int| 0 <= i < a.len() ==> same_shape(#[trigger] a[i], b[i]),
    ensures
        paths_of(leaf_rules_seq(a, b, id, n)) == paths_of(numbers_seq(a, id, n)),
    decreases a, n,
{
    if n == 0 {
        assert(paths_of(leaf_rules_seq(a, b, id, n)) =~= paths_of(numbers_seq(a, id, n)));
    } else {
        let j = n - 1;
        lemma_leaf_rule_paths_seq(a, b, id, (n - 1) as nat);
        let pj = child_path(id, a[j].name);
        lemma_leaf_rule_paths(a[j], b[j], pj);
        assert(numbers(a[j], id) == numbers_at(a[j], pj));
        let x = leaf_rules_seq(a, b, id, (n - 1) as nat);
        let y = leaf_rules(a[j], b[j], pj);
        let u = numbers_seq(a, id, (n - 1) as nat);
        let v = numbers_at(a[j], pj);
        assert(paths_of(x + y) =~= paths_of(x) + paths_of(y));
        assert(paths_of(u + v) =~= paths_of(u) + paths_of(v));
    }
}

proof fn lemma_present_misses(s: Seq<(Seq<char>, Option<IntEdit>)>, p: Seq<char>)
    requires
        forall|i: int| 0 <= i < s.len() ==> (#[trigger] s[i]).0 != p,
    ensures
        lookup(present(s), p) is None,
    decreases s.len(),
{
    if s.len() > 0 {
        let t = s.drop_last();
        assert forall|i: int| 0 <= i < t.len() implies (#[trigger] t[i]).0 != p by {
            assert(t[i] == s[i]);
        }
        lemma_present_misses(t, p);
        match s.last().1 {
            Some(e) => {
                assert(present(s) =~= present(t) + seq![(s.last().0, e)]);
                lemma_lookup_concat(present(t), seq![(s.last().0, e)], p);
                assert(find_rule(seq![(s.last().0, e)], p, 0) is None);
            },
            None => {},
        }
    }
}

/// With distinct paths, the rules of `s` find each entry's own rule at its path.
proof fn lemma_present_finds(s: Seq<(Seq<char>, Option<IntEdit>)>, k: int)
    requires
        distinct_paths(s),
        0 <= k < s.len(),
    ensures
        lookup(present(s), s[k].0) == s[k].1,
    decreases s.len(),
{
    let t = s.drop_last();
    let last = s.last();
    let p = s[k].0;
    assert(distinct_paths(t)) by {
        assert forall|i: int, j: int| 0 <= i < j < t.len() implies (#[trigger] t[i]).0 != (#[trigger] t[j]).0 by {
            assert(t[i] == s[i] && t[j] == s[j]);
        }
    }
    if k < s.len() - 1 {
        assert(t[k] == s[k]);
        lemma_present_finds(t, k);
        assert(last.0 != p) by {
            assert(s[s.len() - 1] == last);
        }
    } else {
        assert forall|i: int| 0 <= i < t.len() implies (#[trigger] t[i]).0 != p by {
            assert(t[i] == s[i]);
        }
        lemma_present_misses(t, p);
    }
    match last.1 {
        Some(e) => {
            assert(present(s) =~= present(t) + seq![(last.0, e)]);
            lemma_lookup_concat(present(t), seq![(last.0, e)], p);
            assert(find_rule(seq![(last.0, e)], p, 0) is None);
        },
        None => {},
    }
}

proof fn lemma_child_rules_inside(a: Seq<Tree>, b: Seq<Tree>, id: Seq<char>, n: nat, i: int, e: (Seq<char>, Option<IntEdit>))
    requires
        a.len() == b.len(),
        n <= a.len(),
        0 <= i < n,
        leaf_rules(a[i], b[i], child_path(id, a[i].name)).contains(e),
    ensures
        leaf_rules_seq(a, b, id, n).contains(e),
    decreases n,
{
    let x = leaf_rules_seq(a, b, id, (n - 1) as nat);
    let y = leaf_rules(a[n - 1], b[n - 1], child_path(id, a[n - 1].name));
    if i < n - 1 {
        lemma_child_rules_inside(a, b, id, (n - 1) as nat, i, e);
        let k = choose|k: int| 0 <= k < x.len() && x[k] == e;
        assert((x + y)[k] == e);
    } else {
        let k = choose|k: int| 0 <= k < y.len() && y[k] == e;
        assert((x + y)[x.len() + k] == e);
    }
}

/// Rules that give each leaf of `l` and `r` the rule their difference holds
/// for it bring `r` back to the integers of `l`.
proof fn lemma_restore(l: Tree, r: Tree, id: Seq<char>, rules: Seq<(Seq<char>, IntEdit)>)
    requires
        same_shape(l, r),
        forall|e: (Seq<char>, Option<IntEdit>)| #[trigger] leaf_rules(l, r, id).contains(e) ==> lookup(rules, e.0) == e.1,
    ensures
        holds_ints_of(rewrite_at(r, id, rules, Seq::empty()), l),
    decreases l,
{
    let t = rewrite_at(r, id, rules, Seq::empty());
    match (l.data, r.data) {
        (Payload::Node(a), Payload::Node(b)) => {
            assert forall|i: int| 0 <= i < a.len() implies holds_ints_of(t.data->Node_0[i], #[trigger] a[i]) by {
                let pi = child_path(id, a[i].name);
                assert(same_shape(a[i], b[i]));
                assert forall|e: (Seq<char>, Option<IntEdit>)| #[trigger] leaf_rules(a[i], b[i], pi).contains(e) implies lookup(
                    rules,
                    e.0,
                ) == e.1 by {
                    lemma_child_rules_inside(a, b, id, a.len(), i, e);
                    assert(leaf_rules(l, r, id) == leaf_rules_seq(a, b, id, a.len()));
                    assert(leaf_rules(l, r, id).contains(e));
                }
                lemma_restore(a[i], b[i], pi, rules);
                assert(t.data->Node_0[i] == rewrite(b[i], id, rules, Seq::empty()));
            }
        },
        _ => {
            assert(same_leaf(l, r));
            let e = (id, child_rule(l, r));
            assert(leaf_rules(l, r, id)[0] == e);
            assert(leaf_rules(l, r, id).contains(e));
        },
    }
}

/// Applying the difference of two trees of one shape, made of aggregates and
/// numeric leaves, to the right one gives back every integer of the left one,
/// where no two leaves share a path. (The float leaves are left to float rules.)
pub proof fn patch_restores_integers(l: Tree, r: Tree, id: Seq<char>)
    requires
        same_shape(l, r),
        distinct_paths(numbers_at(l, id)),
    ensures
        holds_ints_of(rewrite_at(r, id, shift_rules(diff_at(l, r, id)), Seq::empty()), l),
{
    let lr = leaf_rules(l, r, id);
    lemma_diff_rules(l, r, id);
    lemma_leaf_rule_paths(l, r, id);
    let nums = numbers_at(l, id);
    assert(paths_of(lr).len() == lr.len());
    assert(paths_of(nums).len() == nums.len());
    assert(distinct_paths(lr)) by {
        assert forall|i: int, j: int| 0 <= i < j < lr.len() implies (#[trigger] lr[i]).0 != (#[trigger] lr[j]).0 by {
            assert(paths_of(lr)[i] == paths_of(nums)[i]);
            assert(paths_of(lr)[j] == paths_of(nums)[j]);
            assert(nums[i].0 != nums[j].0);
        }
    }
    assert forall|e: (Seq<char>, Option<IntEdit>)| #[trigger] lr.contains(e) implies lookup(present(lr), e.0) == e.1 by {
        let k = choose|k: int| 0 <= k < lr.len() && lr[k] == e;
        lemma_present_finds(lr, k);
    }
    lemma_restore(l, r, id, present(lr));
}

} // verus!
