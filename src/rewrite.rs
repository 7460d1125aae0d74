use vstd::prelude::*;
use crate::path::{child_path, join_path};
use crate::tree::{wf, DataEnum, IntRange, ParsedData, Payload, Tree};

verus! {

/// What becomes of an integer leaf that a rule reaches. The result is always
/// brought into the leaf's range.
#[derive(Clone, Copy, Debug, PartialEq, Eq, Structural)]
pub enum IntEdit {
    /// Add this amount.
    Shift(i128),
    /// Take this value.
    Assign(i128),
}

/// What becomes of a float leaf that a rule reaches (bit patterns of binary64
/// numbers).
#[derive(Clone, Copy, Debug, PartialEq, Eq, Structural)]
pub enum FloatEdit {
    /// Take this value.
    Assign(u64),
    /// Take the second value; the rule reaches only a leaf that holds exactly
    /// the first.
    Replace(u64, u64),
}

/// A rule for the integer leaves at one path.
#[derive(Debug)]
pub struct IntRule {
    pub path: String,
    pub edit: IntEdit,
}

/// A rule for the float leaves at one path.
#[derive(Debug)]
pub struct FloatRule {
    pub path: String,
    pub edit: FloatEdit,
}

pub open spec fn int_rules(s: Seq<IntRule>) -> Seq<(Seq<char>, IntEdit)> {
    Seq::new(s.len(), |i: int| (s[i].path@, s[i].edit))
}

pub open spec fn float_rules(s: Seq<FloatRule>) -> Seq<(Seq<char>, FloatEdit)> {
    Seq::new(s.len(), |i: int| (s[i].path@, s[i].edit))
}

/// The first of the first `n` rules whose path is `path`.
pub open spec fn find_rule<E>(rules: Seq<(Seq<char>, E)>, path: Seq<char>, n: nat) -> Option<E>
    decreases n,
{
    if n == 0 || n > rules.len() {
        None
    } else {
        match find_rule(rules, path, (n - 1) as nat) {
            Some(e) => Some(e),
            None => if rules[n - 1].0 == path {
                Some(rules[n - 1].1)
            } else {
                None
            },
        }
    }
}

/// Does the edit apply to a float leaf holding `b`?
pub open spec fn applies(e: FloatEdit, b: u64) -> bool {
    match e {
        FloatEdit::Assign(_) => true,
        FloatEdit::Replace(from, _) => from == b,
    }
}

/// The first of the first `n` float rules whose path is `path` and that
/// applies to the value `b`.
pub open spec fn find_float(rules: Seq<(Seq<char>, FloatEdit)>, path: Seq<char>, b: u64, n: nat) -> Option<FloatEdit>
    decreases n,
{
    if n == 0 || n > rules.len() {
        None
    } else {
        match find_float(rules, path, b, (n - 1) as nat) {
            Some(e) => Some(e),
            None => if rules[n - 1].0 == path && applies(rules[n - 1].1, b) {
                Some(rules[n - 1].1)
            } else {
                None
            },
        }
    }
}

pub open spec fn lookup<E>(rules: Seq<(Seq<char>, E)>, path: Seq<char>) -> Option<E> {
    find_rule(rules, path, rules.len())
}

/// `x` brought into the range: the nearest end where it lies outside.
pub open spec fn clamp(x: int, r: IntRange) -> int {
    if x > r.end {
        r.end as int
    } else if x < r.start {
        r.start as int
    } else {
        x
    }
}

pub open spec fn edit_int(v: i128, r: IntRange, e: IntEdit) -> i128 {
    match e {
        IntEdit::Shift(d) => clamp(v + d, r) as i128,
        IntEdit::Assign(x) => clamp(x as int, r) as i128,
    }
}

pub open spec fn edit_float(b: u64, e: FloatEdit) -> u64 {
    match e {
        FloatEdit::Assign(x) => x,
        FloatEdit::Replace(_, to) => to,
    }
}

/// The tree below `prefix`, rewritten (see `rewrite_at`).
pub open spec fn rewrite(
    t: Tree,
    prefix: Seq<char>,
    ints: Seq<(Seq<char>, IntEdit)>,
    floats: Seq<(Seq<char>, FloatEdit)>,
) -> Tree
    decreases t, 1nat,
{
    rewrite_at(t, child_path(prefix, t.name), ints, floats)
}

/// The tree at the path `id` with each numeric leaf edited by the first rule
/// that reaches it; everything else is kept.
pub open spec fn rewrite_at(
    t: Tree,
    id: Seq<char>,
    ints: Seq<(Seq<char>, IntEdit)>,
    floats: Seq<(Seq<char>, FloatEdit)>,
) -> Tree
    decreases t, 0nat,
{
    Tree {
        data: match t.data {
            Payload::Node(s) => Payload::Node(
                Seq::new(s.len(), |i: int| if 0 <= i < s.len() { rewrite(s[i], id, ints, floats) } else { arbitrary() }),
            ),
            Payload::Pair(k, v) => Payload::Pair(k, Box::new(rewrite(*v, id, ints, floats))),
            Payload::Enum(n, s) => Payload::Enum(
                n,
                Seq::new(s.len(), |i: int| if 0 <= i < s.len() { rewrite(s[i], id, ints, floats) } else { arbitrary() }),
            ),
            Payload::Int(v, r) => match lookup(ints, id) {
                Some(e) => Payload::Int(edit_int(v, r, e), r),
                None => t.data,
            },
            Payload::Float(b) => match find_float(floats, id, b, floats.len()) {
                Some(e) => Payload::Float(edit_float(b, e)),
                None => t.data,
            },
            _ => t.data,
        },
        ..t
    }
}

proof fn lemma_find_rule_stays<E>(rules: Seq<(Seq<char>, E)>, path: Seq<char>, m: nat, n: nat)
    requires
        m <= n <= rules.len(),
        find_rule(rules, path, m) is Some,
    ensures
        find_rule(rules, path, n) == find_rule(rules, path, m),
    decreases n,
{
    if n > m {
        lemma_find_rule_stays(rules, path, m, (n - 1) as nat);
    }
}

fn find_int_rule(rules: &Vec<IntRule>, path: &String) -> (r: Option<IntEdit>)
    ensures
        r == lookup(int_rules(rules@), path@),
{
    let ghost rs = int_rules(rules@);
    let mut i: usize = 0;
    while i < rules.len()
        invariant
            i <= rules@.len(),
            rs == int_rules(rules@),
            find_rule(rs, path@, i as nat) is None,
        decreases rules@.len() - i,
    {
        if rules[i].path == *path {
            proof { lemma_find_rule_stays(rs, path@, (i + 1) as nat, rs.len()); }
            return Some(rules[i].edit);
        }
        i = i + 1;
    }
    None
}

proof fn lemma_find_float_stays(rules: Seq<(Seq<char>, FloatEdit)>, path: Seq<char>, b: u64, m: nat, n: nat)
    requires
        m <= n <= rules.len(),
        find_float(rules, path, b, m) is Some,
    ensures
        find_float(rules, path, b, n) == find_float(rules, path, b, m),
    decreases n,
{
    if n > m {
        lemma_find_float_stays(rules, path, b, m, (n - 1) as nat);
    }
}

fn find_float_rule(rules: &Vec<FloatRule>, path: &String, b: u64) -> (r: Option<FloatEdit>)
    ensures
        r == find_float(float_rules(rules@), path@, b, rules@.len() as nat),
{
    let ghost rs = float_rules(rules@);
    let mut i: usize = 0;
    while i < rules.len()
        invariant
            i <= rules@.len(),
            rs == float_rules(rules@),
            find_float(rs, path@, b, i as nat) is None,
        decreases rules@.len() - i,
    {
        let e = rules[i].edit;
        let fits = match e {
            FloatEdit::Assign(_) => true,
            FloatEdit::Replace(from, _) => from == b,
        };
        if fits && rules[i].path == *path {
            proof { lemma_find_float_stays(rs, path@, b, (i + 1) as nat, rs.len()); }
            return Some(e);
        }
        i = i + 1;
    }
    None
}

fn apply_int_edit(v: i128, r: IntRange, e: IntEdit) -> (out: i128)
    ensures
        out == edit_int(v, r, e),
{
    let x: i128 = match e {
        IntEdit::Shift(d) => {
            if d > 0 && v > i128::MAX - d {
                return r.end;
            }
            if d < 0 && v < i128::MIN - d {
                return r.start;
            }
            v + d
        },
        IntEdit::Assign(x) => x,
    };
    if x > r.end {
        r.end
    } else if x < r.start {
        r.start
    } else {
        x
    }
}

/// Rewriting keeps every integer leaf within its range.
pub proof fn rewrite_keeps_ranges(
    t: Tree,
    id: Seq<char>,
    ints: Seq<(Seq<char>, IntEdit)>,
    floats: Seq<(Seq<char>, FloatEdit)>,
)
    requires
        wf(t),
    ensures
        wf(rewrite_at(t, id, ints, floats)),
    decreases t,
{
    let r = rewrite_at(t, id, ints, floats);
    match t.data {
        Payload::Node(s) => {
            assert forall|i: int| 0 <= i < s.len() implies wf(#[trigger] r.data->Node_0[i]) by {
                assert(wf(s[i]));
                rewrite_keeps_ranges(s[i], child_path(id, s[i].name), ints, floats);
            }
        },
        Payload::Enum(_, s) => {
            assert forall|i: int| 0 <= i < s.len() implies wf(#[trigger] r.data->Enum_1[i]) by {
                assert(wf(s[i]));
                rewrite_keeps_ranges(s[i], child_path(id, s[i].name), ints, floats);
            }
        },
        Payload::Pair(_, v) => {
            rewrite_keeps_ranges(*v, child_path(id, v.name), ints, floats);
        },
        _ => {},
    }
}

/// With no rules, rewriting leaves the tree as it was.
pub proof fn rewrite_without_rules(t: Tree, id: Seq<char>)
    ensures
        rewrite_at(t, id, Seq::empty(), Seq::empty()) == t,
    decreases t,
{
    let e1 = Seq::<(Seq<char>, IntEdit)>::empty();
    let e2 = Seq::<(Seq<char>, FloatEdit)>::empty();
    let r = rewrite_at(t, id, e1, e2);
    match t.data {
        Payload::Node(s) => {
            assert forall|i: int| 0 <= i < s.len() implies r.data->Node_0[i] == s[i] by {
                rewrite_without_rules(s[i], child_path(id, s[i].name));
            }
            assert(r.data->Node_0 =~= s);
        },
        Payload::Enum(_, s) => {
            assert forall|i: int| 0 <= i < s.len() implies r.data->Enum_1[i] == s[i] by {
                rewrite_without_rules(s[i], child_path(id, s[i].name));
            }
            assert(r.data->Enum_1 =~= s);
        },
        Payload::Pair(_, v) => {
            rewrite_without_rules(*v, child_path(id, v.name));
        },
        _ => {},
    }
    assert(r =~~= t);
}

/// Rewrites the numeric leaves below the path `id` by the rules: an integer
/// leaf by the first integer rule for its path, brought into its range; a float
/// leaf by the first float rule for its path. Nothing else changes.
pub fn rewrite_numbers(data: &mut ParsedData, id: &str, ints: &Vec<IntRule>, floats: &Vec<FloatRule>)
    ensures
        final(data)@ == rewrite(old(data)@, id@, int_rules(ints@), float_rules(floats@)),
        wf(old(data)@) ==> wf(final(data)@),
    decreases *old(data), 1nat,
{
    let path = join_path(id, data.name.as_str());
    rewrite_at_path(data, path, ints, floats);
}

/// Rewrites the numeric leaves of `data`, which sits at `path`, by the rules
/// (see `rewrite_at`). The root of a whole tree sits at the empty path.
pub fn rewrite_at_path(data: &mut ParsedData, path: String, ints: &Vec<IntRule>, floats: &Vec<FloatRule>)
    ensures
        final(data)@ == rewrite_at(old(data)@, path@, int_rules(ints@), float_rules(floats@)),
        wf(old(data)@) ==> wf(final(data)@),
    decreases *old(data), 0nat,
{
    let ghost before = *data;
    match &mut data.data {
        DataEnum::Node(v) => {
            let ghost start = *v;
            proof { assert(start@ == before.data->Node_0@); }
            let mut i: usize = 0;
            while i < v.len()
                invariant
                    v@.len() == start@.len(),
                    i <= v@.len(),
                    decreases_to!(*old(data) => start),
                    forall|j: int| 0 <= j < i ==> #[trigger] v@[j]@ == rewrite(start@[j]@, path@, int_rules(ints@), float_rules(floats@)),
                    forall|j: int| i <= j < v@.len() ==> #[trigger] v@[j] == start@[j],
                decreases v@.len() - i,
            {
                proof {
                    vstd::std_specs::vec::axiom_vec_index_decreases(start, i as int);
                    assert(v@[i as int] == start@[i as int]);
                }
                let elem = &mut v[i];
                rewrite_numbers(elem, path.as_str(), ints, floats);
                i = i + 1;
            }
        },
        DataEnum::Enum(_, v) => {
            let ghost start = *v;
            proof { assert(start@ == before.data->Enum_1@); }
            let mut i: usize = 0;
            while i < v.len()
                invariant
                    v@.len() == start@.len(),
                    i <= v@.len(),
                    decreases_to!(*old(data) => start),
                    forall|j: int| 0 <= j < i ==> #[trigger] v@[j]@ == rewrite(start@[j]@, path@, int_rules(ints@), float_rules(floats@)),
                    forall|j: int| i <= j < v@.len() ==> #[trigger] v@[j] == start@[j],
                decreases v@.len() - i,
            {
                proof {
                    vstd::std_specs::vec::axiom_vec_index_decreases(start, i as int);
                    assert(v@[i as int] == start@[i as int]);
                }
                let elem = &mut v[i];
                rewrite_numbers(elem, path.as_str(), ints, floats);
                i = i + 1;
            }
        },
        DataEnum::Pair(b) => {
            rewrite_numbers(&mut b.1, path.as_str(), ints, floats);
        },
        DataEnum::Int(v, r) => {
            match find_int_rule(ints, &path) {
                Some(e) => {
                    *v = apply_int_edit(*v, *r, e);
                },
                None => {},
            }
        },
        DataEnum::Float(b) => {
            match find_float_rule(floats, &path, *b) {
                Some(FloatEdit::Assign(x)) => {
                    *b = x;
                },
                Some(FloatEdit::Replace(_, to)) => {
                    *b = to;
                },
                None => {},
            }
        },
        _ => {},
    }
    proof {
        if wf(before@) {
            rewrite_keeps_ranges(before@, path@, int_rules(ints@), float_rules(floats@));
        }
        let after = data@.data;
        let want = rewrite_at(before@, path@, int_rules(ints@), float_rules(floats@)).data;
        match (after, want) {
            (Payload::Node(x), Payload::Node(y)) => {
                assert(x.len() == y.len());
                assert forall|i: int| 0 <= i < x.len() implies x[i] == y[i] by {
                    assert(before@.data->Node_0[i] == before.data->Node_0@[i]@);
                    assert(data.data->Node_0@[i]@ == x[i]);
                }
                assert(x =~= y);
            },
            (Payload::Enum(_, x), Payload::Enum(_, y)) => {
                assert(x.len() == y.len());
                assert forall|i: int| 0 <= i < x.len() implies x[i] == y[i] by {
                    assert(before@.data->Enum_1[i] == before.data->Enum_1@[i]@);
                    assert(data.data->Enum_1@[i]@ == x[i]);
                }
                assert(x =~= y);
            },
            _ => {},
        }
    }
}

/// Which value of an animation curve a leaf takes at a moment.
#[derive(Clone, Copy, Debug, PartialEq, Eq, Structural)]
pub enum CurvePick {
    /// The value the curve yields at that moment.
    Sampled,
    /// The curve's end value: the moment is at or after its end.
    End,
    /// The curve's start value: the moment is before its start.
    Start,
    /// No value: the leaf keeps its own.
    Keep,
}

pub open spec fn curve_pick_spec(has_sample: bool, at: int, start: int, length: int, empty: bool) -> CurvePick {
    if has_sample {
        CurvePick::Sampled
    } else if !empty && at >= start + length {
        CurvePick::End
    } else if !empty && at < start {
        CurvePick::Start
    } else {
        CurvePick::Keep
    }
}

/// Chooses the value a leaf takes from a curve at the moment `at` (all times
/// in nanoseconds): the sampled value where the curve yields one, else its end
/// value at or after its end, else its start value before its start, where the
/// curve is not empty; otherwise the leaf keeps its value.
pub fn curve_pick(has_sample: bool, at: i128, start: i128, length: i128, empty: bool) -> (r: CurvePick)
    ensures
        r == curve_pick_spec(has_sample, at as int, start as int, length as int, empty),
{
    let reached_end = if length >= 0 {
        if start > i128::MAX - length {
            false
        } else {
            at >= start + length
        }
    } else {
        if start < i128::MIN - length {
            true
        } else {
            at >= start + length
        }
    };
    if has_sample {
        CurvePick::Sampled
    } else if !empty && reached_end {
        CurvePick::End
    } else if !empty && at < start {
        CurvePick::Start
    } else {
        CurvePick::Keep
    }
}

/// Outside a curve's window, where the curve yields no sample, a leaf takes the
/// curve's start value before the window and its end value at or after the
/// window's end: an integer leaf holds exactly that value where its range holds
/// it, and a float leaf holds it as it is. (The curve's length is not negative.)
pub proof fn animate_outside_window(
    at: int,
    start: int,
    length: int,
    current: i128,
    r: IntRange,
    start_value: i128,
    end_value: i128,
    current_bits: u64,
    start_bits: u64,
    end_bits: u64,
)
    requires
        0 <= length,
        r.contains(start_value as int),
        r.contains(end_value as int),
    ensures
        at < start ==> {
            &&& curve_pick_spec(false, at, start, length, false) == CurvePick::Start
            &&& edit_int(current, r, IntEdit::Assign(start_value)) == start_value
            &&& edit_float(current_bits, FloatEdit::Assign(start_bits)) == start_bits
        },
        at >= start + length ==> {
            &&& curve_pick_spec(false, at, start, length, false) == CurvePick::End
            &&& edit_int(current, r, IntEdit::Assign(end_value)) == end_value
            &&& edit_float(current_bits, FloatEdit::Assign(end_bits)) == end_bits
        },
{
}

} // verus!
