use vstd::prelude::*;
use vstd::string::StringExecFns;

verus! {

/// The text put between the names along a path.
pub open spec fn delimiter() -> Seq<char> {
    seq!['-', '-', '-', '-']
}

/// The path of a node named `name` below the path `prefix`.
pub open spec fn child_path(prefix: Seq<char>, name: Seq<char>) -> Seq<char> {
    prefix + delimiter() + name
}

/// Extends a path by one name.
pub fn join_path(prefix: &str, name: &str) -> (r: String)
    ensures
        r@ == child_path(prefix@, name@),
{
    proof { reveal_strlit("----"); }
    String::from_str(prefix).concat("----").concat(name)
}

/// IEEE-754 binary64: is this bit pattern a NaN?
pub open spec fn is_nan(b: u64) -> bool {
    (b >> 52u64) & 0x7ffu64 == 0x7ffu64 && b & 0xf_ffff_ffff_ffffu64 != 0
}

/// IEEE-754 equality of two binary64 numbers given by their bit patterns: no
/// NaN equals anything, and the two zeros are equal.
pub open spec fn float_eq(a: u64, b: u64) -> bool {
    !is_nan(a) && !is_nan(b) && (a == b || (a | b) & 0x7fff_ffff_ffff_ffffu64 == 0)
}

/// Two float leaves count as changed when their bit patterns differ and they
/// are not IEEE-equal: the two zeros stay unchanged, and so does a NaN compared
/// with the very same NaN.
pub open spec fn float_changed(a: u64, b: u64) -> bool {
    a != b && !float_eq(a, b)
}

pub fn floats_changed(a: u64, b: u64) -> (r: bool)
    ensures
        r == float_changed(a, b),
{
    let a_nan = (a >> 52u64) & 0x7ffu64 == 0x7ffu64 && a & 0xf_ffff_ffff_ffffu64 != 0;
    let b_nan = (b >> 52u64) & 0x7ffu64 == 0x7ffu64 && b & 0xf_ffff_ffff_ffffu64 != 0;
    let equal = !a_nan && !b_nan && (a == b || (a | b) & 0x7fff_ffff_ffff_ffffu64 == 0);
    a != b && !equal
}

} // verus!
