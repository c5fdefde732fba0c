use vstd::prelude::*;

verus! {

/// A runtime value.
///
/// The value representation is a closed tagged union so that further
/// variants (booleans, nil, strings, objects) can be added later without
/// changing the constant-pool or execution-stack contracts. The numeric
/// variant carries the bit pattern of a double-precision number; turning
/// those bits into a floating-point datum or into text is left to
/// unverified front ends, which are the only place such arithmetic lives.
#[derive(Clone, Copy, PartialEq, Eq, Structural, Debug)]
pub enum Value {
    Num(u64),
}

impl Default for Value {
    /// The zero-equivalent default value: the bit pattern of numeric zero.
    fn default() -> (r: Value)
        ensures
            r == Value::Num(0u64),
    {
        Value::Num(0)
    }
}

} // verus!
