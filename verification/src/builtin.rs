use vstd::prelude::*;

verus! {

/// The names of the functions that the interpreter provides itself.
pub const BUILTIN_NAMES: [&'static str; 32] = [
    "assert",
    "print",
    "__IO_FILE_CONSTRUCT",
    "__IO_FILE_READ_AS_STRING",
    "__LIST_ADD",
    "__LIST_ADDALL",
    "__LIST_CLEAR",
    "__LIST_GET_FIRST",
    "__LIST_GET_LAST",
    "__LIST_GET_LENGTH",
    "__LIST_INSERT",
    "__LIST_REMOVEAT",
    "__LIST_REMOVELAST",
    "__LIST_REMOVERANGE",
    "__LIST_SHUFFLE",
    "__LIST_TOSTRING",
    "__MATH_ACOS",
    "__MATH_ASIN",
    "__MATH_ATAN",
    "__MATH_ATAN2",
    "__MATH_COS",
    "__MATH_EXP",
    "__MATH_LOG",
    "__MATH_MAX",
    "__MATH_MIN",
    "__MATH_POW",
    "__MATH_SIN",
    "__MATH_SQRT",
    "__MATH_TAN",
    "__MATH_NEXT_BOOL",
    "__MATH_NEXT_DOUBLE",
    "__MATH_NEXT_INT",
];

/// Whether `name` is one of `BUILTIN_NAMES`.
pub open spec fn is_builtin(name: Seq<char>) -> bool {
    exists|i: int| 0 <= i < BUILTIN_NAMES.len() && BUILTIN_NAMES@[i]@ == name
}

/// Whether the interpreter provides a function called `name`.
pub fn has_function(name: &str) -> (r: bool)
    ensures
        r == is_builtin(name@),
{
    let want = String::from_str(name);
    let mut i: usize = 0;
    while i < BUILTIN_NAMES.len()
        invariant
            0 <= i <= BUILTIN_NAMES.len(),
            want@ == name@,
            forall|j: int| 0 <= j < i ==> BUILTIN_NAMES@[j]@ != name@,
        decreases BUILTIN_NAMES.len() - i,
    {
        let candidate = String::from_str(BUILTIN_NAMES[i]);
        if candidate == want {
            return true;
        }
        i = i + 1;
    }
    false
}

} // verus!
