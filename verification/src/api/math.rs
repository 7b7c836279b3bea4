use vstd::prelude::*;
use crate::object::Object;
use rand::Rng;

verus! {

/// Calls `Rng::gen_range(0..n)` of the `rand` crate on the thread-local
/// generator: a random integer from 0 up to but not including `n`. The
/// crate asserts that the range is not empty, which the `requires` rules
/// out; which integer comes out is left to chance and unstated.
#[verifier::external_body]
fn random_below(n: i64) -> (r: i64)
    requires
        n > 0,
    ensures
        0 <= r < n,
{
    let mut rng = rand::thread_rng();
    rng.gen_range(0..n)
}

/// Why a random-number built-in refuses its arguments.
pub enum RandomError {
    /// Wrong number of arguments; the message names the function and the
    /// number expected.
    ArgCount(String),
    /// The bound is no integer.
    BadArgument,
    /// The bound is not positive, so no integer lies below it.
    EmptyRange(i64),
}

/// `Random.nextInt(n)`: a random integer from 0 up to but not including `n`.
pub fn next_int(args: Vec<Object>) -> (r: Result<Object, RandomError>)
    ensures
        args@.len() != 1 ==> r is Err && r->Err_0 is ArgCount,
        args@.len() == 1 ==> match args@[0] {
            Object::Int(n) => if n > 0 {
                r matches Ok(Object::Int(k)) && 0 <= k < n
            } else {
                r matches Err(RandomError::EmptyRange(m)) && m == n
            },
            _ => r matches Err(RandomError::BadArgument),
        },
{
    if args.len() != 1 {
        return Err(RandomError::ArgCount(String::from_str("Expected 1 argument(s) for math.nextInt()")));
    }
    match &args[0] {
        Object::Int(n) => {
            if *n <= 0 {
                return Err(RandomError::EmptyRange(*n));
            }
            Ok(Object::Int(random_below(*n)))
        },
        _ => Err(RandomError::BadArgument),
    }
}

/// `Random.nextBool()`: a random boolean.
pub fn next_bool(args: Vec<Object>) -> (r: Result<Object, RandomError>)
    ensures
        args@.len() != 0 ==> r is Err && r->Err_0 is ArgCount,
        args@.len() == 0 ==> r matches Ok(Object::Bool(_)),
{
    if args.len() != 0 {
        return Err(RandomError::ArgCount(String::from_str("Expected 0 argument(s) for math.nextBool()")));
    }
    Ok(Object::Bool(random_below(2) == 1))
}

} // verus!
