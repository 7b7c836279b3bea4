use vstd::prelude::*;
use crate::dirs::{Dirs, joined};

verus! {

/// The programs of the test directory, by number.
pub const TESTS: [&'static str; 89] = [
    "0.void.dart",
    "1.hello.dart",
    "2.variable.dart",
    "3.addition.dart",
    "4.subtraction.dart",
    "5.multiplication.dart",
    "6.division.dart",
    "7.funcall.dart",
    "8.argpass.dart",
    "9.evaled_argpass.dart",
    "10.arithmetic.dart",
    "11.conditional.dart",
    "12.conditional2.dart",
    "13.conditional3.dart",
    "14.conditional4.dart",
    "15.conditional5.dart",
    "16.mutate.dart",
    "17.mutate_self.dart",
    "18.post_increment.dart",
    "19.post_decrement.dart",
    "20.pre_increment.dart",
    "21.pre_decrement.dart",
    "22.returnvalue.dart",
    "23.logical_or.dart",
    "24.logical_and.dart",
    "25.logical_expr.dart",
    "26.less_than.dart",
    "27.greater_than.dart",
    "28.less_or_equal.dart",
    "29.greater_or_equal.dart",
    "30.equality.dart",
    "31.equality2.dart",
    "32.equality3.dart",
    "33.recursion.dart",
    "34.unary_minus.dart",
    "35.arg_expression.dart",
    "36.arg_expression2.dart",
    "37.arg_expression3.dart",
    "38.arg_expression4.dart",
    "39.not.dart",
    "40.fibonacci.dart",
    "41.difficult_return.dart",
    "42.bitand.dart",
    "43.bitor.dart",
    "44.bitxor.dart",
    "45.left_associative_sum.dart",
    "46.hard_expression.dart",
    "47.left_associative_product.dart",
    "48.string_concat.dart",
    "49.lexical_scope.dart",
    "50.method_reading_field.dart",
    "51.constructor_setting_field.dart",
    "52.constructor_setting_field_from_arg.dart",
    "53.method_postincrementing_field.dart",
    "54.method_postdecrementing_field.dart",
    "55.method_preincrementing_field.dart",
    "56.method_predecrementing_field.dart",
    "57.string_interpolation.dart",
    "58.string_interpolation2.dart",
    "59.string_interpolation3.dart",
    "60.string_interpolation4.dart",
    "61.semicolon_king.dart",
    "62.while.dart",
    "63.dowhile.dart",
    "64.for.dart",
    "65.for2.dart",
    "66.this_constructor_arg.dart",
    "67.access_object_field.dart",
    "68.chained_access.dart",
    "69.chained_methods.dart",
    "70.nested_function.dart",
    "71.nested_functions.dart",
    "72.bodyless_constructor.dart",
    "73.implicit_constructor.dart",
    "74.external_setget.dart",
    "75.external_setget2.dart",
    "76.change_field_instance.dart",
    "77.shadow_field.dart",
    "78.busy_garbageman.dart",
    "79.string_interpolation_with_dot.dart",
    "80.read_file_as_string.dart",
    "81.list_add_element.dart",
    "82.list_clear.dart",
    "83.list_remove_last.dart",
    "84.list_forloop.dart",
    "85.while_counter.dart",
    "86.forloop_counter.dart",
    "500.multifile/main.dart",
    "501.external_constructor/main.dart",
];

/// The programs of the failing-test directory, by number.
pub const FAILTESTS: [&'static str; 10] = [
    "0.cross_function_leak.dart",
    "1.double_declaration.dart",
    "2.forgotten_paramlist.dart",
    "3.plus_is_not_prefix.dart",
    "4.var_not_declared.dart",
    "5.var_not_declared2.dart",
    "6.extraneous_comma.dart",
    "7.illegal_operand_pluss.dart",
    "8.illegal_operand_minus.dart",
    "500.non_transitive_imports/main.dart",
];

/// The value of a sequence of decimal digits.
pub open spec fn digits_value(s: Seq<char>) -> nat
    decreases s.len(),
{
    if s.len() == 0 {
        0
    } else {
        digits_value(s.drop_last()) * 10 + ((s.last() as nat) - ('0' as nat)) as nat
    }
}

pub open spec fn all_digits(s: Seq<char>) -> bool {
    forall|i: int| 0 <= i < s.len() ==> '0' <= #[trigger] s[i] <= '9'
}

/// What `str::parse::<usize>` gives for `s`: after an optional leading `+`,
/// one or more decimal digits whose value fits in a `usize`; otherwise nothing.
pub open spec fn parse_usize_spec(s: Seq<char>) -> Option<usize> {
    let d = if s.len() > 0 && s[0] == '+' { s.skip(1) } else { s };
    if d.len() > 0 && all_digits(d) && digits_value(d) <= usize::MAX {
        Some(digits_value(d) as usize)
    } else {
        None
    }
}

pub proof fn lemma_digits_value_monotone(s: Seq<char>, n: int)
    requires
        0 <= n <= s.len(),
        all_digits(s),
    ensures
        digits_value(s.take(n)) <= digits_value(s),
    decreases s.len() - n,
{
    if n < s.len() {
        lemma_digits_value_monotone(s, n + 1);
        assert(s.take(n + 1).drop_last() =~= s.take(n));
    } else {
        assert(s.take(n) =~= s);
    }
}

/// Parses `s` as `str::parse::<usize>` does, as `parse_usize_spec` says.
pub fn parse_usize(s: &str) -> (r: Option<usize>)
    ensures
        r == parse_usize_spec(s@),
{
    let cs = crate::text::chars_of(s);
    let mut start: usize = 0;
    if cs.len() > 0 && cs[0] == '+' {
        start = 1;
    }
    let ghost d = if s@.len() > 0 && s@[0] == '+' { s@.skip(1) } else { s@ };
    assert(d =~= cs@.skip(start as int));
    if start >= cs.len() {
        return None;
    }
    let mut value: usize = 0;
    let mut i = start;
    while i < cs.len()
        invariant
            start <= i <= cs.len(),
            d == cs@.skip(start as int),
            cs@ == s@,
            d == (if s@.len() > 0 && s@[0] == '+' { s@.skip(1) } else { s@ }),
            all_digits(d.take(i - start)),
            value == digits_value(d.take(i - start)),
        decreases cs.len() - i,
    {
        let c = cs[i];
        assert(d.take(i - start + 1) =~= d.take(i - start).push(c));
        if c < '0' || c > '9' {
            assert(d[i - start] == c);
            assert(!all_digits(d));
            return None;
        }
        let digit = (c as u32 - '0' as u32) as usize;
        assert(digit == (c as nat) - ('0' as nat));
        assert(d.take(i - start + 1).drop_last() =~= d.take(i - start));
        assert(digits_value(d.take(i - start + 1)) == digits_value(d.take(i - start)) * 10 + digit);
        let next = match value.checked_mul(10) {
            Some(v) => v.checked_add(digit),
            None => None,
        };
        match next {
            Some(v) => {
                value = v;
            },
            None => {
                proof {
                    if all_digits(d) {
                        lemma_digits_value_monotone(d, i - start + 1);
                    }
                }
                return None;
            },
        }
        i = i + 1;
    }
    assert(d.take(cs.len() - start) =~= d);
    Some(value)
}

/// Whether `name` is the program of test number `n`: it starts with the
/// decimal digits of `n`, followed by a dot.
pub open spec fn numbered(name: Seq<char>, n: nat) -> bool {
    exists|k: int| 0 < k < name.len() && name[k] == '.' && #[trigger] all_digits(name.take(k))
        && digits_value(name.take(k)) == n
}

/// Whether some program of `list` has the number `n`.
pub open spec fn numbered_in(list: Seq<&str>, n: nat) -> bool {
    exists|j: int| 0 <= j < list.len() && numbered(#[trigger] list[j]@, n)
}

/// Whether `j` is the first program of `list` with the number `n`.
pub open spec fn first_numbered(list: Seq<&str>, n: nat, j: int) -> bool {
    &&& 0 <= j < list.len()
    &&& numbered(list[j]@, n)
    &&& forall|m: int| 0 <= m < j ==> !numbered(#[trigger] list[m]@, n)
}

/// Whether `s` names a test of `list` that exists: either a number that
/// some program of `list` carries, or a file name.
pub open spec fn test_available(s: Seq<char>, list: Seq<&str>) -> bool {
    parse_usize_spec(s) matches Some(i) ==> numbered_in(list, i as nat)
}

proof fn lemma_digit_prefix_unique(name: Seq<char>, k1: int, k2: int)
    requires
        0 < k1 < name.len(),
        0 < k2 < name.len(),
        name[k1] == '.',
        name[k2] == '.',
        all_digits(name.take(k1)),
        all_digits(name.take(k2)),
    ensures
        k1 == k2,
{
    if k1 < k2 {
        assert(name.take(k2)[k1] == name[k1]);
    } else if k2 < k1 {
        assert(name.take(k1)[k2] == name[k2]);
    }
}

/// The number that the program `name` carries, if any fits in a `usize`.
fn number_of(name: &str) -> (r: Option<usize>)
    ensures
        forall|n: usize| numbered(name@, n as nat) <==> r == Some(n),
{
    let cs = crate::text::chars_of(name);
    let mut k: usize = 0;
    let mut value: usize = 0;
    while k < cs.len() && cs[k] >= '0' && cs[k] <= '9'
        invariant
            k <= cs.len(),
            cs@ == name@,
            all_digits(cs@.take(k as int)),
            value == digits_value(cs@.take(k as int)),
        decreases cs.len() - k,
    {
        let c = cs[k];
        assert(cs@.take(k + 1).drop_last() =~= cs@.take(k as int));
        let digit = (c as u32 - '0' as u32) as usize;
        let next = match value.checked_mul(10) {
            Some(v) => v.checked_add(digit),
            None => None,
        };
        match next {
            Some(v) => { value = v; },
            None => {
                assert(all_digits(cs@.take(k + 1)));
                assert forall|n: usize| !numbered(name@, n as nat) by {
                    if numbered(name@, n as nat) {
                        let k2 = choose|k2: int| 0 < k2 < name@.len() && name@[k2] == '.'
                            && #[trigger] all_digits(name@.take(k2)) && digits_value(name@.take(k2)) == n as nat;
                        assert(cs@.take(k + 1)[k as int] == c);
                        if k2 <= k {
                            assert(name@.take(k + 1)[k2] == name@[k2]);
                        }
                        assert(name@.take(k2).take(k + 1) =~= name@.take(k + 1));
                        lemma_digits_value_monotone(name@.take(k2), k + 1);
                    }
                }
                return None;
            },
        }
        k = k + 1;
    }
    if k > 0 && k < cs.len() && cs[k] == '.' {
        proof {
            assert forall|n: usize| numbered(name@, n as nat) implies value == n by {
                let k2 = choose|k2: int| 0 < k2 < name@.len() && name@[k2] == '.'
                    && #[trigger] all_digits(name@.take(k2)) && digits_value(name@.take(k2)) == n as nat;
                lemma_digit_prefix_unique(name@, k as int, k2);
            }
            assert(numbered(name@, value as nat));
        }
        Some(value)
    } else {
        proof {
            assert forall|n: usize| !numbered(name@, n as nat) by {
                if numbered(name@, n as nat) {
                    let k2 = choose|k2: int| 0 < k2 < name@.len() && name@[k2] == '.'
                        && #[trigger] all_digits(name@.take(k2)) && digits_value(name@.take(k2)) == n as nat;
                    if k2 < k {
                        assert(cs@.take(k as int)[k2] == cs@[k2]);
                    } else if k2 > k {
                        assert(name@.take(k2)[k as int] == name@[k as int]);
                    }
                }
            }
        }
        None
    }
}

/// The place in `list` of the first program with the number `n`, if any.
pub fn find_numbered(list: &[&str], n: usize) -> (r: Option<usize>)
    ensures
        r is None <==> !numbered_in(list@, n as nat),
        r matches Some(j) ==> first_numbered(list@, n as nat, j as int),
{
    let mut j: usize = 0;
    while j < list.len()
        invariant
            j <= list.len(),
            forall|m: int| 0 <= m < j ==> !numbered(#[trigger] list@[m]@, n as nat),
        decreases list.len() - j,
    {
        if number_of(list[j]) == Some(n) {
            assert(numbered(list@[j as int]@, n as nat));
            return Some(j);
        }
        j = j + 1;
    }
    None
}

/// The path of a test program: test number `i` where `s` parses as the
/// number `i`, otherwise `s` taken as a file name in the test directory.
pub fn get_filepath(s: String, paths: &Dirs) -> (r: String)
    requires
        test_available(s@, TESTS@),
    ensures
        parse_usize_spec(s@) is None ==> r@ == joined(joined(paths.cwd_spec(), paths.testdir_spec()), s@),
        parse_usize_spec(s@) matches Some(i) ==> exists|j: int| first_numbered(TESTS@, i as nat, j)
            && r@ == joined(joined(paths.cwd_spec(), paths.testdir_spec()), TESTS@[j]@),
{
    let dir = paths.testdir();
    match parse_usize(s.as_str()) {
        Some(i) => match find_numbered(&TESTS, i) {
            Some(j) => crate::dirs::join_path(dir.as_str(), TESTS[j]),
            None => crate::dirs::join_path(dir.as_str(), s.as_str()),
        },
        None => crate::dirs::join_path(dir.as_str(), s.as_str()),
    }
}

/// The path of a failing-test program, chosen as in `get_filepath`.
pub fn get_failfilepath(s: String, paths: &Dirs) -> (r: String)
    requires
        test_available(s@, FAILTESTS@),
    ensures
        parse_usize_spec(s@) is None ==> r@ == joined(joined(paths.cwd_spec(), paths.failtestdir_spec()), s@),
        parse_usize_spec(s@) matches Some(i) ==> exists|j: int| first_numbered(FAILTESTS@, i as nat, j)
            && r@ == joined(joined(paths.cwd_spec(), paths.failtestdir_spec()), FAILTESTS@[j]@),
{
    let dir = paths.failtestdir();
    match parse_usize(s.as_str()) {
        Some(i) => match find_numbered(&FAILTESTS, i) {
            Some(j) => crate::dirs::join_path(dir.as_str(), FAILTESTS[j]),
            None => crate::dirs::join_path(dir.as_str(), s.as_str()),
        },
        None => crate::dirs::join_path(dir.as_str(), s.as_str()),
    }
}

} // verus!
