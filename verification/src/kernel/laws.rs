use vstd::prelude::*;

use super::{
    alias_entries, alias_error, alias_name, attribute_of, call_attributes, first_alias_error, kernel_call_error,
    shape_error, AttributeView,
};
use crate::planning::assemble::{decimal, digit_char};

verus! {

proof fn lemma_decimal_len(n: nat)
    ensures
        decimal(n).len() >= 1,
        n >= 10 ==> decimal(n).len() >= 2,
    decreases n,
{
    if n >= 10 {
        lemma_decimal_len(n / 10);
    }
}

proof fn lemma_digit_char_injective(a: nat, b: nat)
    requires
        a < 10,
        b < 10,
        digit_char(a) == digit_char(b),
    ensures
        a == b,
{
}

/// Different numbers have different decimal texts.
proof fn lemma_decimal_injective(a: nat, b: nat)
    requires
        decimal(a) == decimal(b),
    ensures
        a == b,
    decreases a,
{
    lemma_decimal_len(a);
    lemma_decimal_len(b);
    if a < 10 && b < 10 {
        assert(decimal(a)[0] == digit_char(a));
        lemma_digit_char_injective(a, b);
    } else if a >= 10 && b >= 10 {
        let da = decimal(a);
        let db = decimal(b);
        lemma_decimal_len(a / 10);
        assert(da.drop_last() =~= decimal(a / 10));
        assert(db.drop_last() =~= decimal(b / 10));
        assert(da.last() == digit_char(a % 10));
        assert(db.last() == digit_char(b % 10));
        lemma_digit_char_injective(a % 10, b % 10);
        lemma_decimal_injective(a / 10, b / 10);
    } else if a < 10 {
        assert(decimal(a).len() == 1);
    } else {
        assert(decimal(b).len() == 1);
    }
}

proof fn lemma_alias_names_distinct(i: nat, j: nat)
    requires
        i != j,
    ensures
        alias_name(i) != alias_name(j),
{
    let p = "kernel.result_alias."@;
    if alias_name(i) == alias_name(j) {
        assert((p + decimal(i)).skip(p.len() as int) =~= decimal(i));
        assert((p + decimal(j)).skip(p.len() as int) =~= decimal(j));
        lemma_decimal_injective(i, j);
    }
}

/// The first attribute with a name is the one at position `k` when no earlier one has it.
proof fn lemma_attribute_at(a: Seq<(Seq<char>, AttributeView)>, k: int, name: Seq<char>)
    requires
        0 <= k < a.len(),
        a[k].0 == name,
        forall|j: int| 0 <= j < k ==> (#[trigger] a[j]).0 != name,
    ensures
        attribute_of(a, name) == Some(a[k].1),
{
    reveal(attribute_of);
    let i = choose|i: int| 0 <= i < a.len() && (#[trigger] a[i]).0 == name && forall|j: int| 0 <= j < i ==> a[j].0 != name;
    if i < k {
        assert(a[i].0 != name);
    }
    if k < i {
        assert(a[k].0 != name);
    }
}

/// A call to a kernel, built with the attributes of `KernelCallOp::attributes`, with one
/// operand per ABI parameter and one result per alias, passes the `kernel.call` check
/// whenever every alias names an existing parameter.
pub proof fn law_built_kernel_call_verifies(
    name: Seq<char>,
    symbol: Seq<char>,
    backend: Seq<char>,
    parameter_count: usize,
    result_aliases: Seq<usize>,
)
    requires
        parameter_count <= i64::MAX,
        result_aliases.len() <= i64::MAX,
        result_aliases.len() <= usize::MAX,
        forall|i: int| 0 <= i < result_aliases.len() ==> #[trigger] result_aliases[i] < parameter_count,
    ensures
        kernel_call_error(
            0,
            0,
            parameter_count as nat,
            result_aliases.len(),
            call_attributes(name, symbol, backend, parameter_count as int, result_aliases),
        ) is None,
{
    let a = call_attributes(name, symbol, backend, parameter_count as int, result_aliases);
    let n = result_aliases.len();
    reveal_strlit("kernel.name");
    reveal_strlit("kernel.symbol");
    reveal_strlit("kernel.backend");
    reveal_strlit("kernel.parameter_count");
    reveal_strlit("kernel.result_count");
    reveal_strlit("kernel.result_alias.");
    assert(a.len() == 5 + n);
    assert(a[0].0 == "kernel.name"@);
    assert(a[1].0 == "kernel.symbol"@);
    assert(a[2].0 == "kernel.backend"@);
    assert(a[3].0 == "kernel.parameter_count"@);
    assert(a[4].0 == "kernel.result_count"@);
    lemma_attribute_at(a, 0, "kernel.name"@);
    lemma_attribute_at(a, 1, "kernel.symbol"@);
    lemma_attribute_at(a, 2, "kernel.backend"@);
    lemma_attribute_at(a, 3, "kernel.parameter_count"@);
    lemma_attribute_at(a, 4, "kernel.result_count"@);

    assert forall|i: nat| i < n implies alias_error(a, parameter_count as nat, i) is None by {
        let key = alias_name(i);
        lemma_decimal_len(i);
        assert(key[7] == 'r');
        assert(key[14] == 'a');
        assert(key.len() >= 21);
        assert(a[5 + i as int] == (alias_name(i), AttributeView::Integer(result_aliases[i as int] as i64))) by {
            assert(alias_entries(result_aliases, n as int)[i as int] == a[5 + i as int]);
        }
        assert forall|j: int| 0 <= j < 5 + i as int implies (#[trigger] a[j]).0 != key by {
            if j >= 5 {
                assert(a[j] == (alias_name((j - 5) as nat), AttributeView::Integer(result_aliases[j - 5] as i64))) by {
                    assert(alias_entries(result_aliases, n as int)[j - 5] == a[j]);
                }
                lemma_alias_names_distinct((j - 5) as nat, i);
            } else if j == 4 {
                assert("kernel.result_count"@[14] == 'c');
            } else if j == 3 {
                assert("kernel.parameter_count"@[7] == 'p');
            }
        }
        lemma_attribute_at(a, 5 + i as int, key);
    }

    assert forall|m: nat| m <= n implies first_alias_error(a, parameter_count as nat, m) is None by {
        lemma_first_alias_none(a, parameter_count as nat, m, n);
    }
    reveal(shape_error);
}

proof fn lemma_first_alias_none(a: Seq<(Seq<char>, AttributeView)>, expected: nat, m: nat, n: nat)
    requires
        m <= n,
        forall|i: nat| i < n ==> (#[trigger] alias_error(a, expected, i)) is None,
    ensures
        first_alias_error(a, expected, m) is None,
    decreases m,
{
    if m > 0 {
        lemma_first_alias_none(a, expected, (m - 1) as nat, n);
        assert(alias_error(a, expected, (m - 1) as nat) is None);
    }
}

} // verus!
