//! Text built by the runtime layer: schema identifiers, qualified table
//! names, driver error messages and decimal numbers.

use vstd::prelude::*;

use crate::event::KernelError;

verus! {

/// An ASCII letter, an ASCII digit, or an underscore.
pub open spec fn ident_char(c: char) -> bool {
    let v = c as int;
    (48 <= v <= 57) || (65 <= v <= 90) || (97 <= v <= 122) || v == 95
}

/// A schema name that may be placed between double quotes in SQL: non-empty,
/// and made of ASCII letters, digits and underscores only.
pub open spec fn valid_schema_ident(s: Seq<char>) -> bool {
    s.len() > 0 && forall|i: int| 0 <= i < s.len() ==> ident_char(s[i])
}

/// Whether `schema` is a valid schema identifier.
pub fn is_valid_schema_ident(schema: &str) -> (r: bool)
    ensures
        r == valid_schema_ident(schema@),
{
    let n = schema.unicode_len();
    if n == 0 {
        return false;
    }
    for i in 0..n
        invariant
            n == schema@.len(),
            forall|k: int| 0 <= k < i ==> ident_char(schema@[k]),
    {
        let c = schema.get_char(i);
        let v = c as u32;
        let ok = (48 <= v && v <= 57) || (65 <= v && v <= 90) || (97 <= v && v <= 122) || v == 95;
        if !ok {
            return false;
        }
    }
    true
}

/// A driver error whose message is `prefix: detail`.
pub fn map_driver_err(prefix: &str, detail: &str) -> (r: KernelError)
    ensures
        r matches KernelError::Driver(m) && m@ == prefix@ + ": "@ + detail@,
{
    let mut m = prefix.to_owned();
    m.append(": ");
    m.append(detail);
    KernelError::Driver(m)
}

/// `"schema".table`, after checking that `schema` is a valid identifier.
pub fn qualified_table(schema: &str, table: &str) -> (r: Result<String, KernelError>)
    ensures
        r is Ok <==> valid_schema_ident(schema@),
        r matches Ok(q) ==> q@ == "\""@ + schema@ + "\"."@ + table@,
        r matches Err(e) ==> e matches KernelError::Driver(m) && m@ == "invalid schema"@ + ": "@ + schema@,
{
    if !is_valid_schema_ident(schema) {
        return Err(map_driver_err("invalid schema", schema));
    }
    let mut q = "\"".to_owned();
    q.append(schema);
    q.append("\".");
    q.append(table);
    Ok(q)
}

/// The decimal digits of `n`, most significant first, without leading zeros.
pub open spec fn decimal_spec(n: nat) -> Seq<char>
    decreases n,
{
    if n < 10 {
        "0123456789"@.subrange(n as int, n as int + 1)
    } else {
        decimal_spec(n / 10) + "0123456789"@.subrange((n % 10) as int, (n % 10) as int + 1)
    }
}

/// Decimal digits never include a dash.
pub proof fn lemma_decimal_has_no_dash(n: nat)
    ensures
        forall|i: int| 0 <= i < decimal_spec(n).len() ==> decimal_spec(n)[i] != '-',
    decreases n,
{
    reveal_strlit("0123456789");
    if n >= 10 {
        lemma_decimal_has_no_dash(n / 10);
        let d = "0123456789"@.subrange((n % 10) as int, (n % 10) as int + 1);
        assert forall|i: int| 0 <= i < decimal_spec(n).len() implies decimal_spec(n)[i] != '-' by {
            if i >= decimal_spec(n / 10).len() {
                assert(decimal_spec(n)[i] == d[i - decimal_spec(n / 10).len()]);
            } else {
                assert(decimal_spec(n)[i] == decimal_spec(n / 10)[i]);
            }
        }
    }
}

/// Different numbers have different decimal digits.
pub proof fn lemma_decimal_injective(n: nat, m: nat)
    requires
        decimal_spec(n) == decimal_spec(m),
    ensures
        n == m,
    decreases n,
{
    reveal_strlit("0123456789");
    let ds = "0123456789"@;
    if n >= 10 {
        assert(decimal_spec(n).len() >= 2) by {
            lemma_decimal_nonempty((n / 10) as nat);
        }
    }
    if m >= 10 {
        assert(decimal_spec(m).len() >= 2) by {
            lemma_decimal_nonempty((m / 10) as nat);
        }
    }
    if n < 10 {
        assert(decimal_spec(n)[0] == ds[n as int]);
        assert(decimal_spec(m)[0] == ds[m as int]);
    } else {
        let dn = decimal_spec(n);
        assert(dn.drop_last() =~= decimal_spec(n / 10));
        assert(decimal_spec(m).drop_last() =~= decimal_spec(m / 10));
        lemma_decimal_injective(n / 10, m / 10);
        assert(dn.last() == ds[(n % 10) as int]);
        assert(decimal_spec(m).last() == ds[(m % 10) as int]);
    }
}

/// The decimal digits of a number are never empty.
pub proof fn lemma_decimal_nonempty(n: nat)
    ensures
        decimal_spec(n).len() >= 1,
    decreases n,
{
    reveal_strlit("0123456789");
    if n >= 10 {
        lemma_decimal_nonempty(n / 10);
    }
}

/// Appends the decimal digits of `n` to `s`.
pub fn push_decimal(s: &mut String, n: u64)
    ensures
        final(s)@ == old(s)@ + decimal_spec(n as nat),
    decreases n,
{
    if n >= 10 {
        push_decimal(s, n / 10);
    }
    let digits = "0123456789";
    proof {
        reveal_strlit("0123456789");
    }
    let d = (n % 10) as usize;
    assert(digits@.len() == 10);
    let ghost mid = s@;
    s.append(digits.substring_char(d, d + 1));
    assert(s@ =~= mid + "0123456789"@.subrange((n % 10) as int, (n % 10) as int + 1));
}

} // verus!
