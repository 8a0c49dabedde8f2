//! The stable per-node id: the number that ends the node's network address
//! (the last octet of an IPv4 address).
use vstd::prelude::*;

verus! {

pub open spec fn is_digit(c: char) -> bool {
    '0' <= c && c <= '9'
}

/// The run of ASCII digits that ends `s` (empty when `s` ends otherwise).
pub open spec fn trailing_digits(s: Seq<char>) -> Seq<char>
    decreases s.len(),
{
    if s.len() == 0 || !is_digit(s.last()) {
        seq![]
    } else {
        trailing_digits(s.drop_last()).push(s.last())
    }
}

/// The number that the decimal digits `ds` write.
pub open spec fn decimal_value(ds: Seq<char>) -> int
    decreases ds.len(),
{
    if ds.len() == 0 {
        0
    } else {
        decimal_value(ds.drop_last()) * 10 + (ds.last() as int - '0' as int)
    }
}

/// Relies on regex::Regex::new and regex::Regex::find with the pattern
/// below. Every non-empty run of digits splits into the alternatives of the
/// group (a single digit is one), `+` needs at least one of them, and `$` is
/// the end of the haystack; so the leftmost match is exactly the run of
/// digits that ends the text, and there is none when the text ends with
/// something else. The pattern is valid and small, so `Regex::new` succeeds.
#[verifier::external_body]
fn address_suffix(addr: &str) -> (r: Option<Vec<char>>)
    ensures
        r matches Some(v) ==> v@ == trailing_digits(addr@) && v@.len() > 0,
        r is None ==> trailing_digits(addr@).len() == 0,
{
    let re = regex::Regex::new(r"((?:(?:25[0-5]|2[0-4][0-9]|[01]?[0-9][0-9]?)))+$").ok()?;
    re.find(addr).map(|m| m.as_str().chars().collect())
}

/// The value of the decimal digits `ds`, or `None` when it does not fit a
/// `u32`.
pub fn parse_decimal(ds: &Vec<char>) -> (r: Option<u32>)
    requires
        forall|i: int| 0 <= i < ds@.len() ==> is_digit(#[trigger] ds@[i]),
    ensures
        decimal_value(ds@) <= u32::MAX ==> r == Some(decimal_value(ds@) as u32),
        decimal_value(ds@) > u32::MAX ==> r is None,
{
    let mut v: u64 = 0;
    let mut i: usize = 0;
    while i < ds.len()
        invariant
            i <= ds@.len(),
            forall|j: int| 0 <= j < ds@.len() ==> is_digit(#[trigger] ds@[j]),
            v as int == decimal_value(ds@.subrange(0, i as int)),
            v <= u32::MAX,
        decreases ds@.len() - i,
    {
        assert(ds@.subrange(0, i + 1).drop_last() =~= ds@.subrange(0, i as int));
        let d = (ds[i] as u32 - '0' as u32) as u64;
        let next = v * 10 + d;
        if next > u32::MAX as u64 {
            proof {
                lemma_decimal_prefix_bound(ds@, i + 1);
            }
            return None;
        }
        v = next;
        i = i + 1;
    }
    assert(ds@.subrange(0, ds@.len() as int) =~= ds@);
    Some(v as u32)
}

/// A number never gets smaller by appending digits.
proof fn lemma_decimal_prefix_bound(ds: Seq<char>, n: int)
    requires
        0 <= n <= ds.len(),
        forall|j: int| 0 <= j < ds.len() ==> is_digit(#[trigger] ds[j]),
    ensures
        decimal_value(ds.subrange(0, n)) <= decimal_value(ds),
    decreases ds.len() - n,
{
    if n < ds.len() {
        lemma_decimal_prefix_bound(ds, n + 1);
        assert(ds.subrange(0, n + 1).drop_last() =~= ds.subrange(0, n));
        assert(is_digit(ds[n]));
        assert(ds.subrange(0, n + 1).last() == ds[n]);
        assert(decimal_value(ds.subrange(0, n)) >= 0) by {
            lemma_decimal_nonnegative(ds.subrange(0, n));
        }
    } else {
        assert(ds.subrange(0, n) =~= ds);
    }
}

proof fn lemma_decimal_nonnegative(ds: Seq<char>)
    requires
        forall|j: int| 0 <= j < ds.len() ==> is_digit(#[trigger] ds[j]),
    ensures
        decimal_value(ds) >= 0,
    decreases ds.len(),
{
    if ds.len() > 0 {
        lemma_decimal_nonnegative(ds.drop_last());
    }
}

proof fn lemma_trailing_digits_are_digits(s: Seq<char>)
    ensures
        forall|i: int| 0 <= i < trailing_digits(s).len() ==> is_digit(#[trigger] trailing_digits(s)[i]),
    decreases s.len(),
{
    if s.len() > 0 && is_digit(s.last()) {
        let init = trailing_digits(s.drop_last());
        lemma_trailing_digits_are_digits(s.drop_last());
        assert forall|i: int| 0 <= i < trailing_digits(s).len() implies is_digit(
            #[trigger] trailing_digits(s)[i],
        ) by {
            if i < init.len() {
                assert(trailing_digits(s)[i] == init[i]);
            }
        }
    }
}

/// The node id written at the end of the address `addr` (for example the
/// last octet of `10.100.23.145`); `None` when the address does not end with
/// digits or the number does not fit a `u32`.
pub fn node_id_from_address(addr: &str) -> (r: Option<u32>)
    ensures
        trailing_digits(addr@).len() == 0 ==> r is None,
        trailing_digits(addr@).len() > 0 && decimal_value(trailing_digits(addr@)) <= u32::MAX
            ==> r == Some(decimal_value(trailing_digits(addr@)) as u32),
        decimal_value(trailing_digits(addr@)) > u32::MAX ==> r is None,
{
    proof {
        lemma_trailing_digits_are_digits(addr@);
    }
    match address_suffix(addr) {
        Some(ds) => parse_decimal(&ds),
        None => None,
    }
}

} // verus!
