//! Names for the scratch files that sources are written to.
//!
//! Most tools read a file, not a stream, so each fixture's source is written
//! out before the tool runs. Fixtures are checked side by side: the names
//! must differ from fixture to fixture, whatever the fixtures are called.

use vstd::prelude::*;
use crate::text::{decimal_digits, lemma_decimal_digits};

verus! {

/// The hyphen that sets the number apart from the fixture's name.
pub const HYPHEN: u8 = 45;

/// The name of the scratch file of the fixture at `position` in the suite:
/// the position in decimal, a hyphen, and the fixture's own name.
pub open spec fn scratch_name(position: nat, name: Seq<u8>) -> Seq<u8> {
    decimal_digits(position).push(HYPHEN) + name
}

/// Two strings that agree up to their first hyphens agree in what stands
/// before it.
proof fn lemma_same_head(a: Seq<u8>, x: Seq<u8>, b: Seq<u8>, y: Seq<u8>)
    requires
        a.push(HYPHEN) + x == b.push(HYPHEN) + y,
        forall|i: int| 0 <= i < a.len() ==> a[i] != HYPHEN,
        forall|i: int| 0 <= i < b.len() ==> b[i] != HYPHEN,
    ensures
        a == b,
{
    let left = a.push(HYPHEN) + x;
    let right = b.push(HYPHEN) + y;
    if a.len() < b.len() {
        assert(left[a.len() as int] == HYPHEN);
        assert(right[a.len() as int] == b[a.len() as int]);
    } else if b.len() < a.len() {
        assert(right[b.len() as int] == HYPHEN);
        assert(left[b.len() as int] == a[b.len() as int]);
    } else {
        assert forall|i: int| 0 <= i < a.len() implies a[i] == b[i] by {
            assert(left[i] == a[i]);
            assert(right[i] == b[i]);
        }
        assert(a =~= b);
    }
}

/// Fixtures at different positions get different scratch files, whatever
/// they are called.
pub proof fn lemma_scratch_names_differ(p: nat, name: Seq<u8>, q: nat, other: Seq<u8>)
    requires
        p != q,
    ensures
        scratch_name(p, name) != scratch_name(q, other),
{
    lemma_decimal_digits(p);
    lemma_decimal_digits(q);
    if scratch_name(p, name) == scratch_name(q, other) {
        lemma_same_head(decimal_digits(p), name, decimal_digits(q), other);
    }
}

/// Appends the decimal digits of `n` to `out`.
fn push_digits(n: usize, out: &mut Vec<u8>)
    ensures
        final(out)@ == old(out)@ + decimal_digits(n as nat),
    decreases n,
{
    if n >= 10 {
        push_digits(n / 10, out);
    }
    let ghost before = out@;
    out.push(48 + (n % 10) as u8);
    proof {
        if n >= 10 {
            assert(out@ =~= old(out)@ + decimal_digits(n as nat));
        } else {
            assert(out@ =~= old(out)@ + decimal_digits(n as nat));
        }
    }
}

/// The name of the scratch file of the fixture at `position` in the suite.
pub fn scratch_file(position: usize, name: &[u8]) -> (file: Vec<u8>)
    ensures
        file@ == scratch_name(position as nat, name@),
{
    let mut file: Vec<u8> = Vec::new();
    push_digits(position, &mut file);
    file.push(HYPHEN);
    let mut i: usize = 0;
    let ghost head = file@;
    while i < name.len()
        invariant
            i <= name@.len(),
            file@ == head + name@.take(i as int),
        decreases name@.len() - i,
    {
        file.push(name[i]);
        assert(file@ =~= head + name@.take(i + 1));
        i += 1;
    }
    assert(name@.take(i as int) =~= name@);
    assert(head =~= decimal_digits(position as nat).push(HYPHEN));
    file
}

} // verus!
