//! Byte-level text helpers shared by the parsers.
//!
//! Tool output and fixture metadata are handled as raw bytes: nothing here
//! relies on a text encoding beyond ASCII for the few characters that carry
//! structure (separators, digits, rule-name characters).

use vstd::prelude::*;

verus! {

/// Line feed, the separator between lines.
pub const LINE_FEED: u8 = 10;

/// Carriage return, dropped from the end of a line when present.
pub const CARRIAGE_RETURN: u8 = 13;

/// Space.
pub const SPACE: u8 = 32;

/// Comma.
pub const COMMA: u8 = 44;

/// Colon.
pub const COLON: u8 = 58;

/// Opening square bracket.
pub const BRACKET_OPEN: u8 = 91;

/// Closing square bracket.
pub const BRACKET_CLOSE: u8 = 93;

/// The byte strings held by a sequence of byte vectors.
pub open spec fn views(v: Seq<Vec<u8>>) -> Seq<Seq<u8>> {
    v.map_values(|b: Vec<u8>| b@)
}

/// Appending a vector appends its bytes to the views.
pub proof fn lemma_views_push(v: Seq<Vec<u8>>, b: Vec<u8>)
    ensures
        views(v.push(b)) == views(v).push(b@),
{
    assert(views(v.push(b)) =~= views(v).push(b@));
}

/// Whether two byte strings hold the same bytes.
pub fn bytes_eq(a: &[u8], b: &[u8]) -> (same: bool)
    ensures
        same == (a@ == b@),
{
    if a.len() != b.len() {
        return false;
    }
    let mut i: usize = 0;
    while i < a.len()
        invariant
            a@.len() == b@.len(),
            i <= a@.len(),
            forall|k: int| 0 <= k < i ==> a@[k] == b@[k],
        decreases a@.len() - i,
    {
        if a[i] != b[i] {
            return false;
        }
        i += 1;
    }
    assert(a@ =~= b@);
    true
}

/// Whether `prefix` opens `s`.
pub fn starts_with(s: &[u8], prefix: &[u8]) -> (yes: bool)
    ensures
        yes == prefix@.is_prefix_of(s@),
{
    if prefix.len() > s.len() {
        return false;
    }
    let mut i: usize = 0;
    while i < prefix.len()
        invariant
            prefix@.len() <= s@.len(),
            i <= prefix@.len(),
            forall|k: int| 0 <= k < i ==> s@[k] == prefix@[k],
        decreases prefix@.len() - i,
    {
        if s[i] != prefix[i] {
            return false;
        }
        i += 1;
    }
    assert(prefix@ =~= s@.subrange(0, prefix@.len() as int));
    true
}

/// The pieces of `s` between occurrences of `sep`.
///
/// There is always one piece more than there are separators, so the empty
/// string splits into one empty piece and a trailing separator yields a
/// trailing empty piece.
pub open spec fn split(s: Seq<u8>, sep: u8) -> Seq<Seq<u8>>
    decreases s.len(),
{
    if s.len() == 0 {
        seq![Seq::<u8>::empty()]
    } else {
        let before = split(s.drop_last(), sep);
        if s.last() == sep {
            before.push(Seq::<u8>::empty())
        } else {
            before.drop_last().push(before.last().push(s.last()))
        }
    }
}

/// The pieces joined again, with `sep` between neighbours.
pub open spec fn join(pieces: Seq<Seq<u8>>, sep: u8) -> Seq<u8>
    decreases pieces.len(),
{
    if pieces.len() == 0 {
        Seq::<u8>::empty()
    } else if pieces.len() == 1 {
        pieces[0]
    } else {
        join(pieces.drop_last(), sep).push(sep) + pieces.last()
    }
}

/// Splitting loses nothing: the pieces are free of the separator and joining
/// them gives the input back.
pub proof fn lemma_split_join(s: Seq<u8>, sep: u8)
    ensures
        split(s, sep).len() >= 1,
        join(split(s, sep), sep) == s,
        forall|i: int, k: int|
            0 <= i < split(s, sep).len() && 0 <= k < split(s, sep)[i].len() ==> split(
                s,
                sep,
            )[i][k] != sep,
    decreases s.len(),
{
    if s.len() > 0 {
        let before = split(s.drop_last(), sep);
        lemma_split_join(s.drop_last(), sep);
        if s.last() == sep {
            let now = before.push(Seq::<u8>::empty());
            assert(now.drop_last() =~= before);
            assert(join(now, sep) =~= join(before, sep).push(sep));
            assert(s =~= s.drop_last().push(sep));
        } else {
            let grown = before.last().push(s.last());
            let now = before.drop_last().push(grown);
            assert(now.drop_last() =~= before.drop_last());
            if before.len() == 1 {
                assert(join(before, sep) == before[0]);
                assert(join(now, sep) == grown);
            } else {
                assert(join(now, sep) == join(before.drop_last(), sep).push(sep) + grown);
                assert(join(before, sep) == join(before.drop_last(), sep).push(sep)
                    + before.last());
                assert(join(now, sep) =~= join(before, sep).push(s.last()));
            }
            assert(s =~= s.drop_last().push(s.last()));
        }
    }
}

/// Splits `s` at every occurrence of `sep`.
pub fn split_bytes(s: &[u8], sep: u8) -> (pieces: Vec<Vec<u8>>)
    ensures
        views(pieces@) == split(s@, sep),
{
    let mut done: Vec<Vec<u8>> = Vec::new();
    let mut current: Vec<u8> = Vec::new();
    let mut i: usize = 0;
    assert(s@.take(0) =~= Seq::<u8>::empty());
    assert(views(done@).push(current@) =~= seq![Seq::<u8>::empty()]);
    while i < s.len()
        invariant
            i <= s@.len(),
            views(done@).push(current@) == split(s@.take(i as int), sep),
        decreases s@.len() - i,
    {
        let ghost before = split(s@.take(i as int), sep);
        proof {
            let upto = s@.take(i + 1);
            assert(upto.drop_last() =~= s@.take(i as int));
            assert(upto.last() == s@[i as int]);
        }
        if s[i] == sep {
            proof {
                lemma_views_push(done@, current);
            }
            done.push(current);
            current = Vec::new();
        } else {
            proof {
                assert(before.drop_last() =~= views(done@));
                assert(before.last() == current@);
            }
            current.push(s[i]);
        }
        i += 1;
    }
    proof {
        assert(s@.take(i as int) =~= s@);
        lemma_views_push(done@, current);
    }
    done.push(current);
    done
}

/// The line without a carriage return at its end.
pub open spec fn strip_cr(line: Seq<u8>) -> Seq<u8> {
    if line.len() > 0 && line.last() == CARRIAGE_RETURN {
        line.drop_last()
    } else {
        line
    }
}

/// Drops one carriage return from the end of `line`, if there is one.
pub fn without_cr(line: &[u8]) -> (rest: &[u8])
    ensures
        rest@ == strip_cr(line@),
{
    let n = line.len();
    if n > 0 && line[n - 1] == CARRIAGE_RETURN {
        vstd::slice::slice_subrange(line, 0, n - 1)
    } else {
        line
    }
}

/// The lines of a text: its pieces between line feeds, each without a
/// carriage return at its end.
pub open spec fn lines(text: Seq<u8>) -> Seq<Seq<u8>> {
    split(text, LINE_FEED).map_values(|l: Seq<u8>| strip_cr(l))
}

/// A class of bytes that a run can be made of.
#[derive(Clone, Copy, Debug, PartialEq, Eq)]
pub enum ByteClass {
    /// The decimal digits.
    Digit,
    /// What a rule name is written with: letters, digits, `_` and `-`.
    RuleName,
}

impl ByteClass {
    /// Whether `b` belongs to the class.
    pub open spec fn holds(self, b: u8) -> bool {
        match self {
            ByteClass::Digit => 48 <= b <= 57,
            ByteClass::RuleName => (48 <= b <= 57) || (65 <= b <= 90) || (97 <= b <= 122) || b
                == 95 || b == 45,
        }
    }

    /// Whether `b` belongs to the class.
    pub fn contains(&self, b: u8) -> (yes: bool)
        ensures
            yes == self.holds(b),
    {
        match self {
            ByteClass::Digit => 48 <= b && b <= 57,
            ByteClass::RuleName => (48 <= b && b <= 57) || (65 <= b && b <= 90) || (97 <= b && b
                <= 122) || b == 95 || b == 45,
        }
    }
}

/// Whether every byte of `s` belongs to `class`.
pub open spec fn all_in(s: Seq<u8>, class: ByteClass) -> bool {
    forall|i: int| 0 <= i < s.len() ==> class.holds(#[trigger] s[i])
}

/// Length of the longest suffix of `s` made of bytes of `class`.
pub open spec fn suffix_run(s: Seq<u8>, class: ByteClass) -> nat
    decreases s.len(),
{
    if s.len() == 0 || !class.holds(s.last()) {
        0
    } else {
        1 + suffix_run(s.drop_last(), class)
    }
}

/// The suffix run is a suffix made of the class, and the byte before it, if
/// any, is outside the class.
pub proof fn lemma_suffix_run(s: Seq<u8>, class: ByteClass)
    ensures
        suffix_run(s, class) <= s.len(),
        all_in(s.skip(s.len() - suffix_run(s, class)), class),
        suffix_run(s, class) < s.len() ==> !class.holds(s[s.len() - suffix_run(s, class) - 1]),
    decreases s.len(),
{
    if s.len() == 0 || !class.holds(s.last()) {
    } else {
        let shorter = s.drop_last();
        lemma_suffix_run(shorter, class);
        let n = suffix_run(s, class);
        let tail = s.skip(s.len() - n);
        let tail_before = shorter.skip(shorter.len() - suffix_run(shorter, class));
        assert forall|i: int| 0 <= i < tail.len() implies class.holds(#[trigger] tail[i]) by {
            if i < tail.len() - 1 {
                assert(tail[i] == tail_before[i]);
            }
        }
    }
}

/// Index at which the longest suffix of `s` made of bytes of `class` starts.
pub fn suffix_start(s: &[u8], class: ByteClass) -> (start: usize)
    ensures
        start == s@.len() - suffix_run(s@, class),
{
    let mut start: usize = s.len();
    proof {
        assert(s@.take(s@.len() as int) =~= s@);
    }
    while start > 0 && class.contains(s[start - 1])
        invariant
            start <= s@.len(),
            suffix_run(s@, class) == (s@.len() - start) + suffix_run(s@.take(start as int), class),
        decreases start,
    {
        proof {
            let upto = s@.take(start as int);
            assert(upto.last() == s@[start - 1]);
            assert(upto.drop_last() =~= s@.take(start - 1));
        }
        start -= 1;
    }
    proof {
        let upto = s@.take(start as int);
        if start > 0 {
            assert(upto.last() == s@[start - 1]);
        }
    }
    start
}

/// The number that a string of decimal digits writes.
pub open spec fn decimal_value(s: Seq<u8>) -> nat
    decreases s.len(),
{
    if s.len() == 0 {
        0
    } else {
        decimal_value(s.drop_last()) * 10 + (s.last() - 48) as nat
    }
}

/// The number written by `s`, where `s` is a non-empty string of decimal
/// digits and the number fits in 32 bits.
pub open spec fn decimal_u32(s: Seq<u8>) -> Option<u32> {
    if s.len() > 0 && all_in(s, ByteClass::Digit) && decimal_value(s) <= u32::MAX {
        Some(decimal_value(s) as u32)
    } else {
        None
    }
}

/// A string of digits writes a number no smaller than any of its prefixes do.
pub proof fn lemma_decimal_prefix(s: Seq<u8>, n: int)
    requires
        0 <= n <= s.len(),
        all_in(s, ByteClass::Digit),
    ensures
        decimal_value(s.take(n)) <= decimal_value(s),
    decreases s.len(),
{
    if n == s.len() {
        assert(s.take(n) =~= s);
    } else {
        assert(s.drop_last().take(n) =~= s.take(n));
        lemma_decimal_prefix(s.drop_last(), n);
        assert(ByteClass::Digit.holds(s[s.len() - 1]));
    }
}

/// Reads a decimal number of at most 32 bits.
pub fn parse_decimal(s: &[u8]) -> (number: Option<u32>)
    ensures
        number == decimal_u32(s@),
{
    if s.len() == 0 {
        return None;
    }
    let mut value: u64 = 0;
    let mut i: usize = 0;
    assert(s@.take(0) =~= Seq::<u8>::empty());
    while i < s.len()
        invariant
            i <= s@.len(),
            all_in(s@.take(i as int), ByteClass::Digit),
            value == decimal_value(s@.take(i as int)),
            value <= u32::MAX,
        decreases s@.len() - i,
    {
        let b = s[i];
        proof {
            let upto = s@.take(i + 1);
            assert(upto.drop_last() =~= s@.take(i as int));
            assert(upto.last() == b);
        }
        if !ByteClass::Digit.contains(b) {
            assert(!all_in(s@, ByteClass::Digit)) by {
                assert(s@[i as int] == b);
            }
            return None;
        }
        value = value * 10 + (b - 48) as u64;
        proof {
            let upto = s@.take(i + 1);
            assert forall|k: int| 0 <= k < upto.len() implies ByteClass::Digit.holds(
                #[trigger] upto[k],
            ) by {
                if k < i {
                    assert(s@.take(i as int)[k] == upto[k]);
                }
            }
        }
        if value > 0xffff_ffff {
            proof {
                if all_in(s@, ByteClass::Digit) {
                    lemma_decimal_prefix(s@, i + 1);
                }
            }
            return None;
        }
        i += 1;
    }
    assert(s@.take(i as int) =~= s@);
    Some(value as u32)
}

/// The decimal digits of `n`, without leading zeros.
pub open spec fn decimal_digits(n: nat) -> Seq<u8>
    decreases n,
{
    if n < 10 {
        seq![(48 + n) as u8]
    } else {
        decimal_digits(n / 10).push((48 + n % 10) as u8)
    }
}

/// The digits of a number are digits, at least one, and write that number:
/// reading what was written gives the number back.
pub proof fn lemma_decimal_digits(n: nat)
    ensures
        decimal_digits(n).len() >= 1,
        all_in(decimal_digits(n), ByteClass::Digit),
        decimal_value(decimal_digits(n)) == n,
        n <= u32::MAX ==> decimal_u32(decimal_digits(n)) == Some(n as u32),
    decreases n,
{
    let d = decimal_digits(n);
    if n < 10 {
        assert(d.drop_last() =~= Seq::<u8>::empty());
        assert(decimal_value(d.drop_last()) == 0);
    } else {
        lemma_decimal_digits(n / 10);
        assert(d.drop_last() =~= decimal_digits(n / 10));
        assert forall|i: int| 0 <= i < d.len() implies ByteClass::Digit.holds(#[trigger] d[i]) by {
            if i < d.len() - 1 {
                assert(d[i] == decimal_digits(n / 10)[i]);
            }
        }
    }
}

/// A string without the separator is its own single piece.
pub proof fn lemma_split_whole(s: Seq<u8>, sep: u8)
    requires
        forall|i: int| 0 <= i < s.len() ==> s[i] != sep,
    ensures
        split(s, sep) == seq![s],
    decreases s.len(),
{
    if s.len() > 0 {
        let shorter = s.drop_last();
        assert forall|i: int| 0 <= i < shorter.len() implies shorter[i] != sep by {
            assert(shorter[i] == s[i]);
        }
        lemma_split_whole(shorter, sep);
        assert(shorter.push(s.last()) =~= s);
        assert(s[s.len() - 1] != sep);
        assert(seq![shorter].drop_last().push(seq![shorter].last().push(s.last())) =~= seq![s]);
    } else {
        assert(s =~= Seq::<u8>::empty());
    }
}

/// The pieces of two strings set side by side with a separator between them
/// are the pieces of the first followed by those of the second.
pub proof fn lemma_split_concat(a: Seq<u8>, b: Seq<u8>, sep: u8)
    ensures
        split(a.push(sep) + b, sep) == split(a, sep) + split(b, sep),
    decreases b.len(),
{
    let whole = a.push(sep) + b;
    lemma_split_join(b, sep);
    if b.len() == 0 {
        assert(whole =~= a.push(sep));
        assert(whole.drop_last() =~= a);
        assert(split(a, sep).push(Seq::<u8>::empty()) =~= split(a, sep) + split(b, sep));
    } else {
        let shorter = b.drop_last();
        lemma_split_concat(a, shorter, sep);
        lemma_split_join(shorter, sep);
        assert(whole.drop_last() =~= a.push(sep) + shorter);
        assert(whole.last() == b.last());
        let before = split(a, sep) + split(shorter, sep);
        if b.last() == sep {
            assert(before.push(Seq::<u8>::empty()) =~= split(a, sep) + split(b, sep));
        } else {
            assert(before.last() == split(shorter, sep).last());
            assert(before.drop_last() =~= split(a, sep) + split(shorter, sep).drop_last());
            assert(before.drop_last().push(before.last().push(b.last())) =~= split(a, sep)
                + split(b, sep));
        }
    }
}

/// Behind a byte outside the class, a string made of the class is the whole
/// suffix run.
pub proof fn lemma_suffix_run_exact(head: Seq<u8>, stop: u8, tail: Seq<u8>, class: ByteClass)
    requires
        !class.holds(stop),
        all_in(tail, class),
    ensures
        suffix_run(head.push(stop) + tail, class) == tail.len(),
        (head.push(stop) + tail).skip((head.push(stop) + tail).len() - tail.len()) == tail,
    decreases tail.len(),
{
    let whole = head.push(stop) + tail;
    assert(whole.skip(whole.len() - tail.len()) =~= tail);
    if tail.len() == 0 {
        assert(whole.last() == stop);
    } else {
        let shorter = tail.drop_last();
        assert forall|i: int| 0 <= i < shorter.len() implies class.holds(#[trigger] shorter[i]) by {
            assert(shorter[i] == tail[i]);
        }
        lemma_suffix_run_exact(head, stop, shorter, class);
        assert(whole.drop_last() =~= head.push(stop) + shorter);
        assert(whole.last() == tail[tail.len() - 1]);
    }
}

/// Joining loses nothing either: pieces that are free of the separator come
/// back when their join is split.
pub proof fn lemma_join_split(pieces: Seq<Seq<u8>>, sep: u8)
    requires
        pieces.len() >= 1,
        forall|i: int, k: int|
            0 <= i < pieces.len() && 0 <= k < pieces[i].len() ==> pieces[i][k] != sep,
    ensures
        split(join(pieces, sep), sep) == pieces,
    decreases pieces.len(),
{
    let last = pieces.last();
    assert forall|k: int| 0 <= k < last.len() implies last[k] != sep by {
        assert(pieces[pieces.len() - 1][k] != sep);
    }
    lemma_split_whole(last, sep);
    if pieces.len() == 1 {
        assert(pieces =~= seq![last]);
    } else {
        let shorter = pieces.drop_last();
        assert forall|i: int, k: int|
            0 <= i < shorter.len() && 0 <= k < shorter[i].len() implies shorter[i][k] != sep by {
            assert(shorter[i] == pieces[i]);
        }
        lemma_join_split(shorter, sep);
        lemma_split_concat(join(shorter, sep), last, sep);
        assert(shorter + seq![last] =~= pieces);
    }
}

} // verus!
