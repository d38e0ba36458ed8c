//! The words of a line of a font description, and the fields that they
//! give.

use vstd::prelude::*;
use vstd::slice::slice_subrange;

verus! {

/// Whether a byte separates words: a blank, a tab, a line feed, a vertical
/// tab, a form feed or a carriage return.
pub open spec fn is_space(b: u8) -> bool {
    b == 32 || 9 <= b <= 13
}

/// The words of `s`: its longest runs of bytes that are no spaces, in
/// their order.
pub open spec fn words(s: Seq<u8>) -> Seq<Seq<u8>>
    decreases s.len(),
{
    if s.len() == 0 {
        Seq::empty()
    } else {
        let before = words(s.drop_last());
        if is_space(s.last()) {
            before
        } else if s.len() >= 2 && !is_space(s[s.len() - 2]) {
            before.drop_last().push(before.last().push(s.last()))
        } else {
            before.push(seq![s.last()])
        }
    }
}

/// The first place in `s` at which `c` stands, or the length of `s` if it
/// stands nowhere.
pub open spec fn first_index(s: Seq<u8>, c: u8) -> int
    decreases s.len(),
{
    if s.len() == 0 || s[0] == c {
        0
    } else {
        1 + first_index(s.skip(1), c)
    }
}

/// `s` without the bytes `c` that it begins with.
pub open spec fn trim_start(s: Seq<u8>, c: u8) -> Seq<u8>
    decreases s.len(),
{
    if s.len() > 0 && s[0] == c {
        trim_start(s.skip(1), c)
    } else {
        s
    }
}

/// `s` without the bytes `c` that it ends with.
pub open spec fn trim_end(s: Seq<u8>, c: u8) -> Seq<u8>
    decreases s.len(),
{
    if s.len() > 0 && s.last() == c {
        trim_end(s.drop_last(), c)
    } else {
        s
    }
}

/// `s` without the bytes `c` at either end.
pub open spec fn trimmed(s: Seq<u8>, c: u8) -> Seq<u8> {
    trim_end(trim_start(s, c), c)
}

/// The name of the field that a word gives: what stands before its first
/// `=`.
pub open spec fn key_of(word: Seq<u8>) -> Seq<u8> {
    word.take(first_index(word, 61))
}

/// The value of the field that a word gives: what stands from its first
/// `=` on, without the `=` and then without the `"` at either end.
pub open spec fn value_of(word: Seq<u8>) -> Seq<u8> {
    trimmed(trimmed(word.skip(first_index(word, 61)), 61), 34)
}

/// The value of the field `key` among the words `ws`; the last word that
/// gives the field decides.
pub open spec fn field(ws: Seq<Seq<u8>>, key: Seq<u8>) -> Option<Seq<u8>>
    decreases ws.len(),
{
    if ws.len() == 0 {
        None
    } else if key_of(ws.last()) == key {
        Some(value_of(ws.last()))
    } else {
        field(ws.drop_last(), key)
    }
}

/// Whether `s` begins with `prefix`.
pub open spec fn starts_with(s: Seq<u8>, prefix: Seq<u8>) -> bool {
    s.len() >= prefix.len() && s.take(prefix.len() as int) == prefix
}

/// The place found is the first at which the byte stands.
pub proof fn lemma_first_index(s: Seq<u8>, c: u8)
    ensures
        0 <= first_index(s, c) <= s.len(),
        first_index(s, c) < s.len() ==> s[first_index(s, c)] == c,
        forall|i: int| 0 <= i < first_index(s, c) ==> s[i] != c,
    decreases s.len(),
{
    if s.len() > 0 && s[0] != c {
        let rest = s.skip(1);
        lemma_first_index(rest, c);
        assert forall|i: int| 0 <= i < first_index(s, c) implies s[i] != c by {
            if i > 0 {
                assert(rest[i - 1] == s[i]);
            }
        }
    }
}

/// A place is the first at which the byte stands if the byte stands there,
/// or the string ends there, and the byte stands nowhere before it.
pub proof fn lemma_first_index_is(s: Seq<u8>, c: u8, at: int)
    requires
        0 <= at <= s.len(),
        at < s.len() ==> s[at] == c,
        forall|i: int| 0 <= i < at ==> s[i] != c,
    ensures
        first_index(s, c) == at,
{
    lemma_first_index(s, c);
    let found = first_index(s, c);
    if found < at {
        assert(s[found] == c);
    }
}

/// Whether two strings of bytes are the same.
pub fn same_bytes(a: &[u8], b: &[u8]) -> (same: bool)
    ensures
        same == (a@ == b@),
{
    if a.len() != b.len() {
        return false;
    }
    let len = a.len();
    let mut i: usize = 0;
    while i < len
        invariant
            i <= len,
            len == a@.len(),
            len == b@.len(),
            forall|k: int| 0 <= k < i ==> a@[k] == b@[k],
        decreases len - i,
    {
        if a[i] != b[i] {
            return false;
        }
        i += 1;
    }
    assert(a@ =~= b@);
    true
}

/// Whether `s` begins with `prefix`.
pub fn begins_with(s: &[u8], prefix: &[u8]) -> (yes: bool)
    ensures
        yes == starts_with(s@, prefix@),
{
    if s.len() < prefix.len() {
        return false;
    }
    same_bytes(slice_subrange(s, 0, prefix.len()), prefix)
}

/// Whether a byte separates words.
pub fn separates(b: u8) -> (yes: bool)
    ensures
        yes == is_space(b),
{
    b == 32 || (9 <= b && b <= 13)
}

/// The words of `line`, each as the place where it begins and the place
/// where it ends.
pub fn split_words(line: &[u8]) -> (ranges: Vec<(usize, usize)>)
    ensures
        ranges@.len() == words(line@).len(),
        forall|k: int|
            0 <= k < ranges@.len() ==> (#[trigger] ranges@[k]).0 < ranges@[k].1 <= line@.len()
                && line@.subrange(ranges@[k].0 as int, ranges@[k].1 as int) == words(line@)[k],
{
    let len = line.len();
    let mut ranges: Vec<(usize, usize)> = Vec::new();
    let mut i: usize = 0;
    assert(line@.take(0) =~= Seq::<u8>::empty());
    while i < len
        invariant
            i <= len,
            len == line@.len(),
            ranges@.len() == words(line@.take(i as int)).len(),
            forall|k: int|
                0 <= k < ranges@.len() ==> (#[trigger] ranges@[k]).0 < ranges@[k].1 <= i
                    && line@.subrange(ranges@[k].0 as int, ranges@[k].1 as int) == words(
                    line@.take(i as int),
                )[k],
            i > 0 && !is_space(line@[i - 1]) ==> ranges@.len() > 0 && ranges@.last().1 == i,
        decreases len - i,
    {
        let b = line[i];
        let ghost before = line@.take(i as int);
        let ghost after = line@.take(i as int + 1);
        let ghost old_ranges = ranges@;
        proof {
            assert(after.drop_last() =~= before);
            assert(after.last() == b);
            if i > 0 {
                assert(after[after.len() - 2] == line@[i - 1]);
            }
        }
        if !separates(b) {
            if i > 0 && !separates(line[i - 1]) {
                let last = ranges.len() - 1;
                let start = ranges[last].0;
                ranges[last] = (start, i + 1);
                proof {
                    let ws = words(before);
                    assert(words(after) == ws.drop_last().push(ws.last().push(b)));
                    assert forall|k: int| 0 <= k < ranges@.len() implies (
                    #[trigger] ranges@[k]).0 < ranges@[k].1 <= i + 1 && line@.subrange(
                        ranges@[k].0 as int,
                        ranges@[k].1 as int,
                    ) == words(after)[k] by {
                        if k < last {
                            assert(ranges@[k] == old_ranges[k]);
                        } else {
                            assert(old_ranges[k].1 == i);
                            assert(line@.subrange(start as int, i as int + 1) =~= line@.subrange(
                                start as int,
                                i as int,
                            ).push(b));
                        }
                    }
                }
            } else {
                ranges.push((i, i + 1));
                proof {
                    let ws = words(before);
                    assert(words(after) == ws.push(seq![b]));
                    assert(line@.subrange(i as int, i as int + 1) =~= seq![b]);
                    assert forall|k: int| 0 <= k < ranges@.len() implies (
                    #[trigger] ranges@[k]).0 < ranges@[k].1 <= i + 1 && line@.subrange(
                        ranges@[k].0 as int,
                        ranges@[k].1 as int,
                    ) == words(after)[k] by {
                        if k < old_ranges.len() {
                            assert(ranges@[k] == old_ranges[k]);
                        }
                    }
                }
            }
        } else {
            proof {
                assert(words(after) == words(before));
            }
        }
        i += 1;
    }
    assert(line@.take(len as int) =~= line@);
    ranges
}

/// The first place from `from` up to `to` at which `c` stands in `s`, or
/// `to` if it stands at none of them.
pub fn find_byte(s: &[u8], from: usize, to: usize, c: u8) -> (at: usize)
    requires
        from <= to <= s@.len(),
    ensures
        at == from + first_index(s@.subrange(from as int, to as int), c),
        from <= at <= to,
{
    let ghost part = s@.subrange(from as int, to as int);
    let mut at: usize = from;
    while at < to && s[at] != c
        invariant
            from <= at <= to <= s@.len(),
            part == s@.subrange(from as int, to as int),
            forall|i: int| 0 <= i < at - from ==> part[i] != c,
        decreases to - at,
    {
        at += 1;
    }
    proof {
        lemma_first_index_is(part, c, at - from);
    }
    at
}

/// The part of `s` from `from` up to `to` without the bytes `c` at either
/// end, as the place where it begins and the place where it ends.
pub fn trim_range(s: &[u8], from: usize, to: usize, c: u8) -> (r: (usize, usize))
    requires
        from <= to <= s@.len(),
    ensures
        from <= r.0 <= r.1 <= to,
        s@.subrange(r.0 as int, r.1 as int) == trimmed(s@.subrange(from as int, to as int), c),
{
    let mut start: usize = from;
    while start < to && s[start] == c
        invariant
            from <= start <= to <= s@.len(),
            trim_start(s@.subrange(from as int, to as int), c) == trim_start(
                s@.subrange(start as int, to as int),
                c,
            ),
        decreases to - start,
    {
        assert(s@.subrange(start as int, to as int).skip(1) =~= s@.subrange(
            start as int + 1,
            to as int,
        ));
        start += 1;
    }
    let mut end: usize = to;
    while start < end && s[end - 1] == c
        invariant
            start <= end <= to <= s@.len(),
            trim_end(s@.subrange(start as int, to as int), c) == trim_end(
                s@.subrange(start as int, end as int),
                c,
            ),
        decreases end - start,
    {
        assert(s@.subrange(start as int, end as int).drop_last() =~= s@.subrange(
            start as int,
            end as int - 1,
        ));
        end -= 1;
    }
    (start, end)
}

/// The value of the field `key` among the words of `line`, given by
/// `ranges`, as the place where it begins and the place where it ends.
pub fn lookup(line: &[u8], ranges: &Vec<(usize, usize)>, key: &[u8]) -> (r: Option<(usize, usize)>)
    requires
        ranges@.len() == words(line@).len(),
        forall|k: int|
            0 <= k < ranges@.len() ==> (#[trigger] ranges@[k]).0 < ranges@[k].1 <= line@.len()
                && line@.subrange(ranges@[k].0 as int, ranges@[k].1 as int) == words(line@)[k],
    ensures
        match r {
            Some((from, to)) => from <= to <= line@.len() && field(words(line@), key@) == Some(
                line@.subrange(from as int, to as int),
            ),
            None => field(words(line@), key@) is None,
        },
{
    let ghost ws = words(line@);
    let mut k: usize = ranges.len();
    assert(ws.take(k as int) =~= ws);
    while k > 0
        invariant
            k <= ranges@.len(),
            ws == words(line@),
            ranges@.len() == ws.len(),
            forall|j: int|
                0 <= j < ranges@.len() ==> (#[trigger] ranges@[j]).0 < ranges@[j].1 <= line@.len()
                    && line@.subrange(ranges@[j].0 as int, ranges@[j].1 as int) == ws[j],
            field(ws, key@) == field(ws.take(k as int), key@),
        decreases k,
    {
        k -= 1;
        let (from, to) = ranges[k];
        let ghost word = ws[k as int];
        assert(word == line@.subrange(from as int, to as int));
        let cut = find_byte(line, from, to, 61);
        proof {
            assert(ws.take(k as int + 1).last() == word);
            assert(ws.take(k as int + 1).drop_last() =~= ws.take(k as int));
            assert(line@.subrange(from as int, cut as int) =~= key_of(word));
            assert(line@.subrange(cut as int, to as int) =~= word.skip(first_index(word, 61)));
        }
        if same_bytes(slice_subrange(line, from, cut), key) {
            let (a, b) = trim_range(line, cut, to, 61);
            let (c, d) = trim_range(line, a, b, 34);
            return Some((c, d));
        }
    }
    assert(ws.take(0) =~= Seq::<Seq<u8>>::empty());
    None
}

} // verus!
