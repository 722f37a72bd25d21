//! Character-level helpers shared by the command and response grammars.

use vstd::prelude::*;
use vstd::slice::slice_subrange;

verus! {

/// The fields of `s`: the pieces between consecutive occurrences of `sep`.
/// A text without `sep` is one field; an empty text is one empty field.
pub open spec fn split(s: Seq<char>, sep: char) -> Seq<Seq<char>>
    decreases s.len(),
{
    if s.len() == 0 {
        seq![Seq::<char>::empty()]
    } else {
        let init = split(s.drop_last(), sep);
        if s.last() == sep {
            init.push(Seq::<char>::empty())
        } else {
            init.update(init.len() - 1, init.last().push(s.last()))
        }
    }
}

/// The fields put together again, with `sep` between each two.
pub open spec fn join(fields: Seq<Seq<char>>, sep: char) -> Seq<char>
    decreases fields.len(),
{
    if fields.len() == 0 {
        Seq::<char>::empty()
    } else if fields.len() == 1 {
        fields[0]
    } else {
        join(fields.drop_last(), sep).push(sep) + fields.last()
    }
}

/// Whether `sep` occurs nowhere in `s`.
pub open spec fn free_of(s: Seq<char>, sep: char) -> bool {
    forall|i: int| 0 <= i < s.len() ==> s[i] != sep
}

/// A text always has at least one field.
pub proof fn lemma_split_nonempty(s: Seq<char>, sep: char)
    ensures
        split(s, sep).len() >= 1,
    decreases s.len(),
{
    if s.len() > 0 {
        lemma_split_nonempty(s.drop_last(), sep);
    }
}

/// No field holds the separator.
pub proof fn lemma_split_fields_free(s: Seq<char>, sep: char)
    ensures
        forall|k: int| 0 <= k < split(s, sep).len() ==> free_of(#[trigger] split(s, sep)[k], sep),
    decreases s.len(),
{
    if s.len() > 0 {
        lemma_split_nonempty(s.drop_last(), sep);
        lemma_split_fields_free(s.drop_last(), sep);
    }
}

/// Joining the fields of a text gives the text back.
pub proof fn lemma_join_split(s: Seq<char>, sep: char)
    ensures
        join(split(s, sep), sep) == s,
    decreases s.len(),
{
    if s.len() == 0 {
    } else {
        let t = s.drop_last();
        let init = split(t, sep);
        lemma_split_nonempty(t, sep);
        lemma_join_split(t, sep);
        assert(t.push(s.last()) =~= s);
        if s.last() == sep {
            let all = init.push(Seq::<char>::empty());
            assert(all.drop_last() =~= init);
            assert(join(all, sep) =~= t.push(sep));
        } else {
            let all = init.update(init.len() - 1, init.last().push(s.last()));
            if init.len() == 1 {
                assert(join(all, sep) =~= t.push(s.last()));
            } else {
                assert(all.drop_last() =~= init.drop_last());
                assert(join(all, sep) =~= join(init, sep).push(s.last()));
            }
        }
    }
}

/// Appending text without a separator lengthens the last field and changes no other.
pub proof fn lemma_split_append(a: Seq<char>, b: Seq<char>, sep: char)
    requires
        free_of(b, sep),
    ensures
        split(a + b, sep) == split(a, sep).update(
            split(a, sep).len() - 1,
            split(a, sep).last() + b,
        ),
    decreases b.len(),
{
    lemma_split_nonempty(a, sep);
    let fields = split(a, sep);
    if b.len() == 0 {
        assert(a + b =~= a);
        assert(fields.last() + b =~= fields.last());
        assert(fields.update(fields.len() - 1, fields.last()) =~= fields);
    } else {
        let b0 = b.drop_last();
        lemma_split_append(a, b0, sep);
        assert((a + b).drop_last() =~= a + b0);
        assert((a + b).last() == b.last());
        assert((fields.last() + b0).push(b.last()) =~= fields.last() + b);
        assert(split(a + b, sep) =~= fields.update(fields.len() - 1, fields.last() + b));
    }
}

/// A text without a separator is its own single field.
pub proof fn lemma_split_plain(s: Seq<char>, sep: char)
    requires
        free_of(s, sep),
    ensures
        split(s, sep) == seq![s],
{
    let e = Seq::<char>::empty();
    lemma_split_append(e, s, sep);
    assert(e + s =~= s);
    assert(split(e, sep) =~= seq![e]);
    assert(seq![e].update(0, e + s) =~= seq![s]);
}

/// Splitting what was joined gives the fields back, if none of them holds the separator.
pub proof fn lemma_split_join(fields: Seq<Seq<char>>, sep: char)
    requires
        fields.len() >= 1,
        forall|k: int| 0 <= k < fields.len() ==> free_of(#[trigger] fields[k], sep),
    ensures
        split(join(fields, sep), sep) == fields,
    decreases fields.len(),
{
    if fields.len() == 1 {
        lemma_split_plain(fields[0], sep);
        assert(seq![fields[0]] =~= fields);
    } else {
        let init = fields.drop_last();
        lemma_split_join(init, sep);
        let head = join(init, sep).push(sep);
        assert(head.drop_last() =~= join(init, sep));
        assert(split(head, sep) == init.push(Seq::<char>::empty()));
        lemma_split_append(head, fields.last(), sep);
        assert(Seq::<char>::empty() + fields.last() =~= fields.last());
        assert(init.push(Seq::<char>::empty()).update(init.len() as int, fields.last())
            =~= fields);
    }
}

/// Every character of a text is the separator or stands in one of the fields: what holds
/// of the separator and of every character of every field holds of every character.
pub proof fn lemma_split_covers(s: Seq<char>, sep: char, holds: spec_fn(char) -> bool)
    requires
        holds(sep),
        forall|k: int, j: int|
            0 <= k < split(s, sep).len() && 0 <= j < split(s, sep)[k].len() ==> holds(
                #[trigger] split(s, sep)[k][j],
            ),
    ensures
        forall|i: int| 0 <= i < s.len() ==> holds(#[trigger] s[i]),
    decreases s.len(),
{
    if s.len() > 0 {
        let t = s.drop_last();
        let init = split(t, sep);
        let all = split(s, sep);
        lemma_split_nonempty(t, sep);
        assert forall|k: int, j: int|
            0 <= k < init.len() && 0 <= j < init[k].len() implies holds(#[trigger] init[k][j]) by {
            assert(init[k][j] == all[k][j]);
        }
        if s.last() != sep {
            let last = all.len() - 1;
            assert(all[last][all[last].len() - 1] == s.last());
        }
        lemma_split_covers(t, sep, holds);
        assert forall|i: int| 0 <= i < s.len() implies holds(#[trigger] s[i]) by {
            if i < t.len() {
                assert(s[i] == t[i]);
            }
        }
    }
}

/// The upper-case form of an ASCII letter; every other character is itself.
pub open spec fn upper_char(c: char) -> char {
    if 'a' <= c && c <= 'z' {
        ((c as u8) - 32) as char
    } else {
        c
    }
}

/// `s` with each ASCII letter in upper case.
pub open spec fn upper(s: Seq<char>) -> Seq<char> {
    Seq::new(s.len(), |i: int| upper_char(s[i]))
}

/// Putting a text in upper case twice is the same as once: a text that is read without
/// regard to case reads as its upper-case form does.
pub proof fn lemma_upper_idempotent(s: Seq<char>)
    ensures
        upper(upper(s)) == upper(s),
{
    assert(upper(upper(s)) =~= upper(s));
}

/// Whether `s` begins with `prefix`.
pub open spec fn has_prefix(s: Seq<char>, prefix: Seq<char>) -> bool {
    prefix.len() <= s.len() && s.subrange(0, prefix.len() as int) == prefix
}

/// What follows the first `n` characters of `s`.
pub open spec fn after(s: Seq<char>, n: nat) -> Seq<char> {
    s.subrange(n as int, s.len() as int)
}

/// The characters of `s`, one element each.
pub fn chars_of(s: &str) -> (v: Vec<char>)
    ensures
        v@ == s@,
{
    let n = s.unicode_len();
    let mut v: Vec<char> = Vec::new();
    let mut i: usize = 0;
    while i < n
        invariant
            i <= n,
            n == s@.len(),
            v@ == s@.subrange(0, i as int),
        decreases n - i,
    {
        v.push(s.get_char(i));
        i += 1;
    }
    v
}

/// Upper-case form of one character.
pub fn to_upper_char(c: char) -> (u: char)
    ensures
        u == upper_char(c),
{
    if 'a' <= c && c <= 'z' {
        ((c as u8) - 32) as char
    } else {
        c
    }
}

/// The characters of `s` with each ASCII letter in upper case.
pub fn upper_chars_of(s: &str) -> (v: Vec<char>)
    ensures
        v@ == upper(s@),
{
    let n = s.unicode_len();
    let mut v: Vec<char> = Vec::new();
    let mut i: usize = 0;
    while i < n
        invariant
            i <= n,
            n == s@.len(),
            v@ == upper(s@).subrange(0, i as int),
        decreases n - i,
    {
        v.push(to_upper_char(s.get_char(i)));
        i += 1;
    }
    v
}

/// Whether `text` is exactly the characters of `literal`.
pub fn equals(text: &[char], literal: &str) -> (b: bool)
    ensures
        b == (text@ == literal@),
{
    let n = literal.unicode_len();
    if text.len() != n {
        return false;
    }
    let mut i: usize = 0;
    while i < n
        invariant
            i <= n,
            n == literal@.len(),
            n == text@.len(),
            text@.subrange(0, i as int) == literal@.subrange(0, i as int),
        decreases n - i,
    {
        if text[i] != literal.get_char(i) {
            return false;
        }
        i += 1;
    }
    proof {
        assert(text@.subrange(0, n as int) =~= text@);
        assert(literal@.subrange(0, n as int) =~= literal@);
    }
    true
}

/// Whether `text` begins with the characters of `literal`.
pub fn starts_with(text: &[char], literal: &str) -> (b: bool)
    ensures
        b == has_prefix(text@, literal@),
{
    let n = literal.unicode_len();
    if text.len() < n {
        return false;
    }
    equals(slice_subrange(text, 0, n), literal)
}

/// Whether `bounds` lie in a text of length `n` as the bounds of its fields do: the first
/// field starts at the beginning, each later one starts behind the separator that ends the
/// one before it, and the last one ends at the end.
pub open spec fn in_a_row(bounds: Seq<(usize, usize)>, n: nat) -> bool {
    &&& bounds.len() >= 1
    &&& bounds[0].0 == 0
    &&& bounds.last().1 == n
    &&& forall|k: int| 0 <= k < bounds.len() - 1 ==> (#[trigger] bounds[k]).1 + 1 == bounds[k + 1].0
}

/// The positions of the fields of `text`: for each field, where it starts and where it ends.
pub fn field_bounds(text: &[char], sep: char) -> (bounds: Vec<(usize, usize)>)
    ensures
        bounds@.len() == split(text@, sep).len(),
        in_a_row(bounds@, text@.len()),
        forall|k: int|
            0 <= k < bounds@.len() ==> {
                &&& (#[trigger] bounds@[k]).0 <= bounds@[k].1 <= text@.len()
                &&& split(text@, sep)[k] == text@.subrange(
                    bounds@[k].0 as int,
                    bounds@[k].1 as int,
                )
            },
{
    let n = text.len();
    let mut bounds: Vec<(usize, usize)> = Vec::new();
    let mut start: usize = 0;
    let mut i: usize = 0;
    proof {
        assert(text@.subrange(0, 0) =~= Seq::<char>::empty());
    }
    while i < n
        invariant
            start <= i <= n,
            n == text@.len(),
            split(text@.subrange(0, i as int), sep).len() == bounds@.len() + 1,
            split(text@.subrange(0, i as int), sep).last() == text@.subrange(
                start as int,
                i as int,
            ),
            bounds@.len() == 0 ==> start == 0,
            bounds@.len() > 0 ==> bounds@[0].0 == 0 && bounds@.last().1 + 1 == start,
            forall|k: int|
                0 <= k < bounds@.len() - 1 ==> (#[trigger] bounds@[k]).1 + 1 == bounds@[k + 1].0,
            forall|k: int|
                0 <= k < bounds@.len() ==> {
                    &&& (#[trigger] bounds@[k]).0 <= bounds@[k].1 <= text@.len()
                    &&& split(text@.subrange(0, i as int), sep)[k] == text@.subrange(
                        bounds@[k].0 as int,
                        bounds@[k].1 as int,
                    )
                },
        decreases n - i,
    {
        let ghost prev = text@.subrange(0, i as int);
        let ghost next = text@.subrange(0, i + 1);
        let ghost before = bounds@;
        proof {
            assert(next.drop_last() =~= prev);
            assert(next.last() == text@[i as int]);
        }
        if text[i] == sep {
            bounds.push((start, i));
            start = i + 1;
            proof {
                assert(split(next, sep) == split(prev, sep).push(Seq::<char>::empty()));
                assert(text@.subrange(i + 1, i + 1) =~= Seq::<char>::empty());
                assert forall|k: int| 0 <= k < bounds@.len() implies {
                    &&& (#[trigger] bounds@[k]).0 <= bounds@[k].1 <= text@.len()
                    &&& split(next, sep)[k] == text@.subrange(
                        bounds@[k].0 as int,
                        bounds@[k].1 as int,
                    )
                } by {
                    if k < before.len() {
                        assert(bounds@[k] == before[k]);
                        assert(split(next, sep)[k] == split(prev, sep)[k]);
                    } else {
                        assert(split(next, sep)[k] == split(prev, sep).last());
                    }
                }
            }
        } else {
            proof {
                let init = split(prev, sep);
                assert(split(next, sep) == init.update(
                    init.len() - 1,
                    init.last().push(text@[i as int]),
                ));
                assert(text@.subrange(start as int, i as int).push(text@[i as int])
                    =~= text@.subrange(start as int, i + 1));
                assert forall|k: int| 0 <= k < bounds@.len() implies {
                    &&& (#[trigger] bounds@[k]).0 <= bounds@[k].1 <= text@.len()
                    &&& split(next, sep)[k] == text@.subrange(
                        bounds@[k].0 as int,
                        bounds@[k].1 as int,
                    )
                } by {
                    assert(split(next, sep)[k] == init[k]);
                }
            }
        }
        i += 1;
    }
    let ghost before = bounds@;
    bounds.push((start, n));
    proof {
        assert(text@.subrange(0, n as int) =~= text@);
        assert forall|k: int| 0 <= k < bounds@.len() implies {
            &&& (#[trigger] bounds@[k]).0 <= bounds@[k].1 <= text@.len()
            &&& split(text@, sep)[k] == text@.subrange(bounds@[k].0 as int, bounds@[k].1 as int)
        } by {
            if k < before.len() {
                assert(bounds@[k] == before[k]);
            }
        }
    }
    bounds
}

} // verus!
