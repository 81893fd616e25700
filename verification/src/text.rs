use vstd::prelude::*;

verus! {

/// Whether `c` is white space as Unicode defines it (`White_Space`).
pub open spec fn is_whitespace(c: char) -> bool {
    let n = c as u32;
    ||| 0x09 <= n <= 0x0D
    ||| n == 0x20
    ||| n == 0x85
    ||| n == 0xA0
    ||| n == 0x1680
    ||| 0x2000 <= n <= 0x200A
    ||| n == 0x2028
    ||| n == 0x2029
    ||| n == 0x202F
    ||| n == 0x205F
    ||| n == 0x3000
}

/// `s` without its leading whitespace.
pub open spec fn trim_start(s: Seq<char>) -> Seq<char>
    decreases s.len(),
{
    if s.len() > 0 && is_whitespace(s.first()) {
        trim_start(s.drop_first())
    } else {
        s
    }
}

/// `s` without its trailing whitespace.
pub open spec fn trim_end(s: Seq<char>) -> Seq<char>
    decreases s.len(),
{
    if s.len() > 0 && is_whitespace(s.last()) {
        trim_end(s.drop_last())
    } else {
        s
    }
}

/// `s` without its leading and trailing whitespace.
pub open spec fn trimmed(s: Seq<char>) -> Seq<char> {
    trim_end(trim_start(s))
}

/// The pieces of `s` between occurrences of `sep`, in order. There is always
/// one piece more than there are separators, so the empty text has one empty
/// piece.
pub open spec fn split_on(s: Seq<char>, sep: char) -> Seq<Seq<char>>
    decreases s.len(),
{
    if s.len() == 0 {
        seq![Seq::<char>::empty()]
    } else {
        let before = split_on(s.drop_last(), sep);
        if s.last() == sep {
            before.push(Seq::<char>::empty())
        } else {
            before.drop_last().push(before.last().push(s.last()))
        }
    }
}

/// The texts of `parts` in a row, with `sep` between one and the next.
pub open spec fn joined(parts: Seq<Seq<char>>, sep: Seq<char>) -> Seq<char>
    decreases parts.len(),
{
    if parts.len() == 0 {
        Seq::empty()
    } else if parts.len() == 1 {
        parts[0]
    } else {
        joined(parts.drop_last(), sep) + sep + parts.last()
    }
}

/// The texts that a vector of slices stands for.
pub open spec fn texts(pieces: Seq<&[char]>) -> Seq<Seq<char>> {
    Seq::new(pieces.len(), |i: int| pieces[i]@)
}

/// The characters of `s`, in order, as a vector that is indexed in constant time.
pub fn to_chars(s: &str) -> (out: Vec<char>)
    ensures
        out@ == s@,
{
    let mut out: Vec<char> = Vec::new();
    for c in it: s.chars()
        invariant
            out@ == s@.take(it.index() as int),
            it.seq() == s@,
    {
        out.push(c);
    }
    out
}

/// Decides [`is_whitespace`].
pub fn char_is_whitespace(c: char) -> (b: bool)
    ensures
        b == is_whitespace(c),
{
    let n: u32 = c as u32;
    (0x09 <= n && n <= 0x0D) || n == 0x20 || n == 0x85 || n == 0xA0 || n == 0x1680 || (0x2000 <= n
        && n <= 0x200A) || n == 0x2028 || n == 0x2029 || n == 0x202F || n == 0x205F || n == 0x3000
}

/// The part of `s` that is left when leading and trailing whitespace is removed.
pub fn trim<'a>(s: &'a [char]) -> (out: &'a [char])
    ensures
        out@ == trimmed(s@),
{
    let n = s.len();
    let mut lo: usize = 0;
    assert(s@.subrange(0, n as int) == s@);
    while lo < n && char_is_whitespace(s[lo])
        invariant
            lo <= n == s@.len(),
            trim_start(s@) == trim_start(s@.subrange(lo as int, n as int)),
        decreases n - lo,
    {
        assert(s@.subrange(lo as int, n as int).drop_first() == s@.subrange(lo + 1, n as int));
        lo += 1;
    }
    let mut hi: usize = n;
    while hi > lo && char_is_whitespace(s[hi - 1])
        invariant
            lo <= hi <= n == s@.len(),
            trim_end(s@.subrange(lo as int, n as int)) == trim_end(
                s@.subrange(lo as int, hi as int),
            ),
        decreases hi,
    {
        assert(s@.subrange(lo as int, hi as int).drop_last() == s@.subrange(
            lo as int,
            hi - 1,
        ));
        hi -= 1;
    }
    proof {
        let head = s@.subrange(lo as int, n as int);
        assert(trim_start(head) == head) by {
            if lo < n {
                assert(head.first() == s@[lo as int]);
            }
        }
        let body = s@.subrange(lo as int, hi as int);
        assert(trim_end(body) == body) by {
            if hi > lo {
                assert(body.last() == s@[hi - 1]);
            }
        }
    }
    vstd::slice::slice_subrange(s, lo, hi)
}

/// Cuts `s` at every occurrence of `sep`.
pub fn split<'a>(s: &'a [char], sep: char) -> (out: Vec<&'a [char]>)
    ensures
        texts(out@) == split_on(s@, sep),
{
    let n = s.len();
    let mut out: Vec<&'a [char]> = Vec::new();
    let mut start: usize = 0;
    let mut i: usize = 0;
    proof {
        assert(s@.take(0) == Seq::<char>::empty());
        assert(s@.subrange(0, 0) == Seq::<char>::empty());
        assert(texts(out@).push(Seq::<char>::empty()) == seq![Seq::<char>::empty()]);
    }
    while i < n
        invariant
            start <= i <= n == s@.len(),
            split_on(s@.take(i as int), sep) == texts(out@).push(
                s@.subrange(start as int, i as int),
            ),
        decreases n - i,
    {
        proof {
            let next = s@.take(i + 1);
            assert(next.drop_last() == s@.take(i as int));
            assert(next.last() == s@[i as int]);
            let before = split_on(s@.take(i as int), sep);
            assert(before.drop_last() == texts(out@));
            assert(before.last() == s@.subrange(start as int, i as int));
        }
        if s[i] == sep {
            let piece = vstd::slice::slice_subrange(s, start, i);
            proof {
                assert(texts(out@.push(piece)) == texts(out@).push(piece@));
                assert(s@.subrange(i + 1, i + 1) == Seq::<char>::empty());
            }
            out.push(piece);
            start = i + 1;
        } else {
            assert(s@.subrange(start as int, i as int).push(s@[i as int]) == s@.subrange(
                start as int,
                i + 1,
            ));
        }
        i += 1;
    }
    let piece = vstd::slice::slice_subrange(s, start, n);
    proof {
        assert(texts(out@.push(piece)) == texts(out@).push(piece@));
        assert(s@.take(n as int) == s@);
    }
    out.push(piece);
    out
}

/// Whether `s` begins with `prefix`.
pub fn starts_with(s: &[char], prefix: &[char]) -> (b: bool)
    ensures
        b == prefix@.is_prefix_of(s@),
{
    let n = prefix.len();
    if n > s.len() {
        return false;
    }
    let mut i: usize = 0;
    while i < n
        invariant
            i <= n == prefix@.len(),
            n <= s@.len(),
            prefix@.take(i as int) == s@.take(i as int),
        decreases n - i,
    {
        if prefix[i] != s[i] {
            assert(s@.subrange(0, n as int)[i as int] != prefix@[i as int]);
            return false;
        }
        assert(prefix@.take(i + 1) == prefix@.take(i as int).push(prefix@[i as int]));
        assert(s@.take(i + 1) == s@.take(i as int).push(s@[i as int]));
        i += 1;
    }
    assert(prefix@.take(n as int) == prefix@);
    true
}

/// Whether `a` and `b` are the same text.
pub fn same_text(a: &[char], b: &[char]) -> (b_eq: bool)
    ensures
        b_eq == (a@ == b@),
{
    let eq = a.len() == b.len() && starts_with(a, b);
    assert(a@.len() == b@.len() ==> a@.subrange(0, b@.len() as int) == a@);
    eq
}

/// [`String::push`] appends the given character to the end of the string and
/// changes nothing else.
pub assume_specification[ String::push ](s: &mut String, ch: char)
    ensures
        final(s)@ == old(s)@.push(ch),
;

/// A string that holds the characters of `s`.
pub fn to_text(s: &[char]) -> (out: String)
    ensures
        out@ == s@,
{
    let mut out = String::new();
    let mut i: usize = 0;
    while i < s.len()
        invariant
            i <= s@.len(),
            out@ == s@.take(i as int),
        decreases s@.len() - i,
    {
        assert(s@.take(i + 1) == s@.take(i as int).push(s@[i as int]));
        out.push(s[i]);
        i += 1;
    }
    assert(s@.take(s@.len() as int) == s@);
    out
}

/// Whether `part` stands somewhere in `text`, character by character.
pub open spec fn occurs_in(part: Seq<char>, text: Seq<char>) -> bool {
    exists|i: int| occurs_at(part, text, i)
}

/// Whether `part` stands in `text` from position `i` on.
pub open spec fn occurs_at(part: Seq<char>, text: Seq<char>, i: int) -> bool {
    0 <= i && i + part.len() <= text.len() && text.subrange(i, i + part.len()) == part
}

/// What stands at the end of a text occurs in it.
pub proof fn lemma_occurs_at_end(before: Seq<char>, part: Seq<char>)
    ensures
        occurs_in(part, before + part),
{
    assert((before + part).subrange(before.len() as int, (before.len() + part.len()) as int)
        == part);
    assert(occurs_at(part, before + part, before.len() as int));
}

/// What occurs in a text occurs in it with more before it.
pub proof fn lemma_occurs_behind(part: Seq<char>, text: Seq<char>, before: Seq<char>)
    requires
        occurs_in(part, text),
    ensures
        occurs_in(part, before + text),
{
    let i = choose|i: int| occurs_at(part, text, i);
    assert((before + text).subrange(before.len() + i, before.len() + i + part.len())
        == text.subrange(i, i + part.len()));
    assert(occurs_at(part, before + text, before.len() + i));
}

/// What occurs in a text occurs in it with more behind it.
pub proof fn lemma_occurs_before(part: Seq<char>, text: Seq<char>, after: Seq<char>)
    requires
        occurs_in(part, text),
    ensures
        occurs_in(part, text + after),
{
    let i = choose|i: int| occurs_at(part, text, i);
    assert((text + after).subrange(i, i + part.len()) == text.subrange(i, i + part.len()));
    assert(occurs_at(part, text + after, i));
}

/// Whether `part` stands somewhere in `text`.
pub fn contains_text(text: &[char], part: &[char]) -> (found: bool)
    ensures
        found == occurs_in(part@, text@),
{
    let n = text.len();
    let m = part.len();
    if m > n {
        assert forall|i: int| !occurs_at(part@, text@, i) by {}
        return false;
    }
    let mut i: usize = 0;
    while i <= n - m
        invariant
            m <= n,
            n == text@.len(),
            m == part@.len(),
            i <= n - m + 1,
            forall|k: int| 0 <= k < i ==> !occurs_at(part@, text@, k),
        decreases n - m + 1 - i,
    {
        let rest = vstd::slice::slice_subrange(text, i, n);
        if starts_with(rest, part) {
            assert(text@.subrange(i as int, n as int).subrange(0, m as int) == text@.subrange(
                i as int,
                i + m,
            ));
            assert(occurs_at(part@, text@, i as int));
            return true;
        }
        assert(!occurs_at(part@, text@, i as int)) by {
            assert(text@.subrange(i as int, n as int).subrange(0, m as int) == text@.subrange(
                i as int,
                i + m,
            ));
        }
        i += 1;
    }
    assert forall|k: int| !occurs_at(part@, text@, k) by {}
    false
}

/// Whether `sep` does not occur in `s`.
pub open spec fn is_free_of(s: Seq<char>, sep: char) -> bool {
    forall|i: int| 0 <= i < s.len() ==> #[trigger] s[i] != sep
}

/// Text without a separator, put behind a text, lengthens its last piece.
pub proof fn lemma_split_append(s: Seq<char>, t: Seq<char>, sep: char)
    requires
        is_free_of(t, sep),
    ensures
        split_on(s + t, sep) == split_on(s, sep).drop_last().push(split_on(s, sep).last() + t),
        split_on(s, sep).len() > 0,
    decreases t.len(),
{
    lemma_split_nonempty(s, sep);
    let pieces = split_on(s, sep);
    if t.len() == 0 {
        assert(s + t == s);
        assert(pieces.last() + t == pieces.last());
        assert(pieces.drop_last().push(pieces.last()) == pieces);
    } else {
        let init = t.drop_last();
        assert(is_free_of(init, sep)) by {
            assert forall|i: int| 0 <= i < init.len() implies #[trigger] init[i] != sep by {
                assert(t[i] != sep);
            }
        }
        lemma_split_append(s, init, sep);
        assert((s + t).drop_last() == s + init);
        assert((s + t).last() == t.last());
        assert(t[t.len() - 1] != sep);
        let before = split_on(s + init, sep);
        assert(before.drop_last() == pieces.drop_last());
        assert(before.last().push(t.last()) == pieces.last() + t) by {
            assert(init.push(t.last()) == t);
            assert((pieces.last() + init).push(t.last()) == pieces.last() + (init.push(t.last())));
        }
    }
}

/// Every text has at least one piece.
pub proof fn lemma_split_nonempty(s: Seq<char>, sep: char)
    ensures
        split_on(s, sep).len() > 0,
    decreases s.len(),
{
    if s.len() > 0 {
        lemma_split_nonempty(s.drop_last(), sep);
    }
}

/// Texts without a separator, put in a row with the separator between them,
/// are the pieces of that row.
pub proof fn lemma_split_joined(parts: Seq<Seq<char>>, sep: char)
    requires
        parts.len() > 0,
        forall|i: int| 0 <= i < parts.len() ==> is_free_of(#[trigger] parts[i], sep),
    ensures
        split_on(joined(parts, seq![sep]), sep) == parts,
    decreases parts.len(),
{
    let none = Seq::<char>::empty();
    if parts.len() == 1 {
        lemma_split_append(none, parts[0], sep);
        assert(none + parts[0] == parts[0]);
        assert(split_on(none, sep) == seq![none]);
        assert(seq![none].drop_last().push(none + parts[0]) == parts);
    } else {
        let init = parts.drop_last();
        assert forall|i: int| 0 <= i < init.len() implies is_free_of(#[trigger] init[i], sep) by {
            assert(init[i] == parts[i]);
        }
        lemma_split_joined(init, sep);
        let row = joined(init, seq![sep]);
        assert((row + seq![sep]).drop_last() == row);
        assert((row + seq![sep]).last() == sep);
        assert(split_on(row + seq![sep], sep) == init.push(none));
        assert(is_free_of(parts.last(), sep));
        lemma_split_append(row + seq![sep], parts.last(), sep);
        assert(init.push(none).drop_last() == init);
        assert(none + parts.last() == parts.last());
        assert(init.push(parts.last()) == parts);
    }
}

/// The pieces of a text hold no separator, and put in a row with the
/// separator between them they are the text again.
pub proof fn lemma_split_pieces(s: Seq<char>, sep: char)
    ensures
        forall|i: int| 0 <= i < split_on(s, sep).len() ==> is_free_of(#[trigger] split_on(s, sep)[i], sep),
        joined(split_on(s, sep), seq![sep]) == s,
    decreases s.len(),
{
    let pieces = split_on(s, sep);
    if s.len() == 0 {
        assert(joined(pieces, seq![sep]) == s);
    } else {
        let before = split_on(s.drop_last(), sep);
        lemma_split_pieces(s.drop_last(), sep);
        lemma_split_nonempty(s.drop_last(), sep);
        if s.last() == sep {
            assert(pieces.drop_last() == before);
            assert(joined(before, seq![sep]) + seq![sep] + Seq::<char>::empty() == s.drop_last().push(
                sep,
            ));
            assert(s.drop_last().push(sep) == s);
            assert forall|i: int| 0 <= i < pieces.len() implies is_free_of(
                #[trigger] pieces[i],
                sep,
            ) by {
                if i < before.len() {
                    assert(pieces[i] == before[i]);
                }
            }
        } else {
            let last = before.last().push(s.last());
            assert(is_free_of(before.last(), sep));
            assert forall|i: int| 0 <= i < pieces.len() implies is_free_of(
                #[trigger] pieces[i],
                sep,
            ) by {
                if i < before.len() - 1 {
                    assert(pieces[i] == before[i]);
                } else {
                    assert(pieces[i] == last);
                    assert forall|k: int| 0 <= k < last.len() implies #[trigger] last[k] != sep by {
                        if k < before.last().len() {
                            assert(last[k] == before.last()[k]);
                        }
                    }
                }
            }
            if before.len() == 1 {
                assert(joined(before, seq![sep]) == before[0]);
                assert(pieces[0] == before[0].push(s.last()));
            } else {
                assert(pieces.drop_last() == before.drop_last());
                assert(joined(before.drop_last(), seq![sep]) + seq![sep] + last == (joined(
                    before.drop_last(),
                    seq![sep],
                ) + seq![sep] + before.last()).push(s.last()));
            }
            assert(s.drop_last().push(s.last()) == s);
        }
    }
}

/// Trailing whitespace is taken from the end only: what is left begins as
/// the text does, or nothing is left of a text that is all whitespace.
pub proof fn lemma_trim_end(s: Seq<char>)
    ensures
        trim_end(s).len() <= s.len(),
        trim_end(s) == s.take(trim_end(s).len() as int),
        trim_end(s).len() > 0 ==> !is_whitespace(trim_end(s).last()),
        forall|i: int| trim_end(s).len() <= i < s.len() ==> is_whitespace(#[trigger] s[i]),
    decreases s.len(),
{
    if s.len() > 0 && is_whitespace(s.last()) {
        let init = s.drop_last();
        lemma_trim_end(init);
        assert(init.take(trim_end(init).len() as int) == s.take(trim_end(init).len() as int));
        assert forall|i: int| trim_end(s).len() <= i < s.len() implies is_whitespace(
            #[trigger] s[i],
        ) by {
            if i < init.len() {
                assert(init[i] == s[i]);
            }
        }
    } else {
        assert(s.take(s.len() as int) == s);
    }
}

/// Leading whitespace is taken from the beginning only: what is left ends as
/// the text does.
pub proof fn lemma_trim_start(s: Seq<char>)
    ensures
        trim_start(s).len() <= s.len(),
        trim_start(s) == s.skip(s.len() - trim_start(s).len()),
        trim_start(s).len() > 0 ==> !is_whitespace(trim_start(s).first()),
        forall|i: int| 0 <= i < s.len() - trim_start(s).len() ==> is_whitespace(#[trigger] s[i]),
    decreases s.len(),
{
    if s.len() > 0 && is_whitespace(s.first()) {
        let rest = s.drop_first();
        lemma_trim_start(rest);
        let cut = rest.len() - trim_start(rest).len();
        assert(rest.skip(cut) == s.skip(cut + 1));
        assert forall|i: int| 0 <= i < s.len() - trim_start(s).len() implies is_whitespace(
            #[trigger] s[i],
        ) by {
            if i > 0 {
                assert(rest[i - 1] == s[i]);
            }
        }
    } else {
        assert(s.skip(0) == s);
    }
}

/// Whether `part` stands in `s` from position `from` on with nothing but
/// whitespace before and behind it.
pub open spec fn is_core_at(s: Seq<char>, part: Seq<char>, from: int) -> bool {
    &&& occurs_at(part, s, from)
    &&& forall|i: int| 0 <= i < from ==> is_whitespace(#[trigger] s[i])
    &&& forall|i: int| from + part.len() <= i < s.len() ==> is_whitespace(#[trigger] s[i])
}

/// What is left of a text without its surrounding whitespace is a part of
/// it that neither begins nor ends with whitespace, and only whitespace
/// stands before and behind it.
pub proof fn lemma_trimmed(s: Seq<char>)
    ensures
        trimmed(s).len() > 0 ==> !is_whitespace(trimmed(s).first()) && !is_whitespace(
            trimmed(s).last(),
        ),
        exists|from: int| is_core_at(s, trimmed(s), from),
{
    let left = trim_start(s);
    let both = trim_end(left);
    lemma_trim_start(s);
    lemma_trim_end(left);
    let from = s.len() - left.len();
    assert(s.subrange(from, from + both.len()) == both);
    assert forall|i: int| from + both.len() <= i < s.len() implies is_whitespace(
        #[trigger] s[i],
    ) by {
        assert(left[i - from] == s[i]);
    }
    if both.len() > 0 {
        assert(both.first() == left.first());
    }
    assert(is_core_at(s, both, from));
}

} // verus!
