//! Text as sequences of characters: conversion between strings and character
//! vectors, decimal numerals, the lexicographic order, prefixes and splitting.

use vstd::prelude::*;

verus! {

/// `String::push` appends one character and changes nothing else.
pub assume_specification[ std::string::String::push ](s: &mut std::string::String, ch: char)
    ensures
        final(s)@ == old(s)@.push(ch),
;

/// `==` on string slices holds exactly of slices with the same characters.
pub assume_specification[ <str as PartialEq>::eq ](a: &str, b: &str) -> (same: bool)
    ensures
        same == (a@ == b@),
;

/// Whether two string slices hold the same characters.
pub fn same_text(a: &str, b: &str) -> (same: bool)
    ensures
        same == (a@ == b@),
{
    *a == *b
}

/// The characters of `s`, in order.
pub fn chars_of(s: &str) -> (out: Vec<char>)
    ensures
        out@ == s@,
{
    let mut out: Vec<char> = Vec::new();
    for c in it: s.chars()
        invariant
            it.seq() == s@,
            out@ == it.seq().take(it.index()),
    {
        out.push(c);
    }
    out
}

/// Appends the characters `chars[from..to]` to `out`.
pub fn push_chars(out: &mut String, chars: &Vec<char>, from: usize, to: usize)
    requires
        from <= to <= chars.len(),
    ensures
        final(out)@ == old(out)@ + chars@.subrange(from as int, to as int),
{
    let mut i: usize = from;
    while i < to
        invariant
            from <= i <= to <= chars.len(),
            out@ == old(out)@ + chars@.subrange(from as int, i as int),
        decreases to - i,
    {
        out.push(chars[i]);
        i += 1;
    }
}

/// The character that writes the digit `d`.
pub open spec fn digit_char(d: int) -> char {
    ((48 + d) as u8) as char
}

/// Whether `c` is one of the ten ASCII digits.
pub open spec fn is_digit(c: char) -> bool {
    48 <= c as u32 <= 57
}

/// The decimal numeral of `n`, without leading zeros.
pub open spec fn decimal(n: nat) -> Seq<char>
    decreases n,
{
    if n < 10 {
        seq![digit_char(n as int)]
    } else {
        decimal(n / 10).push(digit_char((n % 10) as int))
    }
}

/// Appends the decimal numeral of `n` to `out`.
pub fn push_decimal(out: &mut String, n: u64)
    ensures
        final(out)@ == old(out)@ + decimal(n as nat),
    decreases n,
{
    if n >= 10 {
        push_decimal(out, n / 10);
    }
    let d: u8 = (n % 10) as u8;
    out.push((48u8 + d) as char);
    proof {
        if n >= 10 {
            assert(out@ == old(out)@ + decimal(n as nat / 10).push(digit_char((n % 10) as int)));
        } else {
            assert(out@ == old(out)@ + seq![digit_char(n as int)]);
        }
    }
}

/// Whether every character of `s` is an ASCII digit (true of the empty text).
pub open spec fn all_digits(s: Seq<char>) -> bool {
    forall|i: int| 0 <= i < s.len() ==> is_digit(#[trigger] s[i])
}

/// Whether every character of `chars` is an ASCII digit.
pub fn is_all_digits(chars: &Vec<char>) -> (yes: bool)
    ensures
        yes == all_digits(chars@),
{
    let mut i: usize = 0;
    while i < chars.len()
        invariant
            i <= chars.len(),
            forall|k: int| 0 <= k < i ==> is_digit(#[trigger] chars@[k]),
        decreases chars.len() - i,
    {
        let c = chars[i];
        let code: u32 = c as u32;
        if code < 48 || code > 57 {
            return false;
        }
        i += 1;
    }
    true
}

/// Whether `s` begins with `prefix`.
pub open spec fn has_prefix(s: Seq<char>, prefix: Seq<char>) -> bool {
    prefix.len() <= s.len() && s.take(prefix.len() as int) == prefix
}

/// Whether `s` ends with `suffix`.
pub open spec fn has_suffix(s: Seq<char>, suffix: Seq<char>) -> bool {
    suffix.len() <= s.len() && s.skip(s.len() - suffix.len()) == suffix
}

/// Whether `chars[at..]` begins with `word`.
pub fn matches_at(chars: &Vec<char>, at: usize, word: &Vec<char>) -> (yes: bool)
    requires
        at <= chars.len(),
    ensures
        yes == has_prefix(chars@.skip(at as int), word@),
{
    if word.len() > chars.len() - at {
        return false;
    }
    let mut i: usize = 0;
    while i < word.len()
        invariant
            i <= word.len(),
            at + word.len() <= chars.len(),
            forall|k: int| 0 <= k < i ==> chars@[at + k] == word@[k],
        decreases word.len() - i,
    {
        if chars[at + i] != word[i] {
            proof {
                let tail = chars@.skip(at as int);
                assert(tail.take(word.len() as int)[i as int] == chars@[at + i]);
            }
            return false;
        }
        i += 1;
    }
    proof {
        let tail = chars@.skip(at as int);
        assert(tail.take(word.len() as int) =~= word@);
    }
    true
}

/// The index of the last occurrence of `c` in `s`, or -1 if there is none.
pub open spec fn last_index_of(s: Seq<char>, c: char) -> int
    decreases s.len(),
{
    if s.len() == 0 {
        -1
    } else if s.last() == c {
        s.len() - 1
    } else {
        last_index_of(s.drop_last(), c)
    }
}

/// The last index of `c` holds `c`, and no later index does.
pub proof fn lemma_last_index_of(s: Seq<char>, c: char)
    ensures
        -1 <= last_index_of(s, c) < s.len(),
        last_index_of(s, c) >= 0 ==> s[last_index_of(s, c)] == c,
        forall|k: int| last_index_of(s, c) < k < s.len() ==> s[k] != c,
    decreases s.len(),
{
    if s.len() > 0 && s.last() != c {
        lemma_last_index_of(s.drop_last(), c);
        assert forall|k: int| last_index_of(s, c) < k < s.len() implies s[k] != c by {
            if k < s.len() - 1 {
                assert(s.drop_last()[k] == s[k]);
            }
        }
    }
}

/// If `c` sits at `at` and nowhere after it, `at` is its last index.
pub proof fn lemma_last_index_is(s: Seq<char>, c: char, at: int)
    requires
        -1 <= at < s.len(),
        at >= 0 ==> s[at] == c,
        forall|k: int| at < k < s.len() ==> s[k] != c,
    ensures
        last_index_of(s, c) == at,
    decreases s.len(),
{
    if s.len() > 0 && s.last() != c {
        assert forall|k: int| at < k < s.len() - 1 implies s.drop_last()[k] != c by {
            assert(s.drop_last()[k] == s[k]);
        }
        if at >= 0 {
            assert(s.drop_last()[at] == s[at]);
        }
        lemma_last_index_is(s.drop_last(), c, at);
    } else if s.len() > 0 {
        assert(at == s.len() - 1);
    }
}

/// Finds the last occurrence of `c`.
pub fn find_last(chars: &Vec<char>, c: char) -> (at: Option<usize>)
    ensures
        match at {
            Some(i) => last_index_of(chars@, c) == i && i < chars.len(),
            None => last_index_of(chars@, c) == -1,
        },
{
    let mut i: usize = chars.len();
    while i > 0
        invariant
            i <= chars.len(),
            forall|k: int| i <= k < chars.len() ==> chars@[k] != c,
        decreases i,
    {
        i -= 1;
        if chars[i] == c {
            proof {
                lemma_last_index_is(chars@, c, i as int);
            }
            return Some(i);
        }
    }
    proof {
        lemma_last_index_is(chars@, c, -1);
    }
    None
}

/// Whether `a` comes before `b`, or equals it, in the lexicographic order of
/// the characters' code points (the order of the strings themselves).
pub open spec fn lex_le(a: Seq<char>, b: Seq<char>) -> bool
    decreases a.len(),
{
    if a.len() == 0 {
        true
    } else if b.len() == 0 {
        false
    } else if a[0] != b[0] {
        (a[0] as u32) < (b[0] as u32)
    } else {
        lex_le(a.drop_first(), b.drop_first())
    }
}

/// Every text is at or before itself.
pub proof fn lemma_lex_le_reflexive(a: Seq<char>)
    ensures
        lex_le(a, a),
    decreases a.len(),
{
    if a.len() > 0 {
        lemma_lex_le_reflexive(a.drop_first());
    }
}

/// Of two texts one is at or before the other.
pub proof fn lemma_lex_le_total(a: Seq<char>, b: Seq<char>)
    ensures
        lex_le(a, b) || lex_le(b, a),
    decreases a.len(),
{
    if a.len() > 0 && b.len() > 0 {
        if a[0] == b[0] {
            lemma_lex_le_total(a.drop_first(), b.drop_first());
        } else {
            vstd::utf8::char_u32_cast(a[0], a[0] as u32);
            vstd::utf8::char_u32_cast(b[0], b[0] as u32);
        }
    }
}

/// The lexicographic order is transitive.
pub proof fn lemma_lex_le_transitive(a: Seq<char>, b: Seq<char>, c: Seq<char>)
    requires
        lex_le(a, b),
        lex_le(b, c),
    ensures
        lex_le(a, c),
    decreases a.len(),
{
    if a.len() > 0 && b.len() > 0 && c.len() > 0 && a[0] == b[0] && b[0] == c[0] {
        lemma_lex_le_transitive(a.drop_first(), b.drop_first(), c.drop_first());
    }
}

/// Compares two texts in the lexicographic order.
pub fn chars_le(a: &Vec<char>, b: &Vec<char>) -> (yes: bool)
    ensures
        yes == lex_le(a@, b@),
{
    let mut i: usize = 0;
    assert(a@.skip(0) =~= a@ && b@.skip(0) =~= b@);
    while i < a.len() && i < b.len()
        invariant
            i <= a.len(),
            i <= b.len(),
            lex_le(a@, b@) == lex_le(a@.skip(i as int), b@.skip(i as int)),
        decreases a.len() - i,
    {
        let x = a[i];
        let y = b[i];
        proof {
            let sa = a@.skip(i as int);
            let sb = b@.skip(i as int);
            assert(sa[0] == x && sb[0] == y);
            assert(sa.drop_first() =~= a@.skip(i + 1));
            assert(sb.drop_first() =~= b@.skip(i + 1));
        }
        if x != y {
            let before = (x as u32) < (y as u32);
            assert(before == lex_le(a@.skip(i as int), b@.skip(i as int)));
            return before;
        }
        i += 1;
    }
    i == a.len()
}

/// The views of the texts of `parts`, in order.
pub open spec fn views_of(parts: Seq<Vec<char>>) -> Seq<Seq<char>> {
    parts.map_values(|p: Vec<char>| p@)
}

/// Whether `texts` ascend in the lexicographic order.
pub open spec fn ascending(texts: Seq<Seq<char>>) -> bool {
    forall|i: int, j: int| 0 <= i < j < texts.len() ==> lex_le(#[trigger] texts[i], #[trigger] texts[j])
}

/// The place at which `key` enters the ascending `keys` so that they still
/// ascend: behind every text that is not after it.
pub fn ascending_place(keys: &Vec<Vec<char>>, key: &Vec<char>) -> (at: usize)
    requires
        ascending(views_of(keys@)),
    ensures
        at <= keys.len(),
        ascending(views_of(keys@).insert(at as int, key@)),
        forall|k: int| 0 <= k < at ==> lex_le(#[trigger] views_of(keys@)[k], key@),
        forall|k: int| at <= k < keys.len() ==> !lex_le(#[trigger] views_of(keys@)[k], key@),
{
    let ghost before = views_of(keys@);
    let mut at: usize = 0;
    while at < keys.len() && chars_le(&keys[at], key)
        invariant
            at <= keys.len(),
            before == views_of(keys@),
            forall|k: int| 0 <= k < at ==> lex_le(#[trigger] before[k], key@),
        decreases keys.len() - at,
    {
        assert(before[at as int] == keys@[at as int]@);
        at += 1;
    }
    proof {
        if at < keys.len() {
            assert(before[at as int] == keys@[at as int]@);
            lemma_lex_le_total(before[at as int], key@);
            assert forall|k: int| at <= k < before.len() implies lex_le(key@, #[trigger] before[k]) && !lex_le(
                before[k],
                key@,
            ) by {
                if at < k {
                    assert(lex_le(before[at as int], before[k]));
                } else {
                    lemma_lex_le_reflexive(before[at as int]);
                }
                lemma_lex_le_transitive(key@, before[at as int], before[k]);
                if lex_le(before[k], key@) {
                    lemma_lex_le_transitive(before[at as int], before[k], key@);
                }
            }
        }
        let after = before.insert(at as int, key@);
        assert forall|i: int, j: int| 0 <= i < j < after.len() implies lex_le(
            #[trigger] after[i],
            #[trigger] after[j],
        ) by {
            if j < at {
                assert(lex_le(before[i], before[j]));
            } else if j == at {
                assert(lex_le(before[i], key@));
            } else if i < at {
                assert(lex_le(before[i], before[j - 1]));
            } else if i == at {
                assert(lex_le(key@, before[j - 1]));
            } else {
                assert(lex_le(before[i - 1], before[j - 1]));
            }
        }
    }
    at
}

/// The pieces of `s` between the occurrences of `sep`: always at least one
/// piece, and one more than there are separators.
pub open spec fn split_on(s: Seq<char>, sep: char) -> Seq<Seq<char>>
    decreases s.len(),
{
    if s.len() == 0 {
        seq![Seq::<char>::empty()]
    } else {
        let before = split_on(s.drop_last(), sep);
        if s.last() == sep {
            before.push(Seq::<char>::empty())
        } else {
            before.drop_last().push(before.last().push(s.last()))
        }
    }
}

/// A text in which `sep` does not occur is its own single piece.
pub proof fn lemma_split_on_plain(s: Seq<char>, sep: char)
    requires
        forall|i: int| 0 <= i < s.len() ==> s[i] != sep,
    ensures
        split_on(s, sep) == seq![s],
    decreases s.len(),
{
    if s.len() > 0 {
        lemma_split_on_plain(s.drop_last(), sep);
        assert(seq![s.drop_last()].drop_last().push(s.drop_last().push(s.last())) =~= seq![s]) by {
            assert(s.drop_last().push(s.last()) =~= s);
        }
    } else {
        assert(s =~= Seq::<char>::empty());
    }
}

/// The pieces of two texts joined by `sep` are the pieces of the first, then
/// those of the second.
pub proof fn lemma_split_on_joined(a: Seq<char>, b: Seq<char>, sep: char)
    ensures
        split_on(a + seq![sep] + b, sep) == split_on(a, sep) + split_on(b, sep),
        split_on(b, sep).len() >= 1,
    decreases b.len(),
{
    let s = a + seq![sep] + b;
    if b.len() == 0 {
        assert(s.drop_last() =~= a);
        assert(split_on(a, sep).push(Seq::<char>::empty()) =~= split_on(a, sep) + split_on(b, sep));
    } else {
        let shorter = b.drop_last();
        assert(s.drop_last() =~= a + seq![sep] + shorter);
        lemma_split_on_joined(a, shorter, sep);
        let before = split_on(a, sep) + split_on(shorter, sep);
        if b.last() == sep {
            assert(before.push(Seq::<char>::empty()) =~= split_on(a, sep) + split_on(b, sep));
        } else {
            assert(before.drop_last() =~= split_on(a, sep) + split_on(shorter, sep).drop_last());
            assert(before.drop_last().push(before.last().push(b.last())) =~= split_on(a, sep) + split_on(b, sep));
        }
    }
}

/// A decimal numeral is made of digits.
pub proof fn lemma_decimal_digits(n: nat)
    ensures
        all_digits(decimal(n)),
        decimal(n).len() >= 1,
    decreases n,
{
    if n >= 10 {
        lemma_decimal_digits(n / 10);
    }
}

/// Splits `chars[from..]` at every occurrence of `sep`.
pub fn split_chars(chars: &Vec<char>, from: usize, sep: char) -> (parts: Vec<Vec<char>>)
    requires
        from <= chars.len(),
    ensures
        views_of(parts@) == split_on(chars@.skip(from as int), sep),
        parts.len() >= 1,
{
    let ghost tail = chars@.skip(from as int);
    let mut done: Vec<Vec<char>> = Vec::new();
    let mut current: Vec<char> = Vec::new();
    let mut i: usize = from;
    while i < chars.len()
        invariant
            from <= i <= chars.len(),
            tail == chars@.skip(from as int),
            views_of(done@).push(current@) == split_on(tail.take(i - from), sep),
        decreases chars.len() - i,
    {
        let c = chars[i];
        proof {
            let now = tail.take(i - from + 1);
            assert(now.drop_last() =~= tail.take(i - from));
            assert(now.last() == c);
        }
        if c == sep {
            let ghost before = views_of(done@);
            let ghost piece = current@;
            done.push(current);
            current = Vec::new();
            proof {
                assert(views_of(done@) =~= before.push(piece));
            }
        } else {
            let ghost piece = current@;
            current.push(c);
            proof {
                let before = views_of(done@).push(piece);
                assert(before.drop_last() =~= views_of(done@));
                assert(before.last() == piece);
            }
        }
        i += 1;
    }
    let ghost before = views_of(done@);
    let ghost piece = current@;
    done.push(current);
    proof {
        assert(views_of(done@) =~= before.push(piece));
        assert(tail.take(chars.len() - from) =~= tail);
    }
    done
}

} // verus!
