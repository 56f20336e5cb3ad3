//! Character-level string helpers with exact specifications.
//!
//! Strings are reasoned about through their character sequences (`s@`).

use vstd::prelude::*;

verus! {

/// Whether `c` has the Unicode `White_Space` property (what `char::is_whitespace` tests).
pub open spec fn is_whitespace_char(c: char) -> bool {
    ||| ('\u{9}' <= c && c <= '\u{d}')
    ||| c == ' '
    ||| c == '\u{85}'
    ||| c == '\u{a0}'
    ||| c == '\u{1680}'
    ||| ('\u{2000}' <= c && c <= '\u{200a}')
    ||| c == '\u{2028}'
    ||| c == '\u{2029}'
    ||| c == '\u{202f}'
    ||| c == '\u{205f}'
    ||| c == '\u{3000}'
}

/// `s` without its leading whitespace.
pub open spec fn trim_start(s: Seq<char>) -> Seq<char>
    decreases s.len(),
{
    if s.len() > 0 && is_whitespace_char(s[0]) {
        trim_start(s.drop_first())
    } else {
        s
    }
}

/// `s` without its trailing whitespace.
pub open spec fn trim_end(s: Seq<char>) -> Seq<char>
    decreases s.len(),
{
    if s.len() > 0 && is_whitespace_char(s.last()) {
        trim_end(s.drop_last())
    } else {
        s
    }
}

/// `s` without leading and trailing whitespace (`str::trim`).
pub open spec fn trim(s: Seq<char>) -> Seq<char> {
    trim_end(trim_start(s))
}

/// `s` without the leading run of `c` (`str::trim_start_matches` with a char).
pub open spec fn strip_leading(s: Seq<char>, c: char) -> Seq<char>
    decreases s.len(),
{
    if s.len() > 0 && s[0] == c {
        strip_leading(s.drop_first(), c)
    } else {
        s
    }
}

/// `s` without the trailing repetitions of `suffix` (`str::trim_end_matches` with a string).
pub open spec fn strip_trailing(s: Seq<char>, suffix: Seq<char>) -> Seq<char>
    decreases s.len(),
{
    if suffix.len() > 0 && has_suffix(s, suffix) {
        strip_trailing(s.subrange(0, s.len() - suffix.len()), suffix)
    } else {
        s
    }
}

/// The pieces of `s` between occurrences of `sep` (`str::split` with a char).
pub open spec fn split(s: Seq<char>, sep: char) -> Seq<Seq<char>>
    decreases s.len(),
{
    if s.len() == 0 {
        seq![Seq::<char>::empty()]
    } else {
        let pieces = split(s.drop_last(), sep);
        if s.last() == sep {
            pieces.push(Seq::<char>::empty())
        } else {
            pieces.update(pieces.len() - 1, pieces.last().push(s.last()))
        }
    }
}

/// The pieces joined back with `sep` between them (`[String]::join`).
pub open spec fn join(pieces: Seq<Seq<char>>, sep: Seq<char>) -> Seq<char>
    decreases pieces.len(),
{
    if pieces.len() == 0 {
        Seq::<char>::empty()
    } else if pieces.len() == 1 {
        pieces[0]
    } else {
        join(pieces.drop_last(), sep) + sep + pieces.last()
    }
}

/// Whether `s` begins with `prefix`.
pub open spec fn has_prefix(s: Seq<char>, prefix: Seq<char>) -> bool {
    prefix.len() <= s.len() && s.subrange(0, prefix.len() as int) == prefix
}

/// Whether `s` ends with `suffix`.
pub open spec fn has_suffix(s: Seq<char>, suffix: Seq<char>) -> bool {
    suffix.len() <= s.len() && s.subrange(s.len() - suffix.len(), s.len() as int) == suffix
}

/// Whether `needle` occurs in `s` at position `i`.
pub open spec fn occurs_at(s: Seq<char>, needle: Seq<char>, i: int) -> bool {
    0 <= i && i + needle.len() <= s.len() && s.subrange(i, i + needle.len()) == needle
}

/// Whether `needle` occurs anywhere in `s` (`str::contains` with a string).
pub open spec fn contains_text(s: Seq<char>, needle: Seq<char>) -> bool {
    exists|i: int| occurs_at(s, needle, i)
}

/// Appends one character to a string (`String::push`).
///
/// The contract claims what the standard library documents: the
/// character is appended at the end of the string.
#[verifier::external_body]
pub(crate) fn push_char(target: &mut String, c: char)
    ensures
        final(target)@ == old(target)@.push(c),
{
    target.push(c);
}

/// Returns the characters of a string slice.
pub fn chars_of(s: &str) -> (result: Vec<char>)
    ensures
        result@ == s@,
{
    let mut result: Vec<char> = Vec::new();
    let mut chars_iter = s.chars();
    for c in it: chars_iter
        invariant
            result@ == it.seq().take(it.index()),
    {
        result.push(c);
    }
    result
}

/// Builds a string from characters.
pub fn string_from(chars: &[char]) -> (result: String)
    ensures
        result@ == chars@,
{
    let mut result = String::new();
    let mut i: usize = 0;
    while i < chars.len()
        invariant
            i <= chars@.len(),
            result@ == chars@.subrange(0, i as int),
        decreases chars@.len() - i,
    {
        push_char(&mut result, chars[i]);
        assert(chars@.subrange(0, i + 1) == chars@.subrange(0, i as int).push(chars@[i as int]));
        i = i + 1;
    }
    assert(chars@.subrange(0, chars@.len() as int) == chars@);
    result
}

/// Copies the characters `from..to` of `chars`.
pub fn copy_range(chars: &[char], from: usize, to: usize) -> (result: Vec<char>)
    requires
        from <= to <= chars@.len(),
    ensures
        result@ == chars@.subrange(from as int, to as int),
{
    let mut result: Vec<char> = Vec::new();
    let mut i: usize = from;
    while i < to
        invariant
            from <= i <= to <= chars@.len(),
            result@ == chars@.subrange(from as int, i as int),
        decreases to - i,
    {
        result.push(chars[i]);
        assert(chars@.subrange(from as int, i + 1) == chars@.subrange(from as int, i as int).push(chars@[i as int]));
        i = i + 1;
    }
    result
}

/// Whether two character sequences are equal.
pub fn chars_equal(a: &[char], b: &[char]) -> (result: bool)
    ensures
        result == (a@ == b@),
{
    if a.len() != b.len() {
        return false;
    }
    let mut i: usize = 0;
    while i < a.len()
        invariant
            a@.len() == b@.len(),
            i <= a@.len(),
            forall|k: int| 0 <= k < i ==> a@[k] == b@[k],
        decreases a@.len() - i,
    {
        if a[i] != b[i] {
            return false;
        }
        i = i + 1;
    }
    assert(a@ =~= b@);
    true
}

/// Whether two string slices hold the same characters.
pub fn str_equal(a: &str, b: &str) -> (result: bool)
    ensures
        result == (a@ == b@),
{
    let a_chars = chars_of(a);
    let b_chars = chars_of(b);
    chars_equal(a_chars.as_slice(), b_chars.as_slice())
}

/// Whether `needle` occurs in `s` at position `at`.
pub fn occurs_at_exec(s: &[char], needle: &[char], at: usize) -> (result: bool)
    ensures
        result == occurs_at(s@, needle@, at as int),
{
    if at > s.len() || needle.len() > s.len() - at {
        return false;
    }
    let mut k: usize = 0;
    while k < needle.len()
        invariant
            at + needle@.len() <= s@.len(),
            s@.len() == s.len(),
            k <= needle@.len(),
            forall|j: int| 0 <= j < k ==> s@[at + j] == needle@[j],
        decreases needle@.len() - k,
    {
        if s[at + k] != needle[k] {
            assert(s@.subrange(at as int, at + needle@.len())[k as int] != needle@[k as int]);
            return false;
        }
        k = k + 1;
    }
    assert(s@.subrange(at as int, at + needle@.len()) =~= needle@);
    true
}

/// Whether `s` begins with `prefix`.
pub fn starts_with_chars(s: &[char], prefix: &[char]) -> (result: bool)
    ensures
        result == has_prefix(s@, prefix@),
{
    occurs_at_exec(s, prefix, 0)
}

/// Whether `s` ends with `suffix`.
pub fn ends_with_chars(s: &[char], suffix: &[char]) -> (result: bool)
    ensures
        result == has_suffix(s@, suffix@),
{
    if suffix.len() > s.len() {
        return false;
    }
    occurs_at_exec(s, suffix, s.len() - suffix.len())
}

/// Whether `needle` occurs anywhere in `s`.
pub fn contains_chars(s: &[char], needle: &[char]) -> (result: bool)
    ensures
        result == contains_text(s@, needle@),
{
    if needle.len() > s.len() {
        assert forall|i: int| !occurs_at(s@, needle@, i) by {}
        return false;
    }
    let last_start = s.len() - needle.len();
    let mut at: usize = 0;
    while at < last_start
        invariant
            last_start + needle@.len() == s@.len(),
            at <= last_start,
            forall|i: int| 0 <= i < at ==> !occurs_at(s@, needle@, i),
        decreases last_start - at,
    {
        if occurs_at_exec(s, needle, at) {
            return true;
        }
        at = at + 1;
    }
    if occurs_at_exec(s, needle, last_start) {
        return true;
    }
    assert forall|i: int| !occurs_at(s@, needle@, i) by {
        if 0 <= i && i <= last_start {
        }
    }
    false
}

} // verus!

verus! {

/// The character views of a sequence of character vectors.
pub open spec fn views_of(pieces: Seq<Vec<char>>) -> Seq<Seq<char>> {
    pieces.map_values(|piece: Vec<char>| piece@)
}

/// Splitting always yields at least one piece, and the last piece ends `s`.
pub proof fn lemma_split_last_is_suffix(s: Seq<char>, sep: char)
    ensures
        split(s, sep).len() >= 1,
        has_suffix(s, split(s, sep).last()),
    decreases s.len(),
{
    if s.len() > 0 {
        lemma_split_last_is_suffix(s.drop_last(), sep);
        let prev = split(s.drop_last(), sep);
        if s.last() != sep {
            let piece = prev.last();
            assert(s.subrange(s.len() - piece.push(s.last()).len(), s.len() as int)
                =~= s.drop_last().subrange(s.drop_last().len() - piece.len(), s.drop_last().len() as int).push(s.last()));
        } else {
            assert(s.subrange(s.len() as int, s.len() as int) =~= Seq::<char>::empty());
        }
    } else {
        assert(s.subrange(0, 0) =~= Seq::<char>::empty());
    }
}

/// Whether `c` is whitespace in the sense of `char::is_whitespace`.
pub fn is_whitespace(c: char) -> (result: bool)
    ensures
        result == is_whitespace_char(c),
{
    ('\u{9}' <= c && c <= '\u{d}') || c == ' ' || c == '\u{85}' || c == '\u{a0}' || c == '\u{1680}'
        || ('\u{2000}' <= c && c <= '\u{200a}') || c == '\u{2028}' || c == '\u{2029}'
        || c == '\u{202f}' || c == '\u{205f}' || c == '\u{3000}'
}

/// `s` without leading and trailing whitespace.
pub fn trim_chars(s: &[char]) -> (result: Vec<char>)
    ensures
        result@ == trim(s@),
{
    let len = s.len();
    let mut start: usize = 0;
    assert(s@.subrange(0, len as int) =~= s@);
    while start < len && is_whitespace(s[start])
        invariant
            len == s@.len(),
            start <= len,
            trim_start(s@) == trim_start(s@.subrange(start as int, len as int)),
        decreases len - start,
    {
        assert(s@.subrange(start as int, len as int).drop_first() =~= s@.subrange(start + 1, len as int));
        start = start + 1;
    }
    let ghost rest = s@.subrange(start as int, len as int);
    assert(trim_start(rest) == rest);
    let mut end: usize = len;
    assert(rest.subrange(0, (end - start) as int) =~= rest);
    while end > start && is_whitespace(s[end - 1])
        invariant
            len == s@.len(),
            start <= end <= len,
            rest == s@.subrange(start as int, len as int),
            trim_end(rest) == trim_end(s@.subrange(start as int, end as int)),
        decreases end,
    {
        assert(s@.subrange(start as int, end as int).drop_last() =~= s@.subrange(start as int, end - 1));
        end = end - 1;
    }
    copy_range(s, start, end)
}

/// `s` without its leading run of `c`.
pub fn strip_leading_chars(s: &[char], c: char) -> (result: Vec<char>)
    ensures
        result@ == strip_leading(s@, c),
{
    let len = s.len();
    let mut start: usize = 0;
    assert(s@.subrange(0, len as int) =~= s@);
    while start < len && s[start] == c
        invariant
            len == s@.len(),
            start <= len,
            strip_leading(s@, c) == strip_leading(s@.subrange(start as int, len as int), c),
        decreases len - start,
    {
        assert(s@.subrange(start as int, len as int).drop_first() =~= s@.subrange(start + 1, len as int));
        start = start + 1;
    }
    copy_range(s, start, len)
}

/// The pieces of `s` between occurrences of `sep`.
pub fn split_chars(s: &[char], sep: char) -> (result: Vec<Vec<char>>)
    ensures
        views_of(result@) == split(s@, sep),
        result@.len() >= 1,
{
    let mut pieces: Vec<Vec<char>> = Vec::new();
    let mut current: Vec<char> = Vec::new();
    let mut i: usize = 0;
    assert(s@.subrange(0, 0) =~= Seq::<char>::empty());
    assert(views_of(pieces@).push(current@) =~= seq![Seq::<char>::empty()]);
    while i < s.len()
        invariant
            i <= s@.len(),
            split(s@.subrange(0, i as int), sep) == views_of(pieces@).push(current@),
        decreases s@.len() - i,
    {
        let ghost before = s@.subrange(0, i as int);
        assert(s@.subrange(0, i + 1).drop_last() =~= before);
        let ghost old_pieces = pieces@;
        let ghost old_current = current@;
        if s[i] == sep {
            pieces.push(current);
            current = Vec::new();
            assert(views_of(pieces@) =~= views_of(old_pieces).push(old_current));
            assert(views_of(pieces@).push(current@) =~= split(s@.subrange(0, i + 1), sep));
        } else {
            current.push(s[i]);
            assert(views_of(pieces@).push(current@) =~= split(s@.subrange(0, i + 1), sep));
        }
        i = i + 1;
    }
    assert(s@.subrange(0, s@.len() as int) =~= s@);
    let ghost old_pieces = pieces@;
    let ghost old_current = current@;
    pieces.push(current);
    assert(views_of(pieces@) =~= views_of(old_pieces).push(old_current));
    pieces
}

} // verus!

verus! {

/// The character views of a sequence of strings.
pub open spec fn strings_view(strings: Seq<String>) -> Seq<Seq<char>> {
    strings.map_values(|s: String| s@)
}

/// Appends the characters of `tail` to `target`.
pub fn append_chars(target: &mut String, tail: &[char])
    ensures
        final(target)@ == old(target)@ + tail@,
{
    let mut i: usize = 0;
    while i < tail.len()
        invariant
            i <= tail@.len(),
            target@ == old(target)@ + tail@.subrange(0, i as int),
        decreases tail@.len() - i,
    {
        push_char(target, tail[i]);
        assert(tail@.subrange(0, i + 1) == tail@.subrange(0, i as int).push(tail@[i as int]));
        i = i + 1;
    }
    assert(tail@.subrange(0, tail@.len() as int) =~= tail@);
}

/// Appends a string slice to `target`.
pub fn append_str(target: &mut String, tail: &str)
    ensures
        final(target)@ == old(target)@ + tail@,
{
    let chars = chars_of(tail);
    append_chars(target, chars.as_slice());
}

/// Concatenates two string slices into a new string.
pub fn concat_strs(head: &str, tail: &str) -> (result: String)
    ensures
        result@ == head@ + tail@,
{
    let mut result = String::new();
    append_str(&mut result, head);
    append_str(&mut result, tail);
    assert(Seq::<char>::empty() + head@ == head@);
    result
}


/// Whether `s` has no whitespace at either end.
pub open spec fn is_trimmed(s: Seq<char>) -> bool {
    s.len() == 0 || (!is_whitespace_char(s[0]) && !is_whitespace_char(s.last()))
}

/// `trim_start` keeps a suffix that does not start with whitespace.
pub proof fn lemma_trim_start_shape(s: Seq<char>)
    ensures
        trim_start(s).len() <= s.len(),
        trim_start(s) == s.subrange(s.len() - trim_start(s).len(), s.len() as int),
        trim_start(s).len() > 0 ==> !is_whitespace_char(trim_start(s)[0]),
    decreases s.len(),
{
    if s.len() > 0 && is_whitespace_char(s[0]) {
        lemma_trim_start_shape(s.drop_first());
        assert(s.drop_first().subrange(
            s.drop_first().len() - trim_start(s).len(),
            s.drop_first().len() as int,
        ) =~= s.subrange(s.len() - trim_start(s).len(), s.len() as int));
    } else {
        assert(s.subrange(0, s.len() as int) =~= s);
    }
}

/// `trim_end` keeps a prefix that does not end with whitespace.
pub proof fn lemma_trim_end_shape(s: Seq<char>)
    ensures
        trim_end(s).len() <= s.len(),
        trim_end(s) == s.subrange(0, trim_end(s).len() as int),
        trim_end(s).len() > 0 ==> !is_whitespace_char(trim_end(s).last()),
    decreases s.len(),
{
    if s.len() > 0 && is_whitespace_char(s.last()) {
        lemma_trim_end_shape(s.drop_last());
        assert(s.drop_last().subrange(0, trim_end(s).len() as int) =~= s.subrange(0, trim_end(s).len() as int));
    } else {
        assert(s.subrange(0, s.len() as int) =~= s);
    }
}

/// Trimming a text that has no whitespace at either end changes nothing.
pub proof fn lemma_trim_of_trimmed(s: Seq<char>)
    requires
        is_trimmed(s),
    ensures
        trim(s) == s,
{
    assert(trim_start(s) == s);
    assert(trim_end(s) == s);
}

/// The result of `trim` has no whitespace at either end.
pub proof fn lemma_trim_is_trimmed(s: Seq<char>)
    ensures
        is_trimmed(trim(s)),
        trim(s).len() <= s.len(),
        trim(s) == s.subrange(s.len() - trim_start(s).len(), s.len() - trim_start(s).len() + trim(s).len()),
{
    lemma_trim_start_shape(s);
    lemma_trim_end_shape(trim_start(s));
    let z = trim_start(s);
    let y = trim(s);
    if y.len() > 0 {
        assert(y[0] == z[0]);
    }
    assert(y =~= s.subrange(s.len() - z.len(), s.len() - z.len() + y.len()));
}

/// The first piece of a split is a prefix of the text without the separator,
/// and the whole text when the separator does not occur.
pub proof fn lemma_split_first_piece(s: Seq<char>, sep: char)
    ensures
        split(s, sep).len() >= 1,
        has_prefix(s, split(s, sep)[0]),
        !split(s, sep)[0].contains(sep),
        split(s, sep).len() == 1 ==> split(s, sep)[0] == s,
        !s.contains(sep) ==> split(s, sep).len() == 1,
    decreases s.len(),
{
    if s.len() > 0 {
        let rest = s.drop_last();
        lemma_split_first_piece(rest, sep);
        let pieces = split(rest, sep);
        assert(s.subrange(0, pieces[0].len() as int) =~= rest.subrange(0, pieces[0].len() as int));
        if s.last() == sep || pieces.len() > 1 {
            assert(split(s, sep)[0] == pieces[0]);
        }
        if s.last() != sep && pieces.len() == 1 {
            assert(pieces[0].push(s.last()) =~= s);
            assert(split(s, sep)[0] == s);
            assert(s.subrange(0, s.len() as int) =~= s);
            if pieces[0].push(s.last()).contains(sep) {
                let i = choose|i: int| 0 <= i < pieces[0].push(s.last()).len() && pieces[0].push(s.last())[i] == sep;
                assert(pieces[0][i] == sep);
            }
        }
        if !s.contains(sep) {
            assert forall|i: int| 0 <= i < rest.len() implies rest[i] != sep by {
                assert(s[i] == rest[i]);
            }
            assert(s[s.len() - 1] == s.last());
        }
    } else {
        assert(s.subrange(0, 0) =~= split(s, sep)[0]);
    }
}

} // verus!
