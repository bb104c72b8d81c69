//! Text as a sequence of characters: whitespace, trimming, and splitting at a
//! separator.

use vstd::prelude::*;
use vstd::slice::slice_subrange;
use vstd::utf8::{decode_utf8, valid_utf8};

verus! {

/// The error of `core::str::from_utf8`, carried as it is.
#[verifier::external_type_specification]
#[verifier::external_body]
pub struct ExUtf8Error(core::str::Utf8Error);

/// `core::str::from_utf8` accepts exactly the byte sequences that are valid
/// UTF-8, and then gives the text that they encode. Not proved: taken from the
/// documentation of the standard library.
pub assume_specification[ core::str::from_utf8 ](bytes: &[u8]) -> (text: Result<
    &str,
    core::str::Utf8Error,
>)
    ensures
        text is Ok <==> valid_utf8(bytes@),
        text matches Ok(t) ==> t@ == decode_utf8(bytes@),
;

/// `String::push` puts one character at the end of the string and leaves the
/// rest as it was. Not proved: taken from the documentation of the standard
/// library.
pub assume_specification[ String::push ](text: &mut String, c: char)
    ensures
        final(text)@ == old(text)@.push(c),
;

/// Whether `c` is white space: a code point with the Unicode property
/// `White_Space`.
pub open spec fn is_whitespace(c: char) -> bool {
    let u = c as u32;
    ||| 0x09 <= u <= 0x0d
    ||| u == 0x20
    ||| u == 0x85
    ||| u == 0xa0
    ||| u == 0x1680
    ||| 0x2000 <= u <= 0x200a
    ||| u == 0x2028
    ||| u == 0x2029
    ||| u == 0x202f
    ||| u == 0x205f
    ||| u == 0x3000
}

/// `s` without the white space it starts with.
pub open spec fn trim_start(s: Seq<char>) -> Seq<char>
    decreases s.len(),
{
    if s.len() > 0 && is_whitespace(s.first()) {
        trim_start(s.drop_first())
    } else {
        s
    }
}

/// `s` without the white space it ends with.
pub open spec fn trim_end(s: Seq<char>) -> Seq<char>
    decreases s.len(),
{
    if s.len() > 0 && is_whitespace(s.last()) {
        trim_end(s.drop_last())
    } else {
        s
    }
}

/// `s` without the white space at either end.
pub open spec fn trimmed(s: Seq<char>) -> Seq<char> {
    trim_end(trim_start(s))
}

/// The position of the first `sep` in `s`, or the length of `s` where it
/// holds none.
pub open spec fn first_index(s: Seq<char>, sep: char) -> int
    decreases s.len(),
{
    if s.len() == 0 || s.first() == sep {
        0
    } else {
        1 + first_index(s.drop_first(), sep)
    }
}

/// The pieces of `s` between the occurrences of `sep`, in order. There is
/// always at least one piece; a piece may be empty.
pub open spec fn split(s: Seq<char>, sep: char) -> Seq<Seq<char>>
    decreases s.len(),
{
    let k = first_index(s, sep);
    if 0 <= k < s.len() {
        seq![s.take(k)] + split(s.skip(k + 1), sep)
    } else {
        seq![s]
    }
}

/// The lines of `s`: each is ended by a line feed, which is not part of it;
/// the last one may lack the line feed, unless it is empty.
pub open spec fn lines_of(s: Seq<char>) -> Seq<Seq<char>> {
    let pieces = split(s, '\n');
    if pieces.last().len() == 0 {
        pieces.drop_last()
    } else {
        pieces
    }
}

/// The character sequences that the slices of `parts` hold.
pub open spec fn views(parts: Seq<&[char]>) -> Seq<Seq<char>> {
    parts.map_values(|part: &[char]| part@)
}

/// `first_index` is the one position up to which `sep` does not occur and at
/// which it does, or the text ends.
pub proof fn lemma_first_index(s: Seq<char>, sep: char, k: int)
    requires
        0 <= k <= s.len(),
        forall|j: int| 0 <= j < k ==> s[j] != sep,
        k < s.len() ==> s[k] == sep,
    ensures
        first_index(s, sep) == k,
    decreases s.len(),
{
    if k > 0 {
        let rest = s.drop_first();
        assert forall|j: int| 0 <= j < k - 1 implies rest[j] != sep by {
            assert(rest[j] == s[j + 1]);
        }
        lemma_first_index(rest, sep, k - 1);
    }
}

/// Up to `first_index` there is no `sep`, and at it there is one, unless the
/// text has ended.
pub proof fn lemma_first_index_is_first(s: Seq<char>, sep: char)
    ensures
        0 <= first_index(s, sep) <= s.len(),
        forall|j: int| 0 <= j < first_index(s, sep) ==> s[j] != sep,
        first_index(s, sep) < s.len() ==> s[first_index(s, sep)] == sep,
    decreases s.len(),
{
    if s.len() > 0 && s.first() != sep {
        let rest = s.drop_first();
        lemma_first_index_is_first(rest, sep);
        assert forall|j: int| 0 <= j < first_index(s, sep) implies s[j] != sep by {
            if j > 0 {
                assert(s[j] == rest[j - 1]);
            }
        }
    }
}

/// A text that does not hold `sep` is one piece.
pub proof fn lemma_split_whole(s: Seq<char>, sep: char)
    requires
        !s.contains(sep),
    ensures
        split(s, sep) == seq![s],
{
    assert forall|j: int| 0 <= j < s.len() implies s[j] != sep by {
        assert(s.contains(s[j]));
    }
    lemma_first_index(s, sep, s.len() as int);
}

/// Where `head` does not hold `sep`, it is the first piece of `head`, `sep`,
/// `tail`, and the other pieces are those of `tail`.
pub proof fn lemma_split_first(head: Seq<char>, sep: char, tail: Seq<char>)
    requires
        !head.contains(sep),
    ensures
        split(head + seq![sep] + tail, sep) == seq![head] + split(tail, sep),
{
    let s = head + seq![sep] + tail;
    let k = head.len() as int;
    assert forall|j: int| 0 <= j < k implies s[j] != sep by {
        assert(head.contains(head[j]));
    }
    lemma_first_index(s, sep, k);
    assert(s.take(k) =~= head);
    assert(s.skip(k + 1) =~= tail);
}

/// The pieces of `head`, `sep`, `tail` are those of `head`, then those of
/// `tail`.
pub proof fn lemma_split_around(head: Seq<char>, sep: char, tail: Seq<char>)
    ensures
        split(head + seq![sep] + tail, sep) == split(head, sep) + split(tail, sep),
    decreases head.len(),
{
    let s = head + seq![sep] + tail;
    let k = first_index(head, sep);
    lemma_first_index_is_first(head, sep);
    if k < head.len() {
        assert forall|j: int| 0 <= j < k implies s[j] != sep by {
            assert(s[j] == head[j]);
        }
        assert(s[k] == head[k]);
        lemma_first_index(s, sep, k);
        let rest = head.skip(k + 1);
        assert(s.take(k) =~= head.take(k));
        assert(s.skip(k + 1) =~= rest + seq![sep] + tail);
        lemma_split_around(rest, sep, tail);
        assert(seq![head.take(k)] + (split(rest, sep) + split(tail, sep)) =~= (seq![head.take(k)]
            + split(rest, sep)) + split(tail, sep));
    } else {
        assert(!head.contains(sep));
        lemma_split_first(head, sep, tail);
    }
}

/// There is always a piece.
pub proof fn lemma_split_is_not_empty(s: Seq<char>, sep: char)
    ensures
        split(s, sep).len() > 0,
{
}

/// The lines of a text that ends a line, followed by another text, are the
/// lines of the one, then the lines of the other.
pub proof fn lemma_lines_of_concat(head: Seq<char>, tail: Seq<char>)
    requires
        head.len() == 0 || head.last() == '\n',
    ensures
        lines_of(head + tail) == lines_of(head) + lines_of(tail),
{
    if head.len() == 0 {
        assert(head + tail =~= tail);
        assert(lines_of(head) =~= Seq::<Seq<char>>::empty());
        assert(lines_of(head) + lines_of(tail) =~= lines_of(tail));
    } else {
        let body = head.drop_last();
        let nothing = Seq::<char>::empty();
        assert(head =~= body + seq!['\n'] + nothing);
        assert(head + tail =~= body + seq!['\n'] + tail);
        lemma_split_around(body, '\n', nothing);
        lemma_split_around(body, '\n', tail);
        lemma_split_is_not_empty(body, '\n');
        lemma_split_is_not_empty(tail, '\n');
        assert(split(nothing, '\n') =~= seq![nothing]);
        let first = split(body, '\n');
        let second = split(tail, '\n');
        assert((first + seq![nothing]).drop_last() =~= first);
        assert(lines_of(head) == first);
        if second.last().len() == 0 {
            assert((first + second).drop_last() =~= first + second.drop_last());
        }
    }
}

/// A text without a line feed, followed by one, is one line.
pub proof fn lemma_lines_of_one(line: Seq<char>)
    requires
        !line.contains('\n'),
    ensures
        lines_of(line + seq!['\n']) == seq![line],
{
    let nothing = Seq::<char>::empty();
    assert(line + seq!['\n'] =~= line + seq!['\n'] + nothing);
    lemma_split_around(line, '\n', nothing);
    lemma_split_whole(line, '\n');
    assert(split(nothing, '\n') =~= seq![nothing]);
    assert((seq![line] + seq![nothing]).drop_last() =~= seq![line]);
}

/// What `trim_start` leaves when the first `k` characters are white space and
/// the next one is not.
pub proof fn lemma_trim_start(s: Seq<char>, k: int)
    requires
        0 <= k <= s.len(),
        forall|j: int| 0 <= j < k ==> is_whitespace(s[j]),
        k < s.len() ==> !is_whitespace(s[k]),
    ensures
        trim_start(s) == s.skip(k),
    decreases s.len(),
{
    if k > 0 {
        let rest = s.drop_first();
        assert forall|j: int| 0 <= j < k - 1 implies is_whitespace(rest[j]) by {
            assert(rest[j] == s[j + 1]);
        }
        lemma_trim_start(rest, k - 1);
        assert(rest.skip(k - 1) =~= s.skip(k));
    } else {
        assert(s.skip(0) =~= s);
    }
}

/// What `trim_end` leaves when all from position `k` on is white space and the
/// character before it is not.
pub proof fn lemma_trim_end(s: Seq<char>, k: int)
    requires
        0 <= k <= s.len(),
        forall|j: int| k <= j < s.len() ==> is_whitespace(s[j]),
        k > 0 ==> !is_whitespace(s[k - 1]),
    ensures
        trim_end(s) == s.take(k),
    decreases s.len(),
{
    if k < s.len() {
        let rest = s.drop_last();
        lemma_trim_end(rest, k);
        assert(rest.take(k) =~= s.take(k));
    } else {
        assert(s.take(k) =~= s);
    }
}

/// The characters of `text`, in order.
pub fn chars_of(text: &str) -> (chars: Vec<char>)
    ensures
        chars@ == text@,
{
    let mut chars: Vec<char> = Vec::new();
    for c in it: text.chars()
        invariant
            it.seq() == text@,
            chars@ == it.seq().take(it.index() as int),
    {
        chars.push(c);
    }
    chars
}

/// The string that holds the characters of `chars`, in order.
pub fn string_of(chars: &[char]) -> (text: String)
    ensures
        text@ == chars@,
{
    let n: usize = chars.len();
    let mut text = String::new();
    let mut i: usize = 0;
    while i < n
        invariant
            n == chars@.len(),
            i <= n,
            text@ == chars@.take(i as int),
        decreases n - i,
    {
        text.push(chars[i]);
        i += 1;
    }
    text
}

/// Whether `c` is white space.
pub fn char_is_whitespace(c: char) -> (space: bool)
    ensures
        space == is_whitespace(c),
{
    let u: u32 = c as u32;
    (0x09 <= u && u <= 0x0d) || u == 0x20 || u == 0x85 || u == 0xa0 || u == 0x1680 || (0x2000 <= u
        && u <= 0x200a) || u == 0x2028 || u == 0x2029 || u == 0x202f || u == 0x205f || u == 0x3000
}

/// The part of `line` that is left when the white space at both ends is taken
/// away.
pub fn trim(line: &[char]) -> (inner: &[char])
    ensures
        inner@ == trimmed(line@),
{
    let n: usize = line.len();
    let mut start: usize = 0;
    while start < n && char_is_whitespace(line[start])
        invariant
            n == line@.len(),
            start <= n,
            forall|j: int| 0 <= j < start ==> is_whitespace(line@[j]),
        decreases n - start,
    {
        start += 1;
    }
    let mut end: usize = n;
    while end > start && char_is_whitespace(line[end - 1])
        invariant
            n == line@.len(),
            start <= end <= n,
            forall|j: int| end <= j < n ==> is_whitespace(line@[j]),
        decreases end,
    {
        end -= 1;
    }
    proof {
        lemma_trim_start(line@, start as int);
        let tail = line@.skip(start as int);
        assert(end > start ==> tail[end - start - 1] == line@[end - 1]);
        assert forall|j: int| end - start <= j < tail.len() implies is_whitespace(tail[j]) by {
            assert(tail[j] == line@[j + start]);
        }
        lemma_trim_end(tail, end - start);
        assert(tail.take(end - start) =~= line@.subrange(start as int, end as int));
    }
    slice_subrange(line, start, end)
}

/// The pieces of `text` between the occurrences of `sep`.
pub fn split_on(text: &[char], sep: char) -> (pieces: Vec<&[char]>)
    ensures
        views(pieces@) == split(text@, sep),
{
    let n: usize = text.len();
    let mut pieces: Vec<&[char]> = Vec::new();
    let mut start: usize = 0;
    let mut i: usize = 0;
    proof {
        assert(text@.skip(0) =~= text@);
        assert(views(pieces@) + split(text@, sep) =~= split(text@, sep));
    }
    while i < n
        invariant
            n == text@.len(),
            start <= i <= n,
            forall|j: int| start <= j < i ==> text@[j] != sep,
            views(pieces@) + split(text@.skip(start as int), sep) == split(text@, sep),
        decreases n - i,
    {
        if text[i] == sep {
            let piece = slice_subrange(text, start, i);
            proof {
                let tail = text@.skip(start as int);
                assert forall|j: int| 0 <= j < i - start implies tail[j] != sep by {
                    assert(tail[j] == text@[j + start]);
                }
                lemma_first_index(tail, sep, i - start);
                assert(tail.take(i - start) =~= piece@);
                assert(tail.skip(i - start + 1) =~= text@.skip(i + 1));
                assert(views(pieces@.push(piece)) =~= views(pieces@) + seq![piece@]);
            }
            pieces.push(piece);
            start = i + 1;
        }
        i += 1;
    }
    let piece = slice_subrange(text, start, n);
    proof {
        let tail = text@.skip(start as int);
        assert forall|j: int| 0 <= j < n - start implies tail[j] != sep by {
            assert(tail[j] == text@[j + start]);
        }
        lemma_first_index(tail, sep, n - start);
        assert(tail =~= piece@);
        assert(views(pieces@.push(piece)) =~= views(pieces@) + seq![piece@]);
    }
    pieces.push(piece);
    pieces
}

/// The lines of `text`.
pub fn lines(text: &[char]) -> (found: Vec<&[char]>)
    ensures
        views(found@) == lines_of(text@),
{
    let mut found = split_on(text, '\n');
    let count: usize = found.len();
    proof {
        lemma_split_is_not_empty(text@, '\n');
        assert(views(found@).len() == found@.len());
        assert(views(found@).last() == found@[count - 1]@);
    }
    if found[count - 1].len() == 0 {
        let ghost before = found@;
        found.pop();
        proof {
            assert(views(found@) =~= views(before).drop_last());
        }
    }
    found
}

} // verus!
