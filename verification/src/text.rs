use vstd::prelude::*;
use vstd::utf8::{
    char_is_scalar, encode_scalar, encode_utf8, encode_utf8_decode_utf8,
    encode_utf8_first_scalar, encode_utf8_valid_utf8, is_char_boundary, length_of_first_scalar,
    pop_first_scalar,
};

verus! {

/// What `char::is_whitespace` answers for a character.
pub uninterp spec fn white_space(c: char) -> bool;

/// What `str::to_lowercase` returns for a string.
pub uninterp spec fn lowercase(s: Seq<char>) -> Seq<char>;

/// Tells whether `c` has the Unicode `White_Space` property (`char::is_whitespace`).
/// The contract claims nothing beyond naming that answer.
#[verifier::external_body]
pub(crate) fn is_whitespace(c: char) -> (r: bool)
    ensures
        r == white_space(c),
{
    c.is_whitespace()
}

/// The Unicode lowercase mapping of a string (`str::to_lowercase`); the result is
/// named, as it is a function of the characters alone.
#[verifier::external_body]
pub(crate) fn to_lowercase(s: &str) -> (r: String)
    ensures
        r@ == lowercase(s@),
{
    s.to_lowercase()
}

/// Appends one character (`String::push`).
#[verifier::external_body]
pub(crate) fn push_char(s: &mut String, c: char)
    ensures
        final(s)@ == old(s)@.push(c),
{
    s.push(c)
}

/// Removes the last character, if any (`String::pop`).
#[verifier::external_body]
pub(crate) fn pop_char(s: &mut String) -> (r: Option<char>)
    ensures
        old(s)@.len() == 0 ==> r is None && final(s)@ == old(s)@,
        old(s)@.len() > 0 ==> r == Some(old(s)@.last()) && final(s)@ == old(s)@.drop_last(),
{
    s.pop()
}

/// The string with its leading whitespace removed.
pub open spec fn trim_left(s: Seq<char>) -> Seq<char>
    decreases s.len(),
{
    if s.len() > 0 && white_space(s[0]) {
        trim_left(s.drop_first())
    } else {
        s
    }
}

/// The string with its trailing whitespace removed.
pub open spec fn trim_right(s: Seq<char>) -> Seq<char>
    decreases s.len(),
{
    if s.len() > 0 && white_space(s.last()) {
        trim_right(s.drop_last())
    } else {
        s
    }
}

/// `str::trim`: leading and trailing whitespace removed.
pub open spec fn trim(s: Seq<char>) -> Seq<char> {
    trim_right(trim_left(s))
}

/// `needle` occurs as a contiguous run inside `hay`.
pub open spec fn contains(hay: Seq<char>, needle: Seq<char>) -> bool {
    exists|i: int| 0 <= i <= hay.len() - needle.len() && #[trigger] hay.subrange(i, i + needle.len()) == needle
}

/// Copies the characters of a string slice into a vector.
pub fn chars_of(s: &str) -> (r: Vec<char>)
    ensures
        r@ == s@,
{
    let mut out: Vec<char> = Vec::new();
    for c in it: s.chars()
        invariant
            out@ == it.seq().take(it.index() as int),
    {
        out.push(c);
    }
    out
}

/// Builds a string from the characters `chars[start..end]`.
pub fn string_from_range(chars: &Vec<char>, start: usize, end: usize) -> (r: String)
    requires
        start <= end <= chars.len(),
    ensures
        r@ == chars@.subrange(start as int, end as int),
{
    let mut out = String::new();
    let mut i = start;
    while i < end
        invariant
            start <= i <= end <= chars.len(),
            out@ == chars@.subrange(start as int, i as int),
        decreases end - i,
    {
        push_char(&mut out, chars[i]);
        assert(chars@.subrange(start as int, i + 1) == chars@.subrange(start as int, i as int).push(chars@[i as int]));
        i = i + 1;
    }
    out
}

/// Builds a string from all the characters of a vector.
pub fn string_from_chars(chars: &Vec<char>) -> (r: String)
    ensures
        r@ == chars@,
{
    let r = string_from_range(chars, 0, chars.len());
    assert(chars@.subrange(0, chars@.len() as int) == chars@);
    r
}

/// An owned copy of a string literal.
pub fn owned(s: &str) -> (r: String)
    ensures
        r@ == s@,
{
    s.to_owned()
}

proof fn lemma_trim_left_skip(s: Seq<char>, i: int)
    requires
        0 <= i < s.len(),
        white_space(s[i]),
    ensures
        trim_left(s.skip(i)) == trim_left(s.skip(i + 1)),
{
    assert(s.skip(i).drop_first() == s.skip(i + 1));
}

proof fn lemma_trim_right_take(s: Seq<char>, j: int)
    requires
        0 < j <= s.len(),
        white_space(s[j - 1]),
    ensures
        trim_right(s.take(j)) == trim_right(s.take(j - 1)),
{
    assert(s.take(j).drop_last() == s.take(j - 1));
}

/// `str::trim` computed over characters.
pub fn trim_str(s: &str) -> (r: String)
    ensures
        r@ == trim(s@),
{
    let chars = chars_of(s);
    let n = chars.len();
    let mut start: usize = 0;
    assert(s@.skip(0) == s@);
    while start < n && is_whitespace(chars[start])
        invariant
            start <= n == chars@.len(),
            chars@ == s@,
            trim_left(s@) == trim_left(s@.skip(start as int)),
        decreases n - start,
    {
        proof {
            lemma_trim_left_skip(s@, start as int);
        }
        start = start + 1;
    }
    let ghost rest = s@.skip(start as int);
    assert(trim_left(s@) == rest) by {
        if start < n {
            assert(rest[0] == s@[start as int]);
        } else {
            assert(rest.len() == 0);
        }
    }
    let mut end: usize = n;
    assert(rest.take(end - start) == rest);
    while end > start && is_whitespace(chars[end - 1])
        invariant
            start <= end <= n == chars@.len(),
            chars@ == s@,
            rest == s@.skip(start as int),
            trim_right(rest) == trim_right(rest.take(end - start)),
        decreases end,
    {
        proof {
            lemma_trim_right_take(rest, (end - start) as int);
        }
        end = end - 1;
    }
    let r = string_from_range(&chars, start, end);
    assert(rest.take(end - start) == s@.subrange(start as int, end as int));
    assert(trim_right(rest.take(end - start)) == rest.take(end - start)) by {
        if end > start {
            assert(rest.take(end - start).last() == s@[end - 1]);
        }
    }
    r
}

/// Whether `needle` occurs in `hay` starting at position `at`.
fn occurs_at(hay: &Vec<char>, needle: &Vec<char>, at: usize) -> (r: bool)
    requires
        at + needle.len() <= hay.len(),
    ensures
        r == (hay@.subrange(at as int, at + needle.len()) == needle@),
{
    let mut k: usize = 0;
    while k < needle.len()
        invariant
            k <= needle.len(),
            at + needle.len() <= hay.len(),
            forall|m: int| 0 <= m < k ==> hay@[at + m] == needle@[m],
        decreases needle.len() - k,
    {
        if hay[at + k] != needle[k] {
            assert(hay@.subrange(at as int, at + needle.len())[k as int] != needle@[k as int]);
            return false;
        }
        k = k + 1;
    }
    assert(hay@.subrange(at as int, at + needle.len()) =~= needle@);
    true
}

/// Substring search over characters (`str::contains` with a string pattern).
pub fn contains_chars(hay: &Vec<char>, needle: &Vec<char>) -> (r: bool)
    ensures
        r == contains(hay@, needle@),
{
    if needle.len() > hay.len() {
        return false;
    }
    if needle.len() == 0 {
        assert(hay@.subrange(0int, 0int + needle@.len()) =~= needle@);
        return true;
    }
    let last = hay.len() - needle.len();
    let mut at: usize = 0;
    while at <= last
        invariant
            last + needle.len() == hay.len(),
            needle.len() > 0,
            at <= last + 1,
            forall|i: int| 0 <= i < at ==> #[trigger] hay@.subrange(i, i + needle.len()) != needle@,
        decreases last + 1 - at,
    {
        if occurs_at(hay, needle, at) {
            return true;
        }
        at = at + 1;
    }
    false
}

/// `hay.contains(needle)` for two strings.
pub fn str_contains(hay: &str, needle: &str) -> (r: bool)
    ensures
        r == contains(hay@, needle@),
{
    let h = chars_of(hay);
    let n = chars_of(needle);
    contains_chars(&h, &n)
}

/// The UTF-8 encoding of two strings one after the other is the two encodings joined.
pub proof fn lemma_encode_concat(a: Seq<char>, b: Seq<char>)
    ensures
        encode_utf8(a + b) == encode_utf8(a) + encode_utf8(b),
    decreases a.len(),
{
    if a.len() == 0 {
        assert(a + b =~= b);
        assert(encode_utf8(a) + encode_utf8(b) =~= encode_utf8(b));
    } else {
        assert((a + b).drop_first() =~= a.drop_first() + b);
        assert((a + b)[0] == a[0]);
        lemma_encode_concat(a.drop_first(), b);
        assert(encode_utf8(a + b) =~= encode_utf8(a) + encode_utf8(b));
    }
}

/// The encoding of a single character.
pub proof fn lemma_encode_single(c: char)
    ensures
        encode_utf8(seq![c]) == encode_scalar(c as u32),
{
    let e: Seq<char> = Seq::empty();
    assert(seq![c].drop_first() =~= e);
    assert(encode_utf8(e) == Seq::<u8>::empty());
    assert(encode_utf8(seq![c]) =~= encode_scalar(c as u32) + encode_utf8(e));
    assert(encode_scalar(c as u32) + Seq::<u8>::empty() =~= encode_scalar(c as u32));
}

/// The end of the encoding of `a` is a character boundary in the encoding of `a + b`.
pub proof fn lemma_prefix_boundary(a: Seq<char>, b: Seq<char>)
    ensures
        is_char_boundary(encode_utf8(a + b), encode_utf8(a).len() as int),
    decreases a.len(),
{
    let bytes = encode_utf8(a + b);
    encode_utf8_valid_utf8(a + b);
    lemma_encode_concat(a, b);
    if a.len() == 0 {
    } else {
        let rest = a.drop_first();
        assert((a + b).drop_first() =~= rest + b);
        assert((a + b)[0] == a[0]);
        encode_utf8_first_scalar(a + b);
        let first = encode_scalar(a[0] as u32);
        assert(length_of_first_scalar(bytes) == first.len());
        assert(bytes == first + encode_utf8(rest + b));
        assert(pop_first_scalar(bytes) =~= encode_utf8(rest + b));
        assert(encode_utf8(a) == first + encode_utf8(rest));
        lemma_prefix_boundary(rest, b);
    }
}

/// Equal encodings come from equal strings.
pub proof fn lemma_encode_injective(a: Seq<char>, b: Seq<char>)
    requires
        encode_utf8(a) == encode_utf8(b),
    ensures
        a == b,
{
    encode_utf8_decode_utf8(a);
    encode_utf8_decode_utf8(b);
}

/// The number of bytes of the UTF-8 encoding of `c` (`char::len_utf8`).
pub fn utf8_width(c: char) -> (r: usize)
    ensures
        r == encode_scalar(c as u32).len(),
{
    proof {
        char_is_scalar(c);
    }
    let v = c as u32;
    if v < 0x80 {
        1
    } else if v < 0x800 {
        2
    } else if v < 0x10000 {
        3
    } else {
        4
    }
}

/// The byte position at which the character with index `char_index` starts, or the
/// byte length of `value` when it has no such character.
pub fn char_to_byte_index(value: &str, char_index: usize) -> (r: usize)
    ensures
        r == encode_utf8(value@.take(if char_index < value@.len() { char_index as int } else { value@.len() as int })).len(),
{
    let chars = chars_of(value);
    let total = value.as_bytes().len();
    let stop = if char_index < chars.len() { char_index } else { chars.len() };
    let mut bytes: usize = 0;
    let mut i: usize = 0;
    proof {
        assert(value@ == value@.take(stop as int) + value@.skip(stop as int));
        lemma_encode_concat(value@.take(stop as int), value@.skip(stop as int));
        assert(value@.take(0) =~= Seq::<char>::empty());
    }
    while i < stop
        invariant
            i <= stop <= chars@.len(),
            chars@ == value@,
            total == encode_utf8(value@).len(),
            encode_utf8(value@.take(stop as int)).len() <= total,
            bytes == encode_utf8(value@.take(i as int)).len(),
        decreases stop - i,
    {
        let w = utf8_width(chars[i]);
        proof {
            let pre = value@.take(i as int);
            assert(value@.take(i + 1) =~= pre + seq![value@[i as int]]);
            lemma_encode_concat(pre, seq![value@[i as int]]);
            lemma_encode_single(value@[i as int]);
            let upto = value@.take(stop as int);
            assert(upto =~= value@.take(i + 1) + upto.skip(i + 1));
            lemma_encode_concat(value@.take(i + 1), upto.skip(i + 1));
        }
        bytes = bytes + w;
        i = i + 1;
    }
    bytes
}

/// `String::insert`: puts `ch` at byte position `idx`, which must be a character
/// boundary. Besides the new encoding, the contract states that the result, like
/// every `String`, has at most `usize::MAX` characters.
#[verifier::external_body]
pub(crate) fn string_insert(s: &mut String, idx: usize, ch: char)
    requires
        is_char_boundary(encode_utf8(old(s)@), idx as int),
    ensures
        encode_utf8(final(s)@) == encode_utf8(old(s)@).subrange(0, idx as int) + encode_scalar(ch as u32)
            + encode_utf8(old(s)@).subrange(idx as int, encode_utf8(old(s)@).len() as int),
        final(s)@.len() <= usize::MAX,
{
    s.insert(idx, ch)
}

/// `String::replace_range` with an empty replacement: removes the bytes
/// `start..end`, which must both be character boundaries.
#[verifier::external_body]
pub(crate) fn string_remove_range(s: &mut String, start: usize, end: usize)
    requires
        start <= end,
        is_char_boundary(encode_utf8(old(s)@), start as int),
        is_char_boundary(encode_utf8(old(s)@), end as int),
    ensures
        encode_utf8(final(s)@) == encode_utf8(old(s)@).subrange(0, start as int)
            + encode_utf8(old(s)@).subrange(end as int, encode_utf8(old(s)@).len() as int),
{
    s.replace_range(start..end, "")
}

/// Inserting a character at the byte offset of character `k` puts it before that
/// character.
pub proof fn lemma_insert_at_char(old_s: Seq<char>, new_s: Seq<char>, k: int, ch: char)
    requires
        0 <= k <= old_s.len(),
        encode_utf8(new_s) == encode_utf8(old_s).subrange(0, encode_utf8(old_s.take(k)).len() as int)
            + encode_scalar(ch as u32) + encode_utf8(old_s).subrange(
            encode_utf8(old_s.take(k)).len() as int,
            encode_utf8(old_s).len() as int,
        ),
    ensures
        new_s == old_s.take(k).push(ch) + old_s.skip(k),
{
    let pre = old_s.take(k);
    let post = old_s.skip(k);
    assert(old_s =~= pre + post);
    lemma_encode_concat(pre, post);
    let ep = encode_utf8(pre);
    let eq = encode_utf8(post);
    assert(encode_utf8(old_s).subrange(0, ep.len() as int) =~= ep);
    assert(encode_utf8(old_s).subrange(ep.len() as int, encode_utf8(old_s).len() as int) =~= eq);
    let target = pre.push(ch) + post;
    assert(pre.push(ch) =~= pre + seq![ch]);
    lemma_encode_concat(pre, seq![ch]);
    lemma_encode_single(ch);
    lemma_encode_concat(pre.push(ch), post);
    assert(encode_utf8(target) =~= encode_utf8(new_s));
    lemma_encode_injective(new_s, target);
}

/// Removing the bytes of character `k - 1` leaves the other characters.
pub proof fn lemma_remove_char(old_s: Seq<char>, new_s: Seq<char>, k: int)
    requires
        0 < k <= old_s.len(),
        encode_utf8(new_s) == encode_utf8(old_s).subrange(0, encode_utf8(old_s.take(k - 1)).len() as int)
            + encode_utf8(old_s).subrange(encode_utf8(old_s.take(k)).len() as int, encode_utf8(old_s).len() as int),
    ensures
        new_s == old_s.take(k - 1) + old_s.skip(k),
{
    let pre = old_s.take(k - 1);
    let mid = seq![old_s[k - 1]];
    let post = old_s.skip(k);
    assert(old_s.take(k) =~= pre + mid);
    assert(old_s =~= pre + mid + post);
    lemma_encode_concat(pre, mid);
    lemma_encode_concat(pre + mid, post);
    lemma_encode_concat(pre, post);
    let ep = encode_utf8(pre);
    let em = encode_utf8(mid);
    let eq = encode_utf8(post);
    let all = encode_utf8(old_s);
    assert(all == ep + em + eq);
    assert(all.subrange(0, ep.len() as int) =~= ep);
    assert(all.subrange((ep.len() + em.len()) as int, all.len() as int) =~= eq);
    assert(encode_utf8(new_s) =~= encode_utf8(pre + post));
    lemma_encode_injective(new_s, pre + post);
}

} // verus!
