//! Text as sequences of characters: trimming, splitting, and the conversions
//! between strings, characters and bytes.

use vstd::prelude::*;
use vstd::string::*;
use vstd::utf8::valid_utf8;

verus! {

/// Whether `c` is white space in the sense of Unicode.
pub uninterp spec fn is_whitespace(c: char) -> bool;

/// The lower-case form of the text `s` in the sense of Unicode.
pub uninterp spec fn lowercased(s: Seq<char>) -> Seq<char>;

/// Calls `char::is_whitespace`: the result says whether `c` has the Unicode
/// property White_Space, for which `is_whitespace` is this crate's name.
#[verifier::external_body]
pub(crate) fn whitespace(c: char) -> (b: bool)
    ensures
        b == is_whitespace(c),
{
    c.is_whitespace()
}

/// Calls `str::to_lowercase`: the result is the lower-case equivalent of `s`
/// as Unicode defines it, for which `lowercased` is this crate's name.
#[verifier::external_body]
pub(crate) fn lowercase(s: &str) -> (r: String)
    ensures
        r@ == lowercased(s@),
{
    s.to_lowercase()
}

/// Calls `String::push`: `c` is appended to the end of `s`.
#[verifier::external_body]
pub(crate) fn push_char(s: &mut String, c: char)
    ensures
        final(s)@ == old(s)@.push(c),
{
    s.push(c)
}

/// Calls `core::str::from_utf8`: the result is a string exactly when `bytes`
/// is well-formed UTF-8, and that string is then encoded by `bytes`.
#[verifier::external_body]
pub(crate) fn utf8_text(bytes: &[u8]) -> (r: Option<&str>)
    ensures
        r is Some == valid_utf8(bytes@),
        r matches Some(s) ==> s.spec_bytes() == bytes@,
{
    core::str::from_utf8(bytes).ok()
}

/// The characters of each string of `v`.
pub open spec fn texts(v: Seq<String>) -> Seq<Seq<char>> {
    v.map_values(|s: String| s@)
}

/// The characters of each row of `v`.
pub open spec fn rows(v: Seq<Vec<char>>) -> Seq<Seq<char>> {
    v.map_values(|r: Vec<char>| r@)
}

/// Each byte of `bytes` read as the character with that code.
pub open spec fn latin1(bytes: Seq<u8>) -> Seq<char> {
    bytes.map_values(|b: u8| b as char)
}

/// `s` without the white space at its start.
pub open spec fn trim_start(s: Seq<char>) -> Seq<char>
    decreases s.len(),
{
    if s.len() > 0 && is_whitespace(s[0]) {
        trim_start(s.drop_first())
    } else {
        s
    }
}

/// `s` without the white space at its end.
pub open spec fn trim_end(s: Seq<char>) -> Seq<char>
    decreases s.len(),
{
    if s.len() > 0 && is_whitespace(s.last()) {
        trim_end(s.drop_last())
    } else {
        s
    }
}

/// `s` without the white space at its start and at its end.
pub open spec fn trimmed(s: Seq<char>) -> Seq<char> {
    trim_end(trim_start(s))
}

/// The pieces of `s` between the occurrences of `sep`, in order. There is one
/// piece more than there are occurrences, so the result is never empty, and
/// pieces may be empty.
pub open spec fn split(s: Seq<char>, sep: char) -> Seq<Seq<char>>
    decreases s.len(),
{
    if s.len() == 0 {
        seq![Seq::empty()]
    } else {
        let front = split(s.drop_last(), sep);
        if s.last() == sep {
            front.push(Seq::empty())
        } else {
            front.drop_last().push(front.last().push(s.last()))
        }
    }
}

/// The pieces `parts` joined by `sep`.
pub open spec fn joined(parts: Seq<Seq<char>>, sep: char) -> Seq<char>
    decreases parts.len(),
{
    if parts.len() == 0 {
        Seq::empty()
    } else if parts.len() == 1 {
        parts[0]
    } else {
        joined(parts.drop_last(), sep).push(sep) + parts.last()
    }
}

/// Splitting gives at least one piece, no piece holds the separator, and the
/// pieces joined by the separator are the text that was split.
pub proof fn split_is_inverse_of_join(s: Seq<char>, sep: char)
    ensures
        split(s, sep).len() >= 1,
        forall|i: int| 0 <= i < split(s, sep).len() ==> !(#[trigger] split(s, sep)[i]).contains(sep),
        joined(split(s, sep), sep) == s,
    decreases s.len(),
{
    if s.len() == 0 {
        assert(joined(split(s, sep), sep) =~= s);
    } else {
        split_is_inverse_of_join(s.drop_last(), sep);
        let front = split(s.drop_last(), sep);
        let all = split(s, sep);
        if s.last() == sep {
            assert(all.drop_last() =~= front);
            assert(joined(all, sep) =~= s.drop_last().push(sep) + Seq::<char>::empty());
            assert(s.drop_last().push(sep) =~= s);
            assert forall|i: int| 0 <= i < all.len() implies !(#[trigger] all[i]).contains(sep) by {
                if i < front.len() {
                    assert(all[i] == front[i]);
                }
            }
        } else {
            let piece = front.last().push(s.last());
            assert forall|i: int| 0 <= i < all.len() implies !(#[trigger] all[i]).contains(sep) by {
                if i < front.len() - 1 {
                    assert(all[i] == front[i]);
                } else {
                    assert(all[i] == piece);
                    assert(!front[front.len() - 1].contains(sep));
                    if piece.contains(sep) {
                        let j = choose|j: int| 0 <= j < piece.len() && piece[j] == sep;
                        assert(front.last()[j] == sep);
                    }
                }
            }
            if front.len() == 1 {
                assert(joined(front, sep) == front[0]);
                assert(all[0] == piece);
                assert(joined(all, sep) =~= s);
            } else {
                assert(all.drop_last() =~= front.drop_last());
                assert(joined(front, sep) == joined(front.drop_last(), sep).push(sep)
                    + front.last());
                assert(joined(all, sep) == joined(front.drop_last(), sep).push(sep) + piece);
                assert(joined(all, sep) =~= joined(front, sep).push(s.last()));
                assert(s.drop_last().push(s.last()) =~= s);
            }
        }
    }
}

/// The characters of `s`.
pub fn chars_of(s: &str) -> (r: Vec<char>)
    ensures
        r@ == s@,
{
    let n = s.unicode_len();
    let mut r: Vec<char> = Vec::new();
    let mut i: usize = 0;
    while i < n
        invariant
            n == s@.len(),
            i <= n,
            r@ == s@.take(i as int),
        decreases n - i,
    {
        r.push(s.get_char(i));
        assert(s@.take(i as int).push(s@[i as int]) =~= s@.take(i + 1));
        i += 1;
    }
    assert(s@.take(n as int) =~= s@);
    r
}

/// The string that holds the characters `chars`.
pub fn string_of(chars: &Vec<char>) -> (r: String)
    ensures
        r@ == chars@,
{
    let mut r = String::new();
    let mut i: usize = 0;
    while i < chars.len()
        invariant
            i <= chars.len(),
            r@ == chars@.take(i as int),
        decreases chars.len() - i,
    {
        push_char(&mut r, chars[i]);
        assert(chars@.take(i as int).push(chars@[i as int]) =~= chars@.take(i + 1));
        i += 1;
    }
    assert(chars@.take(chars.len() as int) =~= chars@);
    r
}

/// The strings that hold the rows `v`.
pub fn strings_of(v: &Vec<Vec<char>>) -> (r: Vec<String>)
    ensures
        texts(r@) == rows(v@),
{
    let mut r: Vec<String> = Vec::new();
    let mut i: usize = 0;
    while i < v.len()
        invariant
            i <= v.len(),
            r.len() == i,
            forall|j: int| 0 <= j < i ==> r[j]@ == v[j]@,
        decreases v.len() - i,
    {
        r.push(string_of(&v[i]));
        i += 1;
    }
    assert(texts(r@) =~= rows(v@));
    r
}

/// Each byte of `bytes` as the character with that code.
pub fn chars_of_bytes(bytes: &Vec<u8>) -> (r: Vec<char>)
    ensures
        r@ == latin1(bytes@),
{
    let mut r: Vec<char> = Vec::new();
    let mut i: usize = 0;
    while i < bytes.len()
        invariant
            i <= bytes.len(),
            r.len() == i,
            forall|j: int| 0 <= j < i ==> r[j] == bytes[j] as char,
        decreases bytes.len() - i,
    {
        r.push(bytes[i] as char);
        i += 1;
    }
    assert(r@ =~= latin1(bytes@));
    r
}

/// Past white space at the start of `s` lies what `trim_start` keeps.
proof fn lemma_trim_start(s: Seq<char>, lo: int)
    requires
        0 <= lo <= s.len(),
        forall|i: int| 0 <= i < lo ==> is_whitespace(s[i]),
        lo == s.len() || !is_whitespace(s[lo]),
    ensures
        trim_start(s) == s.skip(lo),
    decreases lo,
{
    if lo == 0 {
        assert(s.skip(0) =~= s);
    } else {
        assert(is_whitespace(s[0]));
        let rest = s.drop_first();
        assert forall|i: int| 0 <= i < lo - 1 implies is_whitespace(rest[i]) by {
            assert(rest[i] == s[i + 1]);
        }
        lemma_trim_start(rest, lo - 1);
        assert(rest.skip(lo - 1) =~= s.skip(lo));
    }
}

/// Before white space at the end of `s` lies what `trim_end` keeps.
proof fn lemma_trim_end(s: Seq<char>, hi: int)
    requires
        0 <= hi <= s.len(),
        forall|i: int| hi <= i < s.len() ==> is_whitespace(s[i]),
        hi == 0 || !is_whitespace(s[hi - 1]),
    ensures
        trim_end(s) == s.take(hi),
    decreases s.len() - hi,
{
    if hi == s.len() {
        assert(s.take(hi) =~= s);
    } else {
        assert(is_whitespace(s.last()));
        let rest = s.drop_last();
        lemma_trim_end(rest, hi);
        assert(rest.take(hi) =~= s.take(hi));
    }
}

/// What trimming keeps is the stretch from the first to the last character
/// that is no white space: `lo` and `hi` bound it if all before `lo` and all
/// from `hi` on is white space and the stretch neither begins nor ends with
/// white space. Of a text that is all white space, nothing is kept.
pub proof fn trimmed_is_the_inner_stretch(s: Seq<char>, lo: int, hi: int)
    requires
        0 <= lo <= hi <= s.len(),
        forall|i: int| 0 <= i < lo ==> is_whitespace(s[i]),
        forall|i: int| hi <= i < s.len() ==> is_whitespace(s[i]),
        lo < hi ==> !is_whitespace(s[lo]) && !is_whitespace(s[hi - 1]),
        lo == hi ==> lo == s.len(),
    ensures
        trimmed(s) == s.subrange(lo, hi),
{
    lemma_trim_start(s, lo);
    let rest = s.skip(lo);
    assert forall|i: int| hi - lo <= i < rest.len() implies is_whitespace(rest[i]) by {
        assert(rest[i] == s[i + lo]);
    }
    lemma_trim_end(rest, hi - lo);
    assert(rest.take(hi - lo) =~= s.subrange(lo, hi));
}

/// Where the text without the white space at its ends begins and where it
/// ends, given for each character whether it is white space. Of a text that
/// is all white space, the empty stretch at its end is left.
pub fn trim_range(blank: &Vec<bool>) -> (r: (usize, usize))
    ensures
        r.0 <= r.1 <= blank.len(),
        forall|i: int| 0 <= i < r.0 ==> blank[i],
        forall|i: int| r.1 <= i < blank.len() ==> blank[i],
        r.0 < r.1 ==> !blank[r.0 as int] && !blank[r.1 - 1],
        r.0 == r.1 ==> r.0 == blank.len(),
{
    let n = blank.len();
    let mut lo: usize = 0;
    while lo < n && blank[lo]
        invariant
            n == blank.len(),
            lo <= n,
            forall|i: int| 0 <= i < lo ==> blank[i],
        decreases n - lo,
    {
        lo += 1;
    }
    let mut hi: usize = n;
    while hi > lo && blank[hi - 1]
        invariant
            n == blank.len(),
            lo <= hi <= n,
            forall|i: int| hi <= i < n ==> blank[i],
        decreases hi,
    {
        hi -= 1;
    }
    (lo, hi)
}

/// Removes the white space at both ends of `s`.
pub fn trim(s: &Vec<char>) -> (r: Vec<char>)
    ensures
        r@ == trimmed(s@),
{
    let mut blank: Vec<bool> = Vec::new();
    let mut i: usize = 0;
    while i < s.len()
        invariant
            i <= s.len(),
            blank.len() == i,
            forall|j: int| 0 <= j < i ==> blank[j] == is_whitespace(s[j]),
        decreases s.len() - i,
    {
        blank.push(whitespace(s[i]));
        i += 1;
    }
    let (lo, hi) = trim_range(&blank);
    proof {
        assert forall|j: int| 0 <= j < lo implies is_whitespace(s@[j]) by {
            assert(blank[j]);
        }
        assert forall|j: int| hi <= j < s.len() implies is_whitespace(s@[j]) by {
            assert(blank[j]);
        }
        if lo < hi {
            assert(!blank[lo as int] && !blank[hi - 1]);
        }
        trimmed_is_the_inner_stretch(s@, lo as int, hi as int);
    }
    let mut r: Vec<char> = Vec::new();
    let mut i: usize = lo;
    while i < hi
        invariant
            lo <= i <= hi <= s.len(),
            r@ == s@.subrange(lo as int, i as int),
        decreases hi - i,
    {
        r.push(s[i]);
        assert(s@.subrange(lo as int, i as int).push(s@[i as int]) =~= s@.subrange(
            lo as int,
            i + 1,
        ));
        i += 1;
    }
    r
}

/// Splits `s` at every occurrence of `sep`.
pub fn split_at(s: &Vec<char>, sep: char) -> (r: Vec<Vec<char>>)
    ensures
        rows(r@) == split(s@, sep),
{
    let mut parts: Vec<Vec<char>> = Vec::new();
    let mut current: Vec<char> = Vec::new();
    let mut i: usize = 0;
    assert(s@.take(0) =~= Seq::<char>::empty());
    assert(rows(parts@).push(current@) =~= seq![Seq::<char>::empty()]);
    while i < s.len()
        invariant
            i <= s.len(),
            rows(parts@).push(current@) == split(s@.take(i as int), sep),
        decreases s.len() - i,
    {
        let c = s[i];
        let ghost done = rows(parts@);
        let ghost piece = current@;
        proof {
            assert(s@.take(i + 1).drop_last() =~= s@.take(i as int));
            assert(done.push(piece).drop_last() =~= done);
        }
        if c == sep {
            parts.push(current);
            current = Vec::new();
            assert(rows(parts@) =~= done.push(piece));
        } else {
            current.push(c);
        }
        i += 1;
    }
    assert(s@.take(s.len() as int) =~= s@);
    let ghost done = rows(parts@);
    let ghost piece = current@;
    parts.push(current);
    assert(rows(parts@) =~= done.push(piece));
    parts
}

} // verus!
