//! Text as sequences of characters: white space and trimming, suffixes, splitting,
//! ASCII case, and building `String`s from characters.
use vstd::prelude::*;

verus! {

/// Unicode `White_Space`, the set that `str::trim` removes.
pub open spec fn is_white_space(c: char) -> bool {
    ||| ('\u{9}' <= c && c <= '\u{d}')
    ||| c == ' '
    ||| c == '\u{85}'
    ||| c == '\u{a0}'
    ||| c == '\u{1680}'
    ||| ('\u{2000}' <= c && c <= '\u{200a}')
    ||| c == '\u{2028}'
    ||| c == '\u{2029}'
    ||| c == '\u{202f}'
    ||| c == '\u{205f}'
    ||| c == '\u{3000}'
}

/// `s` without its leading white space.
pub open spec fn trim_start(s: Seq<char>) -> Seq<char>
    decreases s.len(),
{
    if s.len() > 0 && is_white_space(s[0]) {
        trim_start(s.drop_first())
    } else {
        s
    }
}

/// `s` without its trailing white space.
pub open spec fn trim_end(s: Seq<char>) -> Seq<char>
    decreases s.len(),
{
    if s.len() > 0 && is_white_space(s.last()) {
        trim_end(s.drop_last())
    } else {
        s
    }
}

/// `s` without leading and trailing white space.
pub open spec fn trim(s: Seq<char>) -> Seq<char> {
    trim_end(trim_start(s))
}

pub open spec fn ends_with(s: Seq<char>, suffix: Seq<char>) -> bool {
    s.len() >= suffix.len() && s.subrange(s.len() - suffix.len(), s.len() as int) == suffix
}

/// `s` with one occurrence of `suffix` removed from its end, if it ends with it.
pub open spec fn strip_suffix(s: Seq<char>, suffix: Seq<char>) -> Option<Seq<char>> {
    if ends_with(s, suffix) {
        Some(s.subrange(0, s.len() - suffix.len()))
    } else {
        None
    }
}

/// `s` with every repetition of a non-empty `suffix` removed from its end.
pub open spec fn strip_suffix_all(s: Seq<char>, suffix: Seq<char>) -> Seq<char>
    decreases s.len(),
{
    if suffix.len() > 0 && ends_with(s, suffix) {
        strip_suffix_all(s.subrange(0, s.len() - suffix.len()), suffix)
    } else {
        s
    }
}

pub open spec fn ascii_lower_char(c: char) -> char {
    if 'A' <= c && c <= 'Z' {
        ((c as u32) + 32) as char
    } else {
        c
    }
}

pub open spec fn ascii_lower(s: Seq<char>) -> Seq<char> {
    Seq::new(s.len(), |i: int| ascii_lower_char(s[i]))
}

pub open spec fn dll_lower() -> Seq<char> {
    seq!['.', 'd', 'l', 'l']
}

pub open spec fn dll_upper() -> Seq<char> {
    seq!['.', 'D', 'L', 'L']
}

/// The characters of `s`, in order.
pub fn chars_of(s: &str) -> (r: Vec<char>)
    ensures
        r@ == s@,
{
    let mut out: Vec<char> = Vec::new();
    for c in it: s.chars()
        invariant
            out@ == it.seq().take(it.index() as int),
    {
        out.push(c);
    }
    out
}

/// Appends one character to a string (`String::push`).
#[verifier::external_body]
pub(crate) fn push_char(s: &mut String, c: char)
    ensures
        final(s)@ == old(s)@.push(c),
{
    s.push(c);
}

/// A string holding the characters of `chars[from..to]`.
pub fn string_from_range(chars: &Vec<char>, from: usize, to: usize) -> (r: String)
    requires
        from <= to <= chars@.len(),
    ensures
        r@ == chars@.subrange(from as int, to as int),
{
    let mut out = String::new();
    let mut i = from;
    while i < to
        invariant
            from <= i <= to <= chars@.len(),
            out@ == chars@.subrange(from as int, i as int),
        decreases to - i,
    {
        push_char(&mut out, chars[i]);
        assert(chars@.subrange(from as int, i + 1) == chars@.subrange(from as int, i as int).push(
            chars@[i as int],
        ));
        i = i + 1;
    }
    out
}

/// A string holding exactly `chars`.
pub fn string_from_chars(chars: &Vec<char>) -> (r: String)
    ensures
        r@ == chars@,
{
    let r = string_from_range(chars, 0, chars.len());
    assert(chars@.subrange(0, chars@.len() as int) == chars@);
    r
}

/// Whether `c` is Unicode white space.
pub fn is_white_space_char(c: char) -> (r: bool)
    ensures
        r == is_white_space(c),
{
    ('\u{9}' <= c && c <= '\u{d}') || c == ' ' || c == '\u{85}' || c == '\u{a0}' || c == '\u{1680}'
        || ('\u{2000}' <= c && c <= '\u{200a}') || c == '\u{2028}' || c == '\u{2029}' || c
        == '\u{202f}' || c == '\u{205f}' || c == '\u{3000}'
}

/// The bounds `[start, end)` of `chars` without leading and trailing white space.
pub fn trim_bounds(chars: &Vec<char>) -> (r: (usize, usize))
    ensures
        r.0 <= r.1 <= chars@.len(),
        chars@.subrange(r.0 as int, r.1 as int) == trim(chars@),
{
    let n = chars.len();
    let ghost s = chars@;
    let mut start: usize = 0;
    assert(s.subrange(0, n as int) == s);
    while start < n && is_white_space_char(chars[start])
        invariant
            n == s.len(),
            s == chars@,
            start <= n,
            trim_start(s) == trim_start(s.subrange(start as int, n as int)),
        decreases n - start,
    {
        assert(s.subrange(start as int, n as int).drop_first() == s.subrange(
            start + 1,
            n as int,
        ));
        start = start + 1;
    }
    assert(trim_start(s) == s.subrange(start as int, n as int));
    let ghost t = s.subrange(start as int, n as int);
    let mut end: usize = n;
    assert(t.subrange(0, (end - start) as int) == t);
    while end > start && is_white_space_char(chars[end - 1])
        invariant
            start <= end <= n,
            n == s.len(),
            s == chars@,
            t == s.subrange(start as int, n as int),
            trim_end(t) == trim_end(s.subrange(start as int, end as int)),
        decreases end - start,
    {
        assert(s.subrange(start as int, end as int).drop_last() == s.subrange(
            start as int,
            end - 1,
        ));
        end = end - 1;
    }
    (start, end)
}

/// Whether `chars[from..to]` ends with `suffix`.
pub fn range_ends_with(chars: &Vec<char>, from: usize, to: usize, suffix: &Vec<char>) -> (r: bool)
    requires
        from <= to <= chars@.len(),
    ensures
        r == ends_with(chars@.subrange(from as int, to as int), suffix@),
{
    let ghost s = chars@.subrange(from as int, to as int);
    if to - from < suffix.len() {
        return false;
    }
    let base = to - suffix.len();
    let mut j: usize = 0;
    while j < suffix.len()
        invariant
            from <= base,
            base + suffix@.len() == to,
            to <= chars@.len(),
            s == chars@.subrange(from as int, to as int),
            j <= suffix@.len(),
            forall|k: int| 0 <= k < j ==> chars@[base + k] == suffix@[k],
        decreases suffix.len() - j,
    {
        if chars[base + j] != suffix[j] {
            assert(s.subrange(s.len() - suffix@.len(), s.len() as int)[j as int] != suffix@[j as int]);
            return false;
        }
        j = j + 1;
    }
    assert(s.subrange(s.len() - suffix@.len(), s.len() as int) =~= suffix@);
    true
}

/// `ascii_lower` of `chars[from..to]`, as a string.
pub fn lower_string_from_range(chars: &Vec<char>, from: usize, to: usize) -> (r: String)
    requires
        from <= to <= chars@.len(),
    ensures
        r@ == ascii_lower(chars@.subrange(from as int, to as int)),
{
    let mut out = String::new();
    let mut i = from;
    while i < to
        invariant
            from <= i <= to <= chars@.len(),
            out@ == ascii_lower(chars@.subrange(from as int, i as int)),
        decreases to - i,
    {
        let c = chars[i];
        let lc = if 'A' <= c && c <= 'Z' {
            char_from_ascii_code((c as u8) + 32)
        } else {
            c
        };
        push_char(&mut out, lc);
        assert(ascii_lower(chars@.subrange(from as int, i + 1)) =~= ascii_lower(
            chars@.subrange(from as int, i as int),
        ).push(ascii_lower_char(c)));
        i = i + 1;
    }
    out
}

/// The character with the given ASCII code.
pub fn char_from_ascii_code(b: u8) -> (c: char)
    requires
        b < 128,
    ensures
        c as u32 == b as u32,
{
    b as char
}

/// The characters of ".dll".
pub fn dll_lower_chars() -> (r: Vec<char>)
    ensures
        r@ == dll_lower(),
{
    let r = vec!['.', 'd', 'l', 'l'];
    assert(r@ =~= dll_lower());
    r
}

/// The characters of ".DLL".
pub fn dll_upper_chars() -> (r: Vec<char>)
    ensures
        r@ == dll_upper(),
{
    let r = vec!['.', 'D', 'L', 'L'];
    assert(r@ =~= dll_upper());
    r
}

/// The pieces of `s` separated by `sep`, as `str::split` yields them.
pub open spec fn split_on(s: Seq<char>, sep: char) -> Seq<Seq<char>>
    decreases s.len(),
{
    if s.len() == 0 {
        seq![Seq::<char>::empty()]
    } else {
        let rest = split_on(s.drop_last(), sep);
        if s.last() == sep {
            rest.push(Seq::<char>::empty())
        } else {
            rest.update(rest.len() - 1, rest.last().push(s.last()))
        }
    }
}

pub proof fn lemma_split_on_nonempty(s: Seq<char>, sep: char)
    ensures
        split_on(s, sep).len() >= 1,
    decreases s.len(),
{
    if s.len() > 0 {
        lemma_split_on_nonempty(s.drop_last(), sep);
    }
}

/// The pieces of `chars` separated by `sep`, as `str::split` yields them.
pub fn split_chars(chars: &Vec<char>, sep: char) -> (r: Vec<Vec<char>>)
    ensures
        r@.map_values(|p: Vec<char>| p@) == split_on(chars@, sep),
{
    let ghost s = chars@;
    let mut out: Vec<Vec<char>> = Vec::new();
    let mut cur: Vec<char> = Vec::new();
    let mut i: usize = 0;
    proof {
        assert(s.take(0) == Seq::<char>::empty());
        assert(split_on(s.take(0), sep) == seq![Seq::<char>::empty()]);
    }
    while i < chars.len()
        invariant
            s == chars@,
            i <= s.len(),
            split_on(s.take(i as int), sep) == out@.map_values(|p: Vec<char>| p@).push(cur@),
        decreases s.len() - i,
    {
        let ghost prev = split_on(s.take(i as int), sep);
        let ghost old_out = out@;
        assert(s.take(i + 1).drop_last() == s.take(i as int));
        assert(s.take(i + 1).last() == s[i as int]);
        if chars[i] == sep {
            let piece = cur;
            out.push(piece);
            cur = Vec::new();
            proof {
                assert(out@.map_values(|p: Vec<char>| p@) =~= old_out.map_values(|p: Vec<char>| p@).push(piece@));
                assert(split_on(s.take(i + 1), sep) == prev.push(Seq::<char>::empty()));
            }
        } else {
            let ghost old_cur = cur@;
            cur.push(chars[i]);
            proof {
                assert(split_on(s.take(i + 1), sep) == prev.update(prev.len() - 1, prev.last().push(s[i as int])));
                assert(split_on(s.take(i + 1), sep) =~= old_out.map_values(|p: Vec<char>| p@).push(cur@));
            }
        }
        i = i + 1;
    }
    let ghost old_out = out@;
    out.push(cur);
    proof {
        assert(s.take(s.len() as int) == s);
        assert(out@.map_values(|p: Vec<char>| p@) =~= old_out.map_values(|p: Vec<char>| p@).push(cur@));
    }
    out
}

/// Whether `a` holds exactly the characters `b[from..to]`.
pub fn str_equals_range(a: &str, b: &Vec<char>, from: usize, to: usize) -> (r: bool)
    requires
        from <= to <= b@.len(),
    ensures
        r == (a@ == b@.subrange(from as int, to as int)),
{
    let ac = chars_of(a);
    if ac.len() != to - from {
        return false;
    }
    let mut k: usize = 0;
    while k < ac.len()
        invariant
            from <= to <= b@.len(),
            ac@ == a@,
            ac@.len() == to - from,
            k <= ac@.len(),
            forall|j: int| 0 <= j < k ==> ac@[j] == b@[from + j],
        decreases ac.len() - k,
    {
        if ac[k] != b[from + k] {
            assert(ac@[k as int] != b@.subrange(from as int, to as int)[k as int]);
            return false;
        }
        k = k + 1;
    }
    assert(ac@ =~= b@.subrange(from as int, to as int));
    true
}

/// Whether `a` and `b` hold the same characters.
pub fn str_equals(a: &str, b: &str) -> (r: bool)
    ensures
        r == (a@ == b@),
{
    let bc = chars_of(b);
    let r = str_equals_range(a, &bc, 0, bc.len());
    assert(bc@.subrange(0, bc@.len() as int) == bc@);
    r
}

} // verus!
