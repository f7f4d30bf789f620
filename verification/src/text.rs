//! Strings as sequences of characters: classes of characters, trimming, splitting, searching,
//! joining, and the byte offsets at which characters start.

use vstd::prelude::*;
use vstd::utf8::*;

verus! {

broadcast use vstd::seq_lib::group_seq_properties;

/// `String::push` appends one character at the end of the string.
pub assume_specification[ String::push ](s: &mut String, c: char)
    ensures
        final(s)@ == old(s)@.push(c),
;

// ─── Classes of characters ───────────────────────────────────────────────────

/// The characters with the Unicode property `White_Space`.
pub open spec fn is_white_space_spec(c: char) -> bool {
    let n = c as u32;
    ||| 0x9 <= n <= 0xd
    ||| n == 0x20
    ||| n == 0x85
    ||| n == 0xa0
    ||| n == 0x1680
    ||| 0x2000 <= n <= 0x200a
    ||| n == 0x2028
    ||| n == 0x2029
    ||| n == 0x202f
    ||| n == 0x205f
    ||| n == 0x3000
}

/// Whether `c` is white space.
pub fn is_white_space(c: char) -> (r: bool)
    ensures
        r == is_white_space_spec(c),
{
    let n: u32 = c as u32;
    (0x9 <= n && n <= 0xd) || n == 0x20 || n == 0x85 || n == 0xa0 || n == 0x1680 || (0x2000 <= n
        && n <= 0x200a) || n == 0x2028 || n == 0x2029 || n == 0x202f || n == 0x205f || n == 0x3000
}

/// The characters of the Unicode category `Cc`.
pub open spec fn is_control_spec(c: char) -> bool {
    let n = c as u32;
    n <= 0x1f || 0x7f <= n <= 0x9f
}

/// Whether `c` is a control character.
pub fn is_control(c: char) -> (r: bool)
    ensures
        r == is_control_spec(c),
{
    let n: u32 = c as u32;
    n <= 0x1f || (0x7f <= n && n <= 0x9f)
}

pub open spec fn is_ascii_digit_spec(c: char) -> bool {
    '0' <= c && c <= '9'
}

/// Whether `c` is one of `0` to `9`.
pub fn is_ascii_digit(c: char) -> (r: bool)
    ensures
        r == is_ascii_digit_spec(c),
{
    '0' <= c && c <= '9'
}

/// `c` with an ASCII capital letter replaced by the small one.
pub open spec fn lower_char(c: char) -> char {
    if 'A' <= c && c <= 'Z' {
        ((c as u32 + 32) as u32) as char
    } else {
        c
    }
}

/// `s` with every ASCII capital letter replaced by the small one.
pub open spec fn lower(s: Seq<char>) -> Seq<char> {
    s.map_values(|c: char| lower_char(c))
}

fn lower_one(c: char) -> (r: char)
    ensures
        r == lower_char(c),
{
    if 'A' <= c && c <= 'Z' {
        let n: u8 = c as u8;
        (n + 32) as char
    } else {
        c
    }
}

/// A copy of `s` in ASCII small letters.
pub fn to_ascii_lowercase(s: &str) -> (out: String)
    ensures
        out@ == lower(s@),
{
    let mut out: String = String::new();
    for c in it: s.chars()
        invariant
            out@ == lower(it.seq().take(it.index())),
            it.seq() == s@,
    {
        out.push(lower_one(c));
        proof {
            assert(it.seq().take(it.index() + 1) =~= it.seq().take(it.index()).push(c));
            assert(out@ =~= lower(it.seq().take(it.index() + 1)));
        }
    }
    proof {
        assert(s@.take(s@.len() as int) =~= s@);
    }
    out
}

// ─── Conversions ─────────────────────────────────────────────────────────────

/// The characters of `s`, in order.
pub fn to_chars(s: &str) -> (out: Vec<char>)
    ensures
        out@ == s@,
{
    let mut out: Vec<char> = Vec::new();
    for c in it: s.chars()
        invariant
            out@ == it.seq().take(it.index()),
            it.seq() == s@,
    {
        out.push(c);
    }
    out
}

/// The string made of `chars[from..to]`.
pub fn from_chars(chars: &Vec<char>, from: usize, to: usize) -> (out: String)
    requires
        from <= to <= chars.len(),
    ensures
        out@ == chars@.subrange(from as int, to as int),
{
    let mut out: String = String::new();
    let mut i: usize = from;
    while i < to
        invariant
            from <= i <= to <= chars.len(),
            out@ == chars@.subrange(from as int, i as int),
        decreases to - i,
    {
        out.push(chars[i]);
        i += 1;
    }
    out
}

/// Whether `a` and `b` hold the same characters.
pub fn str_eq(a: &str, b: &str) -> (r: bool)
    ensures
        r == (a@ == b@),
{
    let x: Vec<char> = to_chars(a);
    let y: Vec<char> = to_chars(b);
    if x.len() != y.len() {
        return false;
    }
    let mut i: usize = 0;
    while i < x.len()
        invariant
            i <= x.len() == y.len(),
            x@ == a@,
            y@ == b@,
            forall|j: int| 0 <= j < i ==> x@[j] == y@[j],
        decreases x.len() - i,
    {
        if x[i] != y[i] {
            return false;
        }
        i += 1;
    }
    assert(x@ =~= y@);
    true
}

/// The first `n` characters of `s`, or all of them where there are fewer.
pub open spec fn take_spec(s: Seq<char>, n: nat) -> Seq<char> {
    if n < s.len() {
        s.take(n as int)
    } else {
        s
    }
}

/// A copy of the first `n` characters of `s`.
pub fn take_chars(s: &str, n: usize) -> (out: String)
    ensures
        out@ == take_spec(s@, n as nat),
{
    let chars: Vec<char> = to_chars(s);
    let end: usize = if n < chars.len() {
        n
    } else {
        chars.len()
    };
    from_chars(&chars, 0, end)
}

/// `n` times the character `c`.
pub open spec fn repeat_spec(c: char, n: nat) -> Seq<char> {
    Seq::new(n, |i: int| c)
}

/// A string of `n` characters `c`.
pub fn repeat_char(c: char, n: usize) -> (out: String)
    ensures
        out@ == repeat_spec(c, n as nat),
{
    let mut out: String = String::new();
    let mut i: usize = 0;
    while i < n
        invariant
            i <= n,
            out@ == repeat_spec(c, i as nat),
        decreases n - i,
    {
        out.push(c);
        i += 1;
        assert(out@ =~= repeat_spec(c, i as nat));
    }
    out
}

// ─── Trimming ────────────────────────────────────────────────────────────────

/// `s` without the white space at its start.
pub open spec fn trim_start_spec(s: Seq<char>) -> Seq<char>
    decreases s.len(),
{
    if s.len() > 0 && is_white_space_spec(s[0]) {
        trim_start_spec(s.drop_first())
    } else {
        s
    }
}

/// `s` without the white space at its end.
pub open spec fn trim_end_spec(s: Seq<char>) -> Seq<char>
    decreases s.len(),
{
    if s.len() > 0 && is_white_space_spec(s.last()) {
        trim_end_spec(s.drop_last())
    } else {
        s
    }
}

/// `s` without the white space at both ends.
pub open spec fn trim_spec(s: Seq<char>) -> Seq<char> {
    trim_end_spec(trim_start_spec(s))
}

pub proof fn lemma_trim_start(s: Seq<char>, i: int)
    requires
        0 <= i <= s.len(),
        forall|j: int| 0 <= j < i ==> is_white_space_spec(s[j]),
        i < s.len() ==> !is_white_space_spec(s[i]),
    ensures
        trim_start_spec(s) == s.skip(i),
    decreases i,
{
    if i > 0 {
        assert(s.drop_first().skip(i - 1) =~= s.skip(i));
        lemma_trim_start(s.drop_first(), i - 1);
    } else {
        assert(s.skip(0) =~= s);
    }
}

pub proof fn lemma_trim_end(s: Seq<char>, i: int)
    requires
        0 <= i <= s.len(),
        forall|j: int| i <= j < s.len() ==> is_white_space_spec(s[j]),
        i > 0 ==> !is_white_space_spec(s[i - 1]),
    ensures
        trim_end_spec(s) == s.take(i),
    decreases s.len() - i,
{
    if i < s.len() {
        assert(s.drop_last().take(i) =~= s.take(i));
        lemma_trim_end(s.drop_last(), i);
    } else {
        assert(s.take(i) =~= s);
    }
}

/// The part of `s` from its first character that is not white space.
pub fn trim_start<'a>(s: &'a str) -> (r: &'a str)
    ensures
        r@ == trim_start_spec(s@),
{
    let chars: Vec<char> = to_chars(s);
    let mut i: usize = 0;
    while i < chars.len() && is_white_space(chars[i])
        invariant
            i <= chars.len(),
            forall|j: int| 0 <= j < i ==> is_white_space_spec(chars@[j]),
        decreases chars.len() - i,
    {
        i += 1;
    }
    proof {
        lemma_trim_start(s@, i as int);
        assert(s@.skip(i as int) =~= s@.subrange(i as int, s@.len() as int));
    }
    s.substring_char(i, chars.len())
}

/// The part of `s` up to its last character that is not white space.
pub fn trim_end<'a>(s: &'a str) -> (r: &'a str)
    ensures
        r@ == trim_end_spec(s@),
{
    let chars: Vec<char> = to_chars(s);
    let mut i: usize = chars.len();
    while i > 0 && is_white_space(chars[i - 1])
        invariant
            i <= chars.len(),
            forall|j: int| i <= j < chars.len() ==> is_white_space_spec(chars@[j]),
        decreases i,
    {
        i -= 1;
    }
    proof {
        lemma_trim_end(s@, i as int);
        assert(s@.take(i as int) =~= s@.subrange(0, i as int));
    }
    s.substring_char(0, i)
}

/// The part of `s` between the white space at its ends.
pub fn trim<'a>(s: &'a str) -> (r: &'a str)
    ensures
        r@ == trim_spec(s@),
{
    trim_end(trim_start(s))
}

pub proof fn lemma_trim_end_prefix(s: Seq<char>)
    ensures
        trim_end_spec(s).len() <= s.len(),
        trim_end_spec(s) == s.take(trim_end_spec(s).len() as int),
        trim_end_spec(s).len() > 0 ==> !is_white_space_spec(trim_end_spec(s).last()),
    decreases s.len(),
{
    if s.len() > 0 && is_white_space_spec(s.last()) {
        lemma_trim_end_prefix(s.drop_last());
        let n = trim_end_spec(s).len() as int;
        assert(s.drop_last().take(n) =~= s.take(n));
    } else {
        assert(s.take(s.len() as int) =~= s);
    }
}

pub proof fn lemma_trim_start_first(s: Seq<char>)
    ensures
        trim_start_spec(s).len() > 0 ==> !is_white_space_spec(trim_start_spec(s)[0]),
    decreases s.len(),
{
    if s.len() > 0 && is_white_space_spec(s[0]) {
        lemma_trim_start_first(s.drop_first());
    }
}

/// Trimmed text has no white space at its ends, and trimming it again changes nothing.
pub proof fn law_trim_is_final(s: Seq<char>)
    ensures
        trim_spec(trim_spec(s)) == trim_spec(s),
        trim_spec(s).len() > 0 ==> !is_white_space_spec(trim_spec(s)[0]) && !is_white_space_spec(
            trim_spec(s).last(),
        ),
{
    lemma_trim_start_first(s);
    lemma_trim_end_prefix(trim_start_spec(s));
}

/// `s` without the characters `c` at its start.
pub open spec fn strip_leading_spec(s: Seq<char>, c: char) -> Seq<char>
    decreases s.len(),
{
    if s.len() > 0 && s[0] == c {
        strip_leading_spec(s.drop_first(), c)
    } else {
        s
    }
}

proof fn lemma_strip_leading(s: Seq<char>, c: char, i: int)
    requires
        0 <= i <= s.len(),
        forall|j: int| 0 <= j < i ==> s[j] == c,
        i < s.len() ==> s[i] != c,
    ensures
        strip_leading_spec(s, c) == s.skip(i),
    decreases i,
{
    if i > 0 {
        assert(s.drop_first().skip(i - 1) =~= s.skip(i));
        lemma_strip_leading(s.drop_first(), c, i - 1);
    } else {
        assert(s.skip(0) =~= s);
    }
}

/// The part of `s` from its first character other than `c`.
pub fn strip_leading<'a>(s: &'a str, c: char) -> (r: &'a str)
    ensures
        r@ == strip_leading_spec(s@, c),
{
    let chars: Vec<char> = to_chars(s);
    let mut i: usize = 0;
    while i < chars.len() && chars[i] == c
        invariant
            i <= chars.len(),
            forall|j: int| 0 <= j < i ==> chars@[j] == c,
        decreases chars.len() - i,
    {
        i += 1;
    }
    proof {
        lemma_strip_leading(s@, c, i as int);
        assert(s@.skip(i as int) =~= s@.subrange(i as int, s@.len() as int));
    }
    s.substring_char(i, chars.len())
}

// ─── Searching ───────────────────────────────────────────────────────────────

/// Whether `pat` stands in `s` at the index `i`.
pub open spec fn occurs_at(s: Seq<char>, pat: Seq<char>, i: int) -> bool {
    0 <= i && i + pat.len() <= s.len() && s.subrange(i, i + pat.len()) == pat
}

/// The first index from `i` on at which `pat` stands in `s`.
pub open spec fn find_from(s: Seq<char>, pat: Seq<char>, i: int) -> Option<int>
    decreases s.len() + 1 - i,
{
    if i < 0 || i + pat.len() > s.len() {
        None
    } else if occurs_at(s, pat, i) {
        Some(i)
    } else {
        find_from(s, pat, i + 1)
    }
}

/// The first index at which `pat` stands in `s`.
pub open spec fn find_spec(s: Seq<char>, pat: Seq<char>) -> Option<int> {
    find_from(s, pat, 0)
}

/// What a search result means: it is the least index at which the pattern stands.
pub proof fn lemma_find_from(s: Seq<char>, pat: Seq<char>, i: int)
    requires
        0 <= i,
    ensures
        match find_from(s, pat, i) {
            Some(k) => i <= k && occurs_at(s, pat, k) && forall|j: int|
                i <= j < k ==> !occurs_at(s, pat, j),
            None => forall|j: int| i <= j ==> !occurs_at(s, pat, j),
        },
    decreases s.len() + 1 - i,
{
    if i + pat.len() <= s.len() && !occurs_at(s, pat, i) {
        lemma_find_from(s, pat, i + 1);
    }
}

fn matches_at(s: &Vec<char>, pat: &Vec<char>, at: usize) -> (r: bool)
    requires
        at + pat.len() <= s.len(),
    ensures
        r == occurs_at(s@, pat@, at as int),
{
    let mut i: usize = 0;
    while i < pat.len()
        invariant
            i <= pat.len(),
            at + pat.len() <= s.len(),
            forall|j: int| 0 <= j < i ==> s@[at + j] == pat@[j],
        decreases pat.len() - i,
    {
        if s[at + i] != pat[i] {
            assert(s@.subrange(at as int, at + pat@.len())[i as int] != pat@[i as int]);
            return false;
        }
        i += 1;
    }
    assert(s@.subrange(at as int, at + pat@.len()) =~= pat@);
    true
}

/// The character index at which `pat` first stands in `s`.
pub fn find(s: &str, pat: &str) -> (r: Option<usize>)
    ensures
        match r {
            Some(i) => find_spec(s@, pat@) == Some(i as int),
            None => find_spec(s@, pat@) is None,
        },
        r matches Some(i) ==> i + pat@.len() <= s@.len() && i <= usize::MAX - pat@.len(),
{
    let x: Vec<char> = to_chars(s);
    let p: Vec<char> = to_chars(pat);
    if p.len() > x.len() {
        return None;
    }
    let last: usize = x.len() - p.len();
    let mut i: usize = 0;
    loop
        invariant
            i <= last,
            last + p.len() == x.len(),
            x@ == s@,
            p@ == pat@,
            find_spec(s@, pat@) == find_from(s@, pat@, i as int),
        decreases last - i,
    {
        if matches_at(&x, &p, i) {
            return Some(i);
        }
        if i == last {
            assert(find_from(s@, pat@, i + 1) is None);
            return None;
        }
        i += 1;
    }
}

/// Whether the character `c` stands in `s`.
pub fn contains_char(s: &str, c: char) -> (r: bool)
    ensures
        r == s@.contains(c),
{
    let x: Vec<char> = to_chars(s);
    let mut i: usize = 0;
    while i < x.len()
        invariant
            i <= x.len(),
            x@ == s@,
            forall|j: int| 0 <= j < i ==> x@[j] != c,
        decreases x.len() - i,
    {
        if x[i] == c {
            assert(s@[i as int] == c);
            return true;
        }
        i += 1;
    }
    false
}

/// The first index from `i` on at which the character `c` stands in `s`.
pub open spec fn find_char_from(s: Seq<char>, c: char, i: int) -> Option<int>
    decreases s.len() - i,
{
    if i < 0 || i >= s.len() {
        None
    } else if s[i] == c {
        Some(i)
    } else {
        find_char_from(s, c, i + 1)
    }
}

/// The first index at which the character `c` stands in `s`.
pub open spec fn find_char_spec(s: Seq<char>, c: char) -> Option<int> {
    find_char_from(s, c, 0)
}

/// What a search result means: it is the least index at which the character stands.
pub proof fn lemma_find_char_from(s: Seq<char>, c: char, i: int)
    requires
        0 <= i,
    ensures
        match find_char_from(s, c, i) {
            Some(k) => i <= k < s.len() && s[k] == c && forall|j: int| i <= j < k ==> s[j] != c,
            None => forall|j: int| i <= j < s.len() ==> s[j] != c,
        },
    decreases s.len() - i,
{
    if i < s.len() && s[i] != c {
        lemma_find_char_from(s, c, i + 1);
    }
}

/// The index at which the character `c` first stands in `s`.
pub fn find_char(s: &str, c: char) -> (r: Option<usize>)
    ensures
        match r {
            Some(i) => find_char_spec(s@, c) == Some(i as int) && i < s@.len() && i < usize::MAX,
            None => find_char_spec(s@, c) is None,
        },
{
    let x: Vec<char> = to_chars(s);
    let mut i: usize = 0;
    while i < x.len()
        invariant
            i <= x.len(),
            x@ == s@,
            find_char_spec(s@, c) == find_char_from(s@, c, i as int),
        decreases x.len() - i,
    {
        if x[i] == c {
            return Some(i);
        }
        i += 1;
    }
    None
}

/// `s` without the leading `p`, where `s` starts with it.
pub open spec fn strip_prefix_spec(s: Seq<char>, p: Seq<char>) -> Option<Seq<char>> {
    if occurs_at(s, p, 0) {
        Some(s.skip(p.len() as int))
    } else {
        None
    }
}

/// Whether `s` starts with `p`.
pub fn starts_with(s: &str, p: &str) -> (r: bool)
    ensures
        r == occurs_at(s@, p@, 0),
{
    let x: Vec<char> = to_chars(s);
    let y: Vec<char> = to_chars(p);
    y.len() <= x.len() && matches_at(&x, &y, 0)
}

/// The rest of `s` behind the prefix `p`.
pub fn strip_prefix<'a>(s: &'a str, p: &str) -> (r: Option<&'a str>)
    ensures
        match r {
            Some(t) => strip_prefix_spec(s@, p@) == Some(t@),
            None => strip_prefix_spec(s@, p@) is None,
        },
{
    if starts_with(s, p) {
        let n: usize = p.unicode_len();
        let len: usize = s.unicode_len();
        proof {
            assert(s@.skip(n as int) =~= s@.subrange(n as int, len as int));
        }
        Some(s.substring_char(n, len))
    } else {
        None
    }
}

/// The part of `s` in front of the character index `k`.
pub fn prefix<'a>(s: &'a str, k: usize) -> (r: &'a str)
    requires
        k <= s@.len(),
    ensures
        r@ == s@.take(k as int),
{
    proof {
        assert(s@.take(k as int) =~= s@.subrange(0, k as int));
    }
    s.substring_char(0, k)
}

/// The part of `s` from the character index `k` on.
pub fn suffix<'a>(s: &'a str, k: usize) -> (r: &'a str)
    requires
        k <= s@.len(),
    ensures
        r@ == s@.skip(k as int),
{
    let len: usize = s.unicode_len();
    proof {
        assert(s@.skip(k as int) =~= s@.subrange(k as int, len as int));
    }
    s.substring_char(k, len)
}

// ─── Splitting and joining ───────────────────────────────────────────────────

/// The pieces of `s` between the characters `sep`. There is one piece more than there are
/// separators.
pub open spec fn split_spec(s: Seq<char>, sep: char) -> Seq<Seq<char>>
    decreases s.len(),
{
    if s.len() == 0 {
        seq![Seq::<char>::empty()]
    } else {
        let before = split_spec(s.drop_last(), sep);
        if s.last() == sep {
            before.push(Seq::empty())
        } else {
            before.drop_last().push(before.last().push(s.last()))
        }
    }
}

/// `parts` put one behind the other, with `sep` between any two.
pub open spec fn join_spec(parts: Seq<Seq<char>>, sep: Seq<char>) -> Seq<char>
    decreases parts.len(),
{
    if parts.len() == 0 {
        Seq::empty()
    } else if parts.len() == 1 {
        parts[0]
    } else {
        join_spec(parts.drop_last(), sep) + sep + parts.last()
    }
}

/// Splitting loses nothing: the pieces joined by the separator are the text again, and no
/// piece holds the separator.
pub proof fn law_split_join(s: Seq<char>, sep: char)
    ensures
        join_spec(split_spec(s, sep), seq![sep]) == s,
        split_spec(s, sep).len() >= 1,
        forall|i: int|
            #![trigger split_spec(s, sep)[i]]
            0 <= i < split_spec(s, sep).len() ==> !split_spec(s, sep)[i].contains(sep),
    decreases s.len(),
{
    let parts = split_spec(s, sep);
    if s.len() == 0 {
        assert(join_spec(parts, seq![sep]) =~= s);
    } else {
        let before = split_spec(s.drop_last(), sep);
        law_split_join(s.drop_last(), sep);
        if s.last() == sep {
            assert(parts.drop_last() =~= before);
            assert(join_spec(parts, seq![sep]) =~= s.drop_last() + seq![sep] + Seq::empty());
            assert(join_spec(parts, seq![sep]) =~= s);
        } else {
            assert(parts.drop_last() =~= before.drop_last());
            if before.len() == 1 {
                assert(join_spec(parts, seq![sep]) =~= s);
            } else {
                assert(join_spec(parts, seq![sep]) =~= join_spec(before, seq![sep]).push(s.last()));
                assert(join_spec(parts, seq![sep]) =~= s);
            }
            assert forall|i: int| 0 <= i < parts.len() implies !#[trigger] parts[i].contains(
                sep,
            ) by {
                if i < before.len() - 1 {
                    assert(parts[i] == before[i]);
                } else {
                    assert(parts[i] == before.last().push(s.last()));
                    assert(before[before.len() - 1] == before.last());
                }
            }
        }
    }
}

/// Text behind a separator adds pieces and leaves those in front of it as they are.
pub proof fn law_split_concat(a: Seq<char>, sep: char, b: Seq<char>)
    ensures
        split_spec(a.push(sep) + b, sep) == split_spec(a, sep) + split_spec(b, sep),
    decreases b.len(),
{
    let whole = a.push(sep) + b;
    law_split_join(b, sep);
    if b.len() == 0 {
        assert(whole =~= a.push(sep));
        assert(whole.drop_last() =~= a);
        assert(split_spec(whole, sep) =~= split_spec(a, sep) + split_spec(b, sep));
    } else {
        law_split_concat(a, sep, b.drop_last());
        law_split_join(b.drop_last(), sep);
        assert(whole.drop_last() =~= a.push(sep) + b.drop_last());
        assert(whole.last() == b.last());
        assert(split_spec(whole, sep) =~= split_spec(a, sep) + split_spec(b, sep));
    }
}

proof fn lemma_split_one(s: Seq<char>, sep: char)
    requires
        !s.contains(sep),
    ensures
        split_spec(s, sep) == seq![s],
    decreases s.len(),
{
    if s.len() == 0 {
        assert(s =~= Seq::empty());
    } else {
        assert(s.contains(s.last()));
        assert forall|c: char| s.drop_last().contains(c) implies s.contains(c) by {}
        lemma_split_one(s.drop_last(), sep);
        assert(s.drop_last().push(s.last()) =~= s);
        assert(split_spec(s, sep) =~= seq![s]);
    }
}

/// Joining loses nothing: pieces that do not hold the separator come out of the joined text again.
pub proof fn law_join_split(parts: Seq<Seq<char>>, sep: char)
    requires
        parts.len() > 0,
        forall|i: int| 0 <= i < parts.len() ==> !(#[trigger] parts[i]).contains(sep),
    ensures
        split_spec(join_spec(parts, seq![sep]), sep) == parts,
    decreases parts.len(),
{
    if parts.len() == 1 {
        lemma_split_one(parts[0], sep);
        assert(parts =~= seq![parts[0]]);
    } else {
        let front = parts.drop_last();
        let last = parts.last();
        assert forall|i: int| 0 <= i < front.len() implies !(#[trigger] front[i]).contains(sep) by {
            assert(front[i] == parts[i]);
        }
        law_join_split(front, sep);
        assert(!parts[parts.len() - 1].contains(sep));
        lemma_split_one(last, sep);
        law_split_concat(join_spec(front, seq![sep]), sep, last);
        assert(join_spec(parts, seq![sep]) =~= join_spec(front, seq![sep]).push(sep) + last);
        assert(front + seq![last] =~= parts);
    }
}

/// The pieces of `s` between the characters `sep`.
pub fn split_on(s: &str, sep: char) -> (out: Vec<String>)
    ensures
        out.deep_view() == split_spec(s@, sep),
        out.len() >= 1,
{
    let mut done: Vec<String> = Vec::new();
    let mut cur: String = String::new();
    for c in it: s.chars()
        invariant
            done.deep_view().push(cur@) == split_spec(it.seq().take(it.index()), sep),
            it.seq() == s@,
    {
        let ghost prefix = it.seq().take(it.index());
        let ghost longer = it.seq().take(it.index() + 1);
        let ghost pieces = done.deep_view();
        assert(longer.drop_last() =~= prefix);
        if c == sep {
            let ghost piece = cur@;
            done.push(cur);
            cur = String::new();
            assert(done.deep_view() =~= pieces.push(piece));
        } else {
            let ghost piece = cur@;
            cur.push(c);
            assert(pieces.push(piece).drop_last() =~= pieces);
        }
        assert(done.deep_view().push(cur@) =~= split_spec(longer, sep));
    }
    let ghost pieces = done.deep_view();
    let ghost piece = cur@;
    done.push(cur);
    proof {
        assert(s@.take(s@.len() as int) =~= s@);
        assert(done.deep_view() =~= pieces.push(piece));
    }
    done
}

/// `parts` put one behind the other.
pub open spec fn concat_spec(parts: Seq<Seq<char>>) -> Seq<char>
    decreases parts.len(),
{
    if parts.len() == 0 {
        Seq::empty()
    } else {
        concat_spec(parts.drop_last()) + parts.last()
    }
}

/// The words of `s` that white space ends, and what stands behind the last white space.
pub open spec fn words_and_rest(s: Seq<char>) -> (Seq<Seq<char>>, Seq<char>)
    decreases s.len(),
{
    if s.len() == 0 {
        (Seq::empty(), Seq::empty())
    } else {
        let (words, rest) = words_and_rest(s.drop_last());
        if !is_white_space_spec(s.last()) {
            (words, rest.push(s.last()))
        } else if rest.len() == 0 {
            (words, rest)
        } else {
            (words.push(rest), Seq::empty())
        }
    }
}

/// The words of `s`: its longest parts without white space.
pub open spec fn words_spec(s: Seq<char>) -> Seq<Seq<char>> {
    let (words, rest) = words_and_rest(s);
    if rest.len() == 0 {
        words
    } else {
        words.push(rest)
    }
}

/// Whether `w` is one word: not empty, and without white space.
pub open spec fn is_word(w: Seq<char>) -> bool {
    w.len() > 0 && forall|j: int| 0 <= j < w.len() ==> !is_white_space_spec(#[trigger] w[j])
}

/// No word is empty or holds white space.
pub proof fn law_words_hold_no_white_space(s: Seq<char>)
    ensures
        forall|i: int| 0 <= i < words_spec(s).len() ==> is_word(#[trigger] words_spec(s)[i]),
{
    lemma_words_and_rest(s);
}

proof fn lemma_words_and_rest(s: Seq<char>)
    ensures
        forall|i: int|
            0 <= i < words_and_rest(s).0.len() ==> is_word(#[trigger] words_and_rest(s).0[i]),
        words_and_rest(s).1.len() > 0 ==> is_word(words_and_rest(s).1),
    decreases s.len(),
{
    if s.len() > 0 {
        let (words, rest) = words_and_rest(s.drop_last());
        lemma_words_and_rest(s.drop_last());
        let (new_words, new_rest) = words_and_rest(s);
        assert forall|i: int| 0 <= i < new_words.len() implies is_word(
            #[trigger] new_words[i],
        ) by {
            if i < words.len() {
                assert(new_words[i] == words[i]);
            }
        }
    }
}

/// The words of `s`.
pub fn split_whitespace(s: &str) -> (out: Vec<String>)
    ensures
        out.deep_view() == words_spec(s@),
{
    let mut words: Vec<String> = Vec::new();
    let mut cur: String = String::new();
    for c in it: s.chars()
        invariant
            (words.deep_view(), cur@) == words_and_rest(it.seq().take(it.index())),
            it.seq() == s@,
    {
        let ghost longer = it.seq().take(it.index() + 1);
        let ghost pieces = words.deep_view();
        assert(longer.drop_last() =~= it.seq().take(it.index()));
        if !is_white_space(c) {
            cur.push(c);
        } else if !cur.as_str().is_empty() {
            let ghost piece = cur@;
            words.push(cur);
            cur = String::new();
            assert(words.deep_view() =~= pieces.push(piece));
        }
    }
    proof {
        assert(s@.take(s@.len() as int) =~= s@);
    }
    if !cur.as_str().is_empty() {
        let ghost pieces = words.deep_view();
        let ghost piece = cur@;
        words.push(cur);
        assert(words.deep_view() =~= pieces.push(piece));
    }
    words
}

/// `parts` put one behind the other, with `sep` between any two.
pub fn join(parts: &Vec<String>, sep: &str) -> (out: String)
    ensures
        out@ == join_spec(parts.deep_view(), sep@),
{
    let mut out: String = String::new();
    let mut i: usize = 0;
    while i < parts.len()
        invariant
            i <= parts.len(),
            out@ == join_spec(parts.deep_view().take(i as int), sep@),
        decreases parts.len() - i,
    {
        if i > 0 {
            out.append(sep);
        }
        out.append(parts[i].as_str());
        proof {
            let all = parts.deep_view();
            assert(all.take(i + 1).drop_last() =~= all.take(i as int));
            assert(out@ =~= join_spec(all.take(i + 1), sep@));
        }
        i += 1;
    }
    proof {
        assert(parts.deep_view().take(parts.len() as int) =~= parts.deep_view());
    }
    out
}

// ─── Numbers ─────────────────────────────────────────────────────────────────

/// The decimal digit for `d`.
pub open spec fn digit_spec(d: nat) -> char {
    ((48 + d) as u32) as char
}

/// `n` in decimal, without leading zeros.
pub open spec fn decimal_spec(n: nat) -> Seq<char>
    decreases n,
{
    if n < 10 {
        seq![digit_spec(n)]
    } else {
        decimal_spec(n / 10).push(digit_spec(n % 10))
    }
}

/// `n` in decimal.
pub fn decimal(n: u64) -> (out: String)
    ensures
        out@ == decimal_spec(n as nat),
    decreases n,
{
    let digit: char = (48 + (n % 10) as u8) as char;
    if n < 10 {
        let mut out: String = String::new();
        out.push(digit);
        assert(out@ =~= decimal_spec(n as nat));
        out
    } else {
        let mut out: String = decimal(n / 10);
        out.push(digit);
        out
    }
}

// ─── Byte offsets ────────────────────────────────────────────────────────────

/// The number of bytes in front of the character with the index `k`.
pub open spec fn byte_offset(s: Seq<char>, k: int) -> nat {
    encode_utf8(s.take(k)).len()
}

proof fn lemma_encode_concat(a: Seq<char>, b: Seq<char>)
    ensures
        encode_utf8(a + b) == encode_utf8(a) + encode_utf8(b),
    decreases a.len(),
{
    if a.len() == 0 {
        assert(a + b =~= b);
        assert(encode_utf8(a) + encode_utf8(b) =~= encode_utf8(b));
    } else {
        lemma_encode_concat(a.drop_first(), b);
        assert((a + b).drop_first() =~= a.drop_first() + b);
        assert(encode_utf8(a + b) =~= encode_utf8(a) + encode_utf8(b));
    }
}

/// The offsets grow with the index, by the width of the character between them.
pub proof fn lemma_byte_offset_step(s: Seq<char>, k: int)
    requires
        0 <= k < s.len(),
    ensures
        byte_offset(s, k + 1) == byte_offset(s, k) + encode_scalar(s[k] as u32).len(),
        byte_offset(s, k + 1) <= encode_utf8(s).len(),
{
    assert(s.take(k + 1) =~= s.take(k) + seq![s[k]]);
    lemma_encode_concat(s.take(k), seq![s[k]]);
    assert(encode_utf8(seq![s[k]]) =~= encode_scalar(s[k] as u32)) by {
        assert(seq![s[k]].drop_first() =~= Seq::empty());
        reveal_with_fuel(encode_utf8, 2);
    }
    assert(s =~= s.take(k + 1) + s.skip(k + 1));
    lemma_encode_concat(s.take(k + 1), s.skip(k + 1));
}

proof fn lemma_char_boundary(a: Seq<char>, b: Seq<char>)
    ensures
        is_char_boundary(encode_utf8(a + b), encode_utf8(a).len() as int),
    decreases a.len(),
{
    encode_utf8_valid_utf8(a + b);
    if a.len() > 0 {
        let whole = encode_utf8(a + b);
        lemma_char_boundary(a.drop_first(), b);
        encode_utf8_first_scalar(a + b);
        encode_utf8_first_scalar(a);
        assert((a + b).drop_first() =~= a.drop_first() + b);
        assert(pop_first_scalar(whole) =~= encode_utf8(a.drop_first() + b));
        lemma_encode_concat(a, b);
    }
}

/// How many bytes the UTF-8 encoding of `c` takes.
fn len_utf8(c: char) -> (n: usize)
    ensures
        n == encode_scalar(c as u32).len(),
        1 <= n <= 4,
{
    let n: u32 = c as u32;
    if n <= 0x7f {
        1
    } else if n <= 0x7ff {
        2
    } else if n <= 0xffff {
        3
    } else {
        4
    }
}

/// The byte offset of the character with the index `char_idx` in `s`, or the length of `s` where
/// there is no such character.
pub fn char_to_byte_pos(s: &str, char_idx: usize) -> (r: usize)
    ensures
        char_idx <= s@.len() ==> r == byte_offset(s@, char_idx as int),
        char_idx > s@.len() ==> r == encode_utf8(s@).len(),
{
    let total: usize = s.as_bytes().len();
    let chars: Vec<char> = to_chars(s);
    let mut i: usize = 0;
    let mut pos: usize = 0;
    assert(s@.take(0) =~= Seq::empty());
    while i < chars.len() && i < char_idx
        invariant
            i <= chars.len(),
            i <= char_idx,
            chars@ == s@,
            total == encode_utf8(s@).len(),
            pos == byte_offset(s@, i as int),
        decreases chars.len() - i,
    {
        proof {
            lemma_byte_offset_step(s@, i as int);
        }
        pos += len_utf8(chars[i]);
        i += 1;
    }
    proof {
        assert(s@.take(s@.len() as int) =~= s@);
    }
    pos
}

/// `s` cut at the byte offset `pos`, which is that of the character with the index `k`.
fn split_at_byte(s: &str, pos: usize, Ghost(k): Ghost<int>) -> (r: (&str, &str))
    requires
        0 <= k <= s@.len(),
        pos == byte_offset(s@, k),
    ensures
        r.0@ == s@.take(k),
        r.1@ == s@.skip(k),
{
    let ghost a = s@.take(k);
    let ghost b = s@.skip(k);
    proof {
        assert(s@ =~= a + b);
        lemma_char_boundary(a, b);
        lemma_encode_concat(a, b);
    }
    let r = s.split_at(pos);
    proof {
        assert(encode_utf8(r.0@) =~= encode_utf8(a));
        assert(encode_utf8(r.1@) =~= encode_utf8(b));
        encode_utf8_decode_utf8(a);
        encode_utf8_decode_utf8(b);
        encode_utf8_decode_utf8(r.0@);
        encode_utf8_decode_utf8(r.1@);
    }
    r
}

/// `s` cut in front of the character with the index `k`.
pub fn split_at_char(s: &str, k: usize) -> (r: (&str, &str))
    requires
        k <= s@.len(),
    ensures
        r.0@ == s@.take(k as int),
        r.1@ == s@.skip(k as int),
{
    let pos: usize = char_to_byte_pos(s, k);
    split_at_byte(s, pos, Ghost(k as int))
}

// ─── Laws ────────────────────────────────────────────────────────────────────

/// Whether `s` is nothing but white space.
pub open spec fn is_blank(s: Seq<char>) -> bool {
    forall|i: int| 0 <= i < s.len() ==> is_white_space_spec(#[trigger] s[i])
}

/// Trimming takes the white space off the ends of a text, and nothing else.
pub proof fn law_trim_takes_white_space(front: Seq<char>, s: Seq<char>, back: Seq<char>)
    requires
        is_blank(front),
        is_blank(back),
        s.len() > 0 ==> !is_white_space_spec(s[0]) && !is_white_space_spec(s.last()),
    ensures
        trim_spec(front + s + back) == s,
        s.len() > 0 ==> trim_start_spec(front + s + back) == s + back,
        s.len() > 0 ==> trim_end_spec(front + s + back) == front + s,
{
    let whole = front + s + back;
    assert forall|i: int| 0 <= i < front.len() implies is_white_space_spec(#[trigger] whole[i]) by {
        assert(is_white_space_spec(front[i]));
    }
    assert forall|i: int| front.len() + s.len() <= i < whole.len() implies is_white_space_spec(
        #[trigger] whole[i],
    ) by {
        assert(is_white_space_spec(back[i - front.len() - s.len()]));
    }
    if s.len() > 0 {
        let n = front.len() as int;
        lemma_trim_start(whole, n);
        assert(whole.skip(n) =~= s + back);
        let tail = s + back;
        assert forall|i: int| s.len() <= i < tail.len() implies is_white_space_spec(
            #[trigger] tail[i],
        ) by {
            assert(is_white_space_spec(back[i - s.len()]));
        }
        lemma_trim_end(tail, s.len() as int);
        assert(tail.take(s.len() as int) =~= s);
        lemma_trim_end(whole, n + s.len());
        assert(whole.take(n + s.len()) =~= front + s);
    } else {
        assert forall|i: int| 0 <= i < whole.len() implies is_white_space_spec(
            #[trigger] whole[i],
        ) by {}
        lemma_trim_start(whole, whole.len() as int);
        assert(whole.skip(whole.len() as int) =~= s);
        assert(trim_end_spec(s) =~= s);
    }
}

/// What is trimmed off a text at its start is white space.
pub proof fn law_trim_start_keeps_the_rest(s: Seq<char>)
    ensures
        exists|front: Seq<char>| is_blank(front) && s == #[trigger] (front + trim_start_spec(s)),
        trim_start_spec(s).len() == 0 <==> is_blank(s),
    decreases s.len(),
{
    if s.len() > 0 && is_white_space_spec(s[0]) {
        law_trim_start_keeps_the_rest(s.drop_first());
        let rest = trim_start_spec(s);
        let front = choose|front: Seq<char>|
            is_blank(front) && s.drop_first() == #[trigger] (front + rest);
        let whole = seq![s[0]] + front;
        assert forall|i: int| 0 <= i < whole.len() implies is_white_space_spec(
            #[trigger] whole[i],
        ) by {
            if i > 0 {
                assert(is_white_space_spec(front[i - 1]));
            }
        }
        assert(is_blank(whole));
        assert(s =~= whole + trim_start_spec(s));
        assert(is_blank(s.drop_first()) ==> is_blank(s)) by {
            if is_blank(s.drop_first()) {
                assert forall|i: int| 0 <= i < s.len() implies is_white_space_spec(
                    #[trigger] s[i],
                ) by {
                    if i > 0 {
                        assert(is_white_space_spec(s.drop_first()[i - 1]));
                    }
                }
            }
        }
        assert(is_blank(s) ==> is_blank(s.drop_first())) by {
            if is_blank(s) {
                assert forall|i: int| 0 <= i < s.drop_first().len() implies is_white_space_spec(
                    #[trigger] s.drop_first()[i],
                ) by {
                    assert(is_white_space_spec(s[i + 1]));
                }
            }
        }
    } else {
        let none = Seq::<char>::empty();
        assert(is_blank(none));
        assert(s =~= none + trim_start_spec(s));
        if s.len() > 0 {
            assert(!is_white_space_spec(s[0]));
        }
    }
}

/// Leading characters are taken off, and nothing else.
pub proof fn law_strip_leading(c: char, n: nat, s: Seq<char>)
    requires
        s.len() > 0 ==> s[0] != c,
    ensures
        strip_leading_spec(repeat_spec(c, n) + s, c) == s,
{
    let whole = repeat_spec(c, n) + s;
    lemma_strip_leading(whole, c, n as int);
    assert(whole.skip(n as int) =~= s);
}

proof fn lemma_words_behind(a: Seq<char>, c: char, b: Seq<char>)
    requires
        is_white_space_spec(c),
    ensures
        words_and_rest(a.push(c) + b).0 == words_spec(a) + words_and_rest(b).0,
        words_and_rest(a.push(c) + b).1 == words_and_rest(b).1,
    decreases b.len(),
{
    let whole = a.push(c) + b;
    if b.len() == 0 {
        assert(whole =~= a.push(c));
        assert(whole.drop_last() =~= a);
        assert(words_spec(a) + words_and_rest(b).0 =~= words_spec(a));
        assert(words_and_rest(whole).1 =~= words_and_rest(b).1);
    } else {
        lemma_words_behind(a, c, b.drop_last());
        assert(whole.drop_last() =~= a.push(c) + b.drop_last());
        assert(whole.last() == b.last());
        let (words, rest) = words_and_rest(b.drop_last());
        assert(words_spec(a) + words.push(rest) =~= (words_spec(a) + words).push(rest));
    }
}

/// The words of two texts with white space between them are those of the one and then those of
/// the other, and a text without white space is one word. There are none in white space.
pub proof fn law_words_of_two_texts(a: Seq<char>, c: char, b: Seq<char>)
    ensures
        is_white_space_spec(c) ==> words_spec(a.push(c) + b) == words_spec(a) + words_spec(b),
        is_word(a) ==> words_spec(a) == seq![a],
        a.len() == 0 ==> words_spec(a).len() == 0,
{
    if is_white_space_spec(c) {
        lemma_words_behind(a, c, b);
        assert(words_spec(a.push(c) + b) =~= words_spec(a) + words_spec(b));
    }
    if is_word(a) {
        lemma_one_word(a);
        assert(words_spec(a) =~= seq![a]);
    }
}

proof fn lemma_one_word(a: Seq<char>)
    requires
        forall|j: int| 0 <= j < a.len() ==> !is_white_space_spec(#[trigger] a[j]),
    ensures
        words_and_rest(a).0.len() == 0,
        words_and_rest(a).1 == a,
    decreases a.len(),
{
    if a.len() == 0 {
        assert(a =~= Seq::empty());
    } else {
        let front = a.drop_last();
        assert forall|j: int| 0 <= j < front.len() implies !is_white_space_spec(
            #[trigger] front[j],
        ) by {
            assert(!is_white_space_spec(a[j]));
        }
        lemma_one_word(front);
        assert(!is_white_space_spec(a[a.len() - 1]));
        assert(front.push(a.last()) =~= a);
    }
}

/// The number that decimal digits stand for.
pub open spec fn value_of(digits: Seq<char>) -> int
    decreases digits.len(),
{
    if digits.len() == 0 {
        0
    } else {
        10 * value_of(digits.drop_last()) + (digits.last() as u32 - 48)
    }
}

/// A number is written with the digits that stand for it, without a leading zero.
pub proof fn law_decimal(n: nat)
    ensures
        value_of(decimal_spec(n)) == n,
        forall|i: int|
            0 <= i < decimal_spec(n).len() ==> is_ascii_digit_spec(#[trigger] decimal_spec(n)[i]),
        decimal_spec(n).len() > 0,
        decimal_spec(n)[0] == '0' ==> n == 0,
    decreases n,
{
    let digits = decimal_spec(n);
    if n >= 10 {
        law_decimal(n / 10);
        let front = decimal_spec(n / 10);
        assert(digits.drop_last() =~= front);
        assert(digits[0] == front[0]);
        assert forall|i: int| 0 <= i < digits.len() implies is_ascii_digit_spec(
            #[trigger] digits[i],
        ) by {
            if i < front.len() {
                assert(is_ascii_digit_spec(front[i]));
            }
        }
    } else {
        assert(digits.drop_last() =~= Seq::empty());
        assert(value_of(Seq::<char>::empty()) == 0);
    }
}

/// Lowering changes the ASCII capital letters alone, each to the letter of the same place in the
/// alphabet.
pub proof fn law_lower(s: Seq<char>)
    ensures
        lower(s).len() == s.len(),
        forall|i: int|
            0 <= i < s.len() ==> (if 'A' <= #[trigger] s[i] && s[i] <= 'Z' {
                'a' <= lower(s)[i] && lower(s)[i] <= 'z' && lower(s)[i] as u32 - 'a' as u32
                    == s[i] as u32 - 'A' as u32
            } else {
                lower(s)[i] == s[i]
            }),
{
}

} // verus!
