//! Character-level text helpers shared by the parsers and formatters of the crate.
//!
//! Text is handled as sequences of `char`s: a `&str` or `String` is taken apart with
//! [`chars_of`] and put back together with [`string_from_chars`].
use vstd::prelude::*;

verus! {

// ===== Character classes =====

/// An ASCII decimal digit.
pub open spec fn is_digit(c: char) -> bool {
    '0' <= c && c <= '9'
}

/// The value of an ASCII digit.
pub open spec fn digit_value(c: char) -> nat {
    ((c as u32) - ('0' as u32)) as nat
}

/// The ASCII digit that stands for `d` (for `d < 10`).
pub open spec fn digit_char(d: nat) -> char {
    if d == 0 { '0' }
    else if d == 1 { '1' }
    else if d == 2 { '2' }
    else if d == 3 { '3' }
    else if d == 4 { '4' }
    else if d == 5 { '5' }
    else if d == 6 { '6' }
    else if d == 7 { '7' }
    else if d == 8 { '8' }
    else { '9' }
}

/// Every character of `s` is an ASCII digit.
pub open spec fn all_digits(s: Seq<char>) -> bool {
    forall|i: int| 0 <= i < s.len() ==> is_digit(#[trigger] s[i])
}

/// The number that a string of digits spells in base ten.
pub open spec fn digits_value(s: Seq<char>) -> nat
    decreases s.len(),
{
    if s.len() == 0 {
        0
    } else {
        digits_value(s.drop_last()) * 10 + digit_value(s.last())
    }
}

/// What `str::parse::<u32>` gives: an optional `+` sign, then one or more ASCII
/// digits whose value fits in a `u32`.
pub open spec fn parse_u32_spec(s: Seq<char>) -> Option<u32> {
    let body = if s.len() > 0 && s[0] == '+' { s.drop_first() } else { s };
    if body.len() > 0 && all_digits(body) && digits_value(body) <= u32::MAX {
        Some(digits_value(body) as u32)
    } else {
        None
    }
}

/// The decimal spelling of `n`, without leading zeros.
pub open spec fn decimal(n: nat) -> Seq<char>
    decreases n,
{
    if n < 10 {
        seq![digit_char(n)]
    } else {
        decimal(n / 10).push(digit_char(n % 10))
    }
}

// ===== Searching =====

/// Position of the first `c` in `s`, or -1 when `s` holds no `c`.
pub open spec fn index_of(s: Seq<char>, c: char) -> int
    decreases s.len(),
{
    if s.len() == 0 {
        -1
    } else if s[0] == c {
        0
    } else {
        let r = index_of(s.drop_first(), c);
        if r < 0 { -1 } else { r + 1 }
    }
}

/// `needle` occurs in `hay` starting at position `i`.
pub open spec fn occurs_at(hay: Seq<char>, needle: Seq<char>, i: int) -> bool {
    0 <= i && i + needle.len() <= hay.len() && hay.subrange(i, i + needle.len()) == needle
}

/// `needle` occurs somewhere in `hay` (the empty needle occurs everywhere).
pub open spec fn contains_seq(hay: Seq<char>, needle: Seq<char>) -> bool {
    exists|i: int| #[trigger] occurs_at(hay, needle, i)
}

/// `s` begins with `p`.
pub open spec fn starts_with(s: Seq<char>, p: Seq<char>) -> bool {
    p.len() <= s.len() && s.subrange(0, p.len() as int) == p
}

/// `s` ends with `p`.
pub open spec fn ends_with(s: Seq<char>, p: Seq<char>) -> bool {
    p.len() <= s.len() && s.subrange(s.len() - p.len(), s.len() as int) == p
}

// ===== Splitting =====

/// The pieces of `s` between occurrences of `sep`, as `str::split` with a `char`
/// pattern gives them: always at least one piece, empty pieces included.
pub open spec fn split_spec(s: Seq<char>, sep: char) -> Seq<Seq<char>>
    decreases s.len(),
{
    if s.len() == 0 {
        seq![Seq::<char>::empty()]
    } else {
        let prev = split_spec(s.drop_last(), sep);
        if s.last() == sep {
            prev.push(Seq::<char>::empty())
        } else {
            prev.update(prev.len() - 1, prev.last().push(s.last()))
        }
    }
}

// ===== Lemmas =====

pub proof fn lemma_split_nonempty(s: Seq<char>, sep: char)
    ensures
        split_spec(s, sep).len() >= 1,
    decreases s.len(),
{
    if s.len() > 0 {
        lemma_split_nonempty(s.drop_last(), sep);
    }
}

/// A text without the separator is one piece.
pub proof fn lemma_split_no_sep(s: Seq<char>, sep: char)
    requires
        forall|i: int| 0 <= i < s.len() ==> s[i] != sep,
    ensures
        split_spec(s, sep) == seq![s],
    decreases s.len(),
{
    if s.len() > 0 {
        lemma_split_no_sep(s.drop_last(), sep);
        assert(s.drop_last().push(s.last()) =~= s);
        assert(s[s.len() - 1] != sep);
        let prev = split_spec(s.drop_last(), sep);
        assert(prev == seq![s.drop_last()]);
        assert(prev.last() == s.drop_last());
        let y = prev.last().push(s.last());
        assert(y =~= s);
        assert(split_spec(s, sep) == prev.update(0, y));
        assert(prev.update(0, y) =~= seq![y]);
    } else {
        assert(s =~= Seq::<char>::empty());
    }
}

/// Splitting at a separator splits the two sides apart.
pub proof fn lemma_split_concat(a: Seq<char>, b: Seq<char>, sep: char)
    ensures
        split_spec(a + seq![sep] + b, sep) == split_spec(a, sep) + split_spec(b, sep),
    decreases b.len(),
{
    lemma_split_nonempty(a, sep);
    lemma_split_nonempty(b, sep);
    let ab = a + seq![sep] + b;
    if b.len() == 0 {
        assert(ab.drop_last() =~= a);
        assert(split_spec(b, sep) =~= seq![Seq::<char>::empty()]);
        assert(split_spec(ab, sep) =~= split_spec(a, sep) + split_spec(b, sep));
    } else {
        let b2 = b.drop_last();
        lemma_split_concat(a, b2, sep);
        lemma_split_nonempty(b2, sep);
        assert(ab.drop_last() =~= a + seq![sep] + b2);
        assert(ab.last() == b.last());
        let pa = split_spec(a, sep);
        let pb = split_spec(b2, sep);
        if b.last() == sep {
            assert(split_spec(ab, sep) =~= pa + split_spec(b, sep));
        } else {
            assert((pa + pb).update((pa + pb).len() - 1, (pa + pb).last().push(b.last()))
                =~= pa + pb.update(pb.len() - 1, pb.last().push(b.last())));
            assert(split_spec(ab, sep) =~= pa + split_spec(b, sep));
        }
    }
}

pub proof fn lemma_decimal_digits(n: nat)
    ensures
        all_digits(decimal(n)),
        digits_value(decimal(n)) == n,
        decimal(n).len() >= 1,
        decimal(n)[0] != '+',
        forall|i: int| 0 <= i < decimal(n).len() ==> #[trigger] decimal(n)[i] != '.' && decimal(n)[i] != '-',
    decreases n,
{
    if n >= 10 {
        lemma_decimal_digits(n / 10);
        let d = decimal(n / 10);
        assert(decimal(n).drop_last() =~= d);
        assert(decimal(n).last() == digit_char(n % 10));
        assert(digit_value(digit_char(n % 10)) == n % 10);
        assert(n == (n / 10) * 10 + n % 10);
        assert(digits_value(decimal(n)) == digits_value(d) * 10 + digit_value(decimal(n).last()));
        assert forall|i: int| 0 <= i < decimal(n).len() implies is_digit(#[trigger] decimal(n)[i]) by {
            if i < d.len() {
                assert(decimal(n)[i] == d[i]);
            }
        }
    } else {
        assert(digit_value(digit_char(n)) == n);
        assert(decimal(n).drop_last() =~= Seq::<char>::empty());
        assert(digits_value(decimal(n)) == digits_value(decimal(n).drop_last()) * 10 + digit_value(decimal(n).last()));
    }
}

/// A decimal spelling parses back to its number.
pub proof fn lemma_parse_decimal(n: u32)
    ensures
        parse_u32_spec(decimal(n as nat)) == Some(n),
{
    lemma_decimal_digits(n as nat);
}

// ===== Executable helpers =====

/// The characters of `s`, in order.
pub fn chars_of(s: &str) -> (v: Vec<char>)
    ensures
        v@ == s@,
{
    let mut v: Vec<char> = Vec::new();
    for c in it: s.chars()
        invariant
            v@ == it.seq().take(it.index() as int),
            it.seq() == s@,
    {
        v.push(c);
    }
    v
}

/// Appends one character to a `String` (`String::push`).
#[verifier::external_body]
fn push_char(s: &mut String, c: char)
    ensures
        final(s)@ == old(s)@.push(c),
{
    s.push(c);
}

/// A `String` that holds exactly the given characters.
pub fn string_from_chars(v: &Vec<char>) -> (s: String)
    ensures
        s@ == v@,
{
    let mut s = String::new();
    let mut i: usize = 0;
    while i < v.len()
        invariant
            i <= v.len(),
            s@ == v@.take(i as int),
        decreases v.len() - i,
    {
        push_char(&mut s, v[i]);
        i = i + 1;
        assert(v@.take(i as int) =~= v@.take((i - 1) as int).push(v@[i - 1]));
    }
    assert(v@.take(i as int) =~= v@);
    s
}

/// The digit character for `d`.
pub fn digit_to_char(d: u32) -> (c: char)
    requires
        d < 10,
    ensures
        c == digit_char(d as nat),
{
    if d == 0 { '0' }
    else if d == 1 { '1' }
    else if d == 2 { '2' }
    else if d == 3 { '3' }
    else if d == 4 { '4' }
    else if d == 5 { '5' }
    else if d == 6 { '6' }
    else if d == 7 { '7' }
    else if d == 8 { '8' }
    else { '9' }
}

/// The decimal spelling of `n`, as `format!("{}", n)` writes it.
pub fn decimal_chars(n: u32) -> (v: Vec<char>)
    ensures
        v@ == decimal(n as nat),
    decreases n,
{
    if n < 10 {
        let mut v = Vec::new();
        v.push(digit_to_char(n));
        assert(v@ =~= seq![digit_char(n as nat)]);
        v
    } else {
        let mut v = decimal_chars(n / 10);
        v.push(digit_to_char(n % 10));
        v
    }
}

/// Parses a piece of text as `str::parse::<u32>` does.
pub fn parse_u32(s: &Vec<char>) -> (r: Option<u32>)
    ensures
        r == parse_u32_spec(s@),
{
    let start: usize = if s.len() > 0 && s[0] == '+' { 1 } else { 0 };
    let ghost body = if s@.len() > 0 && s@[0] == '+' { s@.drop_first() } else { s@ };
    assert(body =~= s@.skip(start as int));
    if start >= s.len() {
        return None;
    }
    let mut value: u32 = 0;
    let mut i: usize = start;
    while i < s.len()
        invariant
            start <= i <= s.len(),
            start < s.len(),
            body == s@.skip(start as int),
            body == (if s@.len() > 0 && s@[0] == '+' { s@.drop_first() } else { s@ }),
            all_digits(s@.subrange(start as int, i as int)),
            value as nat == digits_value(s@.subrange(start as int, i as int)),
        decreases s.len() - i,
    {
        let c = s[i];
        let ghost prefix = s@.subrange(start as int, i as int);
        let ghost next = s@.subrange(start as int, i + 1);
        assert(next.drop_last() =~= prefix);
        if !('0' <= c && c <= '9') {
            assert(!is_digit(body[i - start]));
            assert(!all_digits(body));
            assert(parse_u32_spec(s@) is None);
            return None;
        }
        let d: u32 = (c as u32) - ('0' as u32);
        if value > 429496729 || (value == 429496729 && d > 5) {
            proof {
                assert(next.last() == c);
                assert(digits_value(next) == value * 10 + d);
                if all_digits(body) {
                    lemma_digits_value_prefix_mono(body, (i - start + 1) as int);
                    assert(body.subrange(0, (i - start + 1) as int) =~= next);
                }
                assert(parse_u32_spec(s@) is None);
            }
            return None;
        }
        value = value * 10 + d;
        i = i + 1;
        assert forall|k: int| 0 <= k < next.len() implies is_digit(#[trigger] next[k]) by {
            if k < prefix.len() {
                assert(next[k] == prefix[k]);
            }
        }
    }
    assert(s@.subrange(start as int, s.len() as int) =~= body);
    Some(value)
}

/// The value of a digit string is at least the value of any of its prefixes.
proof fn lemma_digits_value_prefix_mono(s: Seq<char>, k: int)
    requires
        0 <= k <= s.len(),
        all_digits(s),
    ensures
        digits_value(s.subrange(0, k)) <= digits_value(s),
    decreases s.len() - k,
{
    if k < s.len() {
        lemma_digits_value_prefix_mono(s, k + 1);
        let p = s.subrange(0, k + 1);
        assert(p.drop_last() =~= s.subrange(0, k));
    } else {
        assert(s.subrange(0, k) =~= s);
    }
}

/// The pieces of `s` between occurrences of `sep` (`str::split` with a `char`).
pub fn split_chars(s: &Vec<char>, sep: char) -> (parts: Vec<Vec<char>>)
    ensures
        parts@.len() == split_spec(s@, sep).len(),
        forall|i: int| 0 <= i < parts@.len() ==> #[trigger] parts@[i]@ == split_spec(s@, sep)[i],
{
    let mut parts: Vec<Vec<char>> = Vec::new();
    let mut cur: Vec<char> = Vec::new();
    let mut i: usize = 0;
    while i < s.len()
        invariant
            i <= s.len(),
            parts@.len() + 1 == split_spec(s@.take(i as int), sep).len(),
            forall|k: int| 0 <= k < parts@.len() ==> #[trigger] parts@[k]@ == split_spec(s@.take(i as int), sep)[k],
            cur@ == split_spec(s@.take(i as int), sep).last(),
        decreases s.len() - i,
    {
        let ghost before = split_spec(s@.take(i as int), sep);
        assert(s@.take(i + 1).drop_last() =~= s@.take(i as int));
        proof { lemma_split_nonempty(s@.take(i as int), sep); }
        if s[i] == sep {
            parts.push(cur);
            cur = Vec::new();
        } else {
            cur.push(s[i]);
        }
        i = i + 1;
    }
    assert(s@.take(i as int) =~= s@);
    parts.push(cur);
    parts
}

/// Position of the first `c` in `s`, if any.
pub fn find_char(s: &Vec<char>, c: char) -> (r: Option<usize>)
    ensures
        match r {
            Some(i) => index_of(s@, c) == i as int && i < s@.len() && s@[i as int] == c && forall|j: int| 0 <= j < i ==> s@[j] != c,
            None => index_of(s@, c) == -1 && forall|j: int| 0 <= j < s@.len() ==> s@[j] != c,
        },
{
    let mut i: usize = 0;
    while i < s.len()
        invariant
            i <= s.len(),
            forall|j: int| 0 <= j < i ==> s@[j] != c,
        decreases s.len() - i,
    {
        if s[i] == c {
            proof { lemma_index_of_first(s@, c, i as int); }
            return Some(i);
        }
        i = i + 1;
    }
    proof { lemma_index_of_absent(s@, c); }
    None
}

pub proof fn lemma_index_of_first(s: Seq<char>, c: char, i: int)
    requires
        0 <= i < s.len(),
        s[i] == c,
        forall|j: int| 0 <= j < i ==> s[j] != c,
    ensures
        index_of(s, c) == i,
    decreases i,
{
    if i > 0 {
        lemma_index_of_first(s.drop_first(), c, i - 1);
    }
}

pub proof fn lemma_index_of_absent(s: Seq<char>, c: char)
    requires
        forall|j: int| 0 <= j < s.len() ==> s[j] != c,
    ensures
        index_of(s, c) == -1,
    decreases s.len(),
{
    if s.len() > 0 {
        lemma_index_of_absent(s.drop_first(), c);
    }
}

/// Two texts hold the same characters.
pub fn chars_equal(a: &Vec<char>, b: &Vec<char>) -> (r: bool)
    ensures
        r == (a@ == b@),
{
    if a.len() != b.len() {
        return false;
    }
    let mut i: usize = 0;
    while i < a.len()
        invariant
            i <= a.len(),
            a.len() == b.len(),
            forall|j: int| 0 <= j < i ==> a@[j] == b@[j],
        decreases a.len() - i,
    {
        if a[i] != b[i] {
            return false;
        }
        i = i + 1;
    }
    assert(a@ =~= b@);
    true
}

/// Two string slices hold the same text.
pub fn str_equal(a: &str, b: &str) -> (r: bool)
    ensures
        r == (a@ == b@),
{
    let x = chars_of(a);
    let y = chars_of(b);
    chars_equal(&x, &y)
}

/// `needle` occurs in `hay` at position `i`.
fn occurs_at_exec(hay: &Vec<char>, needle: &Vec<char>, i: usize) -> (r: bool)
    requires
        i + needle.len() <= hay.len(),
    ensures
        r == occurs_at(hay@, needle@, i as int),
{
    let mut k: usize = 0;
    while k < needle.len()
        invariant
            k <= needle.len(),
            i + needle.len() <= hay.len(),
            forall|j: int| 0 <= j < k ==> hay@[i + j] == needle@[j],
        decreases needle.len() - k,
    {
        if hay[i + k] != needle[k] {
            assert(hay@.subrange(i as int, i + needle@.len())[k as int] != needle@[k as int]);
            return false;
        }
        k = k + 1;
    }
    assert(hay@.subrange(i as int, i + needle@.len()) =~= needle@);
    true
}

/// `needle` occurs somewhere in `hay` (`str::contains`).
pub fn contains_chars(hay: &Vec<char>, needle: &Vec<char>) -> (r: bool)
    ensures
        r == contains_seq(hay@, needle@),
{
    if needle.len() > hay.len() {
        assert forall|i: int| !occurs_at(hay@, needle@, i) by {}
        return false;
    }
    let last = hay.len() - needle.len();
    let mut i: usize = 0;
    while i < last
        invariant
            last == hay.len() - needle.len(),
            needle.len() <= hay.len(),
            i <= last,
            forall|j: int| 0 <= j < i ==> !occurs_at(hay@, needle@, j),
        decreases last - i,
    {
        if occurs_at_exec(hay, needle, i) {
            return true;
        }
        i = i + 1;
    }
    let r = occurs_at_exec(hay, needle, last);
    assert(r ==> occurs_at(hay@, needle@, last as int));
    assert(!r ==> forall|j: int| !occurs_at(hay@, needle@, j)) by {
        if !r {
            assert forall|j: int| !occurs_at(hay@, needle@, j) by {
                if 0 <= j && j < last {
                }
            }
        }
    }
    r
}

/// `s` begins with `p` (`str::starts_with`).
pub fn starts_with_chars(s: &Vec<char>, p: &Vec<char>) -> (r: bool)
    ensures
        r == starts_with(s@, p@),
{
    if p.len() > s.len() {
        return false;
    }
    let r = occurs_at_exec(s, p, 0);
    r
}

/// `s` ends with `p` (`str::ends_with`).
pub fn ends_with_chars(s: &Vec<char>, p: &Vec<char>) -> (r: bool)
    ensures
        r == ends_with(s@, p@),
{
    if p.len() > s.len() {
        return false;
    }
    let r = occurs_at_exec(s, p, s.len() - p.len());
    r
}

/// The decimal text of a number.
pub fn u32_string(n: u32) -> (r: String)
    ensures
        r@ == decimal(n as nat),
{
    string_from_chars(&decimal_chars(n))
}

/// Lower-case form of a text, as `str::to_lowercase` gives it.
pub uninterp spec fn lowercase(s: Seq<char>) -> Seq<char>;

/// `str::to_lowercase`: its result is the Unicode lower-case mapping of the text,
/// named here by `lowercase`; nothing more of it is stated.
#[verifier::external_body]
pub(crate) fn to_lowercase_string(s: &str) -> (r: String)
    ensures
        r@ == lowercase(s@),
{
    s.to_lowercase()
}

/// The characters for which `char::is_whitespace` holds: the Unicode
/// `White_Space` property.
pub open spec fn is_whitespace(c: char) -> bool {
    let u = c as u32;
    (0x09 <= u && u <= 0x0d) || u == 0x20 || u == 0x85 || u == 0xa0 || u == 0x1680
        || (0x2000 <= u && u <= 0x200a) || u == 0x2028 || u == 0x2029 || u == 0x202f
        || u == 0x205f || u == 0x3000
}

/// The text is empty once white space is trimmed from both ends, that is, it holds
/// only white space.
pub open spec fn blank(s: Seq<char>) -> bool {
    forall|i: int| 0 <= i < s.len() ==> is_whitespace(#[trigger] s[i])
}

/// `char::is_whitespace`.
pub fn char_is_whitespace(c: char) -> (r: bool)
    ensures
        r == is_whitespace(c),
{
    let u = c as u32;
    (0x09 <= u && u <= 0x0d) || u == 0x20 || u == 0x85 || u == 0xa0 || u == 0x1680
        || (0x2000 <= u && u <= 0x200a) || u == 0x2028 || u == 0x2029 || u == 0x202f
        || u == 0x205f || u == 0x3000
}

/// `s.trim().is_empty()`.
pub fn is_blank(s: &str) -> (r: bool)
    ensures
        r == blank(s@),
{
    let v = chars_of(s);
    let mut i: usize = 0;
    while i < v.len()
        invariant
            i <= v.len(),
            v@ == s@,
            forall|j: int| 0 <= j < i ==> is_whitespace(#[trigger] v@[j]),
        decreases v.len() - i,
    {
        if !char_is_whitespace(v[i]) {
            return false;
        }
        i = i + 1;
    }
    true
}

/// Appends characters to a vector of characters.
pub fn append_chars(dst: &mut Vec<char>, src: &Vec<char>)
    ensures
        final(dst)@ == old(dst)@ + src@,
{
    let mut i: usize = 0;
    while i < src.len()
        invariant
            i <= src.len(),
            dst@ == old(dst)@ + src@.take(i as int),
        decreases src.len() - i,
    {
        dst.push(src[i]);
        i = i + 1;
        assert(src@.take(i as int) =~= src@.take((i - 1) as int).push(src@[i - 1]));
    }
    assert(src@.take(i as int) =~= src@);
}

/// Appends the characters of a string slice.
pub fn append_str(dst: &mut Vec<char>, src: &str)
    ensures
        final(dst)@ == old(dst)@ + src@,
{
    let v = chars_of(src);
    append_chars(dst, &v);
}

/// A copy of a list of strings.
pub fn copy_strings(v: &Vec<String>) -> (r: Vec<String>)
    ensures
        r@ == v@,
{
    let mut r: Vec<String> = Vec::new();
    let mut i: usize = 0;
    while i < v.len()
        invariant
            i <= v.len(),
            r@ == v@.take(i as int),
        decreases v.len() - i,
    {
        r.push(v[i].clone());
        i = i + 1;
        assert(v@.take(i as int) =~= v@.take((i - 1) as int).push(v@[i - 1]));
    }
    assert(v@.take(i as int) =~= v@);
    r
}

/// The view of an optional string.
pub open spec fn opt_view(o: Option<String>) -> Option<Seq<char>> {
    match o {
        Some(s) => Some(s@),
        None => None,
    }
}

/// A copy of an optional string.
pub fn copy_opt_string(o: &Option<String>) -> (r: Option<String>)
    ensures
        r == *o,
{
    match o {
        Some(s) => Some(s.clone()),
        None => None,
    }
}

// ===== Comparison =====

/// Lexicographic order of texts, character by character (the order of `str`
/// and `String`; a proper prefix comes first): negative, zero or positive as `a`
/// comes before, equals or comes after `b`.
pub open spec fn lex_sign(a: Seq<char>, b: Seq<char>) -> int
    decreases a.len(),
{
    if a.len() == 0 {
        if b.len() == 0 { 0 } else { -1 }
    } else if b.len() == 0 {
        1
    } else if a[0] < b[0] {
        -1
    } else if a[0] > b[0] {
        1
    } else {
        lex_sign(a.drop_first(), b.drop_first())
    }
}

/// Compares two texts in lexicographic order: -1, 0 or 1.
pub fn compare_chars(a: &Vec<char>, b: &Vec<char>) -> (r: i8)
    ensures
        r as int == lex_sign(a@, b@),
{
    let mut i: usize = 0;
    assert(a@.skip(0) =~= a@);
    assert(b@.skip(0) =~= b@);
    while i < a.len() && i < b.len()
        invariant
            i <= a.len(),
            i <= b.len(),
            lex_sign(a@, b@) == lex_sign(a@.skip(i as int), b@.skip(i as int)),
        decreases a.len() - i,
    {
        let x = a[i];
        let y = b[i];
        assert(a@.skip(i as int)[0] == x);
        assert(b@.skip(i as int)[0] == y);
        if x < y {
            return -1;
        }
        if x > y {
            return 1;
        }
        assert(a@.skip(i as int).drop_first() =~= a@.skip(i + 1));
        assert(b@.skip(i as int).drop_first() =~= b@.skip(i + 1));
        i = i + 1;
    }
    if i < b.len() {
        -1
    } else if i < a.len() {
        1
    } else {
        0
    }
}

/// The characters of `v` from position `lo` up to (not including) `hi`.
pub fn slice_chars(v: &Vec<char>, lo: usize, hi: usize) -> (r: Vec<char>)
    requires
        lo <= hi <= v.len(),
    ensures
        r@ == v@.subrange(lo as int, hi as int),
{
    let mut r: Vec<char> = Vec::new();
    let mut i: usize = lo;
    while i < hi
        invariant
            lo <= i <= hi,
            hi <= v.len(),
            r@ == v@.subrange(lo as int, i as int),
        decreases hi - i,
    {
        r.push(v[i]);
        i = i + 1;
        assert(v@.subrange(lo as int, i as int) =~= v@.subrange(lo as int, (i - 1) as int).push(v@[i - 1]));
    }
    r
}

/// Swapping two texts negates their comparison.
pub proof fn lemma_lex_antisymmetric(a: Seq<char>, b: Seq<char>)
    ensures
        lex_sign(a, b) == -lex_sign(b, a),
    decreases a.len(),
{
    if a.len() > 0 && b.len() > 0 && a[0] == b[0] {
        lemma_lex_antisymmetric(a.drop_first(), b.drop_first());
    }
}

/// Texts that compare equal are equal.
pub proof fn lemma_lex_zero_equal(a: Seq<char>, b: Seq<char>)
    requires
        lex_sign(a, b) == 0,
    ensures
        a == b,
    decreases a.len(),
{
    if a.len() > 0 && b.len() > 0 {
        lemma_lex_zero_equal(a.drop_first(), b.drop_first());
        assert(a =~= seq![a[0]] + a.drop_first());
        assert(b =~= seq![b[0]] + b.drop_first());
    } else {
        assert(a =~= b);
    }
}

/// The order of texts is transitive.
pub proof fn lemma_lex_transitive(a: Seq<char>, b: Seq<char>, c: Seq<char>)
    requires
        lex_sign(a, b) <= 0,
        lex_sign(b, c) <= 0,
    ensures
        lex_sign(a, c) <= 0,
    decreases a.len(),
{
    if a.len() > 0 && b.len() > 0 && c.len() > 0 && a[0] == b[0] && b[0] == c[0] {
        lemma_lex_transitive(a.drop_first(), b.drop_first(), c.drop_first());
    }
}

} // verus!
