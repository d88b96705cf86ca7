//! Precedence of semantic-version pre-release identifiers: the dot-separated
//! identifiers are compared one at a time from the left, numeric identifiers as
//! numbers, and numeric identifiers come before alphanumeric ones; when all
//! compared identifiers are equal, the longer list comes after.
use vstd::prelude::*;
use crate::text::{
    all_digits, chars_of, compare_chars, digit_value, digits_value, is_digit, lemma_lex_antisymmetric,
    lemma_lex_transitive, lemma_lex_zero_equal, lemma_split_nonempty, lex_sign, slice_chars, split_chars,
    split_spec,
};

verus! {

/// An identifier made of ASCII digits only.
pub open spec fn numeric_ident(s: Seq<char>) -> bool {
    s.len() > 0 && all_digits(s)
}

/// Sign of the comparison of two natural numbers.
pub open spec fn nat_sign(a: nat, b: nat) -> int {
    if a < b { -1 } else if a > b { 1 } else { 0 }
}

/// Precedence of two identifiers: numeric identifiers compare as numbers (two
/// spellings of one number, such as `1` and `01`, which semver does not allow,
/// compare as text), a numeric identifier comes before an alphanumeric one, and
/// alphanumeric identifiers compare as text in character order.
pub open spec fn ident_sign(x: Seq<char>, y: Seq<char>) -> int {
    if numeric_ident(x) && numeric_ident(y) {
        if digits_value(x) != digits_value(y) {
            nat_sign(digits_value(x), digits_value(y))
        } else {
            lex_sign(x, y)
        }
    } else if numeric_ident(x) {
        -1
    } else if numeric_ident(y) {
        1
    } else {
        lex_sign(x, y)
    }
}

/// Precedence of two lists of identifiers: the first identifiers that differ
/// decide; when one list is a prefix of the other, the shorter comes first.
pub open spec fn idents_sign(xs: Seq<Seq<char>>, ys: Seq<Seq<char>>) -> int
    decreases xs.len(),
{
    if xs.len() == 0 {
        if ys.len() == 0 { 0 } else { -1 }
    } else if ys.len() == 0 {
        1
    } else if ident_sign(xs[0], ys[0]) != 0 {
        ident_sign(xs[0], ys[0])
    } else {
        idents_sign(xs.drop_first(), ys.drop_first())
    }
}

/// Precedence of two pre-release texts: negative, zero or positive as `x` comes
/// before, is the same as, or comes after `y`.
pub open spec fn pre_sign(x: Seq<char>, y: Seq<char>) -> int {
    idents_sign(split_spec(x, '.'), split_spec(y, '.'))
}

/// Ten to the power `n`.
pub open spec fn pow10(n: nat) -> nat
    decreases n,
{
    if n == 0 { 1 } else { 10 * pow10((n - 1) as nat) }
}

/// The pieces joined back with the separator between them.
pub open spec fn join_pieces(parts: Seq<Seq<char>>, sep: char) -> Seq<char>
    decreases parts.len(),
{
    if parts.len() == 0 {
        Seq::empty()
    } else if parts.len() == 1 {
        parts[0]
    } else {
        join_pieces(parts.drop_last(), sep) + seq![sep] + parts.last()
    }
}

/// Sign of the comparison of two characters.
pub open spec fn char_sign(a: char, b: char) -> int {
    if a < b { -1 } else if a > b { 1 } else { 0 }
}

// ===== Lemmas =====

proof fn lemma_join_extend_last(p: Seq<Seq<char>>, sep: char, c: char)
    requires
        p.len() >= 1,
    ensures
        join_pieces(p.update(p.len() - 1, p.last().push(c)), sep) == join_pieces(p, sep).push(c),
{
    let q = p.update(p.len() - 1, p.last().push(c));
    if p.len() == 1 {
        assert(q[0] == p[0].push(c));
    } else {
        assert(q.drop_last() =~= p.drop_last());
        assert(q.last() == p.last().push(c));
        let j = join_pieces(p.drop_last(), sep);
        assert(j + seq![sep] + p.last().push(c) =~= (j + seq![sep] + p.last()).push(c));
    }
}

/// Joining the pieces of a split gives the text back.
proof fn lemma_join_split(s: Seq<char>, sep: char)
    ensures
        join_pieces(split_spec(s, sep), sep) == s,
    decreases s.len(),
{
    if s.len() > 0 {
        let d = s.drop_last();
        lemma_join_split(d, sep);
        lemma_split_nonempty(d, sep);
        let prev = split_spec(d, sep);
        if s.last() == sep {
            let q = prev.push(Seq::<char>::empty());
            assert(q.drop_last() =~= prev);
            assert(s =~= d + seq![sep] + Seq::<char>::empty());
            assert(join_pieces(q, sep) == join_pieces(prev, sep) + seq![sep] + Seq::<char>::empty());
        } else {
            lemma_join_extend_last(prev, sep, s.last());
            assert(s =~= d.push(s.last()));
        }
    } else {
        assert(split_spec(s, sep) == seq![Seq::<char>::empty()]);
        assert(s =~= Seq::<char>::empty());
    }
}

/// Identifier precedence is an order: swapping negates it, equal precedence means
/// equal identifiers, and it is transitive.
proof fn lemma_ident_order(a: Seq<char>, b: Seq<char>, c: Seq<char>)
    ensures
        ident_sign(a, b) == -ident_sign(b, a),
        ident_sign(a, b) == 0 ==> a == b,
        ident_sign(a, b) <= 0 && ident_sign(b, c) <= 0 ==> ident_sign(a, c) <= 0,
{
    lemma_lex_antisymmetric(a, b);
    if lex_sign(a, b) == 0 {
        lemma_lex_zero_equal(a, b);
    }
    if lex_sign(a, b) <= 0 && lex_sign(b, c) <= 0 {
        lemma_lex_transitive(a, b, c);
    }
}

/// Precedence of identifier lists is an order.
proof fn lemma_idents_order(xs: Seq<Seq<char>>, ys: Seq<Seq<char>>, zs: Seq<Seq<char>>)
    ensures
        idents_sign(xs, ys) == -idents_sign(ys, xs),
        idents_sign(xs, ys) == 0 ==> xs == ys,
        idents_sign(xs, ys) <= 0 && idents_sign(ys, zs) <= 0 ==> idents_sign(xs, zs) <= 0,
    decreases xs.len(),
{
    if xs.len() > 0 && ys.len() > 0 {
        lemma_ident_order(xs[0], ys[0], xs[0]);
        if zs.len() > 0 {
            lemma_ident_order(xs[0], ys[0], zs[0]);
            lemma_ident_order(xs[0], zs[0], ys[0]);
            lemma_ident_order(ys[0], zs[0], xs[0]);
            lemma_idents_order(xs.drop_first(), ys.drop_first(), zs.drop_first());
        } else {
            lemma_idents_order(xs.drop_first(), ys.drop_first(), ys.drop_first());
        }
        if idents_sign(xs, ys) == 0 {
            assert(xs =~= seq![xs[0]] + xs.drop_first());
            assert(ys =~= seq![ys[0]] + ys.drop_first());
        }
    } else if xs.len() == 0 && ys.len() == 0 {
        assert(xs =~= ys);
    }
}

/// Pre-release precedence is an order: swapping two texts negates it, texts of
/// equal precedence are the same text, and it is transitive.
pub proof fn lemma_pre_order(x: Seq<char>, y: Seq<char>, z: Seq<char>)
    ensures
        pre_sign(x, y) == -pre_sign(y, x),
        pre_sign(x, y) == 0 ==> x == y,
        pre_sign(x, y) <= 0 && pre_sign(y, z) <= 0 ==> pre_sign(x, z) <= 0,
{
    lemma_idents_order(split_spec(x, '.'), split_spec(y, '.'), split_spec(z, '.'));
    if pre_sign(x, y) == 0 {
        lemma_join_split(x, '.');
        lemma_join_split(y, '.');
    }
}

proof fn lemma_pow10_mono(m: nat, n: nat)
    requires
        m <= n,
    ensures
        pow10(m) <= pow10(n),
        pow10(m) >= 1,
    decreases n,
{
    if m < n {
        lemma_pow10_mono(m, (n - 1) as nat);
    } else if n > 0 {
        lemma_pow10_mono((n - 1) as nat, (n - 1) as nat);
    }
}

proof fn lemma_all_digits_prefix(s: Seq<char>)
    requires
        s.len() > 0,
        all_digits(s),
    ensures
        all_digits(s.drop_last()),
        is_digit(s.last()),
        digit_value(s.last()) <= 9,
{
    assert forall|i: int| 0 <= i < s.drop_last().len() implies is_digit(#[trigger] s.drop_last()[i]) by {
        assert(s.drop_last()[i] == s[i]);
    }
    assert(is_digit(s[s.len() - 1]));
}

/// A digit string is below ten to the power of its length.
proof fn lemma_digits_upper(s: Seq<char>)
    requires
        all_digits(s),
    ensures
        digits_value(s) < pow10(s.len()),
    decreases s.len(),
{
    if s.len() > 0 {
        lemma_all_digits_prefix(s);
        lemma_digits_upper(s.drop_last());
    }
}

/// A digit string that does not start with zero is at least ten to the power of
/// its length less one.
proof fn lemma_digits_lower(s: Seq<char>)
    requires
        all_digits(s),
        s.len() > 0,
        s[0] != '0',
    ensures
        digits_value(s) >= pow10((s.len() - 1) as nat),
    decreases s.len(),
{
    lemma_all_digits_prefix(s);
    if s.len() == 1 {
        assert(s.drop_last().len() == 0);
        assert(is_digit(s[0]));
    } else {
        assert(s.drop_last()[0] == s[0]);
        lemma_digits_lower(s.drop_last());
    }
}

/// Leading zeros do not change the value of a digit string.
proof fn lemma_digits_skip_zeros(s: Seq<char>, k: int)
    requires
        0 <= k <= s.len(),
        forall|i: int| 0 <= i < k ==> s[i] == '0',
    ensures
        digits_value(s) == digits_value(s.skip(k)),
    decreases s.len(),
{
    if s.len() == 0 {
        assert(s.skip(k) =~= s);
    } else {
        let p = s.drop_last();
        if k == s.len() {
            lemma_digits_skip_zeros(p, k - 1);
            assert(p.skip(k - 1).len() == 0);
            assert(s.skip(k).len() == 0);
            assert(s.last() == '0');
        } else {
            lemma_digits_skip_zeros(p, k);
            assert(s.skip(k).drop_last() =~= p.skip(k));
            assert(s.skip(k).last() == s.last());
        }
    }
}

/// For texts of one length, the comparison is decided by all but the last
/// character, or else by the last.
proof fn lemma_lex_last(a: Seq<char>, b: Seq<char>)
    requires
        a.len() == b.len(),
        a.len() > 0,
    ensures
        lex_sign(a, b) == if lex_sign(a.drop_last(), b.drop_last()) != 0 {
            lex_sign(a.drop_last(), b.drop_last())
        } else {
            char_sign(a.last(), b.last())
        },
    decreases a.len(),
{
    let da = a.drop_last();
    let db = b.drop_last();
    if a.len() == 1 {
        assert(da.len() == 0 && db.len() == 0);
        assert(lex_sign(da, db) == 0);
        assert(a.last() == a[0] && b.last() == b[0]);
        assert(lex_sign(a.drop_first(), b.drop_first()) == 0);
    } else if a[0] != b[0] {
        assert(da[0] == a[0] && db[0] == b[0]);
        assert(lex_sign(da, db) == char_sign(a[0], b[0]));
    } else {
        let fa = a.drop_first();
        let fb = b.drop_first();
        lemma_lex_last(fa, fb);
        assert(fa.drop_last() =~= da.drop_first());
        assert(fb.drop_last() =~= db.drop_first());
        assert(da[0] == a[0] && db[0] == b[0]);
        assert(lex_sign(da, db) == lex_sign(da.drop_first(), db.drop_first()));
        assert(fa.last() == a.last() && fb.last() == b.last());
        assert(lex_sign(a, b) == lex_sign(fa, fb));
    }
}

/// Digit strings of one length compare as text as they compare as numbers.
proof fn lemma_digits_lex(a: Seq<char>, b: Seq<char>)
    requires
        a.len() == b.len(),
        all_digits(a),
        all_digits(b),
    ensures
        lex_sign(a, b) == nat_sign(digits_value(a), digits_value(b)),
    decreases a.len(),
{
    if a.len() > 0 {
        lemma_all_digits_prefix(a);
        lemma_all_digits_prefix(b);
        lemma_digits_lex(a.drop_last(), b.drop_last());
        lemma_lex_last(a, b);
    }
}

/// Lists with a common prefix compare as what follows it.
proof fn lemma_idents_common_prefix(xs: Seq<Seq<char>>, ys: Seq<Seq<char>>, i: int)
    requires
        0 <= i <= xs.len(),
        i <= ys.len(),
        xs.take(i) == ys.take(i),
    ensures
        idents_sign(xs, ys) == idents_sign(xs.skip(i), ys.skip(i)),
    decreases i,
{
    if i == 0 {
        assert(xs.skip(0) =~= xs);
        assert(ys.skip(0) =~= ys);
    } else {
        assert(xs[0] == xs.take(i)[0] && ys[0] == ys.take(i)[0]);
        lemma_ident_order(xs[0], xs[0], xs[0]);
        assert(xs.drop_first().take(i - 1) =~= xs.take(i).drop_first());
        assert(ys.drop_first().take(i - 1) =~= ys.take(i).drop_first());
        lemma_idents_common_prefix(xs.drop_first(), ys.drop_first(), i - 1);
        assert(xs.drop_first().skip(i - 1) =~= xs.skip(i));
        assert(ys.drop_first().skip(i - 1) =~= ys.skip(i));
    }
}

/// How two identifiers compare: numeric ones by their numbers, a numeric one
/// before an alphanumeric one, alphanumeric ones as text in character order.
pub proof fn lemma_identifier_precedence(x: Seq<char>, y: Seq<char>)
    ensures
        numeric_ident(x) && numeric_ident(y) && digits_value(x) != digits_value(y) ==> (ident_sign(x, y) < 0
            <==> digits_value(x) < digits_value(y)) && ident_sign(x, y) != 0,
        numeric_ident(x) && !numeric_ident(y) ==> ident_sign(x, y) < 0,
        !numeric_ident(x) && numeric_ident(y) ==> ident_sign(x, y) > 0,
        !numeric_ident(x) && !numeric_ident(y) ==> ident_sign(x, y) == lex_sign(x, y),
{
}

/// The first identifiers that differ decide the precedence of two pre-release
/// texts.
pub proof fn lemma_pre_first_difference(x: Seq<char>, y: Seq<char>, i: int)
    requires
        0 <= i < split_spec(x, '.').len(),
        i < split_spec(y, '.').len(),
        split_spec(x, '.').take(i) == split_spec(y, '.').take(i),
        split_spec(x, '.')[i] != split_spec(y, '.')[i],
    ensures
        pre_sign(x, y) == ident_sign(split_spec(x, '.')[i], split_spec(y, '.')[i]),
        pre_sign(x, y) != 0,
{
    let xs = split_spec(x, '.');
    let ys = split_spec(y, '.');
    lemma_idents_common_prefix(xs, ys, i);
    assert(xs.skip(i)[0] == xs[i] && ys.skip(i)[0] == ys[i]);
    lemma_ident_order(xs[i], ys[i], xs[i]);
}

/// A pre-release text whose identifiers are a proper prefix of another's comes
/// first.
pub proof fn lemma_pre_prefix(x: Seq<char>, y: Seq<char>)
    requires
        split_spec(x, '.').len() < split_spec(y, '.').len(),
        split_spec(x, '.') == split_spec(y, '.').take(split_spec(x, '.').len() as int),
    ensures
        pre_sign(x, y) < 0,
{
    let xs = split_spec(x, '.');
    let ys = split_spec(y, '.');
    let n = xs.len() as int;
    assert(xs.take(n) =~= xs);
    assert(ys.take(n).take(n) =~= ys.take(n));
    lemma_idents_common_prefix(xs, ys, n);
    assert(xs.skip(n).len() == 0);
}

// ===== Executable comparison =====

/// Position of the first character of `s` that is not `0` (its length if none).
fn first_nonzero(s: &Vec<char>) -> (k: usize)
    ensures
        k <= s@.len(),
        forall|i: int| 0 <= i < k ==> s@[i] == '0',
        k < s@.len() ==> s@[k as int] != '0',
{
    let mut k: usize = 0;
    while k < s.len()
        invariant
            k <= s@.len(),
            forall|i: int| 0 <= i < k ==> s@[i] == '0',
        decreases s.len() - k,
    {
        if s[k] != '0' {
            return k;
        }
        k = k + 1;
    }
    k
}

/// Compares two digit strings as numbers: -1, 0 or 1.
fn compare_numbers(x: &Vec<char>, y: &Vec<char>) -> (r: i8)
    requires
        all_digits(x@),
        all_digits(y@),
    ensures
        r as int == nat_sign(digits_value(x@), digits_value(y@)),
{
    let i: usize = first_nonzero(x);
    let j: usize = first_nonzero(y);
    let xs = slice_chars(x, i, x.len());
    let ys = slice_chars(y, j, y.len());
    proof {
        lemma_digits_skip_zeros(x@, i as int);
        lemma_digits_skip_zeros(y@, j as int);
        assert(xs@ =~= x@.skip(i as int));
        assert(ys@ =~= y@.skip(j as int));
        assert(all_digits(xs@)) by {
            assert forall|k: int| 0 <= k < xs@.len() implies is_digit(#[trigger] xs@[k]) by {
                assert(xs@[k] == x@[i + k]);
            }
        }
        assert(all_digits(ys@)) by {
            assert forall|k: int| 0 <= k < ys@.len() implies is_digit(#[trigger] ys@[k]) by {
                assert(ys@[k] == y@[j + k]);
            }
        }
        lemma_digits_upper(xs@);
        lemma_digits_upper(ys@);
    }
    if xs.len() < ys.len() {
        proof {
            lemma_digits_lower(ys@);
            lemma_pow10_mono(xs@.len(), (ys@.len() - 1) as nat);
        }
        -1
    } else if xs.len() > ys.len() {
        proof {
            lemma_digits_lower(xs@);
            lemma_pow10_mono(ys@.len(), (xs@.len() - 1) as nat);
        }
        1
    } else {
        proof { lemma_digits_lex(xs@, ys@); }
        compare_chars(&xs, &ys)
    }
}

/// Whether an identifier is numeric.
fn is_numeric(s: &Vec<char>) -> (r: bool)
    ensures
        r == numeric_ident(s@),
{
    if s.len() == 0 {
        return false;
    }
    let mut i: usize = 0;
    while i < s.len()
        invariant
            i <= s@.len(),
            forall|k: int| 0 <= k < i ==> is_digit(#[trigger] s@[k]),
        decreases s.len() - i,
    {
        let c = s[i];
        if !('0' <= c && c <= '9') {
            return false;
        }
        i = i + 1;
    }
    true
}

/// Compares two identifiers by precedence: -1, 0 or 1.
fn compare_ident(x: &Vec<char>, y: &Vec<char>) -> (r: i8)
    ensures
        r as int == ident_sign(x@, y@),
{
    let nx = is_numeric(x);
    let ny = is_numeric(y);
    if nx && ny {
        let s: i8 = compare_numbers(x, y);
        if s != 0 {
            s
        } else {
            compare_chars(x, y)
        }
    } else if nx {
        -1
    } else if ny {
        1
    } else {
        compare_chars(x, y)
    }
}

/// Compares two pre-release texts by semver precedence: -1, 0 or 1.
pub fn compare_pre_release(a: &str, b: &str) -> (r: i8)
    ensures
        r as int == pre_sign(a@, b@),
{
    let xs = split_chars(&chars_of(a), '.');
    let ys = split_chars(&chars_of(b), '.');
    let ghost xv = split_spec(a@, '.');
    let ghost yv = split_spec(b@, '.');
    assert(xv.skip(0) =~= xv);
    assert(yv.skip(0) =~= yv);
    let mut i: usize = 0;
    while i < xs.len() && i < ys.len()
        invariant
            i <= xs@.len(),
            i <= ys@.len(),
            xs@.len() == xv.len(),
            ys@.len() == yv.len(),
            forall|k: int| 0 <= k < xs@.len() ==> #[trigger] xs@[k]@ == xv[k],
            forall|k: int| 0 <= k < ys@.len() ==> #[trigger] ys@[k]@ == yv[k],
            pre_sign(a@, b@) == idents_sign(xv.skip(i as int), yv.skip(i as int)),
        decreases xs.len() - i,
    {
        let s: i8 = compare_ident(&xs[i], &ys[i]);
        assert(xv.skip(i as int)[0] == xv[i as int]);
        assert(yv.skip(i as int)[0] == yv[i as int]);
        if s != 0 {
            return s;
        }
        assert(xv.skip(i as int).drop_first() =~= xv.skip(i + 1));
        assert(yv.skip(i as int).drop_first() =~= yv.skip(i + 1));
        i = i + 1;
    }
    if i < ys.len() {
        -1
    } else if i < xs.len() {
        1
    } else {
        0
    }
}

} // verus!
