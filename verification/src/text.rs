//! Character-level text handling with the meaning of the `str` methods that
//! the controller relies on (`split`, `lines`, `replace`, integer parsing and
//! decimal printing), each stated as a spec function over `Seq<char>`.

use vstd::prelude::*;
use vstd::string::StrSliceExecFns;

verus! {

/// The characters of `s`, in order.
pub fn chars_of(s: &str) -> (v: Vec<char>)
    ensures
        v@ == s@,
{
    broadcast use vstd::string::group_string_axioms;
    let mut v: Vec<char> = Vec::new();
    for c in it: s.chars()
        invariant
            v@ == it.seq().take(it.index() as int),
    {
        v.push(c);
    }
    v
}

/// The pieces of `s` between occurrences of `sep`, as `str::split` with a
/// one-character pattern yields them: there is always at least one piece, and
/// an occurrence at either end gives an empty piece there.
pub open spec fn split_spec(s: Seq<char>, sep: char) -> Seq<Seq<char>>
    decreases s.len(),
{
    if s.len() == 0 {
        seq![Seq::<char>::empty()]
    } else {
        let init = split_spec(s.drop_last(), sep);
        if s.last() == sep {
            init.push(Seq::<char>::empty())
        } else {
            init.update(init.len() - 1, init.last().push(s.last()))
        }
    }
}

/// A split has at least one piece.
pub proof fn lemma_split_nonempty(s: Seq<char>, sep: char)
    ensures
        split_spec(s, sep).len() >= 1,
    decreases s.len(),
{
    if s.len() > 0 {
        lemma_split_nonempty(s.drop_last(), sep);
    }
}

/// `String::from_iter` over the characters of `v` (`collect`): the string
/// spelled by them.
#[verifier::external_body]
pub(crate) fn string_of_chars(v: &Vec<char>) -> (s: String)
    ensures
        s@ == v@,
{
    v.iter().collect()
}

/// The character sequences held by a vector of character vectors.
pub open spec fn pieces_view(v: Seq<Vec<char>>) -> Seq<Seq<char>> {
    v.map_values(|p: Vec<char>| p@)
}

/// Splits `s` at every occurrence of `sep`.
pub fn split_chars(s: &Vec<char>, sep: char) -> (pieces: Vec<Vec<char>>)
    ensures
        pieces_view(pieces@) == split_spec(s@, sep),
{
    let mut pieces: Vec<Vec<char>> = Vec::new();
    let mut cur: Vec<char> = Vec::new();
    let mut i: usize = 0;
    while i < s.len()
        invariant
            i <= s.len(),
            pieces_view(pieces@).push(cur@) == split_spec(s@.take(i as int), sep),
        decreases s.len() - i,
    {
        proof {
            assert(s@.take(i + 1).drop_last() =~= s@.take(i as int));
            lemma_split_nonempty(s@.take(i as int), sep);
        }
        let c = s[i];
        if c == sep {
            let done = cur;
            pieces.push(done);
            cur = Vec::new();
            assert(pieces_view(pieces@).push(cur@) =~= split_spec(s@.take(i + 1), sep));
        } else {
            cur.push(c);
            assert(pieces_view(pieces@).push(cur@) =~= split_spec(s@.take(i + 1), sep));
        }
        i = i + 1;
    }
    assert(s@.take(s.len() as int) =~= s@);
    pieces.push(cur);
    assert(pieces_view(pieces@) =~= split_spec(s@, sep));
    pieces
}


/// Text made of two parts free of a character is free of it.
pub proof fn lemma_concat_free(a: Seq<char>, b: Seq<char>, c: char)
    requires
        !a.contains(c),
        !b.contains(c),
    ensures
        !(a + b).contains(c),
{
    if (a + b).contains(c) {
        let k = choose|k: int| 0 <= k < (a + b).len() && (a + b)[k] == c;
        if k < a.len() {
            assert(a[k] == c);
        } else {
            assert(b[k - a.len()] == c);
        }
    }
}

/// Text free of the separator is a single piece.
pub proof fn lemma_split_no_sep(s: Seq<char>, sep: char)
    requires
        !s.contains(sep),
    ensures
        split_spec(s, sep) == seq![s],
{
    lemma_split_append(Seq::empty(), s, sep);
    lemma_split_nonempty(s, sep);
    assert(Seq::<char>::empty() + s =~= s);
}

/// Splitting text joined at a separator gives the pieces of both sides.
pub proof fn lemma_split_join(a: Seq<char>, b: Seq<char>, sep: char)
    ensures
        split_spec(a + seq![sep] + b, sep) == split_spec(a, sep) + split_spec(b, sep),
    decreases b.len(),
{
    lemma_split_nonempty(a, sep);
    if b.len() == 0 {
        assert(a + seq![sep] + b =~= a.push(sep));
        assert(a.push(sep).drop_last() =~= a);
        assert(split_spec(a, sep) + split_spec(b, sep) =~= split_spec(a, sep).push(Seq::empty()));
    } else {
        let b0 = b.drop_last();
        lemma_split_join(a, b0, sep);
        lemma_split_nonempty(b0, sep);
        let whole = a + seq![sep] + b;
        assert(whole.drop_last() =~= a + seq![sep] + b0);
        assert(whole.last() == b.last());
        let left = split_spec(a, sep);
        let right0 = split_spec(b0, sep);
        if b.last() == sep {
            assert(left + right0.push(Seq::empty()) =~= (left + right0).push(Seq::empty()));
        } else {
            assert(left + right0.update(right0.len() - 1, right0.last().push(b.last())) =~= (left
                + right0).update((left + right0).len() - 1, (left + right0).last().push(b.last())));
        }
    }
}

/// `s` without one carriage return at its end, where it has one.
pub open spec fn strip_cr(s: Seq<char>) -> Seq<char> {
    if s.len() > 0 && s.last() == '\r' {
        s.drop_last()
    } else {
        s
    }
}

/// The lines of `s` as `str::lines` yields them: split at `\n`, a `\r`
/// directly before a `\n` dropped, and a final line ending optional, so that
/// an empty text has no lines at all.
pub open spec fn lines_spec(s: Seq<char>) -> Seq<Seq<char>> {
    if s.len() == 0 {
        Seq::empty()
    } else {
        let pieces = split_spec(s, '\n');
        let ended = pieces.drop_last().map_values(|p: Seq<char>| strip_cr(p));
        if s.last() == '\n' {
            ended
        } else {
            ended.push(pieces.last())
        }
    }
}

/// The last piece of a split is empty exactly when the text ends with the
/// separator or is empty.
pub proof fn lemma_split_last_empty(s: Seq<char>, sep: char)
    ensures
        (split_spec(s, sep).last().len() == 0) <==> (s.len() == 0 || s.last() == sep),
    decreases s.len(),
{
    if s.len() > 0 {
        lemma_split_nonempty(s.drop_last(), sep);
    }
}

/// Appending text free of the separator extends the last piece.
pub proof fn lemma_split_append(a: Seq<char>, b: Seq<char>, sep: char)
    requires
        !b.contains(sep),
    ensures
        split_spec(a + b, sep).last() == split_spec(a, sep).last() + b,
        split_spec(a + b, sep).len() == split_spec(a, sep).len(),
    decreases b.len(),
{
    if b.len() == 0 {
        assert(a + b =~= a);
    } else {
        let b0 = b.drop_last();
        assert(!b0.contains(sep)) by {
            if b0.contains(sep) {
                let k = choose|k: int| 0 <= k < b0.len() && b0[k] == sep;
                assert(b[k] == sep);
            }
        }
        assert(b[b.len() - 1] != sep);
        lemma_split_append(a, b0, sep);
        assert((a + b).drop_last() =~= a + b0);
        lemma_split_nonempty(a + b0, sep);
        assert(split_spec(a, sep).last() + b =~= (split_spec(a, sep).last() + b0).push(b.last()));
    }
}

fn strip_cr_vec(v: &mut Vec<char>)
    ensures
        final(v)@ == strip_cr(old(v)@),
{
    let n = v.len();
    if n > 0 && v[n - 1] == '\r' {
        v.pop();
        assert(v@ =~= strip_cr(old(v)@));
    }
}

/// The lines of `s`.
pub fn lines_of(s: &Vec<char>) -> (lines: Vec<Vec<char>>)
    ensures
        pieces_view(lines@) == lines_spec(s@),
{
    let mut out: Vec<Vec<char>> = Vec::new();
    let mut cur: Vec<char> = Vec::new();
    let mut i: usize = 0;
    while i < s.len()
        invariant
            i <= s.len(),
            pieces_view(out@) == split_spec(s@.take(i as int), '\n').drop_last().map_values(
                |p: Seq<char>| strip_cr(p),
            ),
            cur@ == split_spec(s@.take(i as int), '\n').last(),
        decreases s.len() - i,
    {
        proof {
            assert(s@.take(i + 1).drop_last() =~= s@.take(i as int));
            lemma_split_nonempty(s@.take(i as int), '\n');
        }
        let c = s[i];
        if c == '\n' {
            let ghost init = split_spec(s@.take(i as int), '\n');
            let ghost out0 = pieces_view(out@);
            let mut done = cur;
            strip_cr_vec(&mut done);
            out.push(done);
            cur = Vec::new();
            assert(split_spec(s@.take(i + 1), '\n').drop_last() =~= init);
            assert(pieces_view(out@) =~= out0.push(strip_cr(init.last())));
            assert(init.map_values(|p: Seq<char>| strip_cr(p)) =~= init.drop_last().map_values(
                |p: Seq<char>| strip_cr(p),
            ).push(strip_cr(init.last())));
            assert(pieces_view(out@) =~= split_spec(s@.take(i + 1), '\n').drop_last().map_values(
                |p: Seq<char>| strip_cr(p),
            ));
        } else {
            cur.push(c);
            assert(pieces_view(out@) =~= split_spec(s@.take(i + 1), '\n').drop_last().map_values(
                |p: Seq<char>| strip_cr(p),
            ));
        }
        i = i + 1;
    }
    assert(s@.take(s.len() as int) =~= s@);
    proof {
        lemma_split_last_empty(s@, '\n');
        lemma_split_nonempty(s@, '\n');
    }
    if cur.len() > 0 {
        out.push(cur);
    }
    assert(pieces_view(out@) =~= lines_spec(s@));
    out
}


/// An ASCII decimal digit.
pub open spec fn is_digit(c: char) -> bool {
    '0' <= c && c <= '9'
}

pub open spec fn digit_value(c: char) -> nat {
    (c as int - '0' as int) as nat
}

pub open spec fn all_digits(s: Seq<char>) -> bool {
    forall|i: int| 0 <= i < s.len() ==> is_digit(#[trigger] s[i])
}

/// The number that a string of decimal digits denotes.
pub open spec fn digits_value(s: Seq<char>) -> nat
    decreases s.len(),
{
    if s.len() == 0 {
        0
    } else {
        digits_value(s.drop_last()) * 10 + digit_value(s.last())
    }
}

/// What `str::parse` gives for an unsigned integer type whose largest value
/// is `max`: an optional `+`, then one or more ASCII digits, denoting a value
/// no greater than `max`; anything else is an error.
pub open spec fn parse_unsigned_spec(s: Seq<char>, bound: nat) -> Option<nat> {
    let digits = if s.len() > 0 && s[0] == '+' {
        s.drop_first()
    } else {
        s
    };
    if digits.len() > 0 && all_digits(digits) && digits_value(digits) <= bound {
        Some(digits_value(digits))
    } else {
        None
    }
}

proof fn lemma_digits_value_monotone(s: Seq<char>, i: int)
    requires
        0 <= i <= s.len(),
    ensures
        digits_value(s.take(i)) <= digits_value(s),
    decreases s.len() - i,
{
    if i < s.len() {
        lemma_digits_value_monotone(s, i + 1);
        assert(s.take(i + 1).drop_last() =~= s.take(i));
    } else {
        assert(s.take(i) =~= s);
    }
}

/// Parses `s` as a decimal number of at most `max`, as `str::parse` does for
/// the unsigned integer type whose largest value is `max`.
pub fn parse_unsigned(s: &Vec<char>, max: u64) -> (res: Option<u64>)
    ensures
        res is Some <==> parse_unsigned_spec(s@, max as nat) is Some,
        res is Some ==> res->0 as nat == parse_unsigned_spec(s@, max as nat)->0,
{
    let n = s.len();
    let start: usize = if n > 0 && s[0] == '+' { 1 } else { 0 };
    let ghost digits = if s@.len() > 0 && s@[0] == '+' { s@.drop_first() } else { s@ };
    assert(digits =~= s@.subrange(start as int, n as int));
    if start >= n {
        assert(digits.len() == 0);
        return None;
    }
    let mut acc: u64 = 0;
    let mut i: usize = start;
    while i < n
        invariant
            start <= i <= n == s.len(),
            digits =~= s@.subrange(start as int, n as int),
            digits == (if s@.len() > 0 && s@[0] == '+' { s@.drop_first() } else { s@ }),
            all_digits(s@.subrange(start as int, i as int)),
            acc == digits_value(s@.subrange(start as int, i as int)),
            acc <= max,
        decreases n - i,
    {
        let c = s[i];
        assert(s@.subrange(start as int, i + 1).drop_last() =~= s@.subrange(start as int, i as int));
        if c < '0' || c > '9' {
            assert(digits[i - start] == c);
            assert(!is_digit(digits[i - start]));
            assert(!all_digits(digits));
            return None;
        }
        let d: u64 = (c as u32 - '0' as u32) as u64;
        let next: u128 = acc as u128 * 10 + d as u128;
        if next > max as u128 {
            proof {
                assert(digits.take(i + 1 - start) =~= s@.subrange(start as int, i + 1));
                lemma_digits_value_monotone(digits, i + 1 - start);
            }
            return None;
        }
        acc = next as u64;
        i = i + 1;
    }
    Some(acc)
}

/// The decimal digit character for `d < 10`.
pub open spec fn digit_char(d: nat) -> char {
    if d == 0 {
        '0'
    } else if d == 1 {
        '1'
    } else if d == 2 {
        '2'
    } else if d == 3 {
        '3'
    } else if d == 4 {
        '4'
    } else if d == 5 {
        '5'
    } else if d == 6 {
        '6'
    } else if d == 7 {
        '7'
    } else if d == 8 {
        '8'
    } else {
        '9'
    }
}

/// The decimal representation of `n`, as `Display` prints an unsigned
/// integer: no sign, no leading zeros.
pub open spec fn decimal_spec(n: nat) -> Seq<char>
    decreases n,
{
    if n < 10 {
        seq![digit_char(n)]
    } else {
        decimal_spec(n / 10).push(digit_char(n % 10))
    }
}

fn digit_str(d: u64) -> (s: &'static str)
    requires
        d < 10,
    ensures
        s@ == seq![digit_char(d as nat)],
{
    proof {
        reveal_strlit("0");
        reveal_strlit("1");
        reveal_strlit("2");
        reveal_strlit("3");
        reveal_strlit("4");
        reveal_strlit("5");
        reveal_strlit("6");
        reveal_strlit("7");
        reveal_strlit("8");
        reveal_strlit("9");
    }
    match d {
        0 => "0",
        1 => "1",
        2 => "2",
        3 => "3",
        4 => "4",
        5 => "5",
        6 => "6",
        7 => "7",
        8 => "8",
        _ => "9",
    }
}

/// The decimal representation of `n`.
pub fn decimal(n: u64) -> (s: String)
    ensures
        s@ == decimal_spec(n as nat),
    decreases n,
{
    if n < 10 {
        String::from_str(digit_str(n))
    } else {
        let mut s = decimal(n / 10);
        s.append(digit_str(n % 10));
        s
    }
}

proof fn lemma_digit_char(d: nat)
    requires
        d < 10,
    ensures
        is_digit(digit_char(d)),
        digit_value(digit_char(d)) == d,
        digit_char(d) != '+',
{
    assert('0' as int == 48);
    assert('9' as int == 57);
}

/// Reading back what `decimal` printed gives the number again.
pub proof fn lemma_parse_decimal(n: nat, max: nat)
    requires
        n <= max,
    ensures
        parse_unsigned_spec(decimal_spec(n), max) == Some(n),
        decimal_spec(n).len() > 0,
        all_digits(decimal_spec(n)),
        digits_value(decimal_spec(n)) == n,
    decreases n,
{
    lemma_digit_char(n % 10);
    let s = decimal_spec(n);
    if n < 10 {
        assert(s.drop_last() =~= Seq::<char>::empty());
        assert(digits_value(s) == digits_value(s.drop_last()) * 10 + digit_value(s.last()));
        assert(digits_value(s.drop_last()) == 0);
    } else {
        lemma_parse_decimal(n / 10, max);
        assert(s.drop_last() =~= decimal_spec(n / 10));
        assert(digits_value(s) == digits_value(s.drop_last()) * 10 + digit_value(s.last()));
        assert forall|i: int| 0 <= i < s.len() implies is_digit(#[trigger] s[i]) by {
            if i < s.len() - 1 {
                assert(s[i] == decimal_spec(n / 10)[i]);
            }
        }
    }
    assert(s[0] != '+') by {
        assert(is_digit(s[0]));
    }
}


/// `s` with every occurrence of `pat` replaced by `rep`, occurrences taken
/// from the left and not overlapping, as `str::replace` does; an empty
/// pattern occurs before every character and at the end.
pub open spec fn replace_spec(s: Seq<char>, pat: Seq<char>, rep: Seq<char>) -> Seq<char>
    decreases s.len(),
{
    if pat.len() == 0 {
        if s.len() == 0 {
            rep
        } else {
            rep + seq![s[0]] + replace_spec(s.skip(1), pat, rep)
        }
    } else if s.len() == 0 {
        Seq::empty()
    } else if pat.len() <= s.len() && s.take(pat.len() as int) == pat {
        rep + replace_spec(s.skip(pat.len() as int), pat, rep)
    } else {
        seq![s[0]] + replace_spec(s.skip(1), pat, rep)
    }
}

/// Whether `pat` occurs in `s` at position `i`.
fn occurs_at(s: &Vec<char>, i: usize, pat: &Vec<char>) -> (res: bool)
    requires
        i <= s.len(),
    ensures
        res == (i + pat.len() <= s.len() && s@.subrange(i as int, i + pat.len()) == pat@),
{
    if pat.len() > s.len() - i {
        return false;
    }
    let mut k: usize = 0;
    while k < pat.len()
        invariant
            k <= pat.len(),
            i + pat.len() <= s.len(),
            forall|j: int| 0 <= j < k ==> s@[i + j] == pat@[j],
        decreases pat.len() - k,
    {
        if s[i + k] != pat[k] {
            assert(s@.subrange(i as int, i + pat.len())[k as int] != pat@[k as int]);
            return false;
        }
        k = k + 1;
    }
    assert(s@.subrange(i as int, i + pat.len()) =~= pat@);
    true
}

fn push_all(out: &mut Vec<char>, rep: &Vec<char>)
    ensures
        final(out)@ == old(out)@ + rep@,
{
    let mut k: usize = 0;
    while k < rep.len()
        invariant
            k <= rep.len(),
            out@ == old(out)@ + rep@.take(k as int),
        decreases rep.len() - k,
    {
        out.push(rep[k]);
        assert(rep@.take(k + 1) =~= rep@.take(k as int).push(rep@[k as int]));
        k = k + 1;
    }
    assert(rep@.take(rep.len() as int) =~= rep@);
}

/// `rep` before every character of `s` and at its end.
fn insert_between(s: &Vec<char>, rep: &Vec<char>) -> (res: Vec<char>)
    ensures
        res@ == replace_spec(s@, Seq::empty(), rep@),
{
    let ghost empty = Seq::<char>::empty();
    let mut out: Vec<char> = Vec::new();
    let mut i: usize = 0;
    assert(s@.skip(0) =~= s@);
    assert(out@ + replace_spec(s@, empty, rep@) =~= replace_spec(s@, empty, rep@));
    while i < s.len()
        invariant
            i <= s.len(),
            empty == Seq::<char>::empty(),
            out@ + replace_spec(s@.skip(i as int), empty, rep@) == replace_spec(s@, empty, rep@),
        decreases s.len() - i,
    {
        let ghost out0 = out@;
        let ghost rest = s@.skip(i as int);
        assert(rest.skip(1) =~= s@.skip(i + 1));
        assert(rest[0] == s@[i as int]);
        assert(replace_spec(rest, empty, rep@) == rep@ + seq![rest[0]] + replace_spec(
            rest.skip(1),
            empty,
            rep@,
        ));
        push_all(&mut out, rep);
        out.push(s[i]);
        assert(out0 + (rep@ + seq![rest[0]] + replace_spec(s@.skip(i + 1), empty, rep@)) =~= out@
            + replace_spec(s@.skip(i + 1), empty, rep@));
        i = i + 1;
    }
    assert(s@.skip(s.len() as int) =~= empty);
    push_all(&mut out, rep);
    out
}

/// `s` with every occurrence of `pat` replaced by `rep`.
pub fn replace_all(s: &Vec<char>, pat: &Vec<char>, rep: &Vec<char>) -> (res: Vec<char>)
    ensures
        res@ == replace_spec(s@, pat@, rep@),
{
    if pat.len() == 0 {
        assert(pat@ =~= Seq::<char>::empty());
        return insert_between(s, rep);
    }
    let mut out: Vec<char> = Vec::new();
    let mut i: usize = 0;
    assert(s@.skip(0) =~= s@);
    assert(out@ + replace_spec(s@, pat@, rep@) =~= replace_spec(s@, pat@, rep@));
    while i < s.len()
        invariant
            i <= s.len(),
            pat.len() > 0,
            out@ + replace_spec(s@.skip(i as int), pat@, rep@) == replace_spec(s@, pat@, rep@),
        decreases s.len() - i,
    {
        let ghost rest = s@.skip(i as int);
        if occurs_at(s, i, pat) {
            assert(rest.take(pat.len() as int) =~= s@.subrange(i as int, i + pat.len()));
            assert(rest.skip(pat.len() as int) =~= s@.skip(i + pat.len()));
            let ghost out0 = out@;
            push_all(&mut out, rep);
            assert(out0 + (rep@ + replace_spec(s@.skip(i + pat.len()), pat@, rep@)) =~= out@
                + replace_spec(s@.skip(i + pat.len()), pat@, rep@));
            i = i + pat.len();
        } else {
            assert(!(0 < pat@.len() <= rest.len() && rest.take(pat.len() as int) == pat@)) by {
                if 0 < pat@.len() <= rest.len() && rest.take(pat.len() as int) == pat@ {
                    assert(rest.take(pat.len() as int) =~= s@.subrange(i as int, i + pat.len()));
                }
            }
            assert(rest.skip(1) =~= s@.skip(i + 1));
            assert(rest[0] == s@[i as int]);
            let ghost out0 = out@;
            out.push(s[i]);
            assert(out0 + (seq![s@[i as int]] + replace_spec(s@.skip(i + 1), pat@, rep@)) =~= out@
                + replace_spec(s@.skip(i + 1), pat@, rep@));
            i = i + 1;
        }
    }
    assert(s@.skip(s.len() as int) =~= Seq::<char>::empty());
    assert(out@ + Seq::<char>::empty() =~= out@);
    out
}

/// Whether the characters of `v` spell `lit`.
pub fn chars_eq(v: &Vec<char>, lit: &str) -> (res: bool)
    ensures
        res == (v@ == lit@),
{
    let n = lit.unicode_len();
    if v.len() != n {
        return false;
    }
    let mut k: usize = 0;
    while k < n
        invariant
            k <= n == v.len() == lit@.len(),
            forall|j: int| 0 <= j < k ==> v@[j] == lit@[j],
        decreases n - k,
    {
        if v[k] != lit.get_char(k) {
            return false;
        }
        k = k + 1;
    }
    assert(v@ =~= lit@);
    true
}


/// A sign character.
pub open spec fn is_sign(c: char) -> bool {
    c == '+' || c == '-'
}

/// The exponent mark of a float, in either case.
pub open spec fn is_exp_mark(c: char) -> bool {
    c == 'e' || c == 'E'
}

/// `s` without one leading sign, where it has one.
pub open spec fn unsigned_part(s: Seq<char>) -> Seq<char> {
    if s.len() > 0 && is_sign(s[0]) {
        s.drop_first()
    } else {
        s
    }
}

/// The number of `.` in `s`.
pub open spec fn count_dots(s: Seq<char>) -> nat
    decreases s.len(),
{
    if s.len() == 0 {
        0
    } else {
        count_dots(s.drop_last()) + if s.last() == '.' {
            1nat
        } else {
            0nat
        }
    }
}

/// The mantissa of a float: digits with at most one `.` and at least one
/// digit (`Digit+ | Digit+ '.' Digit* | Digit* '.' Digit+`).
pub open spec fn mantissa_ok(m: Seq<char>) -> bool {
    &&& forall|i: int| 0 <= i < m.len() ==> is_digit(#[trigger] m[i]) || m[i] == '.'
    &&& count_dots(m) <= 1
    &&& count_dots(m) < m.len()
}

/// The exponent of a float after its mark: a sign, then one or more digits.
pub open spec fn exponent_ok(x: Seq<char>) -> bool {
    unsigned_part(x).len() > 0 && all_digits(unsigned_part(x))
}

/// The place of the first exponent mark in `s`, or its length where it has
/// none.
pub open spec fn first_exp(s: Seq<char>) -> nat
    decreases s.len(),
{
    if s.len() == 0 {
        0
    } else if is_exp_mark(s[0]) {
        0
    } else {
        1 + first_exp(s.drop_first())
    }
}

/// A float number without its sign: a mantissa, then optionally an exponent
/// mark and an exponent.
pub open spec fn number_ok(b: Seq<char>) -> bool {
    let k = first_exp(b) as int;
    mantissa_ok(b.take(k)) && (k == b.len() || exponent_ok(b.skip(k + 1)))
}

/// `c` is the letter `w`, in lower or upper case.
pub open spec fn same_letter(c: char, w: char) -> bool {
    c == w || ('a' <= w && w <= 'z' && c as u32 + 32 == w as u32)
}

/// `s` spells the lower-case word `w`, letters in either case.
pub open spec fn spells(s: Seq<char>, w: Seq<char>) -> bool {
    s.len() == w.len() && forall|i: int| 0 <= i < s.len() ==> same_letter(#[trigger] s[i], w[i])
}

/// The texts that `str::parse::<f32>` accepts, by the grammar that std
/// documents for it: an optional sign, then `inf`, `infinity` or `nan` in
/// any case, or a number with an optional exponent marked `e` or `E`.
pub open spec fn float_text_spec(s: Seq<char>) -> bool {
    let b = unsigned_part(s);
    ||| spells(b, seq!['i', 'n', 'f'])
    ||| spells(b, seq!['i', 'n', 'f', 'i', 'n', 'i', 't', 'y'])
    ||| spells(b, seq!['n', 'a', 'n'])
    ||| number_ok(b)
}

proof fn lemma_first_exp(s: Seq<char>, k: int)
    requires
        0 <= k <= s.len(),
        forall|i: int| 0 <= i < k ==> !is_exp_mark(#[trigger] s[i]),
        k == s.len() || is_exp_mark(s[k]),
    ensures
        first_exp(s) == k,
    decreases k,
{
    if k > 0 {
        let t = s.drop_first();
        assert forall|i: int| 0 <= i < k - 1 implies !is_exp_mark(#[trigger] t[i]) by {
            assert(t[i] == s[i + 1]);
        }
        if k - 1 < t.len() {
            assert(t[k - 1] == s[k]);
        }
        lemma_first_exp(t, k - 1);
        assert(!is_exp_mark(s[0]));
    }
}

/// Whether `s[lo..hi]` spells the lower-case word `w`.
fn spells_at(s: &Vec<char>, lo: usize, w: &str) -> (res: bool)
    requires
        lo <= s.len(),
    ensures
        res == spells(s@.subrange(lo as int, s.len() as int), w@),
{
    let n = w.unicode_len();
    if s.len() - lo != n {
        return false;
    }
    let ghost b = s@.subrange(lo as int, s.len() as int);
    let mut k: usize = 0;
    while k < n
        invariant
            k <= n == w@.len() == s.len() - lo,
            b == s@.subrange(lo as int, s.len() as int),
            forall|i: int| 0 <= i < k ==> same_letter(#[trigger] b[i], w@[i]),
        decreases n - k,
    {
        let c = s[lo + k];
        let l = w.get_char(k);
        assert(b[k as int] == c);
        let same = c == l || ('a' <= l && l <= 'z' && c as u32 == l as u32 - 32);
        assert(same == same_letter(b[k as int], w@[k as int]));
        if !same {
            return false;
        }
        k = k + 1;
    }
    true
}

/// Whether `s[lo..hi]` is the mantissa of a float.
fn mantissa_at(s: &Vec<char>, lo: usize, hi: usize) -> (res: bool)
    requires
        lo <= hi <= s.len(),
    ensures
        res == mantissa_ok(s@.subrange(lo as int, hi as int)),
{
    let ghost m = s@.subrange(lo as int, hi as int);
    let mut dots: usize = 0;
    let mut i: usize = lo;
    while i < hi
        invariant
            lo <= i <= hi <= s.len(),
            m == s@.subrange(lo as int, hi as int),
            dots == count_dots(m.take(i - lo)),
            dots <= i - lo,
            forall|j: int| 0 <= j < i - lo ==> is_digit(#[trigger] m[j]) || m[j] == '.',
        decreases hi - i,
    {
        let c = s[i];
        assert(m[i - lo] == c);
        assert(m.take(i - lo + 1).drop_last() =~= m.take(i - lo));
        if c == '.' {
            dots = dots + 1;
        } else if c < '0' || c > '9' {
            return false;
        }
        i = i + 1;
    }
    assert(m.take(hi - lo) =~= m);
    dots <= 1 && dots < hi - lo
}

/// Whether `s[lo..]` is the exponent of a float after its mark.
fn exponent_at(s: &Vec<char>, lo: usize) -> (res: bool)
    requires
        lo <= s.len(),
    ensures
        res == exponent_ok(s@.subrange(lo as int, s.len() as int)),
{
    let ghost x = s@.subrange(lo as int, s.len() as int);
    let n = s.len();
    let start: usize = if lo < n && (s[lo] == '+' || s[lo] == '-') { lo + 1 } else { lo };
    assert(unsigned_part(x) =~= s@.subrange(start as int, n as int));
    if start >= n {
        return false;
    }
    let mut i: usize = start;
    while i < n
        invariant
            start <= i <= n == s.len(),
            x == s@.subrange(lo as int, n as int),
            unsigned_part(x) =~= s@.subrange(start as int, n as int),
            forall|j: int| start <= j < i ==> is_digit(#[trigger] s@[j]),
        decreases n - i,
    {
        if s[i] < '0' || s[i] > '9' {
            assert(unsigned_part(x)[i - start] == s@[i as int]);
            assert(!is_digit(unsigned_part(x)[i - start]));
            return false;
        }
        i = i + 1;
    }
    assert forall|j: int| 0 <= j < unsigned_part(x).len() implies is_digit(
        #[trigger] unsigned_part(x)[j],
    ) by {
        assert(unsigned_part(x)[j] == s@[start + j]);
    }
    true
}

/// Whether `str::parse::<f32>` accepts the text spelled by `s`.
pub fn is_float_text(s: &Vec<char>) -> (ok: bool)
    ensures
        ok == float_text_spec(s@),
{
    let n = s.len();
    let lo: usize = if n > 0 && (s[0] == '+' || s[0] == '-') { 1 } else { 0 };
    let ghost b = unsigned_part(s@);
    assert(b =~= s@.subrange(lo as int, n as int));
    proof {
        reveal_strlit("inf");
        reveal_strlit("infinity");
        reveal_strlit("nan");
        assert("inf"@ =~= seq!['i', 'n', 'f']);
        assert("infinity"@ =~= seq!['i', 'n', 'f', 'i', 'n', 'i', 't', 'y']);
        assert("nan"@ =~= seq!['n', 'a', 'n']);
    }
    if spells_at(s, lo, "inf") || spells_at(s, lo, "infinity") || spells_at(s, lo, "nan") {
        return true;
    }
    let mut k: usize = lo;
    while k < n && !(s[k] == 'e' || s[k] == 'E')
        invariant
            lo <= k <= n == s.len(),
            b == s@.subrange(lo as int, n as int),
            forall|i: int| 0 <= i < k - lo ==> !is_exp_mark(#[trigger] b[i]),
        decreases n - k,
    {
        assert(b[k - lo] == s@[k as int]);
        k = k + 1;
    }
    proof {
        if k < n {
            assert(b[k - lo] == s@[k as int]);
        }
        lemma_first_exp(b, k - lo);
        assert(b.take(k - lo) =~= s@.subrange(lo as int, k as int));
        if k < n {
            assert(b.skip(k - lo + 1) =~= s@.subrange(k + 1, n as int));
        }
    }
    if !mantissa_at(s, lo, k) {
        return false;
    }
    k == n || exponent_at(s, k + 1)
}

} // verus!
