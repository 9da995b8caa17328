//! Text utilities shared by the key and QoS codecs: decimal rendering and
//! parsing of unsigned integers, name mangling, and separator-based
//! splitting/joining of segments.

use vstd::prelude::*;
use vstd::string::StringExecFns;
use vstd::string::StrSliceExecFns;

verus! {

/// Relies on `String::push`: appends the given character to the end of the
/// string.
pub assume_specification[ String::push ](s: &mut String, ch: char)
    ensures
        final(s)@ == old(s)@.push(ch),
;

pub open spec fn is_digit(c: char) -> bool {
    '0' <= c && c <= '9'
}

pub open spec fn digit_val(c: char) -> nat {
    ((c as u32) - 0x30) as nat
}

pub open spec fn digit_char(d: nat) -> char {
    ((0x30 + (d % 10)) as u8) as char
}

pub open spec fn all_digits(s: Seq<char>) -> bool {
    forall|i: int| 0 <= i < s.len() ==> is_digit(#[trigger] s[i])
}

/// The numeric value of a sequence of decimal digits, most significant first.
pub open spec fn dec_val(s: Seq<char>) -> nat
    decreases s.len(),
{
    if s.len() == 0 {
        0
    } else {
        dec_val(s.drop_last()) * 10 + digit_val(s.last())
    }
}

/// The canonical decimal rendering of `n`: no leading zeroes, and `0` is "0".
pub open spec fn dec_digits(n: nat) -> Seq<char>
    decreases n,
{
    if n < 10 {
        seq![digit_char(n)]
    } else {
        dec_digits(n / 10).push(digit_char(n % 10))
    }
}

/// What parsing a decimal string yields: the value when the string is
/// non-empty, all digits, and the value fits below the given bound.
pub open spec fn parse_dec(s: Seq<char>, bound: nat) -> Option<nat> {
    if s.len() > 0 && all_digits(s) && dec_val(s) <= bound {
        Some(dec_val(s))
    } else {
        None
    }
}

pub proof fn lemma_dec_digits_value(n: nat)
    ensures
        dec_digits(n).len() >= 1,
        all_digits(dec_digits(n)),
        dec_val(dec_digits(n)) == n,
    decreases n,
{
    if n < 10 {
        assert(dec_digits(n) =~= seq![digit_char(n)]);
        assert(dec_digits(n).drop_last() =~= Seq::<char>::empty());
        assert(dec_val(dec_digits(n)) == dec_val(Seq::<char>::empty()) * 10 + digit_val(
            digit_char(n),
        ));
    } else {
        lemma_dec_digits_value(n / 10);
        let s = dec_digits(n);
        assert(s.drop_last() =~= dec_digits(n / 10));
        assert(s.last() == digit_char(n % 10));
        assert(dec_val(s) == (n / 10) * 10 + n % 10);
    }
}

pub proof fn lemma_dec_digits_all_decimal(n: nat, c: char)
    requires
        dec_digits(n).contains(c),
    ensures
        is_digit(c),
    decreases n,
{
    if n < 10 {
    } else {
        let s = dec_digits(n);
        if c == s.last() {
        } else {
            let i = choose|i: int| 0 <= i < s.len() && s[i] == c;
            assert(dec_digits(n / 10)[i] == c);
            lemma_dec_digits_all_decimal(n / 10, c);
        }
    }
}

/// A longer digit string never has a smaller value.
proof fn lemma_dec_val_monotone(s: Seq<char>, i: int)
    requires
        0 <= i <= s.len(),
    ensures
        dec_val(s.take(i)) <= dec_val(s),
    decreases s.len() - i,
{
    if i < s.len() {
        lemma_dec_val_monotone(s, i + 1);
        let t = s.take(i + 1);
        assert(t.drop_last() =~= s.take(i));
        assert(dec_val(s.take(i)) * 10 + digit_val(t.last()) == dec_val(t));
        assert(dec_val(s.take(i)) * 10 >= dec_val(s.take(i)));
    } else {
        assert(s.take(i) =~= s);
    }
}

/// Renders `n` in decimal.
pub fn to_dec_string(n: u64) -> (s: String)
    ensures
        s@ == dec_digits(n as nat),
{
    let mut rev: Vec<u8> = Vec::new();
    let mut m: u64 = n;
    loop
        invariant_except_break
            m > 0 || rev@.len() == 0 ==> dec_digits(n as nat) =~= dec_digits(m as nat) + rev_chars(
                rev@,
            ),
            m == 0 && rev@.len() >= 1 ==> dec_digits(n as nat) =~= rev_chars(rev@),
        ensures
            dec_digits(n as nat) =~= rev_chars(rev@),
            rev@.len() >= 1,
        decreases m, (if rev@.len() == 0 { 1int } else { 0int }),
    {
        let ghost old_m = m as nat;
        let ghost old_rev = rev@;
        if m == 0 && rev.len() > 0 {
            break ;
        }
        let d: u8 = (m % 10) as u8 + 0x30;
        rev.push(d);
        m = m / 10;
        proof {
            assert(rev@.drop_last() =~= old_rev);
            assert(rev_chars(rev@) =~= seq![digit_char(old_m % 10)] + rev_chars(old_rev));
            if old_m < 10 {
                assert(dec_digits(old_m) =~= seq![digit_char(old_m)]);
            } else {
                assert(dec_digits(old_m) =~= dec_digits(old_m / 10).push(digit_char(old_m % 10)));
            }
        }
    }
    let mut s = String::new();
    let mut i: usize = rev.len();
    while i > 0
        invariant
            i <= rev@.len(),
            dec_digits(n as nat) == rev_chars(rev@),
            s@ =~= rev_chars(rev@).take(rev@.len() - i),
        decreases i,
    {
        i = i - 1;
        let c: u8 = rev[i];
        s.push(c as char);
        proof {
            assert(rev_chars(rev@)[rev@.len() - i - 1] == rev@[i as int] as char);
            assert(s@ =~= rev_chars(rev@).take(rev@.len() - i));
        }
    }
    proof {
        assert(s@ =~= rev_chars(rev@));
    }
    s
}

/// The characters of the digit bytes in `r`, reversed (low digit last).
pub open spec fn rev_chars(r: Seq<u8>) -> Seq<char> {
    r.reverse().map_values(|b: u8| b as char)
}

/// Parses a decimal string as `u64`, rejecting empty strings, non-digit
/// characters, and values above `u64::MAX`.
pub fn parse_u64_str(s: &str) -> (r: Option<u64>)
    ensures
        r matches Some(v) ==> parse_dec(s@, u64::MAX as nat) == Some(v as nat),
        r is None ==> parse_dec(s@, u64::MAX as nat) is None,
{
    let n = s.unicode_len();
    let mut acc: u128 = 0;
    let mut i: usize = 0;
    while i < n
        invariant
            i <= n,
            n == s@.len(),
            all_digits(s@.take(i as int)),
            acc == dec_val(s@.take(i as int)),
            acc <= u64::MAX,
        decreases n - i,
    {
        let c = s.get_char(i);
        if !('0' <= c && c <= '9') {
            return None;
        }
        let d: u128 = (c as u32 - 0x30) as u128;
        proof {
            assert(s@.take(i + 1).drop_last() =~= s@.take(i as int));
            assert(acc * 10 <= u64::MAX as u128 * 10) by (nonlinear_arith)
                requires
                    acc <= u64::MAX as u128,
            ;
        }
        acc = acc * 10 + d;
        i = i + 1;
        if acc > u64::MAX as u128 {
            proof {
                lemma_dec_val_monotone(s@, i as int);
            }
            return None;
        }
    }
    proof {
        assert(s@.take(n as int) =~= s@);
    }
    if n == 0 {
        None
    } else {
        Some(acc as u64)
    }
}

/// Parses a decimal string as `u32`.
pub fn parse_u32_str(s: &str) -> (r: Option<u32>)
    ensures
        r matches Some(v) ==> parse_dec(s@, u32::MAX as nat) == Some(v as nat),
        r is None ==> parse_dec(s@, u32::MAX as nat) is None,
{
    match parse_u64_str(s) {
        Some(v) => {
            if v <= u32::MAX as u64 {
                Some(v as u32)
            } else {
                None
            }
        },
        None => {
            proof {
                if s@.len() > 0 && all_digits(s@) {
                    assert(dec_val(s@) > u64::MAX);
                }
            }
            None
        },
    }
}

/// Parses a decimal string as `usize`.
pub fn parse_usize_str(s: &str) -> (r: Option<usize>)
    ensures
        r matches Some(v) ==> parse_dec(s@, usize::MAX as nat) == Some(v as nat),
        r is None ==> parse_dec(s@, usize::MAX as nat) is None,
{
    match parse_u64_str(s) {
        Some(v) => {
            if v <= usize::MAX as u64 {
                Some(v as usize)
            } else {
                None
            }
        },
        None => {
            proof {
                if s@.len() > 0 && all_digits(s@) {
                    assert(dec_val(s@) > u64::MAX);
                }
            }
            None
        },
    }
}

/// Rendering a value and parsing it back yields the same value.
pub proof fn lemma_dec_round_trip(n: nat, bound: nat)
    requires
        n <= bound,
    ensures
        parse_dec(dec_digits(n), bound) == Some(n),
{
    lemma_dec_digits_value(n);
}

/// Holds when no character of `s` is the separator `sep`.
pub open spec fn sep_free(s: Seq<char>, sep: char) -> bool {
    forall|i: int| 0 <= i < s.len() ==> #[trigger] s[i] != sep
}

/// The index of the first occurrence of `sep` in `s`, or -1 if absent.
pub open spec fn first_sep(s: Seq<char>, sep: char) -> int
    decreases s.len(),
{
    if s.len() == 0 {
        -1
    } else if s[0] == sep {
        0
    } else {
        let r = first_sep(s.drop_first(), sep);
        if r < 0 {
            -1
        } else {
            r + 1
        }
    }
}

pub proof fn lemma_first_sep_bounds(s: Seq<char>, sep: char)
    ensures
        -1 <= first_sep(s, sep) < s.len(),
        first_sep(s, sep) == -1 ==> sep_free(s, sep),
        first_sep(s, sep) >= 0 ==> s[first_sep(s, sep)] == sep,
        first_sep(s, sep) >= 0 ==> forall|j: int|
            0 <= j < first_sep(s, sep) ==> #[trigger] s[j] != sep,
    decreases s.len(),
{
    if s.len() == 0 {
    } else if s[0] == sep {
    } else {
        lemma_first_sep_bounds(s.drop_first(), sep);
        let r = first_sep(s.drop_first(), sep);
        if r < 0 {
            assert forall|i: int| 0 <= i < s.len() implies #[trigger] s[i] != sep by {
                if i > 0 {
                    assert(s.drop_first()[i - 1] == s[i]);
                }
            }
        } else {
            assert forall|j: int| 0 <= j < r + 1 implies #[trigger] s[j] != sep by {
                if j > 0 {
                    assert(s.drop_first()[j - 1] == s[j]);
                }
            }
        }
    }
}

/// If `s` has no separator, none is found.
pub proof fn lemma_first_sep_none(s: Seq<char>, sep: char)
    requires
        sep_free(s, sep),
    ensures
        first_sep(s, sep) == -1,
{
    lemma_first_sep_bounds(s, sep);
}

/// The first separator of `a + [sep] + b` sits right after `a` when `a` is
/// separator-free.
pub proof fn lemma_first_sep_prefix(a: Seq<char>, b: Seq<char>, sep: char)
    requires
        sep_free(a, sep),
    ensures
        first_sep(a + seq![sep] + b, sep) == a.len(),
    decreases a.len(),
{
    let s = a + seq![sep] + b;
    if a.len() == 0 {
        assert(s[0] == sep);
    } else {
        assert(s[0] == a[0]);
        assert(s.drop_first() =~= a.drop_first() + seq![sep] + b);
        assert(sep_free(a.drop_first(), sep)) by {
            assert forall|i: int| 0 <= i < a.drop_first().len() implies #[trigger] a.drop_first()[i]
                != sep by {
                assert(a.drop_first()[i] == a[i + 1]);
            }
        }
        lemma_first_sep_prefix(a.drop_first(), b, sep);
    }
}

/// The segments of `s` between occurrences of `sep` (always at least one).
pub open spec fn spec_split(s: Seq<char>, sep: char) -> Seq<Seq<char>>
    decreases s.len(),
{
    let i = first_sep(s, sep);
    if i < 0 || i >= s.len() {
        seq![s]
    } else {
        seq![s.take(i)] + spec_split(s.skip(i + 1), sep)
    }
}

/// The segments joined with `sep` between consecutive segments.
pub open spec fn spec_join(parts: Seq<Seq<char>>, sep: char) -> Seq<char>
    decreases parts.len(),
{
    if parts.len() == 0 {
        Seq::empty()
    } else if parts.len() == 1 {
        parts[0]
    } else {
        parts[0] + seq![sep] + spec_join(parts.drop_first(), sep)
    }
}

proof fn lemma_join_push(parts: Seq<Seq<char>>, p: Seq<char>, sep: char)
    requires
        parts.len() >= 1,
    ensures
        spec_join(parts.push(p), sep) == spec_join(parts, sep) + seq![sep] + p,
    decreases parts.len(),
{
    if parts.len() == 1 {
        assert(parts.push(p).drop_first() =~= seq![p]);
        assert(parts.push(p)[0] == parts[0]);
        assert(spec_join(seq![p], sep) == p);
        assert(spec_join(parts.push(p), sep) =~= parts[0] + seq![sep] + p);
    } else {
        lemma_join_push(parts.drop_first(), p, sep);
        assert(parts.push(p).drop_first() =~= parts.drop_first().push(p));
        assert(spec_join(parts.push(p), sep) =~= parts[0] + seq![sep] + spec_join(
            parts.drop_first().push(p),
            sep,
        ));
        assert(spec_join(parts, sep) + seq![sep] + p =~= parts[0] + seq![sep] + (spec_join(
            parts.drop_first(),
            sep,
        ) + seq![sep] + p));
    }
}

/// Splitting a join of separator-free segments gives back the segments.
pub proof fn lemma_split_join(parts: Seq<Seq<char>>, sep: char)
    requires
        parts.len() >= 1,
        forall|i: int| 0 <= i < parts.len() ==> sep_free(#[trigger] parts[i], sep),
    ensures
        spec_split(spec_join(parts, sep), sep) == parts,
    decreases parts.len(),
{
    if parts.len() == 1 {
        lemma_first_sep_none(parts[0], sep);
        assert(spec_split(spec_join(parts, sep), sep) =~= seq![parts[0]]);
        assert(seq![parts[0]] =~~= parts);
    } else {
        let rest = parts.drop_first();
        let s = spec_join(parts, sep);
        lemma_first_sep_prefix(parts[0], spec_join(rest, sep), sep);
        let i = parts[0].len() as int;
        assert(s.take(i) =~= parts[0]);
        assert(s.skip(i + 1) =~= spec_join(rest, sep));
        lemma_split_join(rest, sep);
        assert(spec_split(s, sep) =~= seq![parts[0]] + rest);
        assert(seq![parts[0]] + rest =~~= parts);
    }
}

/// The views of a sequence of owned strings.
pub open spec fn seq_views(parts: Seq<String>) -> Seq<Seq<char>> {
    parts.map_values(|p: String| p@)
}

/// Splits `s` on every occurrence of `sep`.
pub fn split_char(s: &str, sep: char) -> (parts: Vec<String>)
    ensures
        seq_views(parts@) == spec_split(s@, sep),
{
    let n = s.unicode_len();
    let mut parts: Vec<String> = Vec::new();
    let mut start: usize = 0;
    let mut i: usize = 0;
    proof {
        assert(s@.skip(0) =~= s@);
        assert(seq_views(parts@) + spec_split(s@, sep) =~= spec_split(s@, sep));
    }
    while i < n
        invariant
            start <= i <= n,
            n == s@.len(),
            spec_split(s@, sep) =~~= seq_views(parts@) + spec_split(s@.skip(start as int), sep),
            forall|j: int| start <= j < i ==> #[trigger] s@[j] != sep,
        decreases n - i,
    {
        if s.get_char(i) == sep {
            let piece = s.substring_char(start, i);
            let ghost old_parts = parts@;
            parts.push(String::from_str(piece));
            proof {
                let tail = s@.skip(start as int);
                assert(sep_free(tail.take(i - start), sep)) by {
                    assert forall|j: int| 0 <= j < i - start implies #[trigger] tail.take(
                        i - start,
                    )[j] != sep by {
                        assert(tail.take(i - start)[j] == s@[start + j]);
                    }
                }
                assert(tail.take(i - start) + seq![sep] + tail.skip(i - start + 1) =~= tail);
                lemma_first_sep_prefix(tail.take(i - start), tail.skip(i - start + 1), sep);
                assert(first_sep(tail, sep) == i - start);
                assert(tail.take(i - start) =~= piece@);
                assert(tail.skip(i - start + 1) =~= s@.skip(i + 1));
                assert(spec_split(tail, sep) =~~= seq![piece@] + spec_split(s@.skip(i + 1), sep));
                assert(seq_views(parts@) =~= seq_views(old_parts).push(piece@));
            }
            start = i + 1;
        }
        i = i + 1;
    }
    let piece = s.substring_char(start, n);
    let ghost old_parts = parts@;
    parts.push(String::from_str(piece));
    proof {
        let tail = s@.skip(start as int);
        assert(sep_free(tail, sep)) by {
            assert forall|j: int| 0 <= j < tail.len() implies #[trigger] tail[j] != sep by {
                assert(tail[j] == s@[start + j]);
            }
        }
        lemma_first_sep_none(tail, sep);
        assert(piece@ =~= tail);
        assert(spec_split(tail, sep) =~= seq![tail]);
        assert(seq_views(parts@) =~= seq_views(old_parts).push(piece@));
        assert(seq_views(parts@) =~~= spec_split(s@, sep));
    }
    parts
}

/// Joins the given segments with `sep` between consecutive segments.
pub fn join_char(parts: &Vec<String>, sep: char) -> (s: String)
    ensures
        s@ == spec_join(seq_views(parts@), sep),
{
    let mut s = String::new();
    let mut k: usize = 0;
    while k < parts.len()
        invariant
            k <= parts@.len(),
            s@ =~= spec_join(seq_views(parts@).take(k as int), sep),
        decreases parts@.len() - k,
    {
        if k > 0 {
            s.push(sep);
        }
        s.append(parts[k].as_str());
        proof {
            let views = seq_views(parts@);
            assert(views.take(k + 1) =~= views.take(k as int).push(views[k as int]));
            if k > 0 {
                lemma_join_push(views.take(k as int), views[k as int], sep);
            } else {
                assert(spec_join(views.take(1), sep) == views[0]);
            }
            assert(s@ =~= spec_join(views.take(k + 1), sep));
        }
        k = k + 1;
    }
    proof {
        assert(seq_views(parts@).take(parts@.len() as int) =~= seq_views(parts@));
    }
    s
}

} // verus!
