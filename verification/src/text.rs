//! Character-level text handling: whitespace, trimming, splitting on a
//! separator, decimal numbers and joining. Every operation works on the
//! characters of a string (`Seq<char>`), the view that Verus gives `str`.
use vstd::prelude::*;

verus! {

// ---------------------------------------------------------------------
// Specifications
// ---------------------------------------------------------------------

/// The Unicode `White_Space` characters, which `char::is_whitespace`
/// accepts and `str::trim` removes.
pub open spec fn is_ws(c: char) -> bool {
    ||| ('\u{9}' <= c && c <= '\u{d}')
    ||| c == ' '
    ||| c == '\u{85}'
    ||| c == '\u{a0}'
    ||| c == '\u{1680}'
    ||| ('\u{2000}' <= c && c <= '\u{200a}')
    ||| c == '\u{2028}'
    ||| c == '\u{2029}'
    ||| c == '\u{202f}'
    ||| c == '\u{205f}'
    ||| c == '\u{3000}'
}

/// Every character of `s` is whitespace.
pub open spec fn all_ws(s: Seq<char>) -> bool {
    forall|i: int| 0 <= i < s.len() ==> #[trigger] is_ws(s[i])
}

/// `s` without its leading whitespace.
pub open spec fn trim_start(s: Seq<char>) -> Seq<char>
    decreases s.len(),
{
    if s.len() > 0 && is_ws(s[0]) {
        trim_start(s.drop_first())
    } else {
        s
    }
}

/// `s` without its trailing whitespace.
pub open spec fn trim_end(s: Seq<char>) -> Seq<char>
    decreases s.len(),
{
    if s.len() > 0 && is_ws(s.last()) {
        trim_end(s.drop_last())
    } else {
        s
    }
}

/// `s` without leading and trailing whitespace (what `str::trim` returns).
pub open spec fn trim(s: Seq<char>) -> Seq<char> {
    trim_end(trim_start(s))
}

/// The pieces of `s` between occurrences of `sep`, in order (what
/// `str::split` yields for a `char` pattern). There is always one piece
/// more than there are separators.
pub open spec fn split(s: Seq<char>, sep: char) -> Seq<Seq<char>>
    decreases s.len(),
{
    if s.len() == 0 {
        seq![Seq::<char>::empty()]
    } else {
        let prev = split(s.drop_last(), sep);
        if s.last() == sep {
            prev.push(Seq::<char>::empty())
        } else {
            prev.update(prev.len() - 1, prev.last().push(s.last()))
        }
    }
}

/// `parts` joined with `sep` between each two neighbours.
pub open spec fn join(parts: Seq<Seq<char>>, sep: Seq<char>) -> Seq<char>
    decreases parts.len(),
{
    if parts.len() == 0 {
        Seq::<char>::empty()
    } else if parts.len() == 1 {
        parts[0]
    } else {
        join(parts.drop_last(), sep) + sep + parts.last()
    }
}

/// An ASCII decimal digit.
pub open spec fn is_digit(c: char) -> bool {
    '0' <= c && c <= '9'
}

/// The value of the digit `c`.
pub open spec fn digit_value(c: char) -> int {
    (c as int) - ('0' as int)
}

/// The value of a string of decimal digits.
pub open spec fn digits_value(s: Seq<char>) -> int
    decreases s.len(),
{
    if s.len() == 0 {
        0
    } else {
        digits_value(s.drop_last()) * 10 + digit_value(s.last())
    }
}

/// Every character of `s` is a decimal digit.
pub open spec fn all_digits(s: Seq<char>) -> bool {
    forall|i: int| 0 <= i < s.len() ==> #[trigger] is_digit(s[i])
}

/// What `str::parse::<i16>` gives: an optional `+` or `-`, then one or more
/// decimal digits whose value fits in an `i16`; `None` for anything else.
pub open spec fn parse_i16(s: Seq<char>) -> Option<i16> {
    let signed = s.len() > 0 && (s[0] == '+' || s[0] == '-');
    let neg = s.len() > 0 && s[0] == '-';
    let body = if signed { s.drop_first() } else { s };
    if body.len() == 0 || !all_digits(body) {
        None
    } else if neg {
        if digits_value(body) <= 32768 {
            Some((-digits_value(body)) as i16)
        } else {
            None
        }
    } else {
        if digits_value(body) <= 32767 {
            Some(digits_value(body) as i16)
        } else {
            None
        }
    }
}

/// The digit character for `d` (`0 <= d < 10`).
pub open spec fn digit_char(d: int) -> char {
    (('0' as int) + d) as char
}

/// The decimal text of a natural number, without leading zeros.
pub open spec fn nat_text(n: nat) -> Seq<char>
    decreases n,
{
    if n < 10 {
        seq![digit_char(n as int)]
    } else {
        nat_text(n / 10).push(digit_char((n % 10) as int))
    }
}

/// The decimal text of an `i16`, as `{}` formats it.
pub open spec fn i16_text(i: i16) -> Seq<char> {
    if i < 0 {
        seq!['-'] + nat_text((-i) as nat)
    } else {
        nat_text(i as nat)
    }
}

// ---------------------------------------------------------------------
// Executable operations
// ---------------------------------------------------------------------

/// The characters of `s`, in order.
pub fn chars_of(s: &str) -> (v: Vec<char>)
    ensures
        v@ == s@,
{
    let mut v: Vec<char> = Vec::new();
    for c in it: s.chars()
        invariant
            v@ == it.seq().take(it.index() as int),
            it.seq() == s@,
    {
        v.push(c);
    }
    v
}

/// Whether `c` is a Unicode whitespace character.
pub fn is_whitespace(c: char) -> (r: bool)
    ensures
        r == is_ws(c),
{
    ('\u{9}' <= c && c <= '\u{d}') || c == ' ' || c == '\u{85}' || c == '\u{a0}' || c
        == '\u{1680}' || ('\u{2000}' <= c && c <= '\u{200a}') || c == '\u{2028}' || c
        == '\u{2029}' || c == '\u{202f}' || c == '\u{205f}' || c == '\u{3000}'
}

/// The bounds of the trimmed part of `v[lo..hi]`.
pub fn trim_range(v: &Vec<char>, lo: usize, hi: usize) -> (r: (usize, usize))
    requires
        lo <= hi <= v@.len(),
    ensures
        lo <= r.0 <= r.1 <= hi,
        v@.subrange(r.0 as int, r.1 as int) == trim(v@.subrange(lo as int, hi as int)),
{
    let mut a = lo;
    while a < hi && is_whitespace(v[a])
        invariant
            lo <= a <= hi <= v@.len(),
            trim_start(v@.subrange(lo as int, hi as int)) == trim_start(
                v@.subrange(a as int, hi as int),
            ),
        decreases hi - a,
    {
        assert(v@.subrange(a as int, hi as int).drop_first() =~= v@.subrange(
            a + 1,
            hi as int,
        ));
        a = a + 1;
    }
    let mut b = hi;
    while b > a && is_whitespace(v[b - 1])
        invariant
            lo <= a <= b <= hi <= v@.len(),
            trim_start(v@.subrange(lo as int, hi as int)) == v@.subrange(a as int, hi as int),
            trim_end(v@.subrange(a as int, hi as int)) == trim_end(
                v@.subrange(a as int, b as int),
            ),
        decreases b - a,
    {
        assert(v@.subrange(a as int, b as int).drop_last() =~= v@.subrange(
            a as int,
            b - 1,
        ));
        b = b - 1;
    }
    (a, b)
}

/// The bounds of the pieces of `v[lo..hi]` between occurrences of `sep`.
pub fn split_ranges(v: &Vec<char>, lo: usize, hi: usize, sep: char) -> (r: Vec<(usize, usize)>)
    requires
        lo <= hi <= v@.len(),
    ensures
        r@.len() == split(v@.subrange(lo as int, hi as int), sep).len(),
        forall|k: int|
            0 <= k < r@.len() ==> lo <= (#[trigger] r@[k]).0 <= r@[k].1 <= hi && v@.subrange(
                r@[k].0 as int,
                r@[k].1 as int,
            ) == split(v@.subrange(lo as int, hi as int), sep)[k],
{
    let mut pieces: Vec<(usize, usize)> = Vec::new();
    let mut start = lo;
    let mut i = lo;
    assert(v@.subrange(lo as int, lo as int) =~= Seq::<char>::empty());
    while i < hi
        invariant
            lo <= start <= i <= hi <= v@.len(),
            pieces@.len() + 1 == split(v@.subrange(lo as int, i as int), sep).len(),
            forall|k: int|
                0 <= k < pieces@.len() ==> lo <= (#[trigger] pieces@[k]).0 <= pieces@[k].1 <= i
                    && v@.subrange(pieces@[k].0 as int, pieces@[k].1 as int) == split(
                    v@.subrange(lo as int, i as int),
                    sep,
                )[k],
            v@.subrange(start as int, i as int) == split(
                v@.subrange(lo as int, i as int),
                sep,
            ).last(),
        decreases hi - i,
    {
        let ghost prev = split(v@.subrange(lo as int, i as int), sep);
        assert(v@.subrange(lo as int, i + 1).drop_last() =~= v@.subrange(lo as int, i as int));
        assert(v@.subrange(lo as int, i + 1).last() == v@[i as int]);
        if v[i] == sep {
            pieces.push((start, i));
            start = i + 1;
            assert(v@.subrange(start as int, i + 1) =~= Seq::<char>::empty());
        } else {
            assert(v@.subrange(start as int, i + 1) =~= v@.subrange(start as int, i as int).push(
                v@[i as int],
            ));
        }
        i = i + 1;
    }
    pieces.push((start, i));
    pieces
}

/// Whether `v[lo..hi]` holds exactly the characters of `lit`.
pub fn range_eq(v: &Vec<char>, lo: usize, hi: usize, lit: &str) -> (r: bool)
    requires
        lo <= hi <= v@.len(),
    ensures
        r == (v@.subrange(lo as int, hi as int) == lit@),
{
    let n = lit.unicode_len();
    if hi - lo != n {
        return false;
    }
    let mut k: usize = 0;
    while k < n
        invariant
            lo <= hi <= v@.len(),
            hi - lo == n == lit@.len(),
            k <= n,
            forall|j: int| 0 <= j < k ==> v@[lo + j] == lit@[j],
        decreases n - k,
    {
        if v[lo + k] != lit.get_char(k) {
            assert(v@.subrange(lo as int, hi as int)[k as int] != lit@[k as int]);
            return false;
        }
        k = k + 1;
    }
    assert(v@.subrange(lo as int, hi as int) =~= lit@);
    true
}

/// Whether the characters of `a` and `b` are the same.
pub fn same_text(a: &str, b: &str) -> (r: bool)
    ensures
        r == (a@ == b@),
{
    let v = chars_of(a);
    assert(v@.subrange(0, v@.len() as int) =~= v@);
    range_eq(&v, 0, v.len(), b)
}

/// `s` without leading and trailing whitespace.
pub fn trim_str(s: &str) -> (r: &str)
    ensures
        r@ == trim(s@),
{
    let v = chars_of(s);
    assert(v@.subrange(0, v@.len() as int) =~= v@);
    let (a, b) = trim_range(&v, 0, v.len());
    s.substring_char(a, b)
}

/// The value of `v[lo..hi]` read as an `i16`, as `str::parse::<i16>` reads it.
pub fn parse_i16_range(v: &Vec<char>, lo: usize, hi: usize) -> (r: Option<i16>)
    requires
        lo <= hi <= v@.len(),
    ensures
        r == parse_i16(v@.subrange(lo as int, hi as int)),
{
    let ghost s = v@.subrange(lo as int, hi as int);
    if lo == hi {
        return None;
    }
    let c0 = v[lo];
    let signed = c0 == '+' || c0 == '-';
    let neg = c0 == '-';
    let start = if signed {
        lo + 1
    } else {
        lo
    };
    assert(signed ==> s.drop_first() =~= v@.subrange(start as int, hi as int));
    assert(!signed ==> s =~= v@.subrange(start as int, hi as int));
    if start == hi {
        return None;
    }
    let mut acc: u32 = 0;
    let mut i = start;
    assert(v@.subrange(start as int, start as int) =~= Seq::<char>::empty());
    while i < hi
        invariant
            lo <= start <= i <= hi <= v@.len(),
            lo < hi,
            s == v@.subrange(lo as int, hi as int),
            c0 == v@[lo as int],
            signed == (c0 == '+' || c0 == '-'),
            neg == (c0 == '-'),
            start == if signed {
                lo + 1
            } else {
                lo as int
            },
            all_digits(v@.subrange(start as int, i as int)),
            digits_value(v@.subrange(start as int, i as int)) >= 0,
            acc as int == if digits_value(v@.subrange(start as int, i as int)) < 32769 {
                digits_value(v@.subrange(start as int, i as int))
            } else {
                32769
            },
        decreases hi - i,
    {
        let c = v[i];
        if !('0' <= c && c <= '9') {
            assert(!is_digit(v@.subrange(start as int, hi as int)[i - start]));
            assert(!all_digits(v@.subrange(start as int, hi as int)));
            assert(s[0] == c0);
            assert(signed ==> s.drop_first() =~= v@.subrange(start as int, hi as int));
            assert(!signed ==> s =~= v@.subrange(start as int, hi as int));
            return None;
        }
        let d = (c as u32) - ('0' as u32);
        let ghost prev = v@.subrange(start as int, i as int);
        let ghost next = v@.subrange(start as int, i + 1);
        assert(next.drop_last() =~= prev);
        assert(next.last() == c);
        let t = acc * 10 + d;
        acc = if t > 32769 {
            32769
        } else {
            t
        };
        i = i + 1;
        assert forall|j: int| 0 <= j < next.len() implies #[trigger] is_digit(next[j]) by {
            if j < prev.len() {
                assert(next[j] == prev[j]);
            }
        }
    }
    if neg {
        if acc <= 32768 {
            let m: i32 = acc as i32;
            Some((-m) as i16)
        } else {
            None
        }
    } else {
        if acc <= 32767 {
            Some(acc as i16)
        } else {
            None
        }
    }
}

/// A one-character string holding the digit `d`.
fn digit_str(d: u32) -> (r: &'static str)
    requires
        d < 10,
    ensures
        r@ == seq![digit_char(d as int)],
{
    proof {
        reveal_strlit("0");
        reveal_strlit("1");
        reveal_strlit("2");
        reveal_strlit("3");
        reveal_strlit("4");
        reveal_strlit("5");
        reveal_strlit("6");
        reveal_strlit("7");
        reveal_strlit("8");
        reveal_strlit("9");
    }
    let r = match d {
        0 => "0",
        1 => "1",
        2 => "2",
        3 => "3",
        4 => "4",
        5 => "5",
        6 => "6",
        7 => "7",
        8 => "8",
        _ => "9",
    };
    assert(r@ =~= seq![digit_char(d as int)]);
    r
}

/// Appends the decimal text of `n` to `out`.
fn push_nat_text(out: &mut String, n: u32)
    ensures
        final(out)@ == old(out)@ + nat_text(n as nat),
    decreases n,
{
    if n >= 10 {
        push_nat_text(out, n / 10);
    }
    out.append(digit_str(n % 10));
    assert(final(out)@ =~= old(out)@ + nat_text(n as nat));
}

/// Appends the decimal text of `i` to `out`, as `{}` formats an `i16`.
pub fn push_i16_text(out: &mut String, i: i16)
    ensures
        final(out)@ == old(out)@ + i16_text(i),
{
    if i < 0 {
        proof {
            reveal_strlit("-");
        }
        out.append("-");
        let m: i32 = i as i32;
        push_nat_text(out, (-m) as u32);
        assert(final(out)@ =~= old(out)@ + i16_text(i));
    } else {
        push_nat_text(out, i as u32);
    }
}

// ---------------------------------------------------------------------
// Facts about splitting and trimming
// ---------------------------------------------------------------------

/// Splitting always gives at least one piece.
pub proof fn lemma_split_len(s: Seq<char>, sep: char)
    ensures
        split(s, sep).len() >= 1,
    decreases s.len(),
{
    if s.len() > 0 {
        lemma_split_len(s.drop_last(), sep);
    }
}

/// A text without the separator is a single piece.
pub proof fn lemma_split_no_sep(s: Seq<char>, sep: char)
    requires
        !s.contains(sep),
    ensures
        split(s, sep) == seq![s],
    decreases s.len(),
{
    if s.len() == 0 {
        assert(s =~= Seq::<char>::empty());
        assert(split(s, sep) =~= seq![s]);
    } else {
        let d = s.drop_last();
        assert(!d.contains(sep)) by {
            if d.contains(sep) {
                let i = choose|i: int| 0 <= i < d.len() && d[i] == sep;
                assert(s[i] == sep);
            }
        }
        lemma_split_no_sep(d, sep);
        assert(s[s.len() - 1] != sep);
        assert(d.push(s.last()) =~= s);
        assert(split(s, sep) =~= seq![s]);
    }
}

/// Splitting `a`, a separator, then `b` gives the pieces of `a` followed by
/// those of `b`.
pub proof fn lemma_split_concat(a: Seq<char>, b: Seq<char>, sep: char)
    ensures
        split(a + seq![sep] + b, sep) == split(a, sep) + split(b, sep),
    decreases b.len(),
{
    let whole = a + seq![sep] + b;
    lemma_split_len(a, sep);
    if b.len() == 0 {
        assert(whole.drop_last() =~= a);
        assert(split(b, sep) =~= seq![Seq::<char>::empty()]);
        assert(split(whole, sep) =~= split(a, sep) + split(b, sep));
    } else {
        let b2 = b.drop_last();
        lemma_split_concat(a, b2, sep);
        lemma_split_len(b2, sep);
        assert(whole.drop_last() =~= a + seq![sep] + b2);
        assert(whole.last() == b.last());
        assert(split(whole, sep) =~= split(a, sep) + split(b, sep));
    }
}

/// Text without the separator put before `r` joins its first piece.
pub proof fn lemma_split_prefix(w: Seq<char>, r: Seq<char>, sep: char)
    requires
        !w.contains(sep),
    ensures
        split(w + r, sep) == split(r, sep).update(0, w + split(r, sep)[0]),
        split(r, sep).len() >= 1,
    decreases r.len(),
{
    lemma_split_len(r, sep);
    if r.len() == 0 {
        assert(w + r =~= w);
        lemma_split_no_sep(w, sep);
        assert(w + Seq::<char>::empty() =~= w);
        assert(split(w + r, sep) =~= split(r, sep).update(0, w + split(r, sep)[0]));
    } else {
        let r2 = r.drop_last();
        lemma_split_prefix(w, r2, sep);
        lemma_split_len(r2, sep);
        assert((w + r).drop_last() =~= w + r2);
        assert((w + r).last() == r.last());
        let p = split(r2, sep);
        if r.last() != sep && p.len() == 1 {
            assert((w + p[0]).push(r.last()) =~= w + p[0].push(r.last()));
        }
        assert(split(w + r, sep) =~= split(r, sep).update(0, w + split(r, sep)[0]));
    }
}

/// Text without the separator put after `r` joins its last piece.
pub proof fn lemma_split_suffix(r: Seq<char>, w: Seq<char>, sep: char)
    requires
        !w.contains(sep),
    ensures
        split(r, sep).len() >= 1,
        split(r + w, sep) == split(r, sep).update(
            split(r, sep).len() - 1,
            split(r, sep).last() + w,
        ),
    decreases w.len(),
{
    lemma_split_len(r, sep);
    if w.len() == 0 {
        assert(r + w =~= r);
        assert(split(r, sep).last() + w =~= split(r, sep).last());
        assert(split(r + w, sep) =~= split(r, sep).update(
            split(r, sep).len() - 1,
            split(r, sep).last() + w,
        ));
    } else {
        let w2 = w.drop_last();
        assert(!w2.contains(sep)) by {
            if w2.contains(sep) {
                let i = choose|i: int| 0 <= i < w2.len() && w2[i] == sep;
                assert(w[i] == sep);
            }
        }
        assert(w[w.len() - 1] != sep);
        lemma_split_suffix(r, w2, sep);
        assert((r + w).drop_last() =~= r + w2);
        assert((r + w).last() == w.last());
        assert((split(r, sep).last() + w2).push(w.last()) =~= split(r, sep).last() + w);
        assert(split(r + w, sep) =~= split(r, sep).update(
            split(r, sep).len() - 1,
            split(r, sep).last() + w,
        ));
    }
}

/// Whitespace before a text does not change what is left after trimming
/// its start.
pub proof fn lemma_trim_start_ws_prefix(w: Seq<char>, v: Seq<char>)
    requires
        all_ws(w),
    ensures
        trim_start(w + v) == trim_start(v),
    decreases w.len(),
{
    if w.len() > 0 {
        assert((w + v)[0] == w[0]);
        assert((w + v).drop_first() =~= w.drop_first() + v);
        lemma_trim_start_ws_prefix(w.drop_first(), v);
    } else {
        assert(w + v =~= v);
    }
}

/// Whitespace after a text does not change what is left after trimming its
/// end.
pub proof fn lemma_trim_end_ws_suffix(v: Seq<char>, w: Seq<char>)
    requires
        all_ws(w),
    ensures
        trim_end(v + w) == trim_end(v),
    decreases w.len(),
{
    if w.len() > 0 {
        assert((v + w).last() == w.last());
        assert((v + w).drop_last() =~= v + w.drop_last());
        lemma_trim_end_ws_suffix(v, w.drop_last());
    } else {
        assert(v + w =~= v);
    }
}

/// Trimming the start of a text followed by whitespace.
pub proof fn lemma_trim_start_append_ws(v: Seq<char>, w: Seq<char>)
    requires
        all_ws(w),
    ensures
        trim_start(v + w) == if trim_start(v).len() > 0 {
            trim_start(v) + w
        } else {
            Seq::<char>::empty()
        },
    decreases v.len(),
{
    if v.len() == 0 {
        assert(v + w =~= Seq::<char>::empty() + w);
        lemma_trim_start_ws_prefix(w, Seq::<char>::empty());
        assert(w + Seq::<char>::empty() =~= w);
        assert(v + w =~= w);
    } else {
        assert((v + w)[0] == v[0]);
        if is_ws(v[0]) {
            assert((v + w).drop_first() =~= v.drop_first() + w);
            lemma_trim_start_append_ws(v.drop_first(), w);
        }
    }
}

/// Trimming ignores whitespace put before the text.
pub proof fn lemma_trim_ws_prefix(w: Seq<char>, v: Seq<char>)
    requires
        all_ws(w),
    ensures
        trim(w + v) == trim(v),
{
    lemma_trim_start_ws_prefix(w, v);
}

/// Trimming ignores whitespace put after the text.
pub proof fn lemma_trim_ws_suffix(v: Seq<char>, w: Seq<char>)
    requires
        all_ws(w),
    ensures
        trim(v + w) == trim(v),
{
    lemma_trim_start_append_ws(v, w);
    if trim_start(v).len() > 0 {
        lemma_trim_end_ws_suffix(trim_start(v), w);
    } else {
        assert(trim_start(v) =~= Seq::<char>::empty());
    }
}

/// Trimming the start removes a run of whitespace at the front.
pub proof fn lemma_trim_start_cut(s: Seq<char>) -> (k: int)
    ensures
        0 <= k <= s.len(),
        all_ws(s.take(k)),
        trim_start(s) == s.skip(k),
    decreases s.len(),
{
    if s.len() > 0 && is_ws(s[0]) {
        let k2 = lemma_trim_start_cut(s.drop_first());
        let k = k2 + 1;
        assert(s.skip(k) =~= s.drop_first().skip(k2));
        assert forall|i: int| 0 <= i < k implies #[trigger] is_ws(s.take(k)[i]) by {
            if i > 0 {
                assert(s.take(k)[i] == s.drop_first().take(k2)[i - 1]);
            }
        }
        k
    } else {
        assert(s.skip(0) =~= s);
        0
    }
}

/// Trimming the end removes a run of whitespace at the back.
pub proof fn lemma_trim_end_cut(s: Seq<char>) -> (m: int)
    ensures
        0 <= m <= s.len(),
        all_ws(s.skip(m)),
        trim_end(s) == s.take(m),
    decreases s.len(),
{
    if s.len() > 0 && is_ws(s.last()) {
        let m = lemma_trim_end_cut(s.drop_last());
        assert(s.take(m) =~= s.drop_last().take(m));
        assert forall|i: int| 0 <= i < s.len() - m implies #[trigger] is_ws(s.skip(m)[i]) by {
            if i < s.len() - 1 - m {
                assert(s.skip(m)[i] == s.drop_last().skip(m)[i]);
            }
        }
        m
    } else {
        assert(s.take(s.len() as int) =~= s);
        s.len() as int
    }
}

/// A text is its trimmed part with whitespace before and after it.
pub proof fn lemma_trim_split(s: Seq<char>) -> (r: (Seq<char>, Seq<char>))
    ensures
        all_ws(r.0),
        all_ws(r.1),
        s == r.0 + trim(s) + r.1,
{
    let k = lemma_trim_start_cut(s);
    let t = s.skip(k);
    let m = lemma_trim_end_cut(t);
    assert(s =~= s.take(k) + t.take(m) + t.skip(m));
    (s.take(k), t.skip(m))
}

/// Whitespace holds no character that is not whitespace.
pub proof fn lemma_ws_lacks(w: Seq<char>, c: char)
    requires
        all_ws(w),
        !is_ws(c),
    ensures
        !w.contains(c),
{
    if w.contains(c) {
        let i = choose|i: int| 0 <= i < w.len() && w[i] == c;
        assert(is_ws(w[i]));
    }
}

/// A character missing from two texts is missing from the two together.
pub proof fn lemma_concat_lacks(x: Seq<char>, y: Seq<char>, c: char)
    requires
        !x.contains(c),
        !y.contains(c),
    ensures
        !(x + y).contains(c),
{
    if (x + y).contains(c) {
        let i = choose|i: int| 0 <= i < (x + y).len() && (x + y)[i] == c;
        if i < x.len() {
            assert(x[i] == c);
        } else {
            assert(y[i - x.len()] == c);
        }
    }
}

/// The decimal text of a natural number is a non-empty run of digits whose
/// value is that number.
pub proof fn lemma_nat_text(n: nat)
    ensures
        nat_text(n).len() >= 1,
        all_digits(nat_text(n)),
        digits_value(nat_text(n)) == n,
    decreases n,
{
    let d = (n % 10) as int;
    assert(digit_value(digit_char(d)) == d);
    if n < 10 {
        let t = nat_text(n);
        assert(t.drop_last() =~= Seq::<char>::empty());
        assert(digits_value(t.drop_last()) == 0);
        assert(t.last() == digit_char(d));
        assert(is_digit(t[0]));
    } else {
        lemma_nat_text(n / 10);
        let prev = nat_text(n / 10);
        let t = nat_text(n);
        assert(t.drop_last() =~= prev);
        assert(t.last() == digit_char(d));
        assert((n / 10) * 10 + n % 10 == n) by (nonlinear_arith);
        assert forall|i: int| 0 <= i < t.len() implies #[trigger] is_digit(t[i]) by {
            if i < prev.len() {
                assert(t[i] == prev[i]);
            }
        }
    }
}

/// Digits hold no whitespace, no `-` and no `,`.
pub proof fn lemma_digits_lack(s: Seq<char>)
    requires
        all_digits(s),
    ensures
        !s.contains('-'),
        !s.contains(','),
        !s.contains('+'),
        s.len() > 0 ==> !is_ws(s[0]) && !is_ws(s.last()),
{
    if s.contains('-') {
        let i = choose|i: int| 0 <= i < s.len() && s[i] == '-';
        assert(is_digit(s[i]));
    }
    if s.contains(',') {
        let i = choose|i: int| 0 <= i < s.len() && s[i] == ',';
        assert(is_digit(s[i]));
    }
    if s.contains('+') {
        let i = choose|i: int| 0 <= i < s.len() && s[i] == '+';
        assert(is_digit(s[i]));
    }
    if s.len() > 0 {
        assert(is_digit(s[0]));
        assert(is_digit(s[s.len() - 1]));
    }
}

/// Reading back the text of a grade that is not negative gives that grade.
pub proof fn lemma_i16_text_parse(g: i16)
    requires
        g >= 0,
    ensures
        parse_i16(i16_text(g)) == Some(g),
        trim(i16_text(g)) == i16_text(g),
        !i16_text(g).contains('-'),
        !i16_text(g).contains(','),
{
    let t = i16_text(g);
    lemma_nat_text(g as nat);
    lemma_digits_lack(t);
    assert(!(t[0] == '+' || t[0] == '-'));
    assert(trim_start(t) == t);
    assert(trim_end(t) == t);
}

} // verus!
