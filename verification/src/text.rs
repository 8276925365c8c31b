//! Character-sequence models and verified executable helpers for the small
//! amount of text processing the crate does: trimming, splitting on a
//! separator, case-insensitive comparison, and decimal numbers.

use vstd::prelude::*;

verus! {

/// The white-space characters that trimming removes: the Unicode
/// White_Space set, as `char::is_whitespace` accepts it.
pub open spec fn is_space(c: char) -> bool {
    ||| c == ' '
    ||| c == '\t'
    ||| c == '\n'
    ||| c == '\u{b}'
    ||| c == '\u{c}'
    ||| c == '\r'
    ||| c == '\u{85}'
    ||| c == '\u{a0}'
    ||| c == '\u{1680}'
    ||| (0x2000 <= c as u32 && c as u32 <= 0x200a)
    ||| c == '\u{2028}'
    ||| c == '\u{2029}'
    ||| c == '\u{202f}'
    ||| c == '\u{205f}'
    ||| c == '\u{3000}'
}

/// `s` without its leading white space.
pub open spec fn trim_front(s: Seq<char>) -> Seq<char>
    decreases s.len(),
{
    if s.len() > 0 && is_space(s[0]) {
        trim_front(s.drop_first())
    } else {
        s
    }
}

/// `s` without its trailing white space.
pub open spec fn trim_back(s: Seq<char>) -> Seq<char>
    decreases s.len(),
{
    if s.len() > 0 && is_space(s[s.len() - 1]) {
        trim_back(s.drop_last())
    } else {
        s
    }
}

/// `s` without leading and trailing white space.
pub open spec fn trim_spec(s: Seq<char>) -> Seq<char> {
    trim_back(trim_front(s))
}

/// No character of `s` is `c`.
pub open spec fn sep_free(s: Seq<char>, c: char) -> bool {
    forall|k: int| 0 <= k < s.len() ==> s[k] != c
}

/// The pieces of `s` between occurrences of `sep`, in order; always at least
/// one piece, and empty pieces are kept.
pub open spec fn split_on(s: Seq<char>, sep: char) -> Seq<Seq<char>>
    decreases s.len(),
{
    if s.len() == 0 {
        seq![Seq::<char>::empty()]
    } else if s[0] == sep {
        seq![Seq::<char>::empty()] + split_on(s.drop_first(), sep)
    } else {
        let rest = split_on(s.drop_first(), sep);
        seq![seq![s[0]] + rest[0]] + rest.drop_first()
    }
}

/// The index of the first occurrence of `c` in `s`, or `s.len()` if absent.
pub open spec fn find_idx(s: Seq<char>, c: char) -> int
    decreases s.len(),
{
    if s.len() == 0 {
        0
    } else if s[0] == c {
        0
    } else {
        1 + find_idx(s.drop_first(), c)
    }
}

/// `p` is a prefix of `s`.
pub open spec fn is_prefix(p: Seq<char>, s: Seq<char>) -> bool {
    p.len() <= s.len() && forall|k: int| 0 <= k < p.len() ==> s[k] == p[k]
}

proof fn lemma_trim_front_at(s: Seq<char>, i: int)
    requires
        0 <= i <= s.len(),
        forall|k: int| 0 <= k < i ==> is_space(s[k]),
        i == s.len() || !is_space(s[i]),
    ensures
        trim_front(s) == s.skip(i),
    decreases i,
{
    if i == 0 {
        assert(s.skip(0) =~= s);
    } else {
        lemma_trim_front_at(s.drop_first(), i - 1);
        assert(s.drop_first().skip(i - 1) =~= s.skip(i));
    }
}

proof fn lemma_trim_back_at(s: Seq<char>, e: int)
    requires
        0 <= e <= s.len(),
        forall|k: int| e <= k < s.len() ==> is_space(s[k]),
        e == 0 || !is_space(s[e - 1]),
    ensures
        trim_back(s) == s.take(e),
    decreases s.len(),
{
    if e == s.len() {
        assert(s.take(e) =~= s);
    } else {
        assert(is_space(s[s.len() - 1]));
        lemma_trim_back_at(s.drop_last(), e);
        assert(s.drop_last().take(e) =~= s.take(e));
    }
}

/// Trimming a string that has no white space at either end leaves it unchanged.
pub proof fn lemma_trim_of_trimmed(s: Seq<char>)
    requires
        s.len() == 0 || (!is_space(s[0]) && !is_space(s[s.len() - 1])),
    ensures
        trim_spec(s) == s,
{
    lemma_trim_front_at(s, 0);
    assert(s.skip(0) =~= s);
    lemma_trim_back_at(s, s.len() as int);
    assert(s.take(s.len() as int) =~= s);
}

/// Trimming a single leading space from an otherwise trimmed string.
pub proof fn lemma_trim_space_prefix(m: Seq<char>)
    requires
        m.len() > 0,
        !is_space(m[0]),
        !is_space(m[m.len() - 1]),
    ensures
        trim_spec(seq![' '] + m) == m,
{
    let s = seq![' '] + m;
    assert(is_space(s[0]));
    assert(s.drop_first() =~= m);
    assert(trim_front(s) == trim_front(m));
    assert(trim_front(m) == m);
    assert(trim_back(m) == m);
}

/// Splitting a separator-free string gives that one piece.
pub proof fn lemma_split_sep_free(s: Seq<char>, sep: char)
    requires
        sep_free(s, sep),
    ensures
        split_on(s, sep) == seq![s],
    decreases s.len(),
{
    if s.len() == 0 {
        assert(s =~= Seq::<char>::empty());
        assert(split_on(s, sep) =~= seq![s]);
    } else {
        lemma_split_sep_free(s.drop_first(), sep);
        assert(seq![s[0]] + s.drop_first() =~= s);
        assert(split_on(s, sep) =~= seq![s]);
    }
}

/// Splitting at the first separator: the piece before it, then the split of
/// what follows it.
pub proof fn lemma_split_at_sep(a: Seq<char>, b: Seq<char>, sep: char)
    requires
        sep_free(a, sep),
    ensures
        split_on(a + seq![sep] + b, sep) == seq![a] + split_on(b, sep),
    decreases a.len(),
{
    let s = a + seq![sep] + b;
    if a.len() == 0 {
        assert(s[0] == sep);
        assert(a =~= Seq::<char>::empty());
        assert(s.drop_first() =~= b);
        assert(split_on(s, sep) =~= seq![a] + split_on(b, sep));
    } else {
        assert(s[0] == a[0]);
        assert(s[0] != sep);
        assert(s.drop_first() =~= a.drop_first() + seq![sep] + b);
        lemma_split_at_sep(a.drop_first(), b, sep);
        let rest = split_on(s.drop_first(), sep);
        assert(rest == seq![a.drop_first()] + split_on(b, sep));
        assert(rest[0] == a.drop_first());
        assert(seq![s[0]] + rest[0] =~= a);
        assert(rest.drop_first() =~= split_on(b, sep));
        assert(split_on(s, sep) =~= seq![a] + split_on(b, sep));
    }
}

/// A split always has at least one piece.
pub proof fn lemma_split_len(s: Seq<char>, sep: char)
    ensures
        split_on(s, sep).len() >= 1,
    decreases s.len(),
{
    if s.len() > 0 {
        lemma_split_len(s.drop_first(), sep);
    }
}

/// Where `find_idx` points: everything before it differs from `c`, and it is
/// either `c` itself or the end.
pub proof fn lemma_find_idx(s: Seq<char>, c: char)
    ensures
        0 <= find_idx(s, c) <= s.len(),
        sep_free(s.take(find_idx(s, c)), c),
        find_idx(s, c) < s.len() ==> s[find_idx(s, c)] == c,
        find_idx(s, c) == s.len() ==> sep_free(s, c),
    decreases s.len(),
{
    if s.len() == 0 {
    } else if s[0] == c {
    } else {
        lemma_find_idx(s.drop_first(), c);
        let i = find_idx(s, c);
        assert forall|k: int| 0 <= k < i implies s.take(i)[k] != c by {
            if k > 0 {
                assert(s.drop_first().take(i - 1)[k - 1] != c);
            }
        }
        if i == s.len() {
            assert forall|k: int| 0 <= k < s.len() implies s[k] != c by {
                if k > 0 {
                    assert(s.drop_first()[k - 1] != c);
                }
            }
        }
    }
}

/// `find_idx` of a string with a separator-free prefix before an occurrence
/// of `c` at `i` is exactly `i`.
pub proof fn lemma_find_idx_at(s: Seq<char>, c: char, i: int)
    requires
        0 <= i < s.len(),
        sep_free(s.take(i), c),
        s[i] == c,
    ensures
        find_idx(s, c) == i,
    decreases i,
{
    if i == 0 {
    } else {
        assert(s.take(i)[0] == s[0]);
        assert(s[0] != c);
        assert(s.drop_first().take(i - 1) =~= s.take(i).drop_first());
        assert forall|k: int| 0 <= k < i - 1 implies #[trigger] s.drop_first().take(i - 1)[k] != c by {
            assert(s.take(i)[k + 1] != c);
        }
        lemma_find_idx_at(s.drop_first(), c, i - 1);
    }
}

/// Returns whether `c` is one of the white-space characters.
pub fn is_space_char(c: char) -> (r: bool)
    ensures
        r == is_space(c),
{
    let u = c as u32;
    c == ' ' || c == '\t' || c == '\n' || c == '\u{b}' || c == '\u{c}' || c == '\r' || c
        == '\u{85}' || c == '\u{a0}' || c == '\u{1680}' || (0x2000 <= u && u <= 0x200a) || c
        == '\u{2028}' || c == '\u{2029}' || c == '\u{202f}' || c == '\u{205f}' || c == '\u{3000}'
}

/// Removes leading and trailing white space.
pub fn trim_str<'a>(s: &'a str) -> (r: &'a str)
    ensures
        r@ == trim_spec(s@),
{
    let len = s.unicode_len();
    let mut start: usize = 0;
    while start < len && is_space_char(s.get_char(start))
        invariant
            len == s@.len(),
            0 <= start <= len,
            forall|k: int| 0 <= k < start ==> is_space(s@[k]),
        decreases len - start,
    {
        start = start + 1;
    }
    let mut end: usize = len;
    while end > start && is_space_char(s.get_char(end - 1))
        invariant
            len == s@.len(),
            start <= end <= len,
            forall|k: int| end <= k < len ==> is_space(s@[k]),
        decreases end,
    {
        end = end - 1;
    }
    let r = s.substring_char(start, end);
    proof {
        lemma_trim_front_at(s@, start as int);
        let m = s@.skip(start as int);
        lemma_trim_back_at(m, end - start);
        assert(m.take(end - start) =~= s@.subrange(start as int, end as int));
    }
    r
}

/// Splits `s` on the separator `sep`, keeping empty pieces.
pub fn split_str<'a>(s: &'a str, sep: char) -> (r: Vec<&'a str>)
    ensures
        r.deep_view() == split_on(s@, sep),
{
    let len = s.unicode_len();
    let mut r: Vec<&'a str> = Vec::new();
    let mut start: usize = 0;
    let mut i: usize = 0;
    proof {
        assert(s@.skip(0) =~= s@);
        assert(r.deep_view() =~= Seq::<Seq<char>>::empty());
        assert(split_on(s@, sep) == r.deep_view() + split_on(s@.skip(0), sep));
    }
    while i < len
        invariant
            len == s@.len(),
            0 <= start <= i <= len,
            sep_free(s@.subrange(start as int, i as int), sep),
            split_on(s@, sep) == r.deep_view() + split_on(s@.skip(start as int), sep),
        decreases len - i,
    {
        if s.get_char(i) == sep {
            let piece = s.substring_char(start, i);
            let ghost old_r = r.deep_view();
            r.push(piece);
            proof {
                assert(r.deep_view() =~= old_r.push(piece@));
                assert(s@.skip(start as int) =~= s@.subrange(start as int, i as int) + seq![sep]
                    + s@.skip(i + 1));
                lemma_split_at_sep(s@.subrange(start as int, i as int), s@.skip(i + 1), sep);
                assert(old_r + (seq![piece@] + split_on(s@.skip(i + 1), sep)) =~= r.deep_view()
                    + split_on(s@.skip(i + 1), sep));
            }
            start = i + 1;
        } else {
            proof {
                assert(s@.subrange(start as int, i + 1).drop_last() =~= s@.subrange(
                    start as int,
                    i as int,
                ));
                assert forall|k: int| 0 <= k < i + 1 - start implies #[trigger] s@.subrange(
                    start as int,
                    i + 1,
                )[k] != sep by {
                    if k < i - start {
                        assert(s@.subrange(start as int, i as int)[k] != sep);
                    }
                }
            }
        }
        i = i + 1;
    }
    let piece = s.substring_char(start, len);
    let ghost old_r = r.deep_view();
    r.push(piece);
    proof {
        assert(r.deep_view() =~= old_r.push(piece@));
        assert(s@.skip(start as int) =~= s@.subrange(start as int, len as int));
        lemma_split_sep_free(s@.skip(start as int), sep);
        assert(old_r + seq![piece@] =~= r.deep_view());
    }
    r
}

/// Returns whether the two strings hold the same characters.
pub fn str_eq(a: &str, b: &str) -> (r: bool)
    ensures
        r == (a@ == b@),
{
    let alen = a.unicode_len();
    let blen = b.unicode_len();
    if alen != blen {
        return false;
    }
    let mut i: usize = 0;
    while i < alen
        invariant
            alen == a@.len(),
            blen == b@.len(),
            alen == blen,
            0 <= i <= alen,
            forall|k: int| 0 <= k < i ==> a@[k] == b@[k],
        decreases alen - i,
    {
        if a.get_char(i) != b.get_char(i) {
            return false;
        }
        i = i + 1;
    }
    proof {
        assert(a@ =~= b@);
    }
    true
}

/// Returns whether `p` is a prefix of `s`.
pub fn str_starts_with(s: &str, p: &str) -> (r: bool)
    ensures
        r == is_prefix(p@, s@),
{
    let slen = s.unicode_len();
    let plen = p.unicode_len();
    if plen > slen {
        return false;
    }
    let mut i: usize = 0;
    while i < plen
        invariant
            slen == s@.len(),
            plen == p@.len(),
            plen <= slen,
            0 <= i <= plen,
            forall|k: int| 0 <= k < i ==> s@[k] == p@[k],
        decreases plen - i,
    {
        if s.get_char(i) != p.get_char(i) {
            return false;
        }
        i = i + 1;
    }
    true
}

/// `c` folded to lower case, for the ASCII letters only.
pub open spec fn lower(c: char) -> char {
    if 65 <= c as u32 <= 90 {
        ((c as u32 + 32) as u32) as char
    } else {
        c
    }
}

/// `s` with every ASCII letter folded to lower case.
pub open spec fn lower_seq(s: Seq<char>) -> Seq<char> {
    s.map_values(|c: char| lower(c))
}

/// Returns `c` folded to lower case, for the ASCII letters only.
pub fn lower_char(c: char) -> (r: char)
    ensures
        r == lower(c),
{
    let u = c as u32;
    if 65 <= u && u <= 90 {
        let l: u32 = u + 32;
        let b: u8 = l as u8;
        let r = b as char;
        proof {
            vstd::utf8::char_u32_cast(r, l);
        }
        r
    } else {
        c
    }
}

/// Returns whether the two strings are equal once ASCII letters are folded to
/// lower case.
pub fn eq_ignore_case(a: &str, b: &str) -> (r: bool)
    ensures
        r == (lower_seq(a@) == lower_seq(b@)),
{
    let alen = a.unicode_len();
    let blen = b.unicode_len();
    if alen != blen {
        proof {
            assert(lower_seq(a@).len() != lower_seq(b@).len());
        }
        return false;
    }
    let mut i: usize = 0;
    while i < alen
        invariant
            alen == a@.len(),
            blen == b@.len(),
            alen == blen,
            0 <= i <= alen,
            forall|k: int| 0 <= k < i ==> lower(a@[k]) == lower(b@[k]),
        decreases alen - i,
    {
        if lower_char(a.get_char(i)) != lower_char(b.get_char(i)) {
            proof {
                assert(lower_seq(a@)[i as int] != lower_seq(b@)[i as int]);
            }
            return false;
        }
        i = i + 1;
    }
    proof {
        assert(lower_seq(a@) =~= lower_seq(b@));
    }
    true
}

/// `c` is a decimal digit.
pub open spec fn is_digit(c: char) -> bool {
    48 <= c as u32 <= 57
}

/// The value of the digit `c`.
pub open spec fn digit_val(c: char) -> int {
    c as u32 - 48
}

/// Every character of `s` is a decimal digit.
pub open spec fn all_digits(s: Seq<char>) -> bool {
    forall|k: int| 0 <= k < s.len() ==> is_digit(s[k])
}

/// The value of `s` read as a decimal numeral.
pub open spec fn dec_val(s: Seq<char>) -> int
    decreases s.len(),
{
    if s.len() == 0 {
        0
    } else {
        dec_val(s.drop_last()) * 10 + digit_val(s.last())
    }
}

/// `s` is a decimal numeral that `u64` parsing accepts: an optional leading
/// `+`, then at least one digit, with a value that fits in a `u64`.
pub open spec fn valid_u64_str(s: Seq<char>) -> bool {
    let d = if s.len() > 0 && s[0] == '+' {
        s.drop_first()
    } else {
        s
    };
    d.len() > 0 && all_digits(d) && dec_val(d) <= u64::MAX
}

/// The value of `s` read as a decimal numeral with an optional leading `+`.
pub open spec fn u64_str_val(s: Seq<char>) -> int {
    let d = if s.len() > 0 && s[0] == '+' {
        s.drop_first()
    } else {
        s
    };
    dec_val(d)
}

proof fn lemma_dec_val_nonneg(s: Seq<char>)
    requires
        all_digits(s),
    ensures
        dec_val(s) >= 0,
    decreases s.len(),
{
    if s.len() > 0 {
        assert(all_digits(s.drop_last()));
        lemma_dec_val_nonneg(s.drop_last());
    }
}

proof fn lemma_dec_val_grows(s: Seq<char>, i: int)
    requires
        all_digits(s),
        0 <= i <= s.len(),
    ensures
        dec_val(s) >= dec_val(s.take(i)),
        dec_val(s.take(i)) >= 0,
    decreases s.len() - i,
{
    assert(all_digits(s.take(i)));
    lemma_dec_val_nonneg(s.take(i));
    if i < s.len() {
        lemma_dec_val_grows(s, i + 1);
        assert(s.take(i + 1).drop_last() =~= s.take(i));
        assert(dec_val(s.take(i + 1)) == dec_val(s.take(i)) * 10 + digit_val(s[i]));
    } else {
        assert(s.take(i) =~= s);
    }
}

/// Reads `s` as a decimal `u64`: an optional leading `+`, then one or more
/// digits; `None` on anything else or when the value does not fit.
pub fn parse_u64_str(s: &str) -> (r: Option<u64>)
    ensures
        match r {
            Some(v) => valid_u64_str(s@) && v == u64_str_val(s@),
            None => !valid_u64_str(s@),
        },
{
    let len = s.unicode_len();
    if len == 0 {
        return None;
    }
    let start: usize = if s.get_char(0) == '+' {
        1
    } else {
        0
    };
    let ghost d = if s@[0] == '+' {
        s@.drop_first()
    } else {
        s@
    };
    proof {
        assert(d =~= s@.skip(start as int));
    }
    if start == len {
        return None;
    }
    let mut v: u64 = 0;
    let mut i: usize = start;
    while i < len
        invariant
            len == s@.len(),
            start <= i <= len,
            start < len,
            d == s@.skip(start as int),
            d == (if s@.len() > 0 && s@[0] == '+' {
                s@.drop_first()
            } else {
                s@
            }),
            all_digits(d.take(i - start)),
            v == dec_val(d.take(i - start)),
        decreases len - i,
    {
        let c = s.get_char(i);
        let u = c as u32;
        if u < 48 || u > 57 {
            proof {
                assert(d[i - start] == s@[i as int]);
                assert(!is_digit(d[i - start]));
                assert(!all_digits(d));
                assert(!valid_u64_str(s@));
            }
            return None;
        }
        let dv: u64 = (u - 48) as u64;
        proof {
            assert(d.take(i - start + 1).drop_last() =~= d.take(i - start));
            assert(dec_val(d.take(i - start + 1)) == dec_val(d.take(i - start)) * 10 + digit_val(
                d[i - start],
            ));
        }
        if v > (u64::MAX - dv) / 10 {
            proof {
                assert(v * 10 + dv > u64::MAX) by (nonlinear_arith)
                    requires
                        v > (u64::MAX - dv) / 10,
                        dv <= 9,
                ;
                if all_digits(d) {
                    lemma_dec_val_grows(d, i - start + 1);
                    assert(dec_val(d) > u64::MAX);
                }
                assert(!valid_u64_str(s@));
            }
            return None;
        }
        proof {
            assert(v * 10 + dv <= u64::MAX) by (nonlinear_arith)
                requires
                    v <= (u64::MAX - dv) / 10,
                    dv <= 9,
            ;
        }
        v = v * 10 + dv;
        i = i + 1;
    }
    proof {
        assert(d.take(i - start) =~= d);
    }
    Some(v)
}

/// The character of the digit `d`.
pub open spec fn digit_char(d: nat) -> char {
    ((48 + d) as u32) as char
}

/// The decimal numeral for `n`, without sign or padding.
pub open spec fn dec_str(n: nat) -> Seq<char>
    decreases n,
{
    if n < 10 {
        seq![digit_char(n)]
    } else {
        dec_str(n / 10).push(digit_char(n % 10))
    }
}

proof fn lemma_digit_table(d: nat)
    requires
        d < 10,
    ensures
        "0123456789"@[d as int] == digit_char(d),
{
    reveal_strlit("0123456789");
    vstd::utf8::char_u32_cast('0', 48);
    vstd::utf8::char_u32_cast('1', 49);
    vstd::utf8::char_u32_cast('2', 50);
    vstd::utf8::char_u32_cast('3', 51);
    vstd::utf8::char_u32_cast('4', 52);
    vstd::utf8::char_u32_cast('5', 53);
    vstd::utf8::char_u32_cast('6', 54);
    vstd::utf8::char_u32_cast('7', 55);
    vstd::utf8::char_u32_cast('8', 56);
    vstd::utf8::char_u32_cast('9', 57);
}

/// Writes `n` as a decimal numeral.
pub fn u64_to_string(n: u64) -> (r: String)
    ensures
        r@ == dec_str(n as nat),
    decreases n,
{
    let table = "0123456789";
    proof {
        reveal_strlit("0123456789");
    }
    let d = (n % 10) as usize;
    let c = table.substring_char(d, d + 1);
    proof {
        lemma_digit_table((n % 10) as nat);
        assert(c@ =~= seq![digit_char((n % 10) as nat)]);
    }
    if n < 10 {
        proof {
            assert(n % 10 == n);
        }
        c.to_owned()
    } else {
        let mut r = u64_to_string(n / 10);
        r.append(c);
        r
    }
}

/// `a` is at or before `b` in lexicographic order by code point (which for
/// UTF-8 text is also byte-wise order).
pub open spec fn lex_leq(a: Seq<char>, b: Seq<char>) -> bool
    decreases a.len(),
{
    if a.len() == 0 {
        true
    } else if b.len() == 0 {
        false
    } else if (a[0] as u32) < (b[0] as u32) {
        true
    } else if (a[0] as u32) == (b[0] as u32) {
        lex_leq(a.drop_first(), b.drop_first())
    } else {
        false
    }
}

/// Lexicographic order is reflexive.
pub proof fn lemma_lex_refl(a: Seq<char>)
    ensures
        lex_leq(a, a),
    decreases a.len(),
{
    if a.len() > 0 {
        lemma_lex_refl(a.drop_first());
    }
}

/// Lexicographic order is total.
pub proof fn lemma_lex_total(a: Seq<char>, b: Seq<char>)
    ensures
        lex_leq(a, b) || lex_leq(b, a),
    decreases a.len(),
{
    if a.len() > 0 && b.len() > 0 && a[0] as u32 == b[0] as u32 {
        lemma_lex_total(a.drop_first(), b.drop_first());
    }
}

/// Lexicographic order is transitive.
pub proof fn lemma_lex_trans(a: Seq<char>, b: Seq<char>, c: Seq<char>)
    requires
        lex_leq(a, b),
        lex_leq(b, c),
    ensures
        lex_leq(a, c),
    decreases a.len(),
{
    if a.len() > 0 && b.len() > 0 && c.len() > 0 && a[0] as u32 == b[0] as u32 && b[0] as u32
        == c[0] as u32 {
        lemma_lex_trans(a.drop_first(), b.drop_first(), c.drop_first());
    }
}

/// Compares two strings lexicographically by code point.
pub fn str_lex_leq(a: &str, b: &str) -> (r: bool)
    ensures
        r == lex_leq(a@, b@),
{
    let alen = a.unicode_len();
    let blen = b.unicode_len();
    let mut i: usize = 0;
    proof {
        assert(a@.skip(0) =~= a@);
        assert(b@.skip(0) =~= b@);
    }
    while i < alen && i < blen
        invariant
            alen == a@.len(),
            blen == b@.len(),
            0 <= i <= alen,
            0 <= i <= blen,
            lex_leq(a@, b@) == lex_leq(a@.skip(i as int), b@.skip(i as int)),
        decreases alen - i,
    {
        let ca = a.get_char(i) as u32;
        let cb = b.get_char(i) as u32;
        if ca < cb {
            return true;
        }
        if ca > cb {
            return false;
        }
        proof {
            assert(a@.skip(i as int).drop_first() =~= a@.skip(i + 1));
            assert(b@.skip(i as int).drop_first() =~= b@.skip(i + 1));
        }
        i = i + 1;
    }
    proof {
        if i >= alen {
            assert(a@.skip(i as int).len() == 0);
        } else {
            assert(b@.skip(i as int).len() == 0);
            assert(a@.skip(i as int).len() > 0);
        }
    }
    alen <= blen
}

} // verus!
