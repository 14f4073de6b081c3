//! Character and decimal-digit helpers shared by the codec, the command
//! parsers and the configuration: ASCII case folding, string equality, and
//! conversions between numbers and their decimal representations.

use vstd::prelude::*;
use vstd::utf8::decode_utf8;
use vstd::utf8::valid_utf8;

verus! {

/// Relies on `String::from_utf8`: it returns `Ok` exactly on valid UTF-8
/// input, and the string it returns decodes those bytes.
#[verifier::external_body]
pub fn convert_to_string(buf: &[u8]) -> (r: Option<String>)
    ensures
        (r is Some) <==> valid_utf8(buf@),
        r matches Some(s) ==> s@ == decode_utf8(buf@),
{
    String::from_utf8(buf.to_vec()).ok()
}

/// ASCII upper-casing of one character; anything outside `a..=z` is kept.
pub open spec fn upper_char(c: char) -> char {
    if 'a' <= c && c <= 'z' {
        ((c as u8) - 32) as char
    } else {
        c
    }
}

/// ASCII upper-casing of a character sequence.
pub open spec fn upper_chars(s: Seq<char>) -> Seq<char> {
    s.map_values(|c: char| upper_char(c))
}

pub open spec fn is_digit_char(c: char) -> bool {
    '0' <= c && c <= '9'
}

pub open spec fn all_digit_chars(s: Seq<char>) -> bool {
    forall|i: int| 0 <= i < s.len() ==> is_digit_char(#[trigger] s[i])
}

/// Numeric value of a sequence of decimal digit characters.
pub open spec fn chars_value(s: Seq<char>) -> nat
    decreases s.len(),
{
    if s.len() == 0 {
        0
    } else {
        chars_value(s.drop_last()) * 10 + (s.last() as u8 - 48) as nat
    }
}

/// Canonical decimal digit characters of a number, most significant first.
pub open spec fn dec_chars(n: nat) -> Seq<char>
    decreases n,
{
    if n < 10 {
        seq![((n + 48) as u8) as char]
    } else {
        dec_chars(n / 10).push((((n % 10) + 48) as u8) as char)
    }
}

pub open spec fn is_digit_byte(b: u8) -> bool {
    48 <= b && b <= 57
}

pub open spec fn all_digit_bytes(s: Seq<u8>) -> bool {
    forall|i: int| 0 <= i < s.len() ==> is_digit_byte(#[trigger] s[i])
}

/// Numeric value of a sequence of ASCII decimal digit bytes.
pub open spec fn bytes_value(s: Seq<u8>) -> nat
    decreases s.len(),
{
    if s.len() == 0 {
        0
    } else {
        bytes_value(s.drop_last()) * 10 + (s.last() - 48) as nat
    }
}

/// Canonical decimal digit bytes of a number, most significant first.
pub open spec fn dec_bytes(n: nat) -> Seq<u8>
    decreases n,
{
    if n < 10 {
        seq![(n + 48) as u8]
    } else {
        dec_bytes(n / 10).push(((n % 10) + 48) as u8)
    }
}

pub proof fn lemma_dec_bytes_digits(n: nat)
    ensures
        dec_bytes(n).len() >= 1,
        all_digit_bytes(dec_bytes(n)),
    decreases n,
{
    if n >= 10 {
        lemma_dec_bytes_digits(n / 10);
    }
}

pub proof fn lemma_bytes_value_dec_bytes(n: nat)
    ensures
        bytes_value(dec_bytes(n)) == n,
    decreases n,
{
    if n < 10 {
        let s = dec_bytes(n);
        assert(s =~= seq![(n + 48) as u8]);
        assert(s.drop_last() =~= Seq::<u8>::empty());
        assert(bytes_value(Seq::<u8>::empty()) == 0);
        assert(bytes_value(s) == bytes_value(s.drop_last()) * 10 + (s.last() - 48) as nat);
    } else {
        lemma_bytes_value_dec_bytes(n / 10);
        let s = dec_bytes(n);
        assert(s.drop_last() =~= dec_bytes(n / 10));
        assert(s.last() == ((n % 10) + 48) as u8);
        assert(bytes_value(s) == bytes_value(s.drop_last()) * 10 + (s.last() - 48) as nat);
        assert(bytes_value(s) == (n / 10) * 10 + n % 10);
    }
}

/// Exact string equality, stated over the views.
pub fn str_eq(a: &str, b: &str) -> (r: bool)
    ensures
        r == (a@ == b@),
{
    let a_len = a.unicode_len();
    let b_len = b.unicode_len();
    if a_len != b_len {
        assert(a@ != b@);
        return false;
    }
    let mut i: usize = 0;
    while i < a_len
        invariant
            0 <= i <= a_len,
            a_len == a@.len(),
            a_len == b@.len(),
            forall|j: int| 0 <= j < i ==> a@[j] == b@[j],
        decreases a_len - i,
    {
        if a.get_char(i) != b.get_char(i) {
            return false;
        }
        i += 1;
    }
    proof {
        assert(a@ =~= b@);
    }
    true
}

fn upper_char_exec(c: char) -> (r: char)
    ensures
        r == upper_char(c),
{
    if 'a' <= c && c <= 'z' {
        ((c as u8) - 32) as char
    } else {
        c
    }
}

/// Equality up to ASCII case, stated over the views.
pub fn eq_ignore_case(a: &str, b: &str) -> (r: bool)
    ensures
        r == (upper_chars(a@) == upper_chars(b@)),
{
    let a_len = a.unicode_len();
    let b_len = b.unicode_len();
    if a_len != b_len {
        assert(upper_chars(a@).len() != upper_chars(b@).len());
        return false;
    }
    let mut i: usize = 0;
    while i < a_len
        invariant
            0 <= i <= a_len,
            a_len == a@.len(),
            a_len == b@.len(),
            forall|j: int| 0 <= j < i ==> upper_char(a@[j]) == upper_char(b@[j]),
        decreases a_len - i,
    {
        if upper_char_exec(a.get_char(i)) != upper_char_exec(b.get_char(i)) {
            assert(upper_chars(a@)[i as int] != upper_chars(b@)[i as int]);
            return false;
        }
        i += 1;
    }
    proof {
        assert(upper_chars(a@) =~= upper_chars(b@));
    }
    true
}

fn digit_str(d: u8) -> (r: &'static str)
    requires
        d < 10,
    ensures
        r@ =~= seq![((d + 48) as u8) as char],
{
    proof {
        reveal_strlit("0");
        reveal_strlit("1");
        reveal_strlit("2");
        reveal_strlit("3");
        reveal_strlit("4");
        reveal_strlit("5");
        reveal_strlit("6");
        reveal_strlit("7");
        reveal_strlit("8");
        reveal_strlit("9");
    }
    match d {
        0 => "0",
        1 => "1",
        2 => "2",
        3 => "3",
        4 => "4",
        5 => "5",
        6 => "6",
        7 => "7",
        8 => "8",
        _ => "9",
    }
}

/// Decimal rendering of a number as a `String`.
pub fn usize_to_string(n: usize) -> (r: String)
    ensures
        r@ == dec_chars(n as nat),
    decreases n,
{
    if n < 10 {
        let r = String::from_str(digit_str(n as u8));
        proof {
            assert(r@ =~= dec_chars(n as nat));
        }
        r
    } else {
        let mut r = usize_to_string(n / 10);
        r.append(digit_str((n % 10) as u8));
        proof {
            assert(r@ =~= dec_chars(n as nat));
        }
        r
    }
}

/// Decimal rendering of a number as ASCII bytes.
pub fn usize_to_dec_bytes(n: usize) -> (r: Vec<u8>)
    ensures
        r@ == dec_bytes(n as nat),
    decreases n,
{
    if n < 10 {
        let mut r: Vec<u8> = Vec::new();
        r.push(n as u8 + 48);
        proof {
            assert(r@ =~= dec_bytes(n as nat));
        }
        r
    } else {
        let mut r = usize_to_dec_bytes(n / 10);
        r.push((n % 10) as u8 + 48);
        proof {
            assert(r@ =~= dec_bytes(n as nat));
        }
        r
    }
}

proof fn lemma_bytes_value_extend(s: Seq<u8>, i: int)
    requires
        0 <= i < s.len(),
    ensures
        bytes_value(s.subrange(0, i + 1)) == bytes_value(s.subrange(0, i)) * 10 + (s[i] - 48) as nat,
{
    assert(s.subrange(0, i + 1).drop_last() =~= s.subrange(0, i));
}

proof fn lemma_bytes_value_prefix_le(s: Seq<u8>, i: int)
    requires
        0 <= i <= s.len(),
        all_digit_bytes(s),
    ensures
        bytes_value(s.subrange(0, i)) <= bytes_value(s),
    decreases s.len() - i,
{
    if i == s.len() {
        assert(s.subrange(0, i) =~= s);
    } else {
        lemma_bytes_value_extend(s, i);
        lemma_bytes_value_prefix_le(s, i + 1);
    }
}

/// Decimal value of the bytes in `buf[lo..hi]`, when they are all digits,
/// at least one digit long, and the value fits a `usize`.
pub fn parse_dec_bytes(buf: &[u8], lo: usize, hi: usize) -> (r: Option<usize>)
    requires
        lo <= hi <= buf@.len(),
    ensures
        (r is Some) <==> (lo < hi && all_digit_bytes(buf@.subrange(lo as int, hi as int))
            && bytes_value(buf@.subrange(lo as int, hi as int)) <= usize::MAX),
        r matches Some(v) ==> v == bytes_value(buf@.subrange(lo as int, hi as int)),
{
    let ghost full = buf@.subrange(lo as int, hi as int);
    if lo == hi {
        return None;
    }
    let mut acc: usize = 0;
    let mut i: usize = lo;
    while i < hi
        invariant
            lo <= i <= hi <= buf@.len(),
            all_digit_bytes(buf@.subrange(lo as int, i as int)),
            acc == bytes_value(buf@.subrange(lo as int, i as int)),
            full == buf@.subrange(lo as int, hi as int),
        decreases hi - i,
    {
        let b = buf[i];
        if b < 48 || b > 57 {
            proof {
                assert(full[i - lo] == buf@[i as int]);
                assert(!is_digit_byte(full[i - lo]));
            }
            return None;
        }
        let d = b - 48;
        proof {
            assert(buf@.subrange(lo as int, i as int) =~= full.subrange(0, i - lo));
            assert(buf@.subrange(lo as int, i + 1) =~= full.subrange(0, i - lo + 1));
            lemma_bytes_value_extend(full, i - lo);
        }
        if acc > (usize::MAX - d as usize) / 10 {
            proof {
                assert(acc * 10 + d > usize::MAX) by (nonlinear_arith)
                    requires
                        acc > (usize::MAX - d as usize) / 10,
                        d < 10,
                        acc >= 0,
                ;
                if all_digit_bytes(full) {
                    lemma_bytes_value_prefix_le(full, i - lo + 1);
                    assert(bytes_value(full) > usize::MAX);
                }
            }
            return None;
        }
        proof {
            assert(acc * 10 + d <= usize::MAX) by (nonlinear_arith)
                requires
                    acc <= (usize::MAX - d as usize) / 10,
                    d < 10,
                    acc >= 0,
            ;
        }
        acc = acc * 10 + d as usize;
        i += 1;
    }
    proof {
        assert(buf@.subrange(lo as int, i as int) =~= full);
    }
    Some(acc)
}

/// Decimal value of a whole string of digit characters, when the value
/// fits a `u128`.
pub fn parse_dec_chars(s: &str) -> (r: Option<u128>)
    ensures
        (r is Some) <==> (s@.len() > 0 && all_digit_chars(s@) && chars_value(s@) <= u128::MAX),
        r matches Some(v) ==> v == chars_value(s@),
{
    let len = s.unicode_len();
    if len == 0 {
        return None;
    }
    let mut acc: u128 = 0;
    let mut i: usize = 0;
    while i < len
        invariant
            0 <= i <= len,
            len == s@.len(),
            all_digit_chars(s@.subrange(0, i as int)),
            acc == chars_value(s@.subrange(0, i as int)),
        decreases len - i,
    {
        let c = s.get_char(i);
        if c < '0' || c > '9' {
            proof {
                assert(!is_digit_char(s@[i as int]));
            }
            return None;
        }
        let d = (c as u8) - 48;
        proof {
            assert(s@.subrange(0, i + 1).drop_last() =~= s@.subrange(0, i as int));
        }
        if acc > (u128::MAX - d as u128) / 10 {
            proof {
                assert(acc * 10 + d > u128::MAX) by (nonlinear_arith)
                    requires
                        acc > (u128::MAX - d as u128) / 10,
                        d < 10,
                        acc >= 0,
                ;
                if all_digit_chars(s@) && chars_value(s@) <= u128::MAX {
                    lemma_chars_value_prefix_le(s@, i + 1);
                }
            }
            return None;
        }
        proof {
            assert(acc * 10 + d <= u128::MAX) by (nonlinear_arith)
                requires
                    acc <= (u128::MAX - d as u128) / 10,
                    d < 10,
                    acc >= 0,
            ;
        }
        acc = acc * 10 + d as u128;
        i += 1;
    }
    proof {
        assert(s@.subrange(0, i as int) =~= s@);
    }
    Some(acc)
}

proof fn lemma_chars_value_prefix_le(s: Seq<char>, i: int)
    requires
        0 <= i <= s.len(),
        all_digit_chars(s),
    ensures
        chars_value(s.subrange(0, i)) <= chars_value(s),
    decreases s.len() - i,
{
    if i == s.len() {
        assert(s.subrange(0, i) =~= s);
    } else {
        assert(s.subrange(0, i + 1).drop_last() =~= s.subrange(0, i));
        lemma_chars_value_prefix_le(s, i + 1);
    }
}


/// The index of the first `*` in the pattern at or after `i`, or the
/// pattern's length if there is none.
pub open spec fn star_index_from(p: Seq<char>, i: int) -> int
    decreases p.len() - i,
        when 0 <= i <= p.len()
{
    if i >= p.len() {
        p.len() as int
    } else if p[i] == '*' {
        i
    } else {
        star_index_from(p, i + 1)
    }
}

pub open spec fn star_index(p: Seq<char>) -> int {
    star_index_from(p, 0)
}

proof fn lemma_star_index_is(p: Seq<char>, i: int)
    requires
        0 <= i <= p.len(),
        forall|j: int| 0 <= j < i ==> p[j] != '*',
        i == p.len() || p[i] == '*',
    ensures
        star_index(p) == i,
{
    lemma_star_index_from_is(p, 0, i);
}

proof fn lemma_star_index_from_is(p: Seq<char>, lo: int, i: int)
    requires
        0 <= lo <= i <= p.len(),
        forall|j: int| lo <= j < i ==> p[j] != '*',
        i == p.len() || p[i] == '*',
    ensures
        star_index_from(p, lo) == i,
    decreases i - lo,
{
    if lo < i {
        lemma_star_index_from_is(p, lo + 1, i);
    }
}

pub open spec fn seq_starts_with(k: Seq<char>, pre: Seq<char>) -> bool {
    pre.len() <= k.len() && k.take(pre.len() as int) == pre
}

pub open spec fn seq_ends_with(k: Seq<char>, suf: Seq<char>) -> bool {
    suf.len() <= k.len() && k.skip(k.len() - suf.len()) == suf
}

/// The single-wildcard glob rules: `*` alone matches everything; a
/// trailing `*` matches by prefix; a leading `*` matches by suffix; one
/// interior `*` matches by prefix and suffix, the first `*` acting as the
/// wildcard and the remainder taken literally; with no `*` the pattern
/// must equal the key.
pub open spec fn pattern_matches(p: Seq<char>, k: Seq<char>) -> bool {
    if p == seq!['*'] {
        true
    } else if p.len() > 0 && p.last() == '*' {
        seq_starts_with(k, p.drop_last())
    } else if p.len() > 0 && p[0] == '*' {
        seq_ends_with(k, p.drop_first())
    } else if star_index(p) < p.len() {
        seq_starts_with(k, p.take(star_index(p))) && seq_ends_with(k, p.skip(star_index(p) + 1))
    } else {
        p == k
    }
}

/// Whether the text starts with the characters `pat[lo..hi]`.
#[verifier::loop_isolation(false)]
fn starts_with_range(text: &str, pat: &str, lo: usize, hi: usize) -> (r: bool)
    requires
        lo <= hi <= pat@.len(),
    ensures
        r == seq_starts_with(text@, pat@.subrange(lo as int, hi as int)),
{
    let need = hi - lo;
    let tlen = text.unicode_len();
    if tlen < need {
        return false;
    }
    let mut j: usize = 0;
    while j < need
        invariant
            0 <= j <= need,
            need == hi - lo,
            lo <= hi <= pat@.len(),
            need <= tlen == text@.len(),
            forall|x: int| 0 <= x < j ==> #[trigger] text@[x] == pat@[lo + x],
        decreases need - j,
    {
        if text.get_char(j) != pat.get_char(lo + j) {
            proof {
                assert(text@.take(need as int)[j as int] != pat@.subrange(lo as int, hi as int)[j as int]);
            }
            return false;
        }
        j += 1;
    }
    proof {
        assert(text@.take(need as int) =~= pat@.subrange(lo as int, hi as int));
    }
    true
}

/// Whether the text ends with the characters `pat[lo..hi]`.
#[verifier::loop_isolation(false)]
fn ends_with_range(text: &str, pat: &str, lo: usize, hi: usize) -> (r: bool)
    requires
        lo <= hi <= pat@.len(),
    ensures
        r == seq_ends_with(text@, pat@.subrange(lo as int, hi as int)),
{
    let need = hi - lo;
    let tlen = text.unicode_len();
    if tlen < need {
        return false;
    }
    let off = tlen - need;
    let mut j: usize = 0;
    while j < need
        invariant
            0 <= j <= need,
            need == hi - lo,
            lo <= hi <= pat@.len(),
            off == tlen - need,
            need <= tlen == text@.len(),
            forall|x: int| 0 <= x < j ==> #[trigger] text@[off + x] == pat@[lo + x],
        decreases need - j,
    {
        if text.get_char(off + j) != pat.get_char(lo + j) {
            proof {
                assert(text@.skip(off as int)[j as int] != pat@.subrange(lo as int, hi as int)[j as int]);
            }
            return false;
        }
        j += 1;
    }
    proof {
        assert forall|x: int|
            0 <= x < need implies text@.skip(off as int)[x] == pat@.subrange(
            lo as int,
            hi as int,
        )[x] by {
            assert(text@[off + x] == pat@[lo + x]);
        }
        assert(text@.skip(off as int) =~= pat@.subrange(lo as int, hi as int));
    }
    true
}

/// Whether the key matches the glob pattern, per the single-wildcard rules.
#[verifier::loop_isolation(false)]
pub fn glob_match(pattern: &str, text: &str) -> (r: bool)
    ensures
        r == pattern_matches(pattern@, text@),
{
    let plen = pattern.unicode_len();
    if plen == 1 && pattern.get_char(0) == '*' {
        proof {
            assert(pattern@ =~= seq!['*']);
        }
        return true;
    }
    proof {
        if pattern@ == seq!['*'] {
            assert(pattern@.len() == 1 && pattern@[0] == '*');
        }
    }
    if plen > 0 && pattern.get_char(plen - 1) == '*' {
        let r = starts_with_range(text, pattern, 0, plen - 1);
        proof {
            assert(pattern@.subrange(0, plen - 1) =~= pattern@.drop_last());
        }
        return r;
    }
    if plen > 0 && pattern.get_char(0) == '*' {
        let r = ends_with_range(text, pattern, 1, plen);
        proof {
            assert(pattern@.subrange(1, plen as int) =~= pattern@.drop_first());
        }
        return r;
    }
    let mut i: usize = 0;
    while i < plen
        invariant
            0 <= i <= plen,
            plen == pattern@.len(),
            forall|j: int| 0 <= j < i ==> pattern@[j] != '*',
        decreases plen - i,
    {
        if pattern.get_char(i) == '*' {
            proof {
                lemma_star_index_is(pattern@, i as int);
            }
            let pre_ok = starts_with_range(text, pattern, 0, i);
            let suf_ok = ends_with_range(text, pattern, i + 1, plen);
            proof {
                assert(pattern@.subrange(0, i as int) =~= pattern@.take(i as int));
                assert(pattern@.subrange(i + 1, plen as int) =~= pattern@.skip(i + 1));
            }
            return pre_ok && suf_ok;
        }
        i += 1;
    }
    proof {
        lemma_star_index_is(pattern@, plen as int);
    }
    str_eq(pattern, text)
}

/// One pair of surrounding double quotes, stripped.
pub open spec fn strip_quotes(s: Seq<char>) -> Seq<char> {
    if s.len() >= 2 && s[0] == '"' && s.last() == '"' {
        s.subrange(1, s.len() - 1)
    } else {
        s
    }
}

/// A copy of the string with one pair of surrounding double quotes, if
/// present, stripped.
pub fn strip_surrounding_quotes(s: &str) -> (r: String)
    ensures
        r@ == strip_quotes(s@),
{
    let len = s.unicode_len();
    if len >= 2 && s.get_char(0) == '"' && s.get_char(len - 1) == '"' {
        let inner = s.substring_char(1, len - 1);
        String::from_str(inner)
    } else {
        String::from_str(s)
    }
}

} // verus!
