//! Text helpers: comparison, prefixes, byte order and decimal notation.
//!
//! Strings are compared through their UTF-8 bytes; the lemmas below carry the
//! results back to sequences of characters.

use vstd::prelude::*;
use vstd::string::*;
use vstd::utf8::*;

verus! {

/// Two strings with the same UTF-8 encoding are the same string.
pub proof fn lemma_utf8_injective(a: Seq<char>, b: Seq<char>)
    requires
        encode_utf8(a) == encode_utf8(b),
    ensures
        a == b,
{
    encode_utf8_decode_utf8(a);
    encode_utf8_decode_utf8(b);
}

/// The encoding of a concatenation is the concatenation of the encodings.
pub proof fn lemma_utf8_concat(a: Seq<char>, b: Seq<char>)
    ensures
        encode_utf8(a + b) == encode_utf8(a) + encode_utf8(b),
    decreases a.len(),
{
    if a.len() == 0 {
        assert(a + b =~= b);
        assert(encode_utf8(a) + encode_utf8(b) =~= encode_utf8(b));
    } else {
        assert((a + b).drop_first() =~= a.drop_first() + b);
        lemma_utf8_concat(a.drop_first(), b);
        assert(encode_utf8(a + b) =~= encode_utf8(a) + encode_utf8(b));
    }
}

/// A character takes at most four bytes.
pub proof fn lemma_utf8_len(s: Seq<char>)
    ensures
        encode_utf8(s).len() <= 4 * s.len(),
    decreases s.len(),
{
    if s.len() > 0 {
        lemma_utf8_len(s.drop_first());
    }
}

/// `prefix` is the beginning of `s`.
pub open spec fn begins_with<T>(s: Seq<T>, prefix: Seq<T>) -> bool {
    &&& prefix.len() <= s.len()
    &&& s.take(prefix.len() as int) == prefix
}

/// `suffix` is the end of `s`.
pub open spec fn finishes_with<T>(s: Seq<T>, suffix: Seq<T>) -> bool {
    &&& suffix.len() <= s.len()
    &&& s.skip(s.len() - suffix.len()) == suffix
}

/// A string begins with another exactly when its bytes begin with the other's.
pub proof fn lemma_utf8_prefix(s: Seq<char>, p: Seq<char>)
    ensures
        begins_with(s, p) == begins_with(encode_utf8(s), encode_utf8(p)),
    decreases p.len(),
{
    if begins_with(s, p) {
        let rest = s.skip(p.len() as int);
        assert(s =~= p + rest);
        lemma_utf8_concat(p, rest);
        assert(encode_utf8(s).take(encode_utf8(p).len() as int) =~= encode_utf8(p));
    }
    if begins_with(encode_utf8(s), encode_utf8(p)) {
        let es = encode_utf8(s);
        let ep = encode_utf8(p);
        if p.len() == 0 {
            assert(s.take(0) =~= p);
        } else {
            encode_utf8_first_scalar(p);
            assert(s.len() > 0);
            encode_utf8_first_scalar(s);
            let n = length_of_first_scalar(ep);
            assert(n <= ep.len());
            assert forall|i: int| 0 <= i < ep.len() implies es[i] == ep[i] by {
                assert(es.take(ep.len() as int)[i] == es[i]);
            }
            assert(decode_first_scalar(es) == decode_first_scalar(ep));
            char_u32_cast(s[0], decode_first_scalar(es));
            char_u32_cast(p[0], decode_first_scalar(ep));
            assert(s[0] == p[0]);
            let hd = encode_scalar(p[0] as u32);
            let s1 = s.drop_first();
            let p1 = p.drop_first();
            assert(es == hd + encode_utf8(s1));
            assert(ep == hd + encode_utf8(p1));
            let e1 = encode_utf8(s1);
            let q1 = encode_utf8(p1);
            assert(e1.take(q1.len() as int) =~= q1) by {
                assert forall|i: int| 0 <= i < q1.len() implies e1[i] == q1[i] by {
                    assert(e1[i] == es[i + hd.len()]);
                    assert(q1[i] == ep[i + hd.len()]);
                }
            }
            lemma_utf8_prefix(s1, p1);
            assert(s.take(p.len() as int) =~= p) by {
                assert forall|i: int| 0 <= i < p.len() implies s[i] == p[i] by {
                    if i > 0 {
                        assert(s1.take(p1.len() as int)[i - 1] == p1[i - 1]);
                    }
                }
            }
        }
    }
}

/// Byte-by-byte equality.
pub fn bytes_eq(a: &[u8], b: &[u8]) -> (same: bool)
    ensures
        same == (a@ == b@),
{
    if a.len() != b.len() {
        return false;
    }
    let mut i: usize = 0;
    while i < a.len()
        invariant
            a.len() == b.len(),
            i <= a.len(),
            a@.take(i as int) == b@.take(i as int),
        decreases a.len() - i,
    {
        if a[i] != b[i] {
            assert(a@[i as int] != b@[i as int]);
            return false;
        }
        assert(a@.take(i + 1) =~= a@.take(i as int).push(a@[i as int]));
        assert(b@.take(i + 1) =~= b@.take(i as int).push(b@[i as int]));
        i += 1;
    }
    assert(a@.take(i as int) =~= a@);
    assert(b@.take(i as int) =~= b@);
    true
}

/// Equality of two strings.
pub fn text_eq(a: &str, b: &str) -> (same: bool)
    ensures
        same == (a@ == b@),
{
    let same = bytes_eq(a.as_bytes(), b.as_bytes());
    proof {
        if same {
            lemma_utf8_injective(a@, b@);
        }
    }
    same
}

/// Whether the bytes `s` begin with the bytes `prefix`.
pub fn bytes_begin_with(s: &[u8], prefix: &[u8]) -> (yes: bool)
    ensures
        yes == begins_with(s@, prefix@),
{
    if prefix.len() > s.len() {
        return false;
    }
    let mut i: usize = 0;
    while i < prefix.len()
        invariant
            prefix.len() <= s.len(),
            i <= prefix.len(),
            forall|j: int| 0 <= j < i ==> s@[j] == prefix@[j],
        decreases prefix.len() - i,
    {
        if s[i] != prefix[i] {
            assert(s@.take(prefix@.len() as int)[i as int] != prefix@[i as int]);
            return false;
        }
        i += 1;
    }
    assert(s@.take(prefix@.len() as int) =~= prefix@);
    true
}

/// Whether the string `s` begins with `prefix`.
pub fn text_begins_with(s: &str, prefix: &str) -> (yes: bool)
    ensures
        yes == begins_with(s@, prefix@),
{
    proof {
        lemma_utf8_prefix(s@, prefix@);
    }
    bytes_begin_with(s.as_bytes(), prefix.as_bytes())
}

/// Lexicographic order on byte strings: the order that `str` has in Rust.
pub open spec fn bytes_at_most(a: Seq<u8>, b: Seq<u8>) -> bool
    decreases a.len(),
{
    if a.len() == 0 {
        true
    } else if b.len() == 0 {
        false
    } else if a[0] != b[0] {
        a[0] < b[0]
    } else {
        bytes_at_most(a.drop_first(), b.drop_first())
    }
}

/// The order on strings: lexicographic on their UTF-8 bytes.
pub open spec fn text_at_most(a: Seq<char>, b: Seq<char>) -> bool {
    bytes_at_most(encode_utf8(a), encode_utf8(b))
}

/// The order is total.
pub proof fn lemma_bytes_total(a: Seq<u8>, b: Seq<u8>)
    ensures
        bytes_at_most(a, b) || bytes_at_most(b, a),
    decreases a.len(),
{
    if a.len() > 0 && b.len() > 0 && a[0] == b[0] {
        lemma_bytes_total(a.drop_first(), b.drop_first());
    }
}

/// The order is transitive.
pub proof fn lemma_bytes_transitive(a: Seq<u8>, b: Seq<u8>, c: Seq<u8>)
    requires
        bytes_at_most(a, b),
        bytes_at_most(b, c),
    ensures
        bytes_at_most(a, c),
    decreases a.len(),
{
    if a.len() > 0 && b.len() > 0 && c.len() > 0 && a[0] == b[0] && b[0] == c[0] {
        lemma_bytes_transitive(a.drop_first(), b.drop_first(), c.drop_first());
    }
}

/// The order is antisymmetric.
pub proof fn lemma_bytes_antisymmetric(a: Seq<u8>, b: Seq<u8>)
    requires
        bytes_at_most(a, b),
        bytes_at_most(b, a),
    ensures
        a == b,
    decreases a.len(),
{
    if a.len() > 0 && b.len() > 0 {
        lemma_bytes_antisymmetric(a.drop_first(), b.drop_first());
        assert(a =~= seq![a[0]] + a.drop_first());
        assert(b =~= seq![b[0]] + b.drop_first());
    } else {
        assert(a =~= b);
    }
}

/// Compares two strings in the order of their UTF-8 bytes.
pub fn text_le(a: &str, b: &str) -> (le: bool)
    ensures
        le == text_at_most(a@, b@),
{
    let x = a.as_bytes();
    let y = b.as_bytes();
    let mut i: usize = 0;
    assert(x@.skip(0) =~= x@);
    assert(y@.skip(0) =~= y@);
    while i < x.len() && i < y.len()
        invariant
            i <= x.len(),
            i <= y.len(),
            x@ == encode_utf8(a@),
            y@ == encode_utf8(b@),
            bytes_at_most(x@, y@) == bytes_at_most(x@.skip(i as int), y@.skip(i as int)),
        decreases x.len() - i,
    {
        if x[i] != y[i] {
            assert(x@.skip(i as int)[0] == x@[i as int]);
            assert(y@.skip(i as int)[0] == y@[i as int]);
            return x[i] < y[i];
        }
        assert(x@.skip(i as int)[0] == y@.skip(i as int)[0]);
        assert(x@.skip(i as int).drop_first() =~= x@.skip(i + 1));
        assert(y@.skip(i as int).drop_first() =~= y@.skip(i + 1));
        i += 1;
    }
    i == x.len()
}

/// Decimal notation of a natural number.
pub open spec fn decimal(n: nat) -> Seq<char>
    decreases n,
{
    if n < 10 {
        seq![digit(n)]
    } else {
        decimal(n / 10).push(digit(n % 10))
    }
}

/// The character of a decimal digit.
pub open spec fn digit(d: nat) -> char {
    if d == 0 {
        '0'
    } else if d == 1 {
        '1'
    } else if d == 2 {
        '2'
    } else if d == 3 {
        '3'
    } else if d == 4 {
        '4'
    } else if d == 5 {
        '5'
    } else if d == 6 {
        '6'
    } else if d == 7 {
        '7'
    } else if d == 8 {
        '8'
    } else {
        '9'
    }
}

/// Decimal notation of an integer, with a minus sign where it is negative.
pub open spec fn decimal_int(n: int) -> Seq<char> {
    if n < 0 {
        seq!['-'] + decimal((-n) as nat)
    } else {
        decimal(n as nat)
    }
}

fn digit_text(d: u64) -> (t: &'static str)
    requires
        d < 10,
    ensures
        t@ == seq![digit(d as nat)],
{
    proof {
        reveal_strlit("0");
        reveal_strlit("1");
        reveal_strlit("2");
        reveal_strlit("3");
        reveal_strlit("4");
        reveal_strlit("5");
        reveal_strlit("6");
        reveal_strlit("7");
        reveal_strlit("8");
        reveal_strlit("9");
    }
    let t = match d {
        0 => "0",
        1 => "1",
        2 => "2",
        3 => "3",
        4 => "4",
        5 => "5",
        6 => "6",
        7 => "7",
        8 => "8",
        _ => "9",
    };
    assert(t@ =~= seq![digit(d as nat)]);
    t
}

/// The decimal notation of `n`.
pub fn decimal_text(n: u64) -> (text: String)
    ensures
        text@ == decimal(n as nat),
    decreases n,
{
    if n < 10 {
        let mut out = String::new();
        out.append(digit_text(n));
        assert(out@ =~= decimal(n as nat));
        out
    } else {
        let mut out = decimal_text(n / 10);
        out.append(digit_text(n % 10));
        assert(out@ =~= decimal(n as nat));
        out
    }
}

/// The decimal notation of a signed number.
pub fn decimal_int_text(n: i64) -> (text: String)
    ensures
        text@ == decimal_int(n as int),
{
    if n < 0 {
        let mut out = String::new();
        out.append("-");
        let magnitude: u64 = if n == i64::MIN {
            0x8000_0000_0000_0000
        } else {
            (-n) as u64
        };
        let rest = decimal_text(magnitude);
        out.append(rest.as_str());
        proof {
            reveal_strlit("-");
        }
        assert(out@ =~= decimal_int(n as int));
        out
    } else {
        decimal_text(n as u64)
    }
}

/// The number that a character stands for as a decimal digit.
pub open spec fn digit_value(c: char) -> int {
    c as u32 - '0' as u32
}

/// The number that the digits stand for.
pub open spec fn digits_value(digits: Seq<char>) -> int
    decreases digits.len(),
{
    if digits.len() == 0 {
        0
    } else {
        10 * digits_value(digits.drop_last()) + digit_value(digits.last())
    }
}

/// The text is made of digits, without a needless zero before them.
pub open spec fn is_numeral(digits: Seq<char>) -> bool {
    &&& digits.len() > 0
    &&& forall|i: int| #![trigger digits[i]]
        0 <= i < digits.len() ==> 0 <= digit_value(digits[i]) <= 9
    &&& digits.len() > 1 ==> digits[0] != '0'
}

/// The text is how the number is written: its digits, behind a minus where it is
/// negative.
pub open spec fn stands_for(text: Seq<char>, n: int) -> bool {
    if n < 0 {
        &&& text.len() > 0
        &&& text[0] == '-'
        &&& is_numeral(text.drop_first())
        &&& digits_value(text.drop_first()) == -n
    } else {
        is_numeral(text) && digits_value(text) == n
    }
}

proof fn lemma_decimal_value(n: nat)
    ensures
        is_numeral(decimal(n)),
        digits_value(decimal(n)) == n,
        n > 0 ==> decimal(n)[0] != '0',
    decreases n,
{
    reveal_with_fuel(digits_value, 3);
    if n < 10 {
        assert(decimal(n) =~= seq![digit(n)]);
        assert(decimal(n).drop_last() =~= Seq::<char>::empty());
    } else {
        lemma_decimal_value(n / 10);
        let front = decimal(n / 10);
        let last = digit(n % 10);
        assert(front.push(last).drop_last() =~= front);
        assert(digit_value(last) == n % 10);
        assert forall|i: int| #![trigger decimal(n)[i]] 0 <= i < decimal(n).len() implies 0
            <= digit_value(decimal(n)[i]) <= 9 by {
            if i < front.len() {
                assert(decimal(n)[i] == front[i]);
            }
        }
    }
}

/// The decimal notation of a number stands for it.
pub proof fn lemma_decimal_int_stands(n: int)
    ensures
        stands_for(decimal_int(n), n),
        n >= 0 ==> decimal_int(n) == decimal(n as nat),
{
    if n < 0 {
        lemma_decimal_value((-n) as nat);
        assert((seq!['-'] + decimal((-n) as nat)).drop_first() =~= decimal((-n) as nat));
    } else {
        lemma_decimal_value(n as nat);
    }
}

/// A number is written in decimal notation.
pub proof fn law_decimal_text_stands_for_its_number(n: u64, text: String)
    requires
        call_ensures(decimal_text, (n,), text),
    ensures
        stands_for(text@, n as int),
{
    lemma_decimal_int_stands(n as int);
}

/// A signed number is written in decimal notation.
pub proof fn law_decimal_int_text_stands_for_its_number(n: i64, text: String)
    requires
        call_ensures(decimal_int_text, (n,), text),
    ensures
        stands_for(text@, n as int),
{
    lemma_decimal_int_stands(n as int);
}

/// A text begins with another where it is at least as long and has the same
/// characters in the same places.
pub proof fn law_beginning_is_character_by_character(s: &str, prefix: &str, yes: bool)
    requires
        call_ensures(text_begins_with, (s, prefix), yes),
    ensures
        yes <==> prefix@.len() <= s@.len() && forall|i: int| #![trigger prefix@[i]]
            0 <= i < prefix@.len() ==> s@[i] == prefix@[i],
{
    if prefix@.len() <= s@.len() {
        let head = s@.take(prefix@.len() as int);
        if forall|i: int| #![trigger prefix@[i]] 0 <= i < prefix@.len() ==> s@[i] == prefix@[i] {
            assert(head =~= prefix@);
        }
        if head == prefix@ {
            assert forall|i: int| #![trigger prefix@[i]] 0 <= i < prefix@.len() implies s@[i]
                == prefix@[i] by {
                assert(head[i] == s@[i]);
            }
        }
    }
}

/// The bytes come strictly before the others: at the first place where the two
/// differ they have the smaller byte, or they end there.
pub open spec fn comes_before(a: Seq<u8>, b: Seq<u8>) -> bool {
    exists|n: int| #[trigger] differ_first_at(a, b, n) && n < b.len() && (n == a.len() || a[n] < b[n])
}

/// The two agree before the place `n`, and not in it.
pub open spec fn differ_first_at(a: Seq<u8>, b: Seq<u8>, n: int) -> bool {
    &&& 0 <= n <= a.len()
    &&& n <= b.len()
    &&& forall|i: int| #![trigger a[i]] 0 <= i < n ==> a[i] == b[i]
    &&& n < a.len() && n < b.len() ==> a[n] != b[n]
}

/// The order is that of the first place where the two differ.
pub proof fn lemma_order_is_lexicographic(a: Seq<u8>, b: Seq<u8>)
    ensures
        bytes_at_most(a, b) <==> !comes_before(b, a),
    decreases a.len(),
{
    if a.len() == 0 {
        assert forall|n: int| #[trigger] differ_first_at(b, a, n) implies n >= a.len() by {}
    } else if b.len() == 0 {
        assert(differ_first_at(b, a, 0));
    } else if a[0] != b[0] {
        assert(differ_first_at(b, a, 0));
        assert forall|n: int| #[trigger] differ_first_at(b, a, n) implies n == 0 by {
            if n > 0 {
                assert(b[0] == a[0]);
            }
        }
    } else {
        let x = a.drop_first();
        let y = b.drop_first();
        lemma_order_is_lexicographic(x, y);
        if comes_before(y, x) {
            let n = choose|n: int| #[trigger]
                differ_first_at(y, x, n) && n < x.len() && (n == y.len() || y[n] < x[n]);
            assert forall|i: int| #![trigger b[i]] 0 <= i < n + 1 implies b[i] == a[i] by {
                if i > 0 {
                    assert(y[i - 1] == x[i - 1]);
                }
            }
            assert(differ_first_at(b, a, n + 1));
        }
        if comes_before(b, a) {
            let n = choose|n: int| #[trigger]
                differ_first_at(b, a, n) && n < a.len() && (n == b.len() || b[n] < a[n]);
            assert(n > 0);
            assert forall|i: int| #![trigger y[i]] 0 <= i < n - 1 implies y[i] == x[i] by {
                assert(b[i + 1] == a[i + 1]);
            }
            assert(differ_first_at(y, x, n - 1));
        }
    }
}

/// The order of texts is that of their bytes, place by place.
pub proof fn law_text_order_is_lexicographic(a: &str, b: &str, le: bool)
    requires
        call_ensures(text_le, (a, b), le),
    ensures
        le <==> !comes_before(encode_utf8(b@), encode_utf8(a@)),
{
    lemma_order_is_lexicographic(encode_utf8(a@), encode_utf8(b@));
}

} // verus!
