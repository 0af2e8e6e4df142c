//! Keys of the compute cache and of write serialization.

use vstd::arithmetic::div_mod::lemma_div_denominator;
use vstd::prelude::*;
use vstd::string::*;

verus! {

/// A cache key for a computation. Table functions that share a key reuse each
/// other's compute.
#[derive(Debug, PartialEq, Eq, Hash)]
pub struct ComputeKey(pub Vec<u8>);

impl Clone for ComputeKey {
    fn clone(&self) -> (key: Self)
        ensures
            key@ == self@,
    {
        let bytes = self.0.clone();
        assert(bytes@ =~= self.0@);
        ComputeKey(bytes)
    }
}

impl View for ComputeKey {
    type V = Seq<u8>;

    open spec fn view(&self) -> Seq<u8> {
        self.0@
    }
}

/// A 32-bit number in little-endian order.
pub open spec fn le_bytes(n: int) -> Seq<u8> {
    seq![
        (n % 256) as u8,
        (n / 256 % 256) as u8,
        (n / 65536 % 256) as u8,
        (n / 16777216 % 256) as u8,
    ]
}

/// One part of a key: its length in 32 bits, then its bytes.
pub open spec fn key_part(part: Seq<u8>) -> Seq<u8> {
    le_bytes((part.len() % 0x1_0000_0000) as int) + part
}

/// The bytes of a key made of several parts.
pub open spec fn key_bytes(parts: Seq<Seq<u8>>) -> Seq<u8>
    decreases parts.len(),
{
    if parts.len() == 0 {
        seq![]
    } else {
        key_bytes(parts.drop_last()) + key_part(parts.last())
    }
}

proof fn lemma_key_bytes_first(parts: Seq<Seq<u8>>)
    requires
        parts.len() > 0,
    ensures
        key_bytes(parts) == key_part(parts[0]) + key_bytes(parts.drop_first()),
    decreases parts.len(),
{
    if parts.len() == 1 {
        assert(key_bytes(parts.drop_last()) =~= Seq::<u8>::empty());
        assert(key_bytes(parts) =~= key_part(parts[0]) + key_bytes(parts.drop_first()));
    } else {
        let front = parts.drop_last();
        lemma_key_bytes_first(front);
        assert(front.drop_first() =~= parts.drop_first().drop_last());
        assert(parts.drop_first().last() == parts.last());
        assert(key_bytes(parts) =~= key_part(parts[0]) + key_bytes(parts.drop_first()));
    }
}

proof fn lemma_le_bytes_injective(a: int, b: int)
    requires
        0 <= a < 0x1_0000_0000,
        0 <= b < 0x1_0000_0000,
        le_bytes(a) == le_bytes(b),
    ensures
        a == b,
{
    lemma_le_value(a);
    lemma_le_value(b);
}

/// A number is the sum of its digits in base 256.
proof fn lemma_le_value(n: int)
    requires
        0 <= n < 0x1_0000_0000,
    ensures
        ({
            let d = le_bytes(n);
            n == d[0] + 256 * d[1] + 65536 * d[2] + 16777216 * d[3]
        }),
{
    let q = n / 256;
    let r = q / 256;
    let s = r / 256;
    lemma_div_denominator(n, 256, 256);
    lemma_div_denominator(n, 65536, 256);
    assert(n / 65536 == r);
    assert(n / 16777216 == s);
    assert(n == 256 * q + n % 256);
    assert(q == 256 * r + q % 256);
    assert(r == 256 * s + r % 256);
    assert(0 <= s < 256);
}

proof fn lemma_key_part_splits(x: Seq<u8>, r: Seq<u8>, y: Seq<u8>, s: Seq<u8>)
    requires
        x.len() < 0x1_0000_0000,
        y.len() < 0x1_0000_0000,
        key_part(x) + r == key_part(y) + s,
    ensures
        x == y,
        r == s,
{
    let k = key_part(x) + r;
    assert(le_bytes(x.len() as int) =~= k.take(4));
    assert(le_bytes(y.len() as int) =~= k.take(4));
    lemma_le_bytes_injective(x.len() as int, y.len() as int);
    let n = x.len() as int;
    assert(x =~= k.subrange(4, 4 + n));
    assert(y =~= k.subrange(4, 4 + n));
    assert(r =~= k.skip(4 + n));
    assert(s =~= k.skip(4 + n));
}

/// No part is so long that its length does not fit in 32 bits.
pub open spec fn short_parts(parts: Seq<Seq<u8>>) -> bool {
    forall|i: int| 0 <= i < parts.len() ==> #[trigger] parts[i].len() < 0x1_0000_0000
}

/// Different lists of parts never share a key, as long as each part is shorter
/// than 4 GiB: a key determines its parts.
pub proof fn law_key_determines_parts(a: Seq<Seq<u8>>, b: Seq<Seq<u8>>)
    requires
        short_parts(a),
        short_parts(b),
    ensures
        key_bytes(a) == key_bytes(b) <==> a == b,
    decreases a.len(),
{
    if key_bytes(a) == key_bytes(b) {
        if a.len() > 0 {
            lemma_key_bytes_first(a);
            assert(key_bytes(a).len() >= key_part(a[0]).len() >= 4);
        }
        if b.len() > 0 {
            lemma_key_bytes_first(b);
            assert(key_bytes(b).len() >= key_part(b[0]).len() >= 4);
        }
        if a.len() == 0 || b.len() == 0 {
            assert(key_bytes(a).len() == 0);
            assert(a =~= b);
        } else {
            let r = a.drop_first();
            let s = b.drop_first();
            lemma_key_part_splits(a[0], key_bytes(r), b[0], key_bytes(s));
            assert forall|i: int| 0 <= i < r.len() implies #[trigger] r[i].len()
                < 0x1_0000_0000 by {
                assert(a[i + 1].len() < 0x1_0000_0000);
            }
            assert forall|i: int| 0 <= i < s.len() implies #[trigger] s[i].len()
                < 0x1_0000_0000 by {
                assert(b[i + 1].len() < 0x1_0000_0000);
            }
            law_key_determines_parts(r, s);
            assert(a =~= seq![a[0]] + r);
            assert(b =~= seq![b[0]] + s);
        }
    }
}

/// The parts of a key, as sequences.
pub open spec fn part_views(parts: Seq<&[u8]>) -> Seq<Seq<u8>> {
    parts.map_values(|p: &[u8]| p@)
}

/// A lower-case hexadecimal digit.
pub open spec fn hex_char(n: int) -> char {
    if n == 0 { '0' } else if n == 1 { '1' } else if n == 2 { '2' } else if n == 3 { '3' }
    else if n == 4 { '4' } else if n == 5 { '5' } else if n == 6 { '6' } else if n == 7 { '7' }
    else if n == 8 { '8' } else if n == 9 { '9' } else if n == 10 { 'a' } else if n == 11 { 'b' }
    else if n == 12 { 'c' } else if n == 13 { 'd' } else if n == 14 { 'e' } else { 'f' }
}

/// Two hexadecimal digits for each byte.
pub open spec fn hex(bytes: Seq<u8>) -> Seq<char>
    decreases bytes.len(),
{
    if bytes.len() == 0 {
        seq![]
    } else {
        hex(bytes.drop_last()).push(hex_char(bytes.last() as int / 16)).push(
            hex_char(bytes.last() as int % 16),
        )
    }
}

fn hex_text(n: u8) -> (t: &'static str)
    requires
        n < 16,
    ensures
        t@ == seq![hex_char(n as int)],
{
    proof {
        reveal_strlit("0");
        reveal_strlit("1");
        reveal_strlit("2");
        reveal_strlit("3");
        reveal_strlit("4");
        reveal_strlit("5");
        reveal_strlit("6");
        reveal_strlit("7");
        reveal_strlit("8");
        reveal_strlit("9");
        reveal_strlit("a");
        reveal_strlit("b");
        reveal_strlit("c");
        reveal_strlit("d");
        reveal_strlit("e");
        reveal_strlit("f");
    }
    let t = match n {
        0 => "0",
        1 => "1",
        2 => "2",
        3 => "3",
        4 => "4",
        5 => "5",
        6 => "6",
        7 => "7",
        8 => "8",
        9 => "9",
        10 => "a",
        11 => "b",
        12 => "c",
        13 => "d",
        14 => "e",
        _ => "f",
    };
    assert(t@ =~= seq![hex_char(n as int)]);
    t
}

impl ComputeKey {
    /// The key made of `parts`, each preceded by its length.
    pub fn from_parts(parts: &[&[u8]]) -> (key: Self)
        ensures
            key@ == key_bytes(part_views(parts@)),
    {
        let mut buf: Vec<u8> = Vec::new();
        let mut i: usize = 0;
        assert(part_views(parts@).take(0) =~= Seq::<Seq<u8>>::empty());
        while i < parts.len()
            invariant
                i <= parts.len(),
                buf@ == key_bytes(part_views(parts@).take(i as int)),
            decreases parts.len() - i,
        {
            let part = parts[i];
            let ghost before = buf@;
            let len: u64 = part.len() as u64 % 0x1_0000_0000;
            buf.push((len % 256) as u8);
            buf.push((len / 256 % 256) as u8);
            buf.push((len / 65536 % 256) as u8);
            buf.push((len / 16777216 % 256) as u8);
            assert(buf@ =~= before + le_bytes(len as int));
            buf.extend_from_slice(part);
            proof {
                let all = part_views(parts@);
                assert(buf@ =~= before + key_part(part@));
                assert(all.take(i + 1).drop_last() =~= all.take(i as int));
                assert(all.take(i + 1).last() == part@);
            }
            i += 1;
        }
        assert(part_views(parts@).take(i as int) =~= part_views(parts@));
        ComputeKey(buf)
    }

    /// The key in hexadecimal, cut after 32 bytes.
    pub fn display(&self) -> (text: String)
        ensures
            text@ == if self@.len() > 32 {
                hex(self@.take(32)) + "…"@
            } else {
                hex(self@)
            },
    {
        let mut out = String::new();
        let shown: usize = if self.0.len() > 32 {
            32
        } else {
            self.0.len()
        };
        let mut i: usize = 0;
        assert(self@.take(0) =~= Seq::<u8>::empty());
        while i < shown
            invariant
                i <= shown,
                shown <= self.0.len(),
                out@ == hex(self@.take(i as int)),
            decreases shown - i,
        {
            let byte: u8 = self.0[i];
            let ghost before = out@;
            out.append(hex_text(byte / 16));
            out.append(hex_text(byte % 16));
            assert(self@.take(i + 1).drop_last() =~= self@.take(i as int));
            assert(self@.take(i + 1).last() == byte);
            assert(out@ =~= hex(self@.take(i + 1)));
            i += 1;
        }
        if self.0.len() > 32 {
            out.append("…");
        } else {
            assert(self@.take(i as int) =~= self@);
        }
        out
    }
}

/// A shard key for write serialization. Two writes with the same key go
/// through the same lock.
#[derive(Debug, PartialEq, Eq, Hash)]
pub struct LockKey(pub String);

impl Clone for LockKey {
    fn clone(&self) -> (key: Self)
        ensures
            key@ == self@,
    {
        LockKey(self.0.clone())
    }
}

impl View for LockKey {
    type V = Seq<char>;

    open spec fn view(&self) -> Seq<char> {
        self.0@
    }
}

impl LockKey {
    /// The lock key with the text `s`.
    pub fn from(s: &str) -> (key: Self)
        ensures
            key@ == s@,
    {
        LockKey(s.to_string())
    }

    /// The key as text.
    pub fn display(&self) -> (text: String)
        ensures
            text@ == self@,
    {
        self.0.clone()
    }
}

/// A key is made of its parts one after the other: another part adds its length
/// in four bytes, the least significant first, and its bytes.
pub proof fn law_key_layout(
    parts: &[&[u8]],
    key: ComputeKey,
    more: &[&[u8]],
    longer: ComputeKey,
    part: &[u8],
)
    requires
        call_ensures(ComputeKey::from_parts, (parts,), key),
        call_ensures(ComputeKey::from_parts, (more,), longer),
        more@ == parts@.push(part),
        part@.len() < 0x1_0000_0000,
    ensures
        parts@.len() == 0 ==> key.0@.len() == 0,
        longer.0@.len() == key.0@.len() + 4 + part@.len(),
        longer.0@.take(key.0@.len() as int) == key.0@,
        longer.0@.skip(key.0@.len() + 4int) == part@,
        ({
            let n = key.0@.len() as int;
            longer.0@[n] + 256 * longer.0@[n + 1] + 65536 * longer.0@[n + 2] + 16777216
                * longer.0@[n + 3] == part@.len()
        }),
{
    let all = part_views(more@);
    assert(all.drop_last() =~= part_views(parts@));
    assert(all.last() == part@);
    let len = part@.len() as int;
    lemma_le_value(len);
    let n = key.0@.len() as int;
    assert(longer.0@ == key.0@ + key_part(part@));
    assert(longer.0@.take(n) =~= key.0@);
    assert(longer.0@.skip(n + 4) =~= part@);
    assert(longer.0@[n] == le_bytes(len)[0]);
    assert(longer.0@[n + 1] == le_bytes(len)[1]);
    assert(longer.0@[n + 2] == le_bytes(len)[2]);
    assert(longer.0@[n + 3] == le_bytes(len)[3]);
}

/// Keys that are made of different parts are different, and keys of the same
/// parts are the same.
pub proof fn law_keys_tell_their_parts_apart(
    a: &[&[u8]],
    x: ComputeKey,
    b: &[&[u8]],
    y: ComputeKey,
)
    requires
        call_ensures(ComputeKey::from_parts, (a,), x),
        call_ensures(ComputeKey::from_parts, (b,), y),
        forall|i: int| #![trigger a@[i]] 0 <= i < a@.len() ==> a@[i]@.len() < 0x1_0000_0000,
        forall|i: int| #![trigger b@[i]] 0 <= i < b@.len() ==> b@[i]@.len() < 0x1_0000_0000,
    ensures
        x.0@ == y.0@ <==> (a@.len() == b@.len() && forall|i: int| #![trigger a@[i]]
            0 <= i < a@.len() ==> a@[i]@ == b@[i]@),
{
    let p = part_views(a@);
    let q = part_views(b@);
    assert(short_parts(p)) by {
        assert forall|i: int| 0 <= i < p.len() implies #[trigger] p[i].len() < 0x1_0000_0000 by {
            assert(p[i] == a@[i]@);
        }
    }
    assert(short_parts(q)) by {
        assert forall|i: int| 0 <= i < q.len() implies #[trigger] q[i].len() < 0x1_0000_0000 by {
            assert(q[i] == b@[i]@);
        }
    }
    law_key_determines_parts(p, q);
    if x.0@ == y.0@ {
        assert forall|i: int| #![trigger a@[i]] 0 <= i < a@.len() implies a@[i]@ == b@[i]@ by {
            assert(p[i] == q[i]);
        }
    }
    if a@.len() == b@.len() && (forall|i: int| #![trigger a@[i]]
        0 <= i < a@.len() ==> a@[i]@ == b@[i]@) {
        assert(p =~= q);
    }
}

proof fn lemma_hex_digits(bytes: Seq<u8>)
    ensures
        hex(bytes).len() == 2 * bytes.len(),
        forall|i: int| #![trigger bytes[i]]
            0 <= i < bytes.len() ==> hex(bytes)[2 * i] == "0123456789abcdef"@[bytes[i] as int / 16]
                && hex(bytes)[2 * i + 1] == "0123456789abcdef"@[bytes[i] as int % 16],
    decreases bytes.len(),
{
    reveal_strlit("0123456789abcdef");
    if bytes.len() > 0 {
        let front = bytes.drop_last();
        lemma_hex_digits(front);
        assert forall|i: int| #![trigger bytes[i]] 0 <= i < bytes.len() implies hex(bytes)[2 * i]
            == "0123456789abcdef"@[bytes[i] as int / 16] && hex(bytes)[2 * i + 1]
            == "0123456789abcdef"@[bytes[i] as int % 16] by {
            if i < front.len() {
                assert(front[i] == bytes[i]);
                assert(hex(bytes)[2 * i] == hex(front)[2 * i]);
                assert(hex(bytes)[2 * i + 1] == hex(front)[2 * i + 1]);
            }
        }
    }
}

/// A key is shown by two hexadecimal digits for each of its first 32 bytes, with
/// an ellipsis where there are more.
pub proof fn law_key_is_shown_in_hexadecimal(key: &ComputeKey, text: String)
    requires
        call_ensures(ComputeKey::display, (key,), text),
    ensures
        key.0@.len() <= 32 ==> text@.len() == 2 * key.0@.len(),
        key.0@.len() > 32 ==> text@.len() == 65 && text@[64] == '…',
        forall|i: int| #![trigger key.0@[i]]
            0 <= i < key.0@.len() && i < 32 ==> text@[2 * i] == "0123456789abcdef"@[key.0@[i] as int
                / 16] && text@[2 * i + 1] == "0123456789abcdef"@[key.0@[i] as int % 16],
{
    reveal_strlit("…");
    if key.0@.len() > 32 {
        let shown = key.0@.take(32);
        lemma_hex_digits(shown);
        assert forall|i: int| #![trigger key.0@[i]]
            0 <= i < key.0@.len() && i < 32 implies text@[2 * i]
            == "0123456789abcdef"@[key.0@[i] as int / 16] && text@[2 * i + 1]
            == "0123456789abcdef"@[key.0@[i] as int % 16] by {
            assert(shown[i] == key.0@[i]);
            assert(text@[2 * i] == hex(shown)[2 * i]);
            assert(text@[2 * i + 1] == hex(shown)[2 * i + 1]);
        }
    } else {
        lemma_hex_digits(key.0@);
    }
}

/// A lock key is the text that it was made from, and is shown as that.
pub proof fn law_lock_key_is_its_text(s: &str, key: LockKey, text: String)
    requires
        call_ensures(LockKey::from, (s,), key),
        call_ensures(LockKey::display, (&key,), text),
    ensures
        key.0@ == s@,
        text@ == s@,
{
}

} // verus!
