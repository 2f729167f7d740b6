//! The notation of the wire: CBOR data items, each in its shortest form.
//!
//! Every item starts with a head: one lead byte that holds the major type in
//! its upper three bits and, in the lower five, either a small argument
//! itself or the width of the big-endian argument that follows.
//! The writers produce exactly the shortest form; the readers accept exactly
//! that form and nothing else, so that a reader undoes its writer and a
//! writer undoes its reader.

use vstd::prelude::*;
use vstd::string::StringSliceAdditionalSpecFns;

verus! {

/// Major type of an unsigned integer.
pub const MAJOR_UINT: u8 = 0;

/// Major type of a text string.
pub const MAJOR_TEXT: u8 = 3;

/// Major type of an array.
pub const MAJOR_ARRAY: u8 = 4;

/// Major type of a map.
pub const MAJOR_MAP: u8 = 5;

/// The item that stands for an absent value.
pub const NULL_ITEM: u8 = 0xf6;

/// `pat` stands in `s` at offset `pos`.
pub open spec fn has_at(s: Seq<u8>, pos: int, pat: Seq<u8>) -> bool {
    &&& 0 <= pos
    &&& pos + pat.len() <= s.len()
    &&& s.subrange(pos, pos + pat.len()) == pat
}

/// 256 to the power `n`.
pub open spec fn radix_pow(n: nat) -> nat
    decreases n,
{
    if n == 0 {
        1
    } else {
        256 * radix_pow((n - 1) as nat)
    }
}

/// The `n` low-order base-256 digits of `value`, most significant first.
pub open spec fn be_bytes(value: nat, n: nat) -> Seq<u8>
    decreases n,
{
    if n == 0 {
        Seq::empty()
    } else {
        be_bytes(value / 256, (n - 1) as nat).push((value % 256) as u8)
    }
}

/// How many argument bytes follow the lead byte of a head.
pub open spec fn arg_width(value: u64) -> nat {
    if value < 24 {
        0
    } else if value <= 0xff {
        1
    } else if value <= 0xffff {
        2
    } else if value <= 0xffff_ffff {
        4
    } else {
        8
    }
}

/// The lower five bits of the lead byte of a head.
pub open spec fn arg_info(value: u64) -> u8 {
    if value < 24 {
        value as u8
    } else if value <= 0xff {
        24
    } else if value <= 0xffff {
        25
    } else if value <= 0xffff_ffff {
        26
    } else {
        27
    }
}

/// The shortest head of major type `major` with argument `value`.
pub open spec fn head(major: u8, value: u64) -> Seq<u8>
    recommends
        major < 8,
{
    seq![(major * 32 + arg_info(value)) as u8] + be_bytes(value as nat, arg_width(value))
}

/// A text string item that holds `s`.
pub open spec fn text(s: &str) -> Seq<u8> {
    head(MAJOR_TEXT, s.spec_bytes().len() as u64) + s.spec_bytes()
}

/// The items one after another.
pub open spec fn join(items: Seq<Seq<u8>>) -> Seq<u8>
    decreases items.len(),
{
    if items.len() == 0 {
        Seq::empty()
    } else {
        join(items.drop_last()) + items.last()
    }
}

/// The items of an array of bytes: each byte as an unsigned integer.
pub open spec fn byte_items(bytes: Seq<u8>) -> Seq<u8> {
    join(bytes.map_values(|b: u8| head(MAJOR_UINT, b as u64)))
}

/// An occurrence of a concatenation is an occurrence of its first part
/// followed by an occurrence of its second part.
pub proof fn lemma_has_at_concat(s: Seq<u8>, pos: int, a: Seq<u8>, b: Seq<u8>)
    ensures
        has_at(s, pos, a + b) <==> (has_at(s, pos, a) && has_at(s, pos + a.len(), b)),
{
    let ab = a + b;
    if has_at(s, pos, ab) {
        assert(s.subrange(pos, pos + a.len()) =~= ab.subrange(0, a.len() as int));
        assert(ab.subrange(0, a.len() as int) =~= a);
        assert(s.subrange(pos + a.len(), pos + a.len() + b.len()) =~= ab.subrange(
            a.len() as int,
            ab.len() as int,
        ));
        assert(ab.subrange(a.len() as int, ab.len() as int) =~= b);
    }
    if has_at(s, pos, a) && has_at(s, pos + a.len(), b) {
        assert(s.subrange(pos, pos + ab.len()) =~= s.subrange(pos, pos + a.len()) + s.subrange(
            pos + a.len(),
            pos + a.len() + b.len(),
        ));
    }
}

/// A sequence is an occurrence of `pat` exactly when `pat` stands at its
/// start and fills it.
pub proof fn lemma_has_at_whole(s: Seq<u8>, pat: Seq<u8>)
    ensures
        s == pat <==> (has_at(s, 0, pat) && s.len() == pat.len()),
{
    if has_at(s, 0, pat) && s.len() == pat.len() {
        assert(s.subrange(0, s.len() as int) =~= s);
    }
    if s == pat {
        assert(s.subrange(0, s.len() as int) =~= s);
    }
}

/// The powers of 256 that the heads use.
pub proof fn lemma_radix_pow_values()
    ensures
        radix_pow(0) == 1,
        radix_pow(1) == 0x100,
        radix_pow(2) == 0x1_0000,
        radix_pow(3) == 0x100_0000,
        radix_pow(4) == 0x1_0000_0000,
        radix_pow(5) == 0x100_0000_0000,
        radix_pow(6) == 0x1_0000_0000_0000,
        radix_pow(7) == 0x100_0000_0000_0000,
        radix_pow(8) == 0x1_0000_0000_0000_0000,
{
    reveal_with_fuel(radix_pow, 9);
}

/// `be_bytes` yields as many bytes as it is asked for.
pub proof fn lemma_be_bytes_len(value: nat, n: nat)
    ensures
        be_bytes(value, n).len() == n,
    decreases n,
{
    if n > 0 {
        lemma_be_bytes_len(value / 256, (n - 1) as nat);
    }
}

/// Two numbers below 256^n with the same `n` digits are the same number.
pub proof fn lemma_be_bytes_unique(v: nat, w: nat, n: nat)
    requires
        v < radix_pow(n),
        w < radix_pow(n),
        be_bytes(v, n) == be_bytes(w, n),
    ensures
        v == w,
    decreases n,
{
    if n > 0 {
        let m = (n - 1) as nat;
        let a = be_bytes(v / 256, m);
        let b = be_bytes(w / 256, m);
        assert(a.push((v % 256) as u8).last() == (v % 256) as u8);
        assert(a.push((v % 256) as u8).drop_last() =~= a);
        assert(b.push((w % 256) as u8).drop_last() =~= b);
        lemma_be_bytes_unique(v / 256, w / 256, m);
    }
}

/// The parts of a head: its length, its lead byte and its argument bytes.
pub proof fn lemma_head_parts(major: u8, value: u64)
    requires
        major < 8,
    ensures
        head(major, value).len() == 1 + arg_width(value),
        head(major, value)[0] == major * 32 + arg_info(value),
        head(major, value).subrange(1, 1 + arg_width(value) as int) == be_bytes(
            value as nat,
            arg_width(value),
        ),
        (value as nat) < radix_pow(arg_width(value)) || value < 24,
{
    lemma_be_bytes_len(value as nat, arg_width(value));
    lemma_radix_pow_values();
}

/// At one place at most one head of a given major type can stand.
pub proof fn lemma_head_unique(s: Seq<u8>, pos: int, major: u8, v: u64, w: u64)
    requires
        major < 8,
        has_at(s, pos, head(major, v)),
        has_at(s, pos, head(major, w)),
    ensures
        v == w,
{
    lemma_head_parts(major, v);
    lemma_head_parts(major, w);
    if v >= 24 {
        lemma_be_bytes_unique(v as nat, w as nat, arg_width(v));
    }
}

/// Joining one more item appends it.
pub proof fn lemma_join_push(items: Seq<Seq<u8>>, item: Seq<u8>)
    ensures
        join(items.push(item)) == join(items) + item,
{
    assert(items.push(item).drop_last() =~= items);
}

/// Where joined items stand, the first `k` of them stand joined.
pub proof fn lemma_join_take(s: Seq<u8>, pos: int, items: Seq<Seq<u8>>, k: int)
    requires
        has_at(s, pos, join(items)),
        0 <= k <= items.len(),
    ensures
        has_at(s, pos, join(items.take(k))),
    decreases items.len() - k,
{
    if k == items.len() {
        assert(items.take(k) =~= items);
    } else {
        lemma_has_at_concat(s, pos, join(items.drop_last()), items.last());
        lemma_join_take(s, pos, items.drop_last(), k);
        assert(items.drop_last().take(k) =~= items.take(k));
    }
}

/// Where joined items stand, item `i` stands right behind the first `i`.
pub proof fn lemma_join_step(s: Seq<u8>, pos: int, items: Seq<Seq<u8>>, i: int)
    requires
        has_at(s, pos, join(items)),
        0 <= i < items.len(),
    ensures
        join(items.take(i + 1)) == join(items.take(i)) + items[i],
        has_at(s, pos, join(items.take(i))),
        has_at(s, pos + join(items.take(i)).len(), items[i]),
{
    lemma_join_take(s, pos, items, i + 1);
    assert(items.take(i + 1) =~= items.take(i).push(items[i]));
    lemma_join_push(items.take(i), items[i]);
    lemma_has_at_concat(s, pos, join(items.take(i)), items[i]);
}

/// One more byte appends its item.
pub proof fn lemma_byte_items_push(bytes: Seq<u8>, b: u8)
    ensures
        byte_items(bytes.push(b)) == byte_items(bytes) + head(MAJOR_UINT, b as u64),
{
    let f = |b: u8| head(MAJOR_UINT, b as u64);
    assert(bytes.push(b).map_values(f) =~= bytes.map_values(f).push(f(b)));
    lemma_join_push(bytes.map_values(f), f(b));
}

/// Where the items of `bytes` stand, the item of byte `i` stands right
/// behind the items of the first `i` bytes.
pub proof fn lemma_byte_items_step(s: Seq<u8>, pos: int, bytes: Seq<u8>, i: int)
    requires
        has_at(s, pos, byte_items(bytes)),
        0 <= i < bytes.len(),
    ensures
        byte_items(bytes.take(i + 1)) == byte_items(bytes.take(i)) + head(
            MAJOR_UINT,
            bytes[i] as u64,
        ),
        has_at(s, pos, byte_items(bytes.take(i))),
        has_at(s, pos + byte_items(bytes.take(i)).len(), head(MAJOR_UINT, bytes[i] as u64)),
{
    let f = |b: u8| head(MAJOR_UINT, b as u64);
    let items = bytes.map_values(f);
    lemma_join_step(s, pos, items, i);
    assert(items.take(i) =~= bytes.take(i).map_values(f));
    assert(items.take(i + 1) =~= bytes.take(i + 1).map_values(f));
}

/// Two byte sequences whose items stand at one place agree on every prefix
/// that both have.
pub proof fn lemma_byte_items_agree(s: Seq<u8>, pos: int, a: Seq<u8>, b: Seq<u8>, k: int)
    requires
        has_at(s, pos, byte_items(a)),
        has_at(s, pos, byte_items(b)),
        0 <= k <= a.len(),
        k <= b.len(),
    ensures
        a.take(k) == b.take(k),
    decreases k,
{
    if k > 0 {
        lemma_byte_items_agree(s, pos, a, b, k - 1);
        lemma_byte_items_step(s, pos, a, k - 1);
        lemma_byte_items_step(s, pos, b, k - 1);
        lemma_head_unique(
            s,
            pos + byte_items(a.take(k - 1)).len(),
            MAJOR_UINT,
            a[k - 1] as u64,
            b[k - 1] as u64,
        );
    }
}

/// Appends the `n` low-order base-256 digits of `value`, most significant
/// first.
pub(crate) fn push_be(out: &mut Vec<u8>, value: u64, n: u8)
    requires
        n <= 8,
    ensures
        final(out)@ == old(out)@ + be_bytes(value as nat, n as nat),
    decreases n,
{
    if n > 0 {
        push_be(out, value / 256, n - 1);
        out.push((value % 256) as u8);
    }
}

/// Reads `n` bytes at `pos` as a big-endian number.
pub(crate) fn read_be(buf: &[u8], pos: usize, n: usize) -> (value: u64)
    requires
        n <= 8,
        pos + n <= buf@.len(),
    ensures
        be_bytes(value as nat, n as nat) == buf@.subrange(pos as int, pos + n),
        (value as nat) < radix_pow(n as nat),
    decreases n,
{
    proof {
        lemma_radix_pow_values();
    }
    if n == 0 {
        0
    } else {
        assert(buf@.len() == vstd::slice::spec_slice_len(buf));
        let high = read_be(buf, pos, n - 1);
        let low = buf[pos + n - 1];
        assert(radix_pow((n - 1) as nat) <= radix_pow(7)) by {
            lemma_radix_pow_values();
        }
        let value = high * 256 + low as u64;
        value
    }
}

/// Appends the shortest head of major type `major` with argument `value`.
pub(crate) fn write_head(out: &mut Vec<u8>, major: u8, value: u64)
    requires
        major < 8,
    ensures
        final(out)@ == old(out)@ + head(major, value),
{
    let lead = major * 32;
    if value < 24 {
        out.push(lead + value as u8);
    } else if value <= 0xff {
        out.push(lead + 24);
        push_be(out, value, 1);
    } else if value <= 0xffff {
        out.push(lead + 25);
        push_be(out, value, 2);
    } else if value <= 0xffff_ffff {
        out.push(lead + 26);
        push_be(out, value, 4);
    } else {
        out.push(lead + 27);
        push_be(out, value, 8);
    }
}

/// Reads the head of major type `major` that stands at `pos`, if one does:
/// its argument and the offset behind it.
pub(crate) fn read_head(buf: &[u8], pos: usize, major: u8) -> (res: Option<(u64, usize)>)
    requires
        major < 8,
    ensures
        res matches Some((value, next)) ==> has_at(buf@, pos as int, head(major, value)) && next
            == pos + head(major, value).len(),
        forall|v: u64| #[trigger]
            has_at(buf@, pos as int, head(major, v)) ==> res is Some && res.unwrap().0 == v,
{
    let len = buf.len();
    if pos >= len {
        assert forall|v: u64| !#[trigger] has_at(buf@, pos as int, head(major, v)) by {
            lemma_head_parts(major, v);
        }
        return None;
    }
    let lead = buf[pos];
    let info = lead % 32;
    if lead / 32 != major || info > 27 {
        assert forall|v: u64| !#[trigger] has_at(buf@, pos as int, head(major, v)) by {
            lemma_head_parts(major, v);
        }
        return None;
    }
    let n: usize = if info < 24 {
        0
    } else if info == 24 {
        1
    } else if info == 25 {
        2
    } else if info == 26 {
        4
    } else {
        8
    };
    if n > len - pos - 1 {
        assert forall|v: u64| !#[trigger] has_at(buf@, pos as int, head(major, v)) by {
            lemma_head_parts(major, v);
        }
        return None;
    }
    let value: u64 = if info < 24 {
        info as u64
    } else {
        read_be(buf, pos + 1, n)
    };
    let shortest = if info < 24 {
        true
    } else if info == 24 {
        value >= 24
    } else if info == 25 {
        value > 0xff
    } else if info == 26 {
        value > 0xffff
    } else {
        value > 0xffff_ffff
    };
    proof {
        lemma_radix_pow_values();
        lemma_be_bytes_len(value as nat, n as nat);
    }
    if !shortest {
        assert forall|v: u64| !#[trigger] has_at(buf@, pos as int, head(major, v)) by {
            lemma_head_parts(major, v);
            if has_at(buf@, pos as int, head(major, v)) {
                let h = buf@.subrange(pos as int, pos + head(major, v).len());
                assert(h.subrange(1, 1 + n) =~= buf@.subrange(pos + 1, pos + 1 + n));
                lemma_be_bytes_unique(v as nat, value as nat, n as nat);
            }
        }
        return None;
    }
    proof {
        lemma_head_parts(major, value);
        let h = head(major, value);
        assert(buf@.subrange(pos as int, pos + h.len()) =~= seq![lead] + buf@.subrange(
            pos + 1,
            pos + 1 + n,
        ));
        assert forall|v: u64| #[trigger] has_at(buf@, pos as int, head(major, v)) implies v
            == value by {
            lemma_head_unique(buf@, pos as int, major, v, value);
        }
    }
    Some((value, pos + 1 + n))
}

/// Tells whether `pat` stands in `buf` at `pos`, and gives the offset behind
/// it if so.
pub(crate) fn expect_bytes(buf: &[u8], pos: usize, pat: &[u8]) -> (res: Option<usize>)
    ensures
        res is Some <==> has_at(buf@, pos as int, pat@),
        res matches Some(next) ==> next == pos + pat@.len(),
{
    if pos > buf.len() || pat.len() > buf.len() - pos {
        return None;
    }
    let mut i: usize = 0;
    while i < pat.len()
        invariant
            i <= pat@.len(),
            pos + pat@.len() <= buf@.len() <= usize::MAX,
            forall|k: int| 0 <= k < i ==> buf@[pos + k] == pat@[k],
        decreases pat@.len() - i,
    {
        if buf[pos + i] != pat[i] {
            return None;
        }
        i += 1;
    }
    assert(buf@.subrange(pos as int, pos + pat@.len()) =~= pat@);
    Some(pos + pat.len())
}

/// Appends a copy of `bytes`.
pub(crate) fn push_bytes(out: &mut Vec<u8>, bytes: &[u8])
    ensures
        final(out)@ == old(out)@ + bytes@,
{
    let mut i: usize = 0;
    while i < bytes.len()
        invariant
            i <= bytes@.len(),
            out@ == old(out)@ + bytes@.subrange(0, i as int),
        decreases bytes@.len() - i,
    {
        out.push(bytes[i]);
        i += 1;
    }
}

/// Appends the items of `bytes`.
pub(crate) fn write_byte_items(out: &mut Vec<u8>, bytes: &[u8])
    ensures
        final(out)@ == old(out)@ + byte_items(bytes@),
{
    let mut i: usize = 0;
    while i < bytes.len()
        invariant
            i <= bytes@.len(),
            out@ == old(out)@ + byte_items(bytes@.take(i as int)),
        decreases bytes@.len() - i,
    {
        write_head(out, MAJOR_UINT, bytes[i] as u64);
        proof {
            lemma_byte_items_push(bytes@.take(i as int), bytes@[i as int]);
            assert(bytes@.take(i + 1) =~= bytes@.take(i as int).push(bytes@[i as int]));
        }
        i += 1;
    }
    assert(bytes@.take(bytes@.len() as int) =~= bytes@);
}

/// Reads the items of `count` bytes that stand at `pos`, if they do: the
/// bytes and the offset behind their items.
pub(crate) fn read_byte_items(buf: &[u8], pos: usize, count: u64) -> (res: Option<
    (Vec<u8>, usize),
>)
    ensures
        res matches Some((bytes, next)) ==> bytes@.len() == count && has_at(
            buf@,
            pos as int,
            byte_items(bytes@),
        ) && next == pos + byte_items(bytes@).len(),
        forall|s: Seq<u8>|
            s.len() == count && #[trigger] has_at(buf@, pos as int, byte_items(s)) ==> res is Some
                && res.unwrap().0@ == s,
{
    if pos > buf.len() {
        return None;
    }
    let mut out: Vec<u8> = Vec::new();
    let mut cur: usize = pos;
    let mut i: u64 = 0;
    assert(buf@.subrange(pos as int, pos as int) =~= Seq::<u8>::empty());
    while i < count
        invariant
            i <= count,
            pos <= cur <= buf@.len() <= usize::MAX,
            out@.len() == i,
            pos + i <= cur,
            cur == pos + byte_items(out@).len(),
            has_at(buf@, pos as int, byte_items(out@)),
            forall|s: Seq<u8>|
                s.len() == count && #[trigger] has_at(buf@, pos as int, byte_items(s)) ==> s.take(
                    i as int,
                ) == out@,
        decreases count - i,
    {
        let item = read_head(buf, cur, MAJOR_UINT);
        let ghost fits = item matches Some((value, _)) && value <= 0xff;
        proof {
            if !fits {
                assert forall|s: Seq<u8>| s.len() == count implies !#[trigger] has_at(
                    buf@,
                    pos as int,
                    byte_items(s),
                ) by {
                    if has_at(buf@, pos as int, byte_items(s)) {
                        lemma_byte_items_step(buf@, pos as int, s, i as int);
                    }
                }
            }
        }
        match item {
            Some((value, next)) => {
                if value > 0xff {
                    return None;
                }
                let b = value as u8;
                proof {
                    lemma_byte_items_push(out@, b);
                    lemma_has_at_concat(
                        buf@,
                        pos as int,
                        byte_items(out@),
                        head(MAJOR_UINT, b as u64),
                    );
                    lemma_head_parts(MAJOR_UINT, b as u64);
                    assert forall|s: Seq<u8>|
                        s.len() == count && #[trigger] has_at(
                            buf@,
                            pos as int,
                            byte_items(s),
                        ) implies s.take(i + 1) == out@.push(b) by {
                        lemma_byte_items_step(buf@, pos as int, s, i as int);
                    }
                }
                out.push(b);
                cur = next;
                i += 1;
            },
            None => {
                return None;
            },
        }
    }
    Some((out, cur))
}

/// Appends a text string item that holds `s`.
pub(crate) fn write_text(out: &mut Vec<u8>, s: &str)
    ensures
        final(out)@ == old(out)@ + text(s),
{
    let bytes = s.as_bytes();
    write_head(out, MAJOR_TEXT, bytes.len() as u64);
    push_bytes(out, bytes);
}

/// Tells whether the text string item that holds `s` stands in `buf` at
/// `pos`, and gives the offset behind it if so.
pub(crate) fn expect_text(buf: &[u8], pos: usize, s: &str) -> (res: Option<usize>)
    ensures
        res is Some <==> has_at(buf@, pos as int, text(s)),
        res matches Some(next) ==> next == pos + text(s).len(),
{
    let bytes = s.as_bytes();
    proof {
        lemma_has_at_concat(
            buf@,
            pos as int,
            head(MAJOR_TEXT, bytes@.len() as u64),
            bytes@,
        );
    }
    match read_head(buf, pos, MAJOR_TEXT) {
        Some((len, next)) => {
            if len != bytes.len() as u64 {
                proof {
                    if has_at(buf@, pos as int, head(MAJOR_TEXT, bytes@.len() as u64)) {
                        lemma_head_unique(
                            buf@,
                            pos as int,
                            MAJOR_TEXT,
                            len,
                            bytes@.len() as u64,
                        );
                    }
                }
                None
            } else {
                expect_bytes(buf, next, bytes)
            }
        },
        None => None,
    }
}

} // verus!
