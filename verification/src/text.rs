//! Facts about sequences and about UTF-8 text that the header codec rests on:
//! how an ASCII byte in the encoding relates to the character in the text.

use vstd::prelude::*;
use vstd::utf8::*;

verus! {

/// The length of the longest prefix of `s` that does not hold `stop`: the
/// position of the first `stop`, or the length of `s` where there is none.
pub open spec fn prefix_without<T>(s: Seq<T>, stop: T) -> int
    decreases s.len(),
{
    if s.len() == 0 || s[0] == stop {
        0
    } else {
        1 + prefix_without(s.drop_first(), stop)
    }
}

/// The prefix ends inside the sequence, holds no `stop`, and is followed by
/// one where it is not the whole sequence.
pub proof fn lemma_prefix_without<T>(s: Seq<T>, stop: T)
    ensures
        0 <= prefix_without(s, stop) <= s.len(),
        forall|j: int| 0 <= j < prefix_without(s, stop) ==> s[j] != stop,
        prefix_without(s, stop) < s.len() ==> s[prefix_without(s, stop)] == stop,
        prefix_without(s, stop) == s.len() <==> !s.contains(stop),
    decreases s.len(),
{
    if s.len() == 0 || s[0] == stop {
    } else {
        let rest = s.drop_first();
        lemma_prefix_without(rest, stop);
        let k = prefix_without(rest, stop);
        assert forall|j: int| 0 <= j < k + 1 implies s[j] != stop by {
            if j > 0 {
                assert(s[j] == rest[j - 1]);
            }
        }
        if k < rest.len() {
            assert(s[k + 1] == rest[k]);
        } else {
            assert forall|j: int| 0 <= j < s.len() implies s[j] != stop by {
                if j > 0 {
                    assert(s[j] == rest[j - 1]);
                }
            }
        }
    }
}

/// A position with no `stop` before it, which holds one or is the end, is
/// where the prefix ends.
pub proof fn lemma_prefix_without_is<T>(s: Seq<T>, stop: T, at: int)
    requires
        0 <= at <= s.len(),
        forall|j: int| 0 <= j < at ==> s[j] != stop,
        at == s.len() || s[at] == stop,
    ensures
        prefix_without(s, stop) == at,
{
    lemma_prefix_without(s, stop);
    let k = prefix_without(s, stop);
    if k < at {
        assert(s[k] == stop);
    } else if at < k {
        assert(s[at] == stop);
    }
}

/// Encoding distributes over concatenation.
pub proof fn lemma_encode_concat(a: Seq<char>, b: Seq<char>)
    ensures
        encode_utf8(a + b) == encode_utf8(a) + encode_utf8(b),
    decreases a.len(),
{
    if a.len() == 0 {
        assert(a + b =~= b);
        assert(encode_utf8(a) + encode_utf8(b) =~= encode_utf8(b));
    } else {
        lemma_encode_concat(a.drop_first(), b);
        assert((a + b).drop_first() =~= a.drop_first() + b);
        assert((a + b)[0] == a[0]);
        assert(encode_utf8(a + b) =~= encode_utf8(a) + encode_utf8(b));
    }
}

/// An ASCII character is encoded as the one byte of the same value.
pub proof fn lemma_encode_ascii_char(c: char)
    requires
        (c as u32) < 0x80,
    ensures
        encode_utf8(seq![c]) == seq![c as u8],
{
    let v = c as u32;
    assert(v as u8 == leading_byte_width_1(v)) by (bit_vector)
        requires
            v < 0x80,
    ;
    let one = seq![c];
    assert(one.drop_first() =~= Seq::<char>::empty());
    assert(encode_utf8(one.drop_first()) =~= Seq::<u8>::empty());
    assert(one[0] == c);
    assert(encode_scalar(v) =~= seq![c as u8]);
    assert(encode_utf8(one) =~= seq![c as u8]);
}

/// Valid UTF-8 that begins with an ASCII byte decodes to that character
/// followed by the decoding of the rest, which is valid too.
pub proof fn lemma_decode_ascii_first(bytes: Seq<u8>)
    requires
        valid_utf8(bytes),
        bytes.len() > 0,
        bytes[0] < 0x80,
    ensures
        valid_utf8(bytes.subrange(1, bytes.len() as int)),
        decode_utf8(bytes) == seq![(bytes[0] as u32) as char] + decode_utf8(
            bytes.subrange(1, bytes.len() as int),
        ),
{
    let b = bytes[0];
    assert((b & 0x7F) as u32 == b as u32) by (bit_vector)
        requires
            b < 0x80,
    ;
    assert(pop_first_scalar(bytes) == bytes.subrange(1, bytes.len() as int));
}

/// Valid UTF-8 that holds an ASCII byte nowhere decodes to text that holds
/// the character of that value nowhere.
pub proof fn lemma_decode_without(bytes: Seq<u8>, stop: u8)
    requires
        valid_utf8(bytes),
        stop < 0x80,
        !bytes.contains(stop),
    ensures
        !decode_utf8(bytes).contains((stop as u32) as char),
    decreases bytes.len(),
{
    let wanted = (stop as u32) as char;
    if bytes.len() > 0 {
        let first = decode_first_scalar(bytes) as char;
        let rest = pop_first_scalar(bytes);
        assert forall|j: int| 0 <= j < rest.len() implies rest[j] != stop by {
            assert(rest[j] == bytes[j + length_of_first_scalar(bytes)]);
        }
        lemma_decode_without(rest, stop);
        if first == wanted {
            decode_utf8_first_scalar(bytes);
            let v = stop as u32;
            assert(first as u32 == v);
            assert(v as u8 == leading_byte_width_1(v)) by (bit_vector)
                requires
                    v < 0x80,
            ;
            assert(encode_scalar(v)[0] == stop);
            assert(take_first_scalar(bytes)[0] == bytes[0]);
            assert(bytes[0] == stop);
        }
        let text = decode_utf8(bytes);
        assert(text == seq![first] + decode_utf8(rest));
        assert forall|j: int| 0 <= j < text.len() implies text[j] != wanted by {
            if j > 0 {
                assert(text[j] == decode_utf8(rest)[j - 1]);
            }
        }
    }
}

/// Where a valid UTF-8 text holds an ASCII byte at `at`, it splits there into
/// valid parts, and decodes to the decoding of what stands before, the
/// character of that byte, and the decoding of what follows.
pub proof fn lemma_decode_around_ascii(bytes: Seq<u8>, at: int)
    requires
        valid_utf8(bytes),
        0 <= at < bytes.len(),
        bytes[at] < 0x80,
    ensures
        is_char_boundary(bytes, at),
        is_char_boundary(bytes.subrange(at, bytes.len() as int), 1),
        valid_utf8(bytes.subrange(0, at)),
        valid_utf8(bytes.subrange(at, bytes.len() as int)),
        valid_utf8(bytes.subrange(at + 1, bytes.len() as int)),
        decode_utf8(bytes) == decode_utf8(bytes.subrange(0, at)) + seq![
            (bytes[at] as u32) as char,
        ] + decode_utf8(bytes.subrange(at + 1, bytes.len() as int)),
{
    let tail = bytes.subrange(at, bytes.len() as int);
    is_char_boundary_iff_not_is_continuation_byte(bytes, at);
    valid_utf8_split(bytes, at);
    decode_utf8_split(bytes, at);
    lemma_decode_ascii_first(tail);
    assert(tail.subrange(1, tail.len() as int) =~= bytes.subrange(at + 1, bytes.len() as int));
    assert(is_char_boundary(tail, 1)) by {
        reveal_with_fuel(is_char_boundary, 2);
        assert(pop_first_scalar(tail) == tail.subrange(1, tail.len() as int));
    }
}

/// Text that holds the character of an ASCII value nowhere is encoded
/// without the byte of that value: all other characters encode to other
/// bytes.
pub proof fn lemma_encode_without(chars: Seq<char>, stop: u8)
    requires
        stop < 0x80,
        !chars.contains((stop as u32) as char),
    ensures
        !encode_utf8(chars).contains(stop),
    decreases chars.len(),
{
    if chars.len() > 0 {
        let rest = chars.drop_first();
        let v = chars[0] as u32;
        let head = encode_scalar(v);
        assert forall|j: int| 0 <= j < rest.len() implies rest[j] != (stop as u32) as char by {
            assert(rest[j] == chars[j + 1]);
        }
        lemma_encode_without(rest, stop);
        char_is_scalar(chars[0]);
        assert(chars[0] != (stop as u32) as char);
        assert(v != stop as u32) by {
            char_u32_cast(chars[0], v);
        }
        assert forall|j: int| 0 <= j < head.len() implies head[j] != stop by {
            if has_width_1_encoding(v) {
                assert((v & 0x7F) as u8 != stop) by (bit_vector)
                    requires
                        v <= 0x7F,
                        v != stop as u32,
                ;
            } else {
                assert(0xC0u8 | ((v >> 6) & 0x1F) as u8 >= 0x80) by (bit_vector);
                assert(0xE0u8 | ((v >> 12) & 0x0F) as u8 >= 0x80) by (bit_vector);
                assert(0xF0u8 | ((v >> 18) & 0x7) as u8 >= 0x80) by (bit_vector);
                assert(0x80u8 | (v & 0x3F) as u8 >= 0x80) by (bit_vector);
                assert(0x80u8 | ((v >> 6) & 0x3F) as u8 >= 0x80) by (bit_vector);
                assert(0x80u8 | ((v >> 12) & 0x3F) as u8 >= 0x80) by (bit_vector);
            }
        }
        let all = encode_utf8(chars);
        assert(all == head + encode_utf8(rest));
        assert forall|j: int| 0 <= j < all.len() implies all[j] != stop by {
            if j >= head.len() {
                assert(all[j] == encode_utf8(rest)[j - head.len()]);
            }
        }
    }
}

} // verus!
