//! The suffix test: does a text end in a given number of '0' characters?
use vstd::prelude::*;
use vstd::string::*;
use vstd::utf8::*;

verus! {

/// Whether the last `n` characters of `s` are all '0', with `0 < n <= |s|`.
/// A count of zero, or one longer than `s`, never matches.
pub open spec fn has_zero_suffix(s: Seq<char>, n: int) -> bool {
    &&& 0 < n <= s.len()
    &&& forall|i: int| s.len() - n <= i < s.len() ==> s[i] == '0'
}

/// A zero count never matches, whatever the text.
pub proof fn lemma_zero_count_never_matches(s: Seq<char>)
    ensures
        !has_zero_suffix(s, 0),
{
}

/// The byte-level counterpart of [`has_zero_suffix`], for the digit '0'
/// encoded as the byte 0x30.
pub open spec fn has_zero_byte_suffix(b: Seq<u8>, n: int) -> bool {
    &&& 0 < n <= b.len()
    &&& forall|i: int| b.len() - n <= i < b.len() ==> b[i] == 0x30u8
}

/// UTF-8 encoding distributes over concatenation.
pub proof fn lemma_encode_utf8_concat(a: Seq<char>, b: Seq<char>)
    ensures
        encode_utf8(a + b) == encode_utf8(a) + encode_utf8(b),
    decreases a.len(),
{
    if a.len() == 0 {
        assert(a + b =~= b);
        assert(encode_utf8(a) + encode_utf8(b) =~= encode_utf8(b));
    } else {
        assert((a + b).drop_first() =~= a.drop_first() + b);
        lemma_encode_utf8_concat(a.drop_first(), b);
        assert(encode_utf8(a + b) =~= encode_utf8(a) + encode_utf8(b));
    }
}

/// The encoding of a character ends in the byte 0x30 exactly when the
/// character is '0', and '0' encodes as that single byte.
proof fn lemma_last_byte_of_char(c: char)
    ensures
        encode_utf8(seq![c]).len() >= 1,
        (encode_utf8(seq![c]).last() == 0x30u8) <==> (c == '0'),
        c == '0' ==> encode_utf8(seq![c]) == seq![0x30u8],
{
    let v = c as u32;
    assert(seq![c].drop_first() =~= Seq::<char>::empty());
    assert(seq![c][0] == c);
    assert(encode_utf8(Seq::<char>::empty()) =~= Seq::<u8>::empty());
    assert(encode_utf8(seq![c]) =~= encode_scalar(v));
    char_is_scalar(c);
    if has_width_1_encoding(v) {
        assert(((v & 0x7F) as u8 == 0x30u8) <==> (v == 0x30u32)) by (bit_vector)
            requires
                v <= 0x7F,
        ;
        if v == 0x30u32 {
            char_u32_cast(c, v);
            assert(c == '0');
        }
    } else {
        assert((0x80u8 | ((v & 0x3F) as u8)) != 0x30u8) by (bit_vector);
    }
}

/// A text ends in `n` '0' characters exactly when its UTF-8 bytes end in
/// `n` bytes 0x30.
pub proof fn lemma_zero_suffix_utf8(s: Seq<char>, n: int)
    ensures
        has_zero_byte_suffix(encode_utf8(s), n) <==> has_zero_suffix(s, n),
    decreases s.len(),
{
    let b = encode_utf8(s);
    if n <= 0 {
    } else if s.len() == 0 {
    } else {
        let pre = s.drop_last();
        let c = s.last();
        assert(s =~= pre + seq![c]);
        lemma_encode_utf8_concat(pre, seq![c]);
        lemma_last_byte_of_char(c);
        let e = encode_utf8(pre);
        assert(b == e + encode_utf8(seq![c]));
        if c == '0' {
            lemma_zero_suffix_utf8(pre, n - 1);
            assert(b =~= e.push(0x30u8));
            if n == 1 {
                assert(has_zero_byte_suffix(b, n));
                assert(has_zero_suffix(s, n));
            } else {
                if has_zero_byte_suffix(b, n) {
                    assert forall|i: int| e.len() - (n - 1) <= i < e.len() implies e[i] == 0x30u8 by {
                        assert(b[i] == e[i]);
                    }
                    assert(has_zero_byte_suffix(e, n - 1));
                    assert forall|i: int| s.len() - n <= i < s.len() implies s[i] == '0' by {
                        if i < s.len() - 1 {
                            assert(s[i] == pre[i]);
                        }
                    }
                }
                if has_zero_suffix(s, n) {
                    assert forall|i: int| pre.len() - (n - 1) <= i < pre.len() implies pre[i] == '0' by {
                        assert(s[i] == pre[i]);
                    }
                    assert(has_zero_suffix(pre, n - 1));
                    assert forall|i: int| b.len() - n <= i < b.len() implies b[i] == 0x30u8 by {
                        if i < b.len() - 1 {
                            assert(b[i] == e[i]);
                        }
                    }
                }
            }
        } else {
            assert(b.last() == encode_utf8(seq![c]).last());
            assert(!has_zero_byte_suffix(b, n)) by {
                assert(b[b.len() - 1] != 0x30u8);
            }
            assert(!has_zero_suffix(s, n)) by {
                assert(s[s.len() - 1] != '0');
            }
        }
    }
}

/// Whether the last `zeros` characters of `hash` are all '0'. A count of
/// zero, or one beyond the text's length, gives `false`.
pub fn hash_ends_with_zeros(hash: &str, zeros: usize) -> (r: bool)
    ensures
        r == has_zero_suffix(hash@, zeros as int),
{
    let bytes = hash.as_bytes();
    proof {
        lemma_zero_suffix_utf8(hash@, zeros as int);
    }
    if zeros == 0 || zeros > bytes.len() {
        return false;
    }
    let start = bytes.len() - zeros;
    let mut i = start;
    while i < bytes.len()
        invariant
            start == bytes@.len() - zeros,
            start <= i <= bytes@.len(),
            bytes@ == encode_utf8(hash@),
            forall|j: int| start <= j < i ==> bytes@[j] == 0x30u8,
        decreases bytes@.len() - i,
    {
        if bytes[i] != 0x30u8 {
            assert(!has_zero_byte_suffix(bytes@, zeros as int)) by {
                assert(bytes@[i as int] != 0x30u8);
            }
            proof {
                lemma_zero_suffix_utf8(hash@, zeros as int);
            }
            return false;
        }
        i = i + 1;
    }
    true
}

} // verus!
