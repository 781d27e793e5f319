use vstd::prelude::*;

verus! {

/// Whether a byte is an unreserved character of a URL: an ASCII letter, an
/// ASCII digit, or one of `-`, `.`, `_`, `~`.
pub open spec fn is_unreserved(b: u8) -> bool {
    ||| 0x41 <= b <= 0x5a
    ||| 0x61 <= b <= 0x7a
    ||| 0x30 <= b <= 0x39
    ||| b == 0x2d
    ||| b == 0x2e
    ||| b == 0x5f
    ||| b == 0x7e
}

/// The upper-case hexadecimal digit for a value below 16.
pub open spec fn hex_digit(n: u8) -> char {
    if n < 10 {
        ((0x30 + n) as u8) as char
    } else {
        ((0x41 + (n - 10)) as u8) as char
    }
}

/// What one byte is written as: itself where it is unreserved, `+` for a
/// space, and otherwise `%` with its two hexadecimal digits.
pub open spec fn encode_byte(b: u8) -> Seq<char> {
    if is_unreserved(b) {
        seq![b as char]
    } else if b == 0x20 {
        seq!['+']
    } else {
        seq!['%', hex_digit(b / 16), hex_digit(b % 16)]
    }
}

/// What a sequence of bytes is written as: each byte in turn.
pub open spec fn encode_bytes(bytes: Seq<u8>) -> Seq<char>
    decreases bytes.len(),
{
    if bytes.len() == 0 {
        Seq::empty()
    } else {
        encode_bytes(bytes.drop_last()) + encode_byte(bytes.last())
    }
}

/// What a text is written as in a URL: the encoding of its UTF-8 bytes.
pub open spec fn encode_text(text: Seq<char>) -> Seq<char> {
    encode_bytes(vstd::utf8::encode_utf8(text))
}

fn hex_char(n: u8) -> (c: char)
    requires
        n < 16,
    ensures
        c == hex_digit(n),
{
    if n < 10 {
        (0x30u8 + n) as char
    } else {
        (0x41u8 + (n - 10)) as char
    }
}

/// Percent-encodes `input` byte by byte.
pub fn encode(input: &str) -> (output: String)
    ensures
        output@ == encode_text(input@),
{
    let bytes = input.as_bytes();
    let mut output = String::new();
    let mut i: usize = 0;
    while i < bytes.len()
        invariant
            i <= bytes.len(),
            output@ == encode_bytes(bytes@.take(i as int)),
        decreases bytes.len() - i,
    {
        let b: u8 = bytes[i];
        proof {
            let next = bytes@.take(i + 1);
            assert(next.drop_last() == bytes@.take(i as int));
        }
        if (0x41 <= b && b <= 0x5a) || (0x61 <= b && b <= 0x7a) || (0x30 <= b && b <= 0x39) || b
            == 0x2d || b == 0x2e || b == 0x5f || b == 0x7e {
            output.push(b as char);
        } else if b == 0x20 {
            output.push('+');
        } else {
            output.push('%');
            output.push(hex_char(b / 16));
            output.push(hex_char(b % 16));
        }
        i += 1;
    }
    assert(bytes@.take(bytes.len() as int) == bytes@);
    output
}

/// Whether a character is an unreserved character of a URL.
pub open spec fn is_unreserved_char(c: char) -> bool {
    (c as u32) < 128 && is_unreserved(c as u8)
}

/// Whether a character may stand in an encoding: an unreserved character,
/// `+` or `%`.
pub open spec fn is_encoding_char(c: char) -> bool {
    is_unreserved_char(c) || c == '+' || c == '%'
}

/// The encoding of two byte sequences written one after the other is the
/// encoding of the first followed by that of the second.
pub proof fn lemma_encode_bytes_concat(a: Seq<u8>, b: Seq<u8>)
    ensures
        encode_bytes(a + b) == encode_bytes(a) + encode_bytes(b),
    decreases b.len(),
{
    if b.len() > 0 {
        assert((a + b).drop_last() == a + b.drop_last());
        lemma_encode_bytes_concat(a, b.drop_last());
    }
}

proof fn lemma_encode_first(bytes: Seq<u8>)
    requires
        bytes.len() > 0,
    ensures
        encode_bytes(bytes) == encode_byte(bytes.first()) + encode_bytes(bytes.drop_first()),
{
    assert(bytes == seq![bytes.first()] + bytes.drop_first());
    lemma_encode_bytes_concat(seq![bytes.first()], bytes.drop_first());
    let one = seq![bytes.first()];
    assert(encode_bytes(one.drop_last()) == Seq::<char>::empty());
}

proof fn lemma_encode_byte_injective(x: u8, y: u8)
    requires
        encode_byte(x).len() == encode_byte(y).len(),
        forall|k: int| 0 <= k < encode_byte(x).len() ==> encode_byte(x)[k] == encode_byte(y)[k],
    ensures
        x == y,
{
    let ex = encode_byte(x);
    let ey = encode_byte(y);
    assert(ex[0] == ey[0]);
}

/// Two byte sequences with the same encoding are the same: an encoding
/// loses nothing.
pub proof fn lemma_encode_bytes_injective(a: Seq<u8>, b: Seq<u8>)
    requires
        encode_bytes(a) == encode_bytes(b),
    ensures
        a == b,
    decreases a.len(),
{
    if a.len() == 0 {
        if b.len() > 0 {
            lemma_encode_first(b);
        }
    } else {
        lemma_encode_first(a);
        lemma_encode_first(b);
        let x = a.first();
        let y = b.first();
        let ex = encode_byte(x);
        let ey = encode_byte(y);
        let ra = encode_bytes(a.drop_first());
        let rb = encode_bytes(b.drop_first());
        assert((ey + rb)[0] == ey[0]);
        assert(ex.len() == ey.len());
        assert forall|k: int| 0 <= k < ex.len() implies ex[k] == ey[k] by {
            assert((ey + rb)[k] == ey[k]);
        }
        lemma_encode_byte_injective(x, y);
        assert(ra == (ex + ra).skip(ex.len() as int));
        assert(rb == (ey + rb).skip(ey.len() as int));
        lemma_encode_bytes_injective(a.drop_first(), b.drop_first());
        assert(b == seq![y] + b.drop_first());
    }
}

/// Two texts with the same encoding are the same.
pub proof fn lemma_encode_text_injective(s: Seq<char>, t: Seq<char>)
    requires
        encode_text(s) == encode_text(t),
    ensures
        s == t,
{
    lemma_encode_bytes_injective(vstd::utf8::encode_utf8(s), vstd::utf8::encode_utf8(t));
    vstd::utf8::encode_utf8_decode_utf8(s);
    vstd::utf8::encode_utf8_decode_utf8(t);
}

/// Every character of an encoding is an unreserved character, `+` or `%`:
/// an encoding holds no space and no reserved character.
pub proof fn lemma_encoding_chars(bytes: Seq<u8>)
    ensures
        forall|i: int|
            0 <= i < encode_bytes(bytes).len() ==> is_encoding_char(
                #[trigger] encode_bytes(bytes)[i],
            ),
    decreases bytes.len(),
{
    if bytes.len() > 0 {
        lemma_encoding_chars(bytes.drop_last());
        let b = bytes.last();
        let head = encode_bytes(bytes.drop_last());
        let tail = encode_byte(b);
        assert forall|k: int| 0 <= k < tail.len() implies is_encoding_char(#[trigger] tail[k]) by {}
    }
}

/// A text made of unreserved characters alone is its own encoding.
pub proof fn lemma_encode_unreserved(text: Seq<char>)
    requires
        forall|i: int| 0 <= i < text.len() ==> is_unreserved_char(#[trigger] text[i]),
    ensures
        encode_text(text) == text,
{
    let bytes = vstd::utf8::encode_utf8(text);
    assert forall|i: int| 0 <= i < text.len() implies '\0' <= #[trigger] text[i] <= '\u{7f}' by {
        lemma_unreserved_char(text[i]);
    }
    vstd::utf8::is_ascii_chars_encode_utf8(text);
    lemma_encode_bytes_unreserved(bytes, text);
}

proof fn lemma_unreserved_char(c: char)
    requires
        is_unreserved_char(c),
    ensures
        '\0' <= c <= '\u{7f}',
        ((c as u8) as char) == c,
{
}

proof fn lemma_encode_bytes_unreserved(bytes: Seq<u8>, text: Seq<char>)
    requires
        bytes.len() == text.len(),
        forall|i: int| 0 <= i < text.len() ==> is_unreserved_char(#[trigger] text[i]),
        forall|i: int| 0 <= i < text.len() ==> text[i] as u8 == #[trigger] bytes[i],
    ensures
        encode_bytes(bytes) == text,
    decreases bytes.len(),
{
    if bytes.len() > 0 {
        lemma_encode_bytes_unreserved(bytes.drop_last(), text.drop_last());
        let c = text[text.len() - 1];
        lemma_unreserved_char(c);
    }
}

} // verus!
