//! Hexadecimal text: decoding hex strings to bytes and encoding bytes to
//! lowercase hex text.

use vstd::prelude::*;

verus! {

/// True when `c` is an ASCII hexadecimal digit, upper or lower case.
pub open spec fn is_hex_digit(c: char) -> bool {
    (48 <= c as u32 && c as u32 <= 57) || (97 <= c as u32 && c as u32 <= 102) || (65 <= c as u32
        && c as u32 <= 70)
}

/// Numeric value of a hexadecimal digit.
pub open spec fn hex_val(c: char) -> u8
    recommends
        is_hex_digit(c),
{
    if 48 <= c as u32 && c as u32 <= 57 {
        (c as u32 - 48) as u8
    } else if 97 <= c as u32 && c as u32 <= 102 {
        (c as u32 - 87) as u8
    } else {
        (c as u32 - 55) as u8
    }
}

/// Every character of `s` is a hexadecimal digit.
pub open spec fn all_hex_digits(s: Seq<char>) -> bool {
    forall|i: int| 0 <= i < s.len() ==> is_hex_digit(#[trigger] s[i])
}

/// The bytes denoted by a sequence of hexadecimal digits, two digits per byte,
/// high nibble first.
pub open spec fn hex_bytes(s: Seq<char>) -> Seq<u8>
    recommends
        s.len() % 2 == 0,
        all_hex_digits(s),
    decreases s.len(),
{
    if s.len() < 2 {
        Seq::empty()
    } else {
        seq![(hex_val(s[0]) * 16 + hex_val(s[1])) as u8] + hex_bytes(s.skip(2))
    }
}

/// What decoding a hex string yields: the denoted bytes when the string has
/// even length and holds only hexadecimal digits, nothing otherwise.
pub open spec fn spec_hex_decode(s: Seq<char>) -> Option<Seq<u8>> {
    if s.len() % 2 == 0 && all_hex_digits(s) {
        Some(hex_bytes(s))
    } else {
        None
    }
}

proof fn lemma_hex_bytes_snoc2(s: Seq<char>, c0: char, c1: char)
    requires
        s.len() % 2 == 0,
    ensures
        hex_bytes(s + seq![c0, c1]) == hex_bytes(s) + seq![
            (hex_val(c0) * 16 + hex_val(c1)) as u8,
        ],
    decreases s.len(),
{
    reveal_with_fuel(hex_bytes, 3);
    let t = s + seq![c0, c1];
    if s.len() == 0 {
        assert(t.len() == 2);
        assert(t[0] == c0 && t[1] == c1);
        assert(t.skip(2) =~= Seq::<char>::empty());
        assert(hex_bytes(t) =~= hex_bytes(s) + seq![(hex_val(c0) * 16 + hex_val(c1)) as u8]);
    } else {
        assert(t.skip(2) =~= s.skip(2) + seq![c0, c1]);
        lemma_hex_bytes_snoc2(s.skip(2), c0, c1);
        assert(t[0] == s[0] && t[1] == s[1]);
        assert(hex_bytes(t) =~= hex_bytes(s) + seq![(hex_val(c0) * 16 + hex_val(c1)) as u8]);
    }
}

/// The numeric value of one hexadecimal digit character, or nothing when the
/// character is not such a digit.
pub fn hex_digit_of(c: char) -> (r: Option<u8>)
    ensures
        is_hex_digit(c) ==> r == Some(hex_val(c)),
        !is_hex_digit(c) ==> r is None,
{
    let u = c as u32;
    if 48 <= u && u <= 57 {
        Some((u - 48) as u8)
    } else if 97 <= u && u <= 102 {
        Some((u - 87) as u8)
    } else if 65 <= u && u <= 70 {
        Some((u - 55) as u8)
    } else {
        None
    }
}

/// Decodes a string of hexadecimal digits into bytes; yields nothing when the
/// string has odd length or holds a character that is no hexadecimal digit.
#[verifier::loop_isolation(false)]
pub fn hex_decode(s: &str) -> (r: Option<Vec<u8>>)
    ensures
        r matches Some(v) ==> spec_hex_decode(s@) == Some(v@),
        r is None ==> spec_hex_decode(s@) is None,
{
    let n = s.unicode_len();
    if n % 2 != 0 {
        return None;
    }
    let mut out: Vec<u8> = Vec::new();
    let mut i: usize = 0;
    while i < n
        invariant
            i <= n,
            i % 2 == 0,
            all_hex_digits(s@.take(i as int)),
            out@ == hex_bytes(s@.take(i as int)),
        decreases n - i,
    {
        let c0 = s.get_char(i);
        let c1 = s.get_char(i + 1);
        let d0 = hex_digit_of(c0);
        let d1 = hex_digit_of(c1);
        if d0.is_none() || d1.is_none() {
            proof {
                if !is_hex_digit(c0) {
                    assert(!all_hex_digits(s@)) by {
                        assert(s@[i as int] == c0);
                    }
                } else {
                    assert(!all_hex_digits(s@)) by {
                        assert(s@[i + 1] == c1);
                    }
                }
            }
            return None;
        }
        let b = d0.unwrap() * 16 + d1.unwrap();
        out.push(b);
        proof {
            assert(s@.take(i + 2) =~= s@.take(i as int) + seq![c0, c1]);
            lemma_hex_bytes_snoc2(s@.take(i as int), c0, c1);
        }
        i = i + 2;
    }
    proof {
        assert(s@.take(n as int) =~= s@);
    }
    Some(out)
}

/// The lowercase hexadecimal digit character for a value below sixteen.
pub open spec fn hex_char_lower(n: u8) -> char
    recommends
        n < 16,
{
    if n == 0 {
        '0'
    } else if n == 1 {
        '1'
    } else if n == 2 {
        '2'
    } else if n == 3 {
        '3'
    } else if n == 4 {
        '4'
    } else if n == 5 {
        '5'
    } else if n == 6 {
        '6'
    } else if n == 7 {
        '7'
    } else if n == 8 {
        '8'
    } else if n == 9 {
        '9'
    } else if n == 10 {
        'a'
    } else if n == 11 {
        'b'
    } else if n == 12 {
        'c'
    } else if n == 13 {
        'd'
    } else if n == 14 {
        'e'
    } else {
        'f'
    }
}

/// The lowercase hexadecimal text for a byte sequence, two digits per byte.
pub open spec fn hex_str_lower(b: Seq<u8>) -> Seq<char>
    decreases b.len(),
{
    if b.len() == 0 {
        Seq::empty()
    } else {
        hex_str_lower(b.drop_last()) + seq![
            hex_char_lower(b.last() / 16),
            hex_char_lower(b.last() % 16),
        ]
    }
}

fn nibble_str(n: u8) -> (r: &'static str)
    requires
        n < 16,
    ensures
        r@ == seq![hex_char_lower(n)],
{
    proof {
        reveal_strlit("0");
        reveal_strlit("1");
        reveal_strlit("2");
        reveal_strlit("3");
        reveal_strlit("4");
        reveal_strlit("5");
        reveal_strlit("6");
        reveal_strlit("7");
        reveal_strlit("8");
        reveal_strlit("9");
        reveal_strlit("a");
        reveal_strlit("b");
        reveal_strlit("c");
        reveal_strlit("d");
        reveal_strlit("e");
        reveal_strlit("f");
    }
    let r: &'static str = if n == 0 {
        "0"
    } else if n == 1 {
        "1"
    } else if n == 2 {
        "2"
    } else if n == 3 {
        "3"
    } else if n == 4 {
        "4"
    } else if n == 5 {
        "5"
    } else if n == 6 {
        "6"
    } else if n == 7 {
        "7"
    } else if n == 8 {
        "8"
    } else if n == 9 {
        "9"
    } else if n == 10 {
        "a"
    } else if n == 11 {
        "b"
    } else if n == 12 {
        "c"
    } else if n == 13 {
        "d"
    } else if n == 14 {
        "e"
    } else {
        "f"
    };
    proof {
        assert(r@ =~= seq![hex_char_lower(n)]);
    }
    r
}

/// Encodes bytes as lowercase hexadecimal text, two digits per byte.
#[verifier::loop_isolation(false)]
pub fn hex_encode_lower(b: &Vec<u8>) -> (r: String)
    ensures
        r@ == hex_str_lower(b@),
{
    let mut out = String::new();
    let mut i: usize = 0;
    while i < b.len()
        invariant
            i <= b.len(),
            out@ == hex_str_lower(b@.take(i as int)),
        decreases b.len() - i,
    {
        let byte = b[i];
        out.append(nibble_str(byte / 16));
        out.append(nibble_str(byte % 16));
        proof {
            let t = b@.take(i + 1);
            assert(t.drop_last() =~= b@.take(i as int));
            assert(t.last() == b@[i as int]);
        }
        i = i + 1;
    }
    proof {
        assert(b@.take(b@.len() as int) =~= b@);
    }
    out
}

} // verus!
