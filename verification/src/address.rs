use vstd::prelude::*;
use crate::amount::is_digit;

verus! {

/// A 20-byte on-chain account or contract identifier.
///
/// Two addresses written with different hexadecimal letter cases compare
/// equal, because only the decoded bytes are kept.
pub struct Address {
    bytes: Vec<u8>,
}

pub open spec fn is_hex_digit(c: char) -> bool {
    is_digit(c) || 97 <= c as u32 <= 102 || 65 <= c as u32 <= 70
}

pub open spec fn hex_val(c: char) -> nat {
    if 48 <= c as u32 <= 57 {
        (c as u32 - 48) as nat
    } else if 97 <= c as u32 <= 102 {
        (c as u32 - 87) as nat
    } else {
        (c as u32 - 55) as nat
    }
}

/// Where the hex digits of an address text begin: after an optional
/// `0x` or `0X` prefix.
pub open spec fn addr_digits_start(s: Seq<char>) -> int {
    if s.len() >= 2 && s[0] == '0' && (s[1] == 'x' || s[1] == 'X') {
        2
    } else {
        0
    }
}

/// An address text is an optional `0x` prefix and exactly forty hex digits.
pub open spec fn addr_text_wf(s: Seq<char>) -> bool {
    let p = addr_digits_start(s);
    s.len() - p == 40 && forall|i: int| p <= i < s.len() ==> is_hex_digit(#[trigger] s[i])
}

/// The bytes written by a well-formed address text, two digits per byte.
pub open spec fn addr_bytes_of(s: Seq<char>) -> Seq<u8> {
    let p = addr_digits_start(s);
    Seq::new(20, |i: int| (16 * hex_val(s[p + 2 * i]) + hex_val(s[p + 2 * i + 1])) as u8)
}

/// The lowercase hexadecimal character for a value below sixteen.
pub open spec fn hex_char_of(v: nat) -> char {
    if v == 0 { '0' } else if v == 1 { '1' } else if v == 2 { '2' } else if v == 3 { '3' }
    else if v == 4 { '4' } else if v == 5 { '5' } else if v == 6 { '6' } else if v == 7 { '7' }
    else if v == 8 { '8' } else if v == 9 { '9' } else if v == 10 { 'a' } else if v == 11 { 'b' }
    else if v == 12 { 'c' } else if v == 13 { 'd' } else if v == 14 { 'e' } else { 'f' }
}

/// The canonical text of a byte string: lowercase hex digits, two per byte.
pub open spec fn hex_text_of(b: Seq<u8>) -> Seq<char> {
    Seq::new(2 * b.len(), |i: int|
        if i % 2 == 0 {
            hex_char_of(b[i / 2] as nat / 16)
        } else {
            hex_char_of(b[i / 2] as nat % 16)
        })
}

/// The canonical text of an address: `0x` and forty lowercase hex digits.
pub open spec fn addr_text_of(b: Seq<u8>) -> Seq<char> {
    seq!['0', 'x'] + hex_text_of(b)
}

/// The value of a hexadecimal digit, or nothing for any other character.
pub(crate) fn hex_digit_val(c: char) -> (r: Option<u8>)
    ensures
        r is Some <==> is_hex_digit(c),
        r is Some ==> r->0 == hex_val(c) && r->0 < 16,
{
    let v = c as u32;
    if 48 <= v && v <= 57 {
        Some((v - 48) as u8)
    } else if 97 <= v && v <= 102 {
        Some((v - 87) as u8)
    } else if 65 <= v && v <= 70 {
        Some((v - 55) as u8)
    } else {
        None
    }
}

/// The one-character string of a lowercase hexadecimal digit.
pub(crate) fn hex_digit_str(v: u8) -> (r: &'static str)
    requires
        v < 16,
    ensures
        r@.len() == 1,
        r@[0] == hex_char_of(v as nat),
{
    proof {
        reveal_strlit("0");
        reveal_strlit("1");
        reveal_strlit("2");
        reveal_strlit("3");
        reveal_strlit("4");
        reveal_strlit("5");
        reveal_strlit("6");
        reveal_strlit("7");
        reveal_strlit("8");
        reveal_strlit("9");
        reveal_strlit("a");
        reveal_strlit("b");
        reveal_strlit("c");
        reveal_strlit("d");
        reveal_strlit("e");
        reveal_strlit("f");
    }
    match v {
        0 => "0",
        1 => "1",
        2 => "2",
        3 => "3",
        4 => "4",
        5 => "5",
        6 => "6",
        7 => "7",
        8 => "8",
        9 => "9",
        10 => "a",
        11 => "b",
        12 => "c",
        13 => "d",
        14 => "e",
        _ => "f",
    }
}

impl View for Address {
    type V = Seq<u8>;

    closed spec fn view(&self) -> Seq<u8> {
        self.bytes@
    }
}

impl Address {
    #[verifier::type_invariant]
    pub closed spec fn wf(self) -> bool {
        self.bytes@.len() == 20
    }

    /// Parses an address text: an optional `0x` prefix and forty hex
    /// digits, upper or lower case.
    pub fn parse(s: &str) -> (r: Option<Address>)
        ensures
            r is Some <==> addr_text_wf(s@),
            r is Some ==> r->0@ == addr_bytes_of(s@),
    {
        let n = s.unicode_len();
        let p: usize = if n >= 2 && s.get_char(0) == '0' && {
            let c = s.get_char(1);
            c == 'x' || c == 'X'
        } {
            2
        } else {
            0
        };
        assert(p == addr_digits_start(s@));
        if n < p || n - p != 40 {
            return None;
        }
        let mut bytes: Vec<u8> = Vec::new();
        let mut i: usize = 0;
        while i < 20
            invariant
                i <= 20,
                n == s@.len(),
                p == addr_digits_start(s@),
                n - p == 40,
                bytes@.len() == i,
                forall|j: int| p <= j < p + 2 * i ==> is_hex_digit(#[trigger] s@[j]),
                forall|j: int| 0 <= j < i
                    ==> bytes@[j] == (16 * hex_val(s@[p + 2 * j]) + hex_val(
                        s@[p + 2 * j + 1])) as u8,
            decreases 20 - i,
        {
            let hi = match hex_digit_val(s.get_char(p + 2 * i)) {
                Some(v) => v,
                None => {
                    return None;
                },
            };
            let lo = match hex_digit_val(s.get_char(p + 2 * i + 1)) {
                Some(v) => v,
                None => {
                    return None;
                },
            };
            bytes.push(16 * hi + lo);
            i = i + 1;
        }
        assert(addr_text_wf(s@)) by {
            assert(forall|j: int| p <= j < s@.len() ==> is_hex_digit(#[trigger] s@[j]));
        }
        let r = Address { bytes };
        assert(r@ =~= addr_bytes_of(s@));
        Some(r)
    }

    /// Whether two addresses hold the same bytes.
    pub fn eq_addr(&self, other: &Address) -> (r: bool)
        ensures
            r <==> self@ == other@,
    {
        proof {
            use_type_invariant(self);
            use_type_invariant(other);
        }
        let mut i: usize = 0;
        while i < 20
            invariant
                i <= 20,
                self@.len() == 20,
                other@.len() == 20,
                forall|j: int| 0 <= j < i ==> self@[j] == other@[j],
            decreases 20 - i,
        {
            if self.bytes[i] != other.bytes[i] {
                return false;
            }
            i = i + 1;
        }
        assert(self@ =~= other@);
        true
    }

    /// The canonical text of this address: `0x` and forty lowercase
    /// hexadecimal digits.
    pub fn to_hex(&self) -> (r: String)
        ensures
            r@ == addr_text_of(self@),
    {
        proof {
            use_type_invariant(self);
            reveal_strlit("0x");
        }
        let mut r = String::from_str("0x");
        assert(r@ =~= seq!['0', 'x']);
        let mut i: usize = 0;
        while i < 20
            invariant
                i <= 20,
                self@.len() == 20,
                r@ == seq!['0', 'x'] + hex_text_of(self@.take(i as int)),
            decreases 20 - i,
        {
            let b = self.bytes[i];
            r.append(hex_digit_str(b / 16));
            r.append(hex_digit_str(b % 16));
            i = i + 1;
            assert(r@ =~= seq!['0', 'x'] + hex_text_of(self@.take(i as int)));
        }
        assert(self@.take(20) =~= self@);
        r
    }

    /// The bytes of this address, for callers that must re-encode it.
    pub fn to_bytes(&self) -> (r: Vec<u8>)
        ensures
            r@ == self@,
            r@.len() == 20,
    {
        proof {
            use_type_invariant(self);
        }
        let mut r: Vec<u8> = Vec::new();
        let mut i: usize = 0;
        while i < 20
            invariant
                i <= 20,
                self@.len() == 20,
                r@ =~= self@.take(i as int),
            decreases 20 - i,
        {
            r.push(self.bytes[i]);
            i = i + 1;
        }
        assert(self@.take(20) =~= self@);
        r
    }

    /// An address built from twenty raw bytes.
    pub fn from_bytes(bytes: Vec<u8>) -> (r: Option<Address>)
        ensures
            bytes@.len() == 20 <==> r is Some,
            r is Some ==> r->0@ == bytes@,
    {
        if bytes.len() == 20 {
            Some(Address { bytes })
        } else {
            None
        }
    }

    /// A copy of this address.
    pub fn duplicate(&self) -> (r: Address)
        ensures
            r@ == self@,
    {
        proof {
            use_type_invariant(self);
        }
        Address { bytes: self.to_bytes() }
    }
}

} // verus!
