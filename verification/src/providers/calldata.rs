use vstd::prelude::*;
use crate::address::{hex_char_of, hex_digit_str, hex_text_of, Address};
use crate::uint::{hexs_val, U256};

verus! {

/// Byte `i` of the 32-byte big-endian form of a 256-bit value, byte 0
/// being the most significant.
pub open spec fn u256_byte(v: U256, i: int) -> u8 {
    let w = if i < 8 {
        v.w3
    } else if i < 16 {
        v.w2
    } else if i < 24 {
        v.w1
    } else {
        v.w0
    };
    ((w >> ((8 * (7 - (i % 8))) as u64)) & 0xff) as u8
}

/// The 32-byte big-endian form of a 256-bit value.
pub open spec fn u256_be_bytes(v: U256) -> Seq<u8> {
    Seq::new(32, |i: int| u256_byte(v, i))
}

/// One 32-byte argument word of a contract call: 64 hex digits.
pub open spec fn abi_word_text(v: U256) -> Seq<char> {
    hex_text_of(u256_be_bytes(v))
}

/// An address as a 32-byte argument word: 24 zero digits, then the
/// 40 digits of the address.
pub open spec fn abi_address_text(b: Seq<u8>) -> Seq<char> {
    Seq::new(24, |i: int| '0') + hex_text_of(b)
}

/// One big-endian byte of a 64-bit word, byte 0 being the most
/// significant.
fn be_byte(w: u64, j: u64) -> (r: u8)
    requires
        j < 8,
    ensures
        r == ((w >> ((8 * (7 - j)) as u64)) & 0xff) as u8,
{
    ((w >> ((56 - 8 * j) as u64)) & 0xff) as u8
}

/// Appends one byte as two lowercase hex digits.
fn append_hex_byte(r: &mut String, b: u8)
    ensures
        final(r)@ == old(r)@ + seq![hex_char_of(b as nat / 16), hex_char_of(b as nat % 16)],
{
    r.append(hex_digit_str(b / 16));
    r.append(hex_digit_str(b % 16));
    assert(final(r)@ =~= old(r)@ + seq![hex_char_of(b as nat / 16), hex_char_of(b as nat % 16)]);
}

/// Appends a 256-bit value as one 64-digit argument word.
#[verifier::loop_isolation(false)]
fn append_abi_word(r: &mut String, v: &U256)
    ensures
        final(r)@ == old(r)@ + abi_word_text(*v),
{
    let ghost base = r@;
    assert(base + hex_text_of(u256_be_bytes(*v).take(0)) =~= base);
    let mut i: usize = 0;
    while i < 32
        invariant
            i <= 32,
            r@ == base + hex_text_of(u256_be_bytes(*v).take(i as int)),
        decreases 32 - i,
    {
        let limb = if i < 8 {
            v.w3
        } else if i < 16 {
            v.w2
        } else if i < 24 {
            v.w1
        } else {
            v.w0
        };
        let b = be_byte(limb, (i % 8) as u64);
        assert(b == u256_byte(*v, i as int));
        append_hex_byte(r, b);
        i = i + 1;
        proof {
            let bs = u256_be_bytes(*v);
            assert(hex_text_of(bs.take(i as int)) =~= hex_text_of(bs.take(i as int - 1)) + seq![
                hex_char_of(bs[i as int - 1] as nat / 16),
                hex_char_of(bs[i as int - 1] as nat % 16),
            ]);
            assert(r@ =~= base + hex_text_of(bs.take(i as int)));
        }
    }
    proof {
        assert(u256_be_bytes(*v).take(32) =~= u256_be_bytes(*v));
    }
}

/// Appends an address as one 64-digit argument word.
fn append_abi_address(r: &mut String, a: &Address)
    ensures
        final(r)@ == old(r)@ + abi_address_text(a@),
{
    r.append("000000000000000000000000");
    let bytes = a.to_bytes();
    let ghost mid = r@;
    assert(mid + hex_text_of(bytes@.take(0)) =~= mid);
    let mut i: usize = 0;
    while i < bytes.len()
        invariant
            i <= bytes@.len(),
            bytes@ == a@,
            r@ == mid + hex_text_of(bytes@.take(i as int)),
        decreases bytes@.len() - i,
    {
        append_hex_byte(r, bytes[i]);
        i = i + 1;
        proof {
            assert(hex_text_of(bytes@.take(i as int)) =~= hex_text_of(bytes@.take(i as int - 1))
                + seq![
                hex_char_of(bytes@[i as int - 1] as nat / 16),
                hex_char_of(bytes@[i as int - 1] as nat % 16),
            ]);
            assert(r@ =~= mid + hex_text_of(bytes@.take(i as int)));
        }
    }
    proof {
        assert(bytes@.take(bytes@.len() as int) =~= bytes@);
        reveal_strlit("000000000000000000000000");
        assert(mid =~= old(r)@ + Seq::new(24, |i: int| '0'));
        assert(r@ =~= old(r)@ + abi_address_text(a@));
    }
}

/// The call data of `decimals()`: the selector alone.
pub fn encode_decimals_call() -> (r: String)
    ensures
        r@ == "313ce567"@,
{
    String::from_str("313ce567")
}

/// The call data of `balanceOf(address)`: the selector and the holder.
pub fn encode_balance_of(user: &Address) -> (r: String)
    ensures
        r@ == "70a08231"@ + abi_address_text(user@),
{
    let mut r = String::from_str("70a08231");
    append_abi_address(&mut r, user);
    r
}

/// The call data of `ownerOf(uint256)`: the selector and the token.
pub fn encode_owner_of(id: &U256) -> (r: String)
    ensures
        r@ == "6352211e"@ + abi_word_text(*id),
{
    let mut r = String::from_str("6352211e");
    append_abi_word(&mut r, id);
    r
}

/// The address held in the low twenty bytes of a returned word, as
/// `ownerOf` answers.
pub fn address_from_word(v: &U256) -> (r: Address)
    ensures
        r@ == u256_be_bytes(*v).skip(12),
{
    let mut bytes: Vec<u8> = Vec::new();
    let mut i: usize = 12;
    while i < 32
        invariant
            12 <= i <= 32,
            bytes@ =~= u256_be_bytes(*v).subrange(12, i as int),
        decreases 32 - i,
    {
        let limb = if i < 16 {
            v.w2
        } else if i < 24 {
            v.w1
        } else {
            v.w0
        };
        let b = be_byte(limb, (i % 8) as u64);
        assert(b == u256_byte(*v, i as int));
        bytes.push(b);
        i = i + 1;
    }
    let r = match Address::from_bytes(bytes) {
        Some(a) => a,
        None => {
            proof {
                assert(false);
            }
            unreached()
        },
    };
    assert(r@ =~= u256_be_bytes(*v).skip(12));
    r
}

/// One well-formed word of a returned hex text: its 64 characters are
/// hex digits and do not themselves begin like a prefixed number.
pub open spec fn abi_word_ok(s: Seq<char>, i: int) -> bool {
    let w = s.subrange(2 + 64 * i, 2 + 64 * i + 64);
    &&& crate::uint::all_hex_digits(w)
    &&& !(w[0] == '0' && (w[1] == 'x' || w[1] == 'X'))
}

/// A well-formed returned hex text: `0x`, then whole 64-digit words.
pub open spec fn abi_words_wf(s: Seq<char>) -> bool {
    &&& s.len() >= 2
    &&& s[0] == '0'
    &&& s[1] == 'x'
    &&& (s.len() - 2) % 64 == 0
    &&& forall|i: int| 0 <= i < (s.len() - 2) / 64 ==> #[trigger] abi_word_ok(s, i)
}

/// The words of a returned hex text: `0x` and then 64 hex digits per
/// word. Yields the words exactly when the text has that shape.
pub fn decode_abi_words(s: &str) -> (r: Option<Vec<U256>>)
    ensures
        (r is Some) == abi_words_wf(s@),
        r is Some ==> {
            let v = r->0;
            &&& v@.len() == (s@.len() - 2) / 64
            &&& forall|i: int|
                0 <= i < v@.len() ==> (#[trigger] v@[i]).val() == hexs_val(
                    s@.subrange(2 + 64 * i, 2 + 64 * i + 64),
                )
        },
{
    let n = s.unicode_len();
    if n < 2 || (n - 2) % 64 != 0 {
        return None;
    }
    if !(s.get_char(0) == '0' && s.get_char(1) == 'x') {
        return None;
    }
    let count = (n - 2) / 64;
    let mut out: Vec<U256> = Vec::new();
    let mut i: usize = 0;
    while i < count
        invariant
            i <= count,
            n == s@.len(),
            n >= 2 && (n - 2) % 64 == 0,
            count == (n - 2) / 64,
            out@.len() == i,
            forall|j: int| 0 <= j < i ==> #[trigger] abi_word_ok(s@, j),
            forall|j: int|
                0 <= j < i ==> (#[trigger] out@[j]).val() == hexs_val(
                    s@.subrange(2 + 64 * j, 2 + 64 * j + 64),
                ),
        decreases count - i,
    {
        proof {
            vstd::arithmetic::div_mod::lemma_fundamental_div_mod((n - 2) as int, 64);
        }
        let word = s.substring_char(2 + 64 * i, 2 + 64 * i + 64);
        let ghost wtext = s@.subrange(2 + 64 * i as int, 2 + 64 * i as int + 64);
        // a word that itself looks prefixed would make the digit read
        // shorter than the word; such a text is refused
        let c1 = s.get_char(2 + 64 * i + 1);
        if s.get_char(2 + 64 * i) == '0' && (c1 == 'x' || c1 == 'X') {
            proof {
                assert(word@[0] == s@[2 + 64 * i as int] && word@[1] == s@[2 + 64 * i as int
                    + 1]);
                assert(!abi_word_ok(s@, i as int));
            }
            return None;
        }
        let v = match U256::from_hex_str(word) {
            Some(v) => v,
            None => {
                proof {
                    assert(word@[0] == s@[2 + 64 * i as int] && word@[1] == s@[2 + 64 * i as int
                        + 1]);
                    assert(crate::address::addr_digits_start(word@) == 0);
                    assert(word@.skip(0) =~= word@);
                    if crate::uint::all_hex_digits(word@) {
                        crate::uint::lemma_hexs_val_bound(word@);
                        crate::uint::lemma_pow16_64();
                        assert(false);
                    }
                    assert(!abi_word_ok(s@, i as int));
                }
                return None;
            },
        };
        proof {
            assert(word@[0] == s@[2 + 64 * i as int] && word@[1] == s@[2 + 64 * i as int + 1]);
            assert(crate::address::addr_digits_start(word@) == 0);
            assert(word@.skip(0) =~= word@);
            assert(abi_word_ok(s@, i as int));
        }
        out.push(v);
        i = i + 1;
    }
    Some(out)
}

/// A small number as a 256-bit value.
pub open spec fn u256_small(n: u64) -> U256 {
    U256 { w0: n, w1: 0, w2: 0, w3: 0 }
}

/// The argument words of an address list, one word per address, over
/// the first `i` of them.
pub open spec fn abi_address_words(addrs: Seq<Seq<u8>>, i: int) -> Seq<char>
    decreases i,
{
    if i <= 0 {
        Seq::empty()
    } else {
        abi_address_words(addrs, i - 1) + abi_address_text(addrs[i - 1])
    }
}

/// The call data of `balanceOfBatch(address[],uint256[])` over one
/// token identifier: the selector, the two array offsets, the address
/// list, and the one-element identifier list.
pub open spec fn abi_batch_text(addrs: Seq<Seq<u8>>, id: U256) -> Seq<char> {
    "4e1273f4"@ + abi_word_text(u256_small(0x40)) + abi_word_text(
        u256_small((0x40 + 0x20 * (addrs.len() + 1)) as u64),
    ) + abi_word_text(u256_small(addrs.len() as u64)) + abi_address_words(
        addrs,
        addrs.len() as int,
    ) + abi_word_text(u256_small(1)) + abi_word_text(id)
}

/// The byte views of an address list.
pub open spec fn address_views(addrs: Seq<Address>) -> Seq<Seq<u8>> {
    Seq::new(addrs.len(), |i: int| addrs[i]@)
}

/// The call data of one batched holdings query, as `abi_batch_text`
/// states; nothing only for an address list too long to lay out.
#[verifier::loop_isolation(false)]
pub fn encode_balance_of_batch(addrs: &Vec<Address>, id: &U256) -> (r: Option<String>)
    ensures
        addrs@.len() < 0x0400_0000_0000_0000 ==> r is Some,
        r is Some ==> r->0@ == abi_batch_text(address_views(addrs@), *id),
{
    if addrs.len() as u64 >= 0x0400_0000_0000_0000u64 {
        return None;
    }
    let ghost views = address_views(addrs@);
    let n = addrs.len() as u64;
    let mut r = String::from_str("4e1273f4");
    append_abi_word(&mut r, &U256::from_u64(0x40));
    let off2: u64 = 0x40 + 0x20 * (n + 1);
    append_abi_word(&mut r, &U256::from_u64(off2));
    append_abi_word(&mut r, &U256::from_u64(n));
    let ghost head = r@;
    assert(head + abi_address_words(views, 0) =~= head);
    let mut k: usize = 0;
    while k < addrs.len()
        invariant
            k <= addrs@.len(),
            r@ == head + abi_address_words(views, k as int),
        decreases addrs@.len() - k,
    {
        append_abi_address(&mut r, &addrs[k]);
        k = k + 1;
        proof {
            assert(abi_address_words(views, k as int) =~= abi_address_words(views, k as int - 1)
                + abi_address_text(views[k as int - 1]));
            assert(r@ =~= head + abi_address_words(views, k as int));
        }
    }
    append_abi_word(&mut r, &U256::from_u64(1));
    append_abi_word(&mut r, id);
    proof {
        assert(r@ =~= abi_batch_text(views, *id));
    }
    Some(r)
}

} // verus!
