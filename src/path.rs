use vstd::prelude::*;
use vstd::utf8::char_is_scalar;
use crate::error::Error;

verus! {

/// The UTF-16 code units of one Unicode scalar value.
pub open spec fn utf16_of_scalar(u: u32) -> Seq<u16> {
    if u < 0x10000 {
        seq![u as u16]
    } else {
        seq![
            (0xD800 + (u - 0x10000) / 0x400) as u16,
            (0xDC00 + (u - 0x10000) % 0x400) as u16,
        ]
    }
}

/// The UTF-16 encoding of a character sequence.
pub open spec fn utf16_of(s: Seq<char>) -> Seq<u16>
    decreases s.len(),
{
    if s.len() == 0 {
        seq![]
    } else {
        utf16_of(s.drop_last()) + utf16_of_scalar(s.last() as u32)
    }
}

/// The index of the first nul unit of `units`, which holds one.
pub open spec fn is_first_nul(units: Seq<u16>, pos: int) -> bool {
    &&& 0 <= pos < units.len()
    &&& units[pos] == 0
    &&& forall|i: int| 0 <= i < pos ==> units[i] != 0
}

/// A nul unit occurs in the encoding exactly where a nul character occurs.
pub proof fn lemma_utf16_nul(s: Seq<char>)
    ensures
        utf16_of(s).contains(0u16) <==> s.contains('\0'),
    decreases s.len(),
{
    if s.len() > 0 {
        let init = s.drop_last();
        let c = s.last();
        lemma_utf16_nul(init);
        char_is_scalar(c);
        let tail = utf16_of_scalar(c as u32);
        let whole = utf16_of(s);
        assert(whole == utf16_of(init) + tail);
        assert(s == init.push(c));
        if c == '\0' {
            assert(whole[utf16_of(init).len() as int] == 0);
            assert(s[s.len() - 1] == c);
            assert(s.contains('\0'));
            assert(whole.contains(0u16));
        } else {
            assert(c as u32 != 0) by {
                vstd::utf8::char_u32_cast(c, c as u32);
                vstd::utf8::char_u32_cast('\0', 0u32);
            }
            let u = c as u32;
            assert(u <= 0x10FFFF) by {
                reveal(vstd::utf8::is_scalar);
            }
            if u < 0x10000 {
                assert(tail[0] == u as u16);
            } else {
                let q = (u - 0x10000) / 0x400;
                let m = (u - 0x10000) % 0x400;
                assert(0 <= q < 0x400 && 0 <= m < 0x400) by (nonlinear_arith)
                    requires
                        0x10000 <= u <= 0x10FFFF,
                        q == (u - 0x10000) / 0x400,
                        m == (u - 0x10000) % 0x400,
                ;
                assert(tail[0] == (0xD800 + q) as u16);
                assert(tail[1] == (0xDC00 + m) as u16);
            }
            assert(forall|i: int| 0 <= i < tail.len() ==> tail[i] != 0);
            if whole.contains(0u16) {
                let k = choose|k: int| 0 <= k < whole.len() && whole[k] == 0u16;
                if k < utf16_of(init).len() {
                    assert(utf16_of(init)[k] == 0);
                } else {
                    assert(tail[k - utf16_of(init).len()] == 0);
                }
            }
            if utf16_of(init).contains(0u16) {
                let k = choose|k: int| 0 <= k < utf16_of(init).len() && utf16_of(init)[k] == 0u16;
                assert(whole[k] == 0);
            }
            if init.contains('\0') {
                let k = choose|k: int| 0 <= k < init.len() && init[k] == '\0';
                assert(s[k] == '\0');
            }
            if s.contains('\0') {
                let k = choose|k: int| 0 <= k < s.len() && s[k] == '\0';
                assert(init[k] == '\0');
            }
        }
    }
}

/// Relies on utfx::U16CString::from_str, which encodes the string as UTF-16
/// and fails at the first nul unit with its position (`NulError::nul_position`),
/// and on `into_vec_with_nul`, which hands back the units with one terminating nul.
#[verifier::external_body]
fn wide_with_nul(s: &str) -> (r: Result<Vec<u16>, usize>)
    ensures
        match r {
            Ok(v) => !utf16_of(s@).contains(0u16) && v@ == utf16_of(s@).push(0u16),
            Err(pos) => is_first_nul(utf16_of(s@), pos as int),
        },
{
    match utfx::U16CString::from_str(s) {
        Ok(w) => Ok(w.into_vec_with_nul()),
        Err(e) => Err(e.nul_position()),
    }
}

/// Encodes a caller's path or value name in the store's native form: UTF-16
/// with one terminating nul. A name that holds a nul character is refused.
pub fn encode_name(s: &str) -> (r: Result<Vec<u16>, Error>)
    ensures
        s@.contains('\0') <==> r is Err,
        r matches Ok(v) ==> v@ == utf16_of(s@).push(0u16),
        r matches Err(e) ==> e matches Error::InvalidNul(pos) && is_first_nul(
            utf16_of(s@),
            pos as int,
        ),
{
    proof {
        lemma_utf16_nul(s@);
    }
    match wide_with_nul(s) {
        Ok(v) => Ok(v),
        Err(pos) => Err(Error::InvalidNul(pos)),
    }
}

} // verus!
