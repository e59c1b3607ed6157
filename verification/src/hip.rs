//! What the HIP runtime says, taken apart.
use vstd::prelude::*;
use vstd::utf8::{decode_utf8, valid_utf8};

verus! {

/// The call succeeded.
pub const HIP_SUCCESS: i32 = 0;

/// An argument was not valid.
pub const HIP_ERROR_INVALID_VALUE: i32 = 1;

/// There is not enough memory.
pub const HIP_ERROR_OUT_OF_MEMORY: i32 = 2;

/// Something else went wrong.
pub const HIP_ERROR_UNKNOWN: i32 = 999;

/// The name of the runtime library.
pub const PRIMARY_HIP_LIB: &'static str = "libamdhip64.so";

/// The name to fall back to.
pub const FALLBACK_HIP_LIB: &'static str = "libamdhip64.so.6";

/// The answer of the runtime to a question for a count.
pub fn device_count(result: i32, count: i32) -> (r: Result<i32, i32>)
    ensures
        r == (if result == HIP_SUCCESS {
            Ok(count)
        } else {
            Err(result)
        }),
        r is Ok <==> result == 0,
{
    if result == HIP_SUCCESS {
        Ok(count)
    } else {
        Err(result)
    }
}

/// Trusted: `String::from_utf8` makes a text of bytes that are valid UTF-8, and fails on
/// others.
#[verifier::external_body]
fn text_of_bytes(bytes: Vec<u8>) -> (r: Option<String>)
    ensures
        r is Some <==> valid_utf8(bytes@),
        r matches Some(text) ==> text@ == decode_utf8(bytes@),
{
    String::from_utf8(bytes).ok()
}

/// The bytes in front of the first zero.
pub open spec fn until_nul(bytes: Seq<u8>) -> Seq<u8>
    decreases bytes.len(),
{
    if bytes.len() == 0 || bytes[0] == 0 {
        Seq::empty()
    } else {
        seq![bytes[0]] + until_nul(bytes.skip(1))
    }
}

/// The PCI address that the runtime has written into a buffer. Fails with the runtime's
/// code, and with an unknown error where the bytes are no text.
pub fn pci_bus_id(result: i32, buffer: &[u8]) -> (r: Result<String, i32>)
    ensures
        result != HIP_SUCCESS ==> r is Err && r->Err_0 == result,
        result == HIP_SUCCESS && valid_utf8(until_nul(buffer@)) ==> r is Ok && r->Ok_0@
            == decode_utf8(until_nul(buffer@)),
        result == HIP_SUCCESS && !valid_utf8(until_nul(buffer@)) ==> r is Err && r->Err_0
            == HIP_ERROR_UNKNOWN,
        r is Ok <==> result == 0 && valid_utf8(until_nul(buffer@)),
        r is Err && result == 0 ==> r->Err_0 == 999,
{
    if result != HIP_SUCCESS {
        return Err(result);
    }
    let mut bytes: Vec<u8> = Vec::new();
    let mut i: usize = 0;
    assert(buffer@.skip(0) =~= buffer@);
    assert(until_nul(buffer@) =~= bytes@ + until_nul(buffer@.skip(0)));
    while i < buffer.len() && buffer[i] != 0
        invariant
            i <= buffer@.len(),
            until_nul(buffer@) == bytes@ + until_nul(buffer@.skip(i as int)),
        decreases buffer@.len() - i,
    {
        let ghost before = bytes@;
        bytes.push(buffer[i]);
        assert(buffer@.skip(i as int).skip(1) =~= buffer@.skip(i + 1));
        assert(before + (seq![buffer@[i as int]] + until_nul(buffer@.skip(i + 1))) =~= bytes@
            + until_nul(buffer@.skip(i + 1)));
        i = i + 1;
    }
    assert(until_nul(buffer@) =~= bytes@);
    match text_of_bytes(bytes) {
        Some(text) => Ok(text),
        None => Err(HIP_ERROR_UNKNOWN),
    }
}

/// Where to look for the runtime library, in order: at a path from the environment, and
/// under its two names.
pub fn library_candidates(path: Option<String>) -> (names: Vec<String>)
    ensures
        crate::text::texts(names@) == match path {
            Some(p) => seq![p@, PRIMARY_HIP_LIB@, FALLBACK_HIP_LIB@],
            None => seq![PRIMARY_HIP_LIB@, FALLBACK_HIP_LIB@],
        },
        names@.len() == 2 + (if path is Some {
            1int
        } else {
            0
        }),
        path matches Some(p) ==> names@[0]@ == p@,
        names@[names@.len() - 2]@ == "libamdhip64.so"@,
        names@[names@.len() - 1]@ == "libamdhip64.so.6"@,
{
    let mut names: Vec<String> = Vec::new();
    if let Some(p) = &path {
        names.push(p.clone());
    }
    names.push(PRIMARY_HIP_LIB.to_string());
    names.push(FALLBACK_HIP_LIB.to_string());
    assert(path matches Some(p) ==> names@[0]@ == p@);
    assert(crate::text::texts(names@) =~= match path {
        Some(p) => seq![p@, PRIMARY_HIP_LIB@, FALLBACK_HIP_LIB@],
        None => seq![PRIMARY_HIP_LIB@, FALLBACK_HIP_LIB@],
    });
    names
}

/// The bytes of a text in a buffer: they are those in front of the first zero, or all of
/// them where there is none.
pub proof fn law_texts_end_at_the_first_zero(bytes: Seq<u8>)
    ensures
        until_nul(bytes).len() <= bytes.len(),
        until_nul(bytes) == bytes.take(until_nul(bytes).len() as int),
        forall|i: int| 0 <= i < until_nul(bytes).len() ==> #[trigger] bytes[i] != 0,
        until_nul(bytes).len() < bytes.len() ==> bytes[until_nul(bytes).len() as int] == 0,
    decreases bytes.len(),
{
    if bytes.len() > 0 && bytes[0] != 0 {
        let rest = bytes.skip(1);
        law_texts_end_at_the_first_zero(rest);
        let n = until_nul(rest).len() as int;
        assert(until_nul(bytes) =~= bytes.take(n + 1)) by {
            assert forall|i: int| 0 <= i < n + 1 implies until_nul(bytes)[i] == bytes[i] by {
                if i > 0 {
                    assert(until_nul(bytes)[i] == until_nul(rest)[i - 1]);
                    assert(rest.take(n)[i - 1] == bytes[i]);
                }
            }
        }
        assert forall|i: int| 0 <= i < n + 1 implies #[trigger] bytes[i] != 0 by {
            if i > 0 {
                assert(rest[i - 1] == bytes[i]);
            }
        }
        if n < rest.len() {
            assert(rest[n] == bytes[n + 1]);
        }
    } else {
        assert(until_nul(bytes) =~= bytes.take(0));
    }
}

} // verus!
