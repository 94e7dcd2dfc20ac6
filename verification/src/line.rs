//! The multistream line codec: a UTF-8 string framed as
//! `varint(byte-length + 1) || string-bytes || 0x0A`.

use vstd::prelude::*;

use vstd::slice::slice_to_vec;
use vstd::string::StringSliceAdditionalSpecFns;
use vstd::utf8::decode_utf8;
use vstd::utf8::encode_scalar;
use vstd::utf8::encode_utf8;
use vstd::utf8::encode_utf8_decode_utf8;
use vstd::utf8::encode_utf8_valid_utf8;
use vstd::utf8::valid_utf8;

use crate::Error;
use crate::Progress;
use crate::varint::cont_prefix_len;
use crate::varint::deserialise_varint;
use crate::varint::has_cont;
use crate::varint::lemma_cont_prefix_len_is;
use crate::varint::lemma_cont_prefix_len_le;
use crate::varint::lemma_varint_round_trip;
use crate::varint::serialise_varint;
use crate::varint::varint_acc;
use crate::varint::varint_complete;
use crate::varint::varint_encoding;
use crate::varint::varint_len;
use crate::varint::varint_malformed;
use crate::varint::varint_value_of;

verus! {

/// The framed form of `payload`: the varint length prefix (payload length
/// plus one for the terminator), the payload bytes, the newline terminator.
pub open spec fn line_encoding(payload: Seq<u8>) -> Seq<u8> {
    varint_encoding((payload.len() + 1) as u64) + payload + seq![0x0au8]
}

/// The framed payload declared by the varint at the head of `s`: terminator
/// byte included, meaningful when the frame is complete within `s`.
pub open spec fn line_payload(s: Seq<u8>) -> Seq<u8> {
    s.subrange(varint_len(s), varint_len(s) + varint_value_of(s))
}

/// A UTF-8 encoding takes at most four bytes per character.
pub(crate) proof fn lemma_encode_utf8_len(chars: Seq<char>)
    ensures
        encode_utf8(chars).len() <= 4 * chars.len(),
    decreases chars.len(),
{
    if chars.len() > 0 {
        lemma_encode_utf8_len(chars.drop_first());
        assert(encode_scalar(chars[0] as u32).len() <= 4);
    }
}

/// Append the framed encoding of `line` to `dst`, never replacing what `dst`
/// already holds, so that several lines can be batched into one write.
///
/// Fails with `InvalidLineLength`, leaving `dst` untouched, exactly when the
/// byte length of `line` plus one does not fit the varint domain.
pub fn serialise_varint_line(dst: &mut Vec<u8>, line: &str) -> (r: Result<(), Error>)
    ensures
        line.spec_bytes().len() + 1 <= u64::MAX ==> r is Ok && final(dst)@ == old(dst)@
            + line_encoding(line.spec_bytes()),
        line.spec_bytes().len() + 1 > u64::MAX ==> r == Err::<(), Error>(Error::InvalidLineLength)
            && final(dst)@ == old(dst)@,
{
    let len_bytes: usize = line.len();
    if len_bytes as u64 == u64::MAX {
        return Err(Error::InvalidLineLength);
    }
    let n: u64 = len_bytes as u64 + 1;
    serialise_varint(dst, n);
    let bs: &[u8] = line.as_bytes();
    let mut k: usize = 0;
    while k < bs.len()
        invariant
            0 <= k <= bs@.len(),
            bs@ == line.spec_bytes(),
            dst@ == old(dst)@ + varint_encoding(n) + bs@.take(k as int),
        decreases bs@.len() - k,
    {
        dst.push(bs[k]);
        proof {
            assert(bs@.take(k + 1) =~= bs@.take(k as int).push(bs@[k as int]));
        }
        k += 1;
    }
    dst.push(0x0a);
    proof {
        assert(bs@.take(bs@.len() as int) =~= bs@);
        assert(dst@ =~= old(dst)@ + line_encoding(line.spec_bytes()));
    }
    Ok(())
}

/// Relies on `String::from_utf8`: it returns the string decoded from `bytes`
/// exactly when `bytes` is valid UTF-8, and nothing otherwise.
#[verifier::external_body]
fn bytes_to_string(bytes: Vec<u8>) -> (r: Option<String>)
    ensures
        r is Some <==> valid_utf8(bytes@),
        r matches Some(text) ==> text@ == decode_utf8(bytes@),
{
    String::from_utf8(bytes).ok()
}

/// Decode the framed line at the head of `bytes`, returning the payload
/// string and the number of bytes consumed.
///
/// Fails with `EmptyLine` on a zero declared length, `InvalidLineLength` on
/// one beyond the addressable size, `MissingTerminator` when the declared
/// payload does not end in the newline byte, and `InvalidUtf8` when the rest
/// of the payload is not valid UTF-8; varint failures surface unchanged, and
/// a buffer that stops short of the declared frame is reported incomplete.
pub fn deserialise_varint_line(bytes: &[u8]) -> (r: Progress<String>)
    ensures
        varint_malformed(bytes@) ==> r == Progress::<String>::Failed(Error::MalformedVarint),
        !varint_malformed(bytes@) && cont_prefix_len(bytes@) >= 10 ==> r == Progress::<
            String,
        >::Failed(Error::VarintTooLarge),
        !varint_malformed(bytes@) && cont_prefix_len(bytes@) < 10 && cont_prefix_len(bytes@)
            >= bytes@.len() ==> r == Progress::<String>::Incomplete,
        varint_complete(bytes@) && varint_value_of(bytes@) == 0 ==> r == Progress::<
            String,
        >::Failed(Error::EmptyLine),
        varint_complete(bytes@) && varint_value_of(bytes@) > usize::MAX ==> r == Progress::<
            String,
        >::Failed(Error::InvalidLineLength),
        varint_complete(bytes@) && 0 < varint_value_of(bytes@) <= usize::MAX && bytes@.len()
            < varint_len(bytes@) + varint_value_of(bytes@) ==> r == Progress::<String>::Incomplete,
        varint_complete(bytes@) && 0 < varint_value_of(bytes@) <= usize::MAX && bytes@.len()
            >= varint_len(bytes@) + varint_value_of(bytes@) ==> ({
            let payload = line_payload(bytes@);
            &&& payload.last() != 0x0a ==> r == Progress::<String>::Failed(Error::MissingTerminator)
            &&& payload.last() == 0x0a && !valid_utf8(payload.drop_last()) ==> r == Progress::<
                String,
            >::Failed(Error::InvalidUtf8)
            &&& payload.last() == 0x0a && valid_utf8(payload.drop_last()) ==> (r matches Progress::Done(
                line,
                used,
            ) && line@ == decode_utf8(payload.drop_last()) && used == varint_len(bytes@)
                + varint_value_of(bytes@))
        }),
{
    match deserialise_varint(bytes) {
        Progress::Failed(e) => Progress::Failed(e),
        Progress::Incomplete => Progress::Incomplete,
        Progress::Done(v, consumed) => {
            proof {
                lemma_cont_prefix_len_le(bytes@);
                assert(varint_complete(bytes@));
                assert(consumed as int == varint_len(bytes@));
            }
            if v == 0 {
                return Progress::Failed(Error::EmptyLine);
            }
            if v > usize::MAX as u64 {
                return Progress::Failed(Error::InvalidLineLength);
            }
            let len: usize = v as usize;
            if bytes.len() - consumed < len {
                return Progress::Incomplete;
            }
            let payload: &[u8] = &bytes[consumed..consumed + len];
            proof {
                assert(payload@ =~= line_payload(bytes@));
            }
            if payload[len - 1] != 0x0a {
                return Progress::Failed(Error::MissingTerminator);
            }
            let body: &[u8] = &payload[0..len - 1];
            proof {
                assert(body@ =~= line_payload(bytes@).drop_last());
            }
            let owned: Vec<u8> = slice_to_vec(body);
            match bytes_to_string(owned) {
                Some(text) => Progress::Done(text, consumed + len),
                None => Progress::Failed(Error::InvalidUtf8),
            }
        },
    }
}

/// Law: framing the UTF-8 bytes of a string yields one complete well-formed
/// frame — its declared length is the payload length plus one, it spans the
/// whole byte sequence, it ends in the newline terminator — and the framed
/// payload decodes back to exactly the characters that were framed.
pub proof fn lemma_line_round_trip(text: Seq<char>)
    requires
        encode_utf8(text).len() + 1 <= u64::MAX,
        !text.contains('\n'),
    ensures
        ({
            let b = line_encoding(encode_utf8(text));
            &&& varint_complete(b)
            &&& varint_value_of(b) == encode_utf8(text).len() + 1
            &&& varint_len(b) + varint_value_of(b) == b.len()
            &&& line_payload(b).last() == 0x0a
            &&& valid_utf8(line_payload(b).drop_last())
            &&& decode_utf8(line_payload(b).drop_last()) == text
        }),
{
    let pbytes = encode_utf8(text);
    let n = (pbytes.len() + 1) as u64;
    let e = varint_encoding(n);
    let b = line_encoding(pbytes);
    lemma_varint_round_trip(n);
    assert(forall|j: int| 0 <= j < e.len() ==> b[j] == e[j]);
    assert forall|j: int| 0 <= j < e.len() - 1 implies has_cont(b[j]) by {
        assert(has_cont(e[j]));
    }
    assert(!has_cont(b[e.len() - 1]));
    lemma_cont_prefix_len_is(b, e.len() - 1);
    assert(varint_len(b) == e.len());
    assert(e.take(varint_len(e)) =~= e);
    assert(varint_acc(e) == n);
    assert(b.take(e.len() as int) =~= e);
    assert(varint_value_of(b) == varint_acc(e));
    assert(b.len() == e.len() + pbytes.len() + 1);
    assert(line_payload(b) =~= pbytes + seq![0x0au8]);
    assert(line_payload(b).drop_last() =~= pbytes);
    encode_utf8_valid_utf8(text);
    encode_utf8_decode_utf8(text);
}

} // verus!
