//! One file as a single run of bytes: its name and media type, each after its
//! length as two bytes with the low one first, and then its contents.
use crate::encoding::{lossy_text, text_lossy, utf8_round_trip};
use vstd::prelude::*;
use vstd::utf8::encode_utf8;

verus! {

/// The low sixteen bits of a length, the low byte first.
pub open spec fn length_bytes(n: int) -> Seq<u8> {
    seq![(n % 256) as u8, (n / 256 % 256) as u8]
}

/// The length written at `p`.
pub open spec fn length_at(data: Seq<u8>, p: int) -> int {
    data[p] + 256 * data[p + 1]
}

/// A file as one run of bytes.
pub open spec fn framed(name: Seq<char>, mime: Seq<char>, bytes: Seq<u8>) -> Seq<u8> {
    let n = encode_utf8(name);
    let m = encode_utf8(mime);
    length_bytes(n.len() as int) + n + length_bytes(m.len() as int) + m + bytes
}

/// The name, the media type and the contents that `data` frames, where it is
/// long enough for the lengths it gives.
pub open spec fn unframed(data: Seq<u8>) -> Option<(Seq<char>, Seq<char>, Seq<u8>)> {
    if data.len() < 2 || data.len() < 4 + length_at(data, 0) {
        None
    } else {
        let p = 2 + length_at(data, 0);
        let q = p + 2 + length_at(data, p);
        if data.len() < q {
            None
        } else {
            Some(
                (
                    lossy_text(data.subrange(2, p)),
                    lossy_text(data.subrange(p + 2, q)),
                    data.skip(q),
                ),
            )
        }
    }
}

/// Whether `data` is made of two byte sequences, each behind its length as two
/// bytes with the low one first, and of `bytes` behind them.
pub open spec fn is_frame(data: Seq<u8>, first: Seq<u8>, second: Seq<u8>, bytes: Seq<u8>) -> bool {
    let m = 2 + first.len() as int;
    let n = m + 2 + second.len() as int;
    &&& data.len() == n + bytes.len()
    &&& data[0] + 256 * data[1] == first.len()
    &&& data.subrange(2, m) == first
    &&& data[m] + 256 * data[m + 1] == second.len()
    &&& data.subrange(m + 2, n) == second
    &&& data.skip(n) == bytes
}

/// A framed file is its name, its media type and the whole of its contents.
pub proof fn framed_is_a_frame(name: Seq<char>, mime: Seq<char>, bytes: Seq<u8>)
    requires
        encode_utf8(name).len() < 65536,
        encode_utf8(mime).len() < 65536,
    ensures
        is_frame(framed(name, mime, bytes), encode_utf8(name), encode_utf8(mime), bytes),
{
    let n = encode_utf8(name);
    let m = encode_utf8(mime);
    let data = framed(name, mime, bytes);
    let p = 2 + n.len() as int;
    let q = p + 2 + m.len() as int;
    assert(data.subrange(2, p) =~= n);
    assert(data[p] == length_bytes(m.len() as int)[0]);
    assert(data[p + 1] == length_bytes(m.len() as int)[1]);
    assert(data.subrange(p + 2, q) =~= m);
    assert(data.skip(q) =~= bytes);
}

/// Taking a frame apart gives what it is made of, in full.
pub proof fn frame_is_taken_apart(
    data: Seq<u8>,
    first: Seq<u8>,
    second: Seq<u8>,
    bytes: Seq<u8>,
)
    requires
        is_frame(data, first, second, bytes),
    ensures
        unframed(data) == Some((lossy_text(first), lossy_text(second), bytes)),
{
}

/// What is not a frame is refused, and what is taken apart is a frame.
pub proof fn only_frames_are_taken_apart(data: Seq<u8>)
    ensures
        unframed(data) is Some <==> exists|first: Seq<u8>, second: Seq<u8>, bytes: Seq<u8>|
            #[trigger] is_frame(data, first, second, bytes),
{
    if unframed(data) is Some {
        let p = 2 + length_at(data, 0);
        let q = p + 2 + length_at(data, p);
        assert(is_frame(data, data.subrange(2, p), data.subrange(p + 2, q), data.skip(q)));
    }
    if exists|first: Seq<u8>, second: Seq<u8>, bytes: Seq<u8>|
        #[trigger] is_frame(data, first, second, bytes) {
        let (first, second, bytes) = choose|
            first: Seq<u8>,
            second: Seq<u8>,
            bytes: Seq<u8>,
        | #[trigger] is_frame(data, first, second, bytes);
        frame_is_taken_apart(data, first, second, bytes);
    }
}

fn push_length(out: &mut Vec<u8>, n: usize)
    ensures
        final(out)@ == old(out)@ + length_bytes(n as int),
{
    out.push((n % 256) as u8);
    out.push((n / 256 % 256) as u8);
    assert(final(out)@ == old(out)@ + length_bytes(n as int));
}

/// Frames a file. Of the lengths of its name and media type, the low sixteen
/// bits are written.
pub fn frame_file(name: &str, mime: &str, bytes: &[u8]) -> (r: Vec<u8>)
    requires
        4 + encode_utf8(name@).len() + encode_utf8(mime@).len() + bytes@.len() <= usize::MAX,
    ensures
        r@ == framed(name@, mime@, bytes@),
        r@.len() == 4 + encode_utf8(name@).len() + encode_utf8(mime@).len() + bytes@.len(),
        r@.skip((4 + encode_utf8(name@).len() + encode_utf8(mime@).len()) as int) == bytes@,
        encode_utf8(name@).len() < 65536 && encode_utf8(mime@).len() < 65536 ==> is_frame(
            r@,
            encode_utf8(name@),
            encode_utf8(mime@),
            bytes@,
        ),
{
    let name_b: &[u8] = name.as_bytes();
    let mime_b: &[u8] = mime.as_bytes();
    let mut out: Vec<u8> = Vec::with_capacity(4 + name_b.len() + mime_b.len() + bytes.len());
    push_length(&mut out, name_b.len());
    out.extend_from_slice(name_b);
    push_length(&mut out, mime_b.len());
    out.extend_from_slice(mime_b);
    out.extend_from_slice(bytes);
    assert(out@ == framed(name@, mime@, bytes@));
    proof {
        if encode_utf8(name@).len() < 65536 && encode_utf8(mime@).len() < 65536 {
            framed_is_a_frame(name@, mime@, bytes@);
        }
    }
    out
}

/// Takes a framed file apart.
pub fn unframe_file(data: &[u8]) -> (r: Result<(String, String, &[u8]), String>)
    ensures
        match r {
            Ok((name, mime, bytes)) => unframed(data@) == Some((name@, mime@, bytes@)),
            Err(e) => unframed(data@) is None && e@ == "corrupt file payload"@,
        },
{
    if data.len() < 2 {
        return Err("corrupt file payload".to_owned());
    }
    let name_len: usize = data[0] as usize + 256 * data[1] as usize;
    if data.len() < 4 + name_len {
        return Err("corrupt file payload".to_owned());
    }
    let p: usize = 2 + name_len;
    let name: String = text_lossy(vstd::slice::slice_subrange(data, 2, p));
    let mime_len: usize = data[p] as usize + 256 * data[p + 1] as usize;
    if data.len() - p - 2 < mime_len {
        return Err("corrupt file payload".to_owned());
    }
    let q: usize = p + 2 + mime_len;
    let mime: String = text_lossy(vstd::slice::slice_subrange(data, p + 2, q));
    let bytes: &[u8] = vstd::slice::slice_subrange(data, q, data.len());
    assert(bytes@ == data@.skip(q as int));
    Ok((name, mime, bytes))
}

/// Taking apart what framing gave gives back the name, the media type and the
/// contents, as long as the two texts are short enough for their lengths to be
/// written in full.
pub proof fn frame_round_trip(name: Seq<char>, mime: Seq<char>, bytes: Seq<u8>)
    requires
        encode_utf8(name).len() < 65536,
        encode_utf8(mime).len() < 65536,
    ensures
        unframed(framed(name, mime, bytes)) == Some((name, mime, bytes)),
{
    let n = encode_utf8(name);
    let m = encode_utf8(mime);
    let data = framed(name, mime, bytes);
    assert(length_at(data, 0) == n.len());
    let p = 2 + n.len() as int;
    assert(data.subrange(2, p) == n);
    assert(data[p] == length_bytes(m.len() as int)[0]);
    assert(data[p + 1] == length_bytes(m.len() as int)[1]);
    assert(length_at(data, p) == m.len());
    let q = p + 2 + m.len() as int;
    assert(data.subrange(p + 2, q) == m);
    assert(data.skip(q) == bytes);
    utf8_round_trip(name);
    utf8_round_trip(mime);
}

} // verus!
