//! The sidecar state record: two 64-bit unsigned integers, big-endian, giving
//! the write cursor and the count of bytes already flushed to the output file.
//! A record of any length other than 16 bytes is treated as absent.

use vstd::prelude::*;

verus! {

/// The big-endian byte encoding of a 64-bit unsigned integer.
pub open spec fn spec_u64_to_be_bytes(x: u64) -> Seq<u8> {
    seq![
        ((x >> 56) & 0xff) as u8,
        ((x >> 48) & 0xff) as u8,
        ((x >> 40) & 0xff) as u8,
        ((x >> 32) & 0xff) as u8,
        ((x >> 24) & 0xff) as u8,
        ((x >> 16) & 0xff) as u8,
        ((x >> 8) & 0xff) as u8,
        (x & 0xff) as u8,
    ]
}

/// The 64-bit unsigned integer read from eight big-endian bytes.
pub open spec fn spec_u64_from_be_bytes(s: Seq<u8>) -> u64
    recommends
        s.len() == 8,
{
    ((s[0] as u64) << 56) | ((s[1] as u64) << 48) | ((s[2] as u64) << 40) | ((s[3] as u64) << 32)
        | ((s[4] as u64) << 24) | ((s[5] as u64) << 16) | ((s[6] as u64) << 8) | (s[7] as u64)
}

/// The 16-byte state record: write cursor, then flushed-byte count.
pub open spec fn spec_state_record(pos: u64, flushed: u64) -> Seq<u8> {
    spec_u64_to_be_bytes(pos) + spec_u64_to_be_bytes(flushed)
}

/// Decoding the big-endian encoding of a 64-bit integer gives it back.
pub proof fn lemma_u64_be_bytes_round_trip(x: u64)
    ensures
        spec_u64_to_be_bytes(x).len() == 8,
        spec_u64_from_be_bytes(spec_u64_to_be_bytes(x)) == x,
{
    assert({
        &&& (x >> 56) & 0xff < 256
        &&& (x >> 48) & 0xff < 256
        &&& (x >> 40) & 0xff < 256
        &&& (x >> 32) & 0xff < 256
        &&& (x >> 24) & 0xff < 256
        &&& (x >> 16) & 0xff < 256
        &&& (x >> 8) & 0xff < 256
        &&& x & 0xff < 256
    }) by (bit_vector);
    assert(x == ((x >> 56) & 0xff) << 56 | ((x >> 48) & 0xff) << 48 | ((x >> 40) & 0xff) << 40
        | ((x >> 32) & 0xff) << 32 | ((x >> 24) & 0xff) << 24 | ((x >> 16) & 0xff) << 16 | ((x
        >> 8) & 0xff) << 8 | (x & 0xff)) by (bit_vector);
}

/// A state record parses back to the cursor and byte count it encodes.
pub proof fn lemma_state_record_round_trip(pos: u64, flushed: u64)
    ensures
        spec_state_record(pos, flushed).len() == 16,
        spec_u64_from_be_bytes(spec_state_record(pos, flushed).subrange(0, 8)) == pos,
        spec_u64_from_be_bytes(spec_state_record(pos, flushed).subrange(8, 16)) == flushed,
{
    let r = spec_state_record(pos, flushed);
    assert(r.subrange(0, 8) =~= spec_u64_to_be_bytes(pos));
    assert(r.subrange(8, 16) =~= spec_u64_to_be_bytes(flushed));
    lemma_u64_be_bytes_round_trip(pos);
    lemma_u64_be_bytes_round_trip(flushed);
}

fn push_u64_be(out: &mut Vec<u8>, x: u64)
    ensures
        final(out)@ == old(out)@ + spec_u64_to_be_bytes(x),
{
    out.push(((x >> 56) & 0xff) as u8);
    out.push(((x >> 48) & 0xff) as u8);
    out.push(((x >> 40) & 0xff) as u8);
    out.push(((x >> 32) & 0xff) as u8);
    out.push(((x >> 24) & 0xff) as u8);
    out.push(((x >> 16) & 0xff) as u8);
    out.push(((x >> 8) & 0xff) as u8);
    out.push((x & 0xff) as u8);
    assert(out@ =~= old(out)@ + spec_u64_to_be_bytes(x));
}

/// Serializes the state record persisted after every durable advance.
pub fn encode_state(pos: u64, flushed: u64) -> (r: Vec<u8>)
    ensures
        r@ == spec_state_record(pos, flushed),
        r@.len() == 16,
{
    let mut r: Vec<u8> = Vec::new();
    push_u64_be(&mut r, pos);
    push_u64_be(&mut r, flushed);
    assert(r@ =~= spec_state_record(pos, flushed));
    r
}

fn read_u64_be(data: &Vec<u8>, off: usize) -> (x: u64)
    requires
        off + 8 <= data@.len(),
    ensures
        x == spec_u64_from_be_bytes(data@.subrange(off as int, off as int + 8)),
{
    let n: usize = data.len();
    let x = ((data[off] as u64) << 56) | ((data[off + 1] as u64) << 48) | ((data[off + 2]
        as u64) << 40) | ((data[off + 3] as u64) << 32) | ((data[off + 4] as u64) << 24) | ((
    data[off + 5] as u64) << 16) | ((data[off + 6] as u64) << 8) | (data[off + 7] as u64);
    proof {
        let s = data@.subrange(off as int, off as int + 8);
        assert(forall|i: int| 0 <= i < 8 ==> s[i] == data@[off + i]);
    }
    x
}

/// Parses a candidate state record. Exactly the 16-byte records are valid;
/// any other length means there is no resumable state.
pub fn parse_state(data: &Vec<u8>) -> (r: Option<(u64, u64)>)
    ensures
        r is Some <==> data@.len() == 16,
        r matches Some(pf) ==> pf.0 == spec_u64_from_be_bytes(data@.subrange(0, 8)) && pf.1
            == spec_u64_from_be_bytes(data@.subrange(8, 16)),
{
    if data.len() != 16 {
        return None;
    }
    let pos = read_u64_be(data, 0);
    let flushed = read_u64_be(data, 8);
    Some((pos, flushed))
}

/// What construction of a single-file engine should do, given the sidecar.
pub enum ResumePlan {
    /// No resumable state: create the output file afresh and start at zero.
    Fresh,
    /// A valid record with a nonzero cursor: try to reopen the output file
    /// and seek to `flushed`; if that fails, fall back to a fresh start.
    TryOpen { pos: u64, flushed: u64 },
}

/// Decides from the sidecar's content (`None` when the sidecar is absent or
/// unreadable) whether construction may attempt to resume. Only a record of
/// exactly 16 bytes whose cursor is nonzero allows it.
pub fn plan_resume(sidecar: Option<&Vec<u8>>) -> (r: ResumePlan)
    ensures
        match sidecar {
            None => r is Fresh,
            Some(d) => if d@.len() == 16 && spec_u64_from_be_bytes(d@.subrange(0, 8)) > 0 {
                r == (ResumePlan::TryOpen {
                    pos: spec_u64_from_be_bytes(d@.subrange(0, 8)),
                    flushed: spec_u64_from_be_bytes(d@.subrange(8, 16)),
                })
            } else {
                r is Fresh
            },
        },
{
    match sidecar {
        None => ResumePlan::Fresh,
        Some(d) => {
            match parse_state(d) {
                Some((pos, flushed)) => {
                    if pos > 0 {
                        ResumePlan::TryOpen { pos, flushed }
                    } else {
                        ResumePlan::Fresh
                    }
                },
                None => ResumePlan::Fresh,
            }
        },
    }
}

} // verus!
