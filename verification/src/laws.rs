//! The general properties the decoder keeps, each proved once and for all
//! inputs: header round-tripping, name round-tripping, pointer resolution,
//! length-governed record skipping, and explicit failure on dangling
//! pointers.

use vstd::prelude::*;

use crate::error::DecodeError;
use crate::message::Header;
use crate::model::spec_encode_header;
use crate::model::spec_header;
use crate::model::spec_name;
use crate::model::spec_name_loop;
use crate::model::spec_record;
use crate::model::NameMap;

verus! {

proof fn lemma_be16_bytes(a: u8, b: u8)
    ensures
        (((256 * a + b) as u16) >> 8) as u8 == a,
        (((256 * a + b) as u16) & 0xff) as u8 == b,
{
    assert((((256 * a + b) as u16) >> 8) as u8 == a && (((256 * a + b) as u16) & 0xff) as u8 == b)
        by (bit_vector);
}

proof fn lemma_flag_byte(f: u8)
    requires
        f & 0x84 == 0,
    ensures
        (((f >> 3) & 0x0f) * 8 + (if f & 0x02 == 0x02 {
            2int
        } else {
            0int
        }) + (if f & 0x01 == 0x01 {
            1int
        } else {
            0int
        })) as u8 == f,
{
    assert(f & 0x84 == 0 ==> (((f >> 3) & 0x0f) * 8 + (f & 0x02) + (f & 0x01)) as u8 == f)
        by (bit_vector);
    assert(f & 0x02 == 0x02 || f & 0x02 == 0) by (bit_vector);
    assert(f & 0x01 == 0x01 || f & 0x01 == 0) by (bit_vector);
}

/// Decoding a header and re-encoding it reproduces the original 12 bytes
/// bit for bit, for every header whose bits outside the decoded fields (the
/// QR, AA and RA bits, the zero field and the response code) are zero.
pub proof fn lemma_header_round_trip(s: Seq<u8>)
    requires
        s.len() >= 12,
        s[2] & 0x84 == 0,
        s[3] == 0,
    ensures
        spec_encode_header(spec_header(s, 0)) == s.subrange(0, 12),
{
    let h = spec_header(s, 0);
    let e = spec_encode_header(h);
    lemma_be16_bytes(s[0], s[1]);
    lemma_be16_bytes(s[4], s[5]);
    lemma_be16_bytes(s[6], s[7]);
    lemma_be16_bytes(s[8], s[9]);
    lemma_be16_bytes(s[10], s[11]);
    lemma_flag_byte(s[2]);
    assert(e =~= s.subrange(0, 12));
}

/// Every field this decoder extracts survives a round trip through the wire
/// form: encoding any header whose opcode fits its four bits and decoding
/// the result gives the header back unchanged.
pub proof fn lemma_header_fields_round_trip(h: Header)
    requires
        h.q_type < 16,
    ensures
        spec_header(spec_encode_header(h), 0) == h,
{
    let e = spec_encode_header(h);
    lemma_u16_bytes(h.id);
    lemma_u16_bytes(h.question_count);
    lemma_u16_bytes(h.answer_count);
    lemma_u16_bytes(h.authority_count);
    lemma_u16_bytes(h.additional_count);
    let t2: u8 = if h.truncated {
        2
    } else {
        0
    };
    let r1: u8 = if h.recursion_desired {
        1
    } else {
        0
    };
    let q = h.q_type;
    let f = e[2];
    assert(f == (q * 8 + t2 + r1) as u8);
    assert(q < 16 && (t2 == 0 || t2 == 2) && (r1 == 0 || r1 == 1) ==> {
        let g = (q * 8 + t2 + r1) as u8;
        &&& (g >> 3) & 0x0f == q
        &&& g & 0x02 == t2
        &&& g & 0x01 == r1
    }) by (bit_vector);
}

proof fn lemma_u16_bytes(x: u16)
    ensures
        256 * (((x >> 8) as u8) as int) + (((x & 0xff) as u8) as int) == x,
{
    assert(256 * (((x >> 8) as u8) as int) + (((x & 0xff) as u8) as int) == x) by (bit_vector);
}

/// Whether the name starting at `pos` is a plain, uncompressed one: labels
/// alone, ending at a root byte inside the buffer, with no compression
/// pointer anywhere.
pub open spec fn spec_name_plain(s: Seq<u8>, pos: int) -> bool
    decreases s.len() - pos,
{
    0 <= pos < s.len() && {
        let length = s[pos];
        if length == 0 {
            true
        } else if length & 0xc0 == 0xc0 {
            false
        } else {
            pos + 1 + length <= s.len() && spec_name_plain(s, pos + 1 + length)
        }
    }
}

/// The labels of a plain name starting at `pos`.
pub open spec fn plain_labels(s: Seq<u8>, pos: int) -> Seq<Seq<u8>>
    recommends
        spec_name_plain(s, pos),
    decreases s.len() - pos,
{
    if !(0 <= pos < s.len()) || s[pos] == 0 {
        Seq::empty()
    } else if pos + 1 + s[pos] <= s.len() {
        seq![s.subrange(pos + 1, pos + 1 + s[pos])] + plain_labels(s, pos + 1 + s[pos])
    } else {
        Seq::empty()
    }
}

/// The position just past a plain name starting at `pos`.
pub open spec fn plain_end(s: Seq<u8>, pos: int) -> int
    recommends
        spec_name_plain(s, pos),
    decreases s.len() - pos,
{
    if !(0 <= pos < s.len()) || s[pos] == 0 {
        pos + 1
    } else if pos + 1 + s[pos] <= s.len() {
        plain_end(s, pos + 1 + s[pos])
    } else {
        pos + 1
    }
}

/// Labels re-joined to wire form: each prefixed with its length byte, the
/// whole terminated by the root byte.
pub open spec fn spec_join(ls: Seq<Seq<u8>>) -> Seq<u8>
    decreases ls.len(),
{
    if ls.len() == 0 {
        seq![0u8]
    } else {
        seq![(ls[0].len() as u8)] + ls[0] + spec_join(ls.skip(1))
    }
}

proof fn lemma_plain_parse(s: Seq<u8>, pos: int, cache: NameMap, acc: Seq<Seq<u8>>)
    requires
        spec_name_plain(s, pos),
    ensures
        spec_name_loop(s, pos, cache, acc) == Ok::<(Seq<Seq<u8>>, int), DecodeError>(
            (acc + plain_labels(s, pos), plain_end(s, pos)),
        ),
    decreases s.len() - pos,
{
    let length = s[pos];
    if length == 0 {
        assert(acc + plain_labels(s, pos) =~= acc);
    } else {
        let lab = s.subrange(pos + 1, pos + 1 + length);
        lemma_plain_parse(s, pos + 1 + length, cache, acc.push(lab));
        assert(acc.push(lab) + plain_labels(s, pos + 1 + length) =~= acc + plain_labels(s, pos));
    }
}

proof fn lemma_plain_join(s: Seq<u8>, pos: int)
    requires
        spec_name_plain(s, pos),
    ensures
        pos < plain_end(s, pos) <= s.len(),
        spec_join(plain_labels(s, pos)) == s.subrange(pos, plain_end(s, pos)),
    decreases s.len() - pos,
{
    let length = s[pos];
    let end = plain_end(s, pos);
    if length == 0 {
        assert(s.subrange(pos, pos + 1) =~= seq![0u8]);
    } else {
        let next = pos + 1 + length;
        lemma_plain_join(s, next);
        let lab = s.subrange(pos + 1, next);
        let ls = plain_labels(s, pos);
        assert(ls.skip(1) =~= plain_labels(s, next));
        assert(spec_join(ls) == seq![(lab.len() as u8)] + lab + spec_join(plain_labels(s, next)));
        assert forall|k: int| 0 <= k < spec_join(ls).len() implies spec_join(ls)[k] == s.subrange(
            pos,
            end,
        )[k] by {
            if k == 0 {
                assert(spec_join(ls)[0] == length);
            } else if k < 1 + length {
                assert(spec_join(ls)[k] == lab[k - 1]);
                assert(lab[k - 1] == s[pos + k]);
            } else {
                assert(spec_join(ls)[k] == spec_join(plain_labels(s, next))[k - 1 - length]);
                assert(s.subrange(next, end)[k - 1 - length] == s[pos + k]);
            }
        }
        assert(spec_join(ls) =~= s.subrange(pos, end));
    }
}

/// For a name without compression: decoding succeeds, and re-joining the
/// decoded labels with their length prefixes and the trailing root byte
/// reproduces the original byte span exactly.
pub proof fn lemma_name_round_trip(s: Seq<u8>, pos: int, cache: NameMap)
    requires
        spec_name_plain(s, pos),
    ensures
        ({
            let r = spec_name(s, pos, cache);
            r matches Ok((labels, end, c2)) && spec_join(labels) == s.subrange(pos, end)
        }),
{
    lemma_plain_parse(s, pos, cache, Seq::empty());
    lemma_plain_join(s, pos);
    assert(Seq::<Seq<u8>>::empty() + plain_labels(s, pos) =~= plain_labels(s, pos));
}

/// A name that is purely a compression pointer to an offset already in the
/// cache yields exactly the label sequence cached there, and ends right
/// after the two pointer bytes.
pub proof fn lemma_pointer_resolution(s: Seq<u8>, pos: int, cache: NameMap)
    requires
        0 <= pos,
        pos + 1 < s.len(),
        s[pos] & 0xc0 == 0xc0,
        cache.contains_key(256 * (s[pos] & 0x3f) + s[pos + 1]),
    ensures
        ({
            let r = spec_name(s, pos, cache);
            r matches Ok((labels, end, c2)) && labels == cache[256 * (s[pos] & 0x3f) + s[pos + 1]]
                && end == pos + 2
        }),
{
    let length = s[pos];
    assert(length != 0) by (bit_vector)
        requires
            length & 0xc0 == 0xc0,
    ;
    assert(Seq::<Seq<u8>>::empty() + cache[256 * (s[pos] & 0x3f) + s[pos + 1]] =~= cache[256 * (
    s[pos] & 0x3f) + s[pos + 1]]);
}

/// A compression pointer to an offset at which no name was cached fails
/// with `DanglingPointer` — an explicit, distinguishable failure, never a
/// wrong or empty name.
pub proof fn lemma_dangling_pointer(s: Seq<u8>, pos: int, cache: NameMap)
    requires
        0 <= pos,
        pos + 1 < s.len(),
        s[pos] & 0xc0 == 0xc0,
        !cache.contains_key(256 * (s[pos] & 0x3f) + s[pos + 1]),
    ensures
        spec_name(s, pos, cache) == Err::<(Seq<Seq<u8>>, int, NameMap), DecodeError>(
            DecodeError::DanglingPointer,
        ),
{
    let length = s[pos];
    assert(length != 0) by (bit_vector)
        requires
            length & 0xc0 == 0xc0,
    ;
}

/// The position after a resource record is governed by the declared data
/// length alone: whatever the record's type, decoding resumes exactly ten
/// fixed-field bytes plus `data_length` bytes past its name, so a record of
/// unrecognized type or mismatched length is skipped without corrupting the
/// position of the records after it.
pub proof fn lemma_record_skip(s: Seq<u8>, pos: int, cache: NameMap)
    requires
        spec_record(s, pos, cache) is Ok,
    ensures
        ({
            let r = spec_record(s, pos, cache);
            let n = spec_name(s, pos, cache);
            r matches Ok((rm, end, c2)) && n matches Ok((labels, p, c3)) && end == p + 10
                + rm.data_length
        }),
{
}

} // verus!
