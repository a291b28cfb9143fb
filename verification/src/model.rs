//! The wire format, stated once as specification functions over the raw byte
//! sequence. Each is the mathematical meaning of the corresponding decoder:
//! the decoders' contracts say that what they return is what these functions
//! compute.
//!
//! Names are modelled as sequences of raw label byte strings; the decoders
//! hand each label to lossy UTF-8 decoding ([`crate::label::lossy_of`]) only
//! at the edge, so [`decoded_labels`] relates the two.

use vstd::prelude::*;

use crate::error::DecodeError;
use crate::label::lossy_of;
use crate::message::Header;
use crate::message::Ipv4Address;
use crate::message::Message;
use crate::message::Question;
use crate::message::ResourceData;
use crate::message::ResourceRecord;

verus! {

/// The name cache: for a buffer offset at which a non-empty name was already
/// decoded, the raw labels of that name.
pub type NameMap = Map<int, Seq<Seq<u8>>>;

/// The big-endian 16-bit value at offset `i`.
pub open spec fn be16(s: Seq<u8>, i: int) -> int {
    256 * s[i] + s[i + 1]
}

/// The big-endian 32-bit value at offset `i`.
pub open spec fn be32(s: Seq<u8>, i: int) -> int {
    16777216 * s[i] + 65536 * s[i + 1] + 256 * s[i + 2] + s[i + 3]
}

/// The header encoded in the 12 bytes at offset `i`.
pub open spec fn spec_header(s: Seq<u8>, i: int) -> Header {
    Header {
        id: be16(s, i) as u16,
        q_type: (s[i + 2] >> 3) & 0x0f,
        truncated: s[i + 2] & 0x02 == 0x02,
        recursion_desired: s[i + 2] & 0x01 == 0x01,
        question_count: be16(s, i + 4) as u16,
        answer_count: be16(s, i + 6) as u16,
        authority_count: be16(s, i + 8) as u16,
        additional_count: be16(s, i + 10) as u16,
    }
}

/// The 12 bytes that encode a header: the inverse of [`spec_header`] on the
/// fields this decoder extracts, with every bit it does not extract left
/// zero.
pub open spec fn spec_encode_header(h: Header) -> Seq<u8> {
    seq![
        (h.id >> 8) as u8,
        (h.id & 0xff) as u8,
        (h.q_type * 8 + (if h.truncated {
            2int
        } else {
            0int
        }) + (if h.recursion_desired {
            1int
        } else {
            0int
        })) as u8,
        0u8,
        (h.question_count >> 8) as u8,
        (h.question_count & 0xff) as u8,
        (h.answer_count >> 8) as u8,
        (h.answer_count & 0xff) as u8,
        (h.authority_count >> 8) as u8,
        (h.authority_count & 0xff) as u8,
        (h.additional_count >> 8) as u8,
        (h.additional_count & 0xff) as u8,
    ]
}

/// One step of name decoding, from the length byte at `pos`, with the labels
/// read so far in `acc`: plain labels are appended until a zero byte ends
/// the name or a compression pointer appends a previously decoded name whole
/// and ends it. Returns the labels and the position just past the name.
pub open spec fn spec_name_loop(s: Seq<u8>, pos: int, cache: NameMap, acc: Seq<Seq<u8>>) -> Result<
    (Seq<Seq<u8>>, int),
    DecodeError,
>
    decreases s.len() - pos,
{
    if pos < 0 || pos >= s.len() {
        Err(DecodeError::OutOfBounds)
    } else {
        let length = s[pos];
        if length == 0 {
            Ok((acc, pos + 1))
        } else if length & 0xc0 == 0xc0 {
            if pos + 1 >= s.len() {
                Err(DecodeError::OutOfBounds)
            } else {
                let target = 256 * (length & 0x3f) + s[pos + 1];
                if cache.contains_key(target) {
                    Ok((acc + cache[target], pos + 2))
                } else {
                    Err(DecodeError::DanglingPointer)
                }
            }
        } else if pos + 1 + length > s.len() {
            Err(DecodeError::OutOfBounds)
        } else {
            spec_name_loop(
                s,
                pos + 1 + length,
                cache,
                acc.push(s.subrange(pos + 1, pos + 1 + length)),
            )
        }
    }
}

/// The name starting at `pos`, the position just past it, and the cache
/// afterwards: a non-empty name is recorded under its start offset, an empty
/// one (a bare root byte) is never cached.
pub open spec fn spec_name(s: Seq<u8>, pos: int, cache: NameMap) -> Result<
    (Seq<Seq<u8>>, int, NameMap),
    DecodeError,
> {
    match spec_name_loop(s, pos, cache, Seq::empty()) {
        Ok((labels, end)) => Ok(
            (
                labels,
                end,
                if labels.len() > 0 {
                    cache.insert(pos, labels)
                } else {
                    cache
                },
            ),
        ),
        Err(e) => Err(e),
    }
}

/// The question as decoded: its raw labels, type and class.
pub struct QuestionModel {
    pub domain_name: Seq<Seq<u8>>,
    pub q_type: u16,
    pub q_class: u16,
}

/// The question entry at `pos`: a name followed by two 16-bit fields.
pub open spec fn spec_question(s: Seq<u8>, pos: int, cache: NameMap) -> Result<
    (QuestionModel, int, NameMap),
    DecodeError,
> {
    match spec_name(s, pos, cache) {
        Err(e) => Err(e),
        Ok((labels, p, cache2)) => if p + 4 > s.len() {
            Err(DecodeError::OutOfBounds)
        } else {
            Ok(
                (
                    QuestionModel {
                        domain_name: labels,
                        q_type: be16(s, p) as u16,
                        q_class: be16(s, p + 2) as u16,
                    },
                    p + 4,
                    cache2,
                ),
            )
        },
    }
}

/// A resource record as decoded: raw name labels, the four fixed fields, and
/// the payload bytes — the four address octets for an address record, a zero
/// placeholder for anything else.
pub struct RecordModel {
    pub name: Seq<Seq<u8>>,
    pub r_type: u16,
    pub class: u16,
    pub ttl: u32,
    pub data_length: u16,
    pub data: Seq<u8>,
}

/// The resource record at `pos`: a name, then type, class, TTL and declared
/// data length, then the payload. Only an address record (type 1) whose
/// declared length is exactly 4 is interpreted; in every case the position
/// advances past the payload by the declared length, so records after an
/// unrecognized one stay aligned.
pub open spec fn spec_record(s: Seq<u8>, pos: int, cache: NameMap) -> Result<
    (RecordModel, int, NameMap),
    DecodeError,
> {
    match spec_name(s, pos, cache) {
        Err(e) => Err(e),
        Ok((labels, p, cache2)) => if p + 10 > s.len() {
            Err(DecodeError::OutOfBounds)
        } else {
            let r_type = be16(s, p) as u16;
            let data_length = be16(s, p + 8) as u16;
            let body = p + 10;
            if body + data_length > s.len() {
                Err(DecodeError::OutOfBounds)
            } else {
                Ok(
                    (
                        RecordModel {
                            name: labels,
                            r_type,
                            class: be16(s, p + 2) as u16,
                            ttl: be32(s, p + 4) as u32,
                            data_length,
                            data: if r_type == 1 && data_length == 4 {
                                s.subrange(body, body + 4)
                            } else {
                                seq![0u8, 0u8, 0u8, 0u8]
                            },
                        },
                        body + data_length,
                        cache2,
                    ),
                )
            }
        },
    }
}

/// `n` consecutive resource records from `pos`, in wire order, threading the
/// name cache from each into the next.
pub open spec fn spec_records(s: Seq<u8>, pos: int, cache: NameMap, n: int) -> Result<
    (Seq<RecordModel>, int, NameMap),
    DecodeError,
>
    decreases n,
{
    if n <= 0 {
        Ok((Seq::empty(), pos, cache))
    } else {
        match spec_record(s, pos, cache) {
            Err(e) => Err(e),
            Ok((r, p2, cache2)) => match spec_records(s, p2, cache2, n - 1) {
                Err(e) => Err(e),
                Ok((rest, end, cache3)) => Ok((seq![r] + rest, end, cache3)),
            },
        }
    }
}

/// The whole message as decoded: header, one question, and the answer
/// records — absent, not empty, when the header counts zero answers.
pub struct MessageModel {
    pub header: Header,
    pub question: QuestionModel,
    pub answers: Option<Seq<RecordModel>>,
}

/// A whole message: the 12-byte header, one question at offset 12, then as
/// many answer records as the header counts, all sharing one name cache that
/// starts empty.
pub open spec fn spec_message(s: Seq<u8>) -> Result<MessageModel, DecodeError> {
    if s.len() < 12 {
        Err(DecodeError::OutOfBounds)
    } else {
        let header = spec_header(s, 0);
        match spec_question(s, 12, Map::empty()) {
            Err(e) => Err(e),
            Ok((question, p, cache)) => match spec_records(s, p, cache, header.answer_count as int) {
                Err(e) => Err(e),
                Ok((records, end, cache2)) => Ok(
                    MessageModel {
                        header,
                        question,
                        answers: if header.answer_count == 0 {
                            None
                        } else {
                            Some(records)
                        },
                    },
                ),
            },
        }
    }
}

/// The raw label sequences of a vector of label byte strings.
pub open spec fn labels_view(v: Seq<Vec<u8>>) -> Seq<Seq<u8>> {
    Seq::new(v.len(), |i: int| v[i]@)
}

/// The character sequences of a vector of decoded labels.
pub open spec fn strings_view(v: Seq<String>) -> Seq<Seq<char>> {
    Seq::new(v.len(), |i: int| v[i]@)
}

/// Raw labels after lossy UTF-8 decoding, label by label.
pub open spec fn decoded_labels(ls: Seq<Seq<u8>>) -> Seq<Seq<char>> {
    Seq::new(ls.len(), |i: int| lossy_of(ls[i]))
}

/// Whether a decoded question carries exactly what the model says: the same
/// fields, and each label decoded lossily from the model's raw bytes.
pub open spec fn question_matches(q: Question, m: QuestionModel) -> bool {
    &&& strings_view(q.domain_name@) == decoded_labels(m.domain_name)
    &&& q.q_type == m.q_type
    &&& q.q_class == m.q_class
}

/// Whether a decoded resource record carries exactly what the model says.
pub open spec fn record_matches(r: ResourceRecord, m: RecordModel) -> bool {
    &&& strings_view(r.name@) == decoded_labels(m.name)
    &&& r.r_type == m.r_type
    &&& r.class == m.class
    &&& r.ttl == m.ttl
    &&& r.data_length == m.data_length
    &&& m.data.len() == 4
    &&& r.data matches ResourceData::A(ip) && ip == (Ipv4Address {
        o0: m.data[0],
        o1: m.data[1],
        o2: m.data[2],
        o3: m.data[3],
    })
}

/// Whether a decoded record vector matches a model record sequence, record
/// by record and in the same order.
pub open spec fn records_match(v: Seq<ResourceRecord>, ms: Seq<RecordModel>) -> bool {
    &&& v.len() == ms.len()
    &&& forall|i: int| 0 <= i < ms.len() ==> record_matches(v[i], #[trigger] ms[i])
}

/// Whether a decoded message carries exactly what the model says.
pub open spec fn message_matches(msg: Message, m: MessageModel) -> bool {
    &&& msg.header == m.header
    &&& question_matches(msg.question, m.question)
    &&& match (msg.answers, m.answers) {
        (None, None) => true,
        (Some(v), Some(ms)) => records_match(v@, ms),
        _ => false,
    }
}

} // verus!
