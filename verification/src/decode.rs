use vstd::prelude::*;
use vstd::slice::slice_to_vec;

use crate::cache::NameCache;
use crate::cursor::Buffer;
use crate::error::DecodeError;
use crate::label::bytes_to_label;
use crate::label::lossy_of;
use crate::message::Header;
use crate::message::Ipv4Address;
use crate::message::Message;
use crate::message::Question;
use crate::message::ResourceData;
use crate::message::ResourceRecord;
use crate::model::be16;
use crate::model::be32;
use crate::model::decoded_labels;
use crate::model::labels_view;
use crate::model::record_matches;
use crate::model::NameMap;
use crate::model::records_match;
use crate::model::message_matches;
use crate::model::question_matches;
use crate::model::spec_encode_header;
use crate::model::spec_header;
use crate::model::spec_message;
use crate::model::spec_name;
use crate::model::spec_name_loop;
use crate::model::spec_question;
use crate::model::spec_record;
use crate::model::spec_records;
use crate::model::strings_view;
use crate::model::RecordModel;

verus! {

/// Whether every bit of `bit_pos` is set in `byte`.
pub fn bits_set(byte: u8, bit_pos: u8) -> (r: bool)
    ensures
        r == (byte & bit_pos == bit_pos),
{
    byte & bit_pos == bit_pos
}

/// Reads a big-endian 16-bit field.
fn read_u16(buf: &mut Buffer) -> (r: Result<u16, DecodeError>)
    ensures
        final(buf).buffer == old(buf).buffer,
        old(buf).next_index + 2 <= old(buf).buffer@.len() ==> {
            &&& r matches Ok(v) && v == be16(old(buf).buffer@, old(buf).next_index as int)
            &&& final(buf).next_index == old(buf).next_index + 2
        },
        old(buf).next_index + 2 > old(buf).buffer@.len() ==> (r matches Err(e) && e
            == DecodeError::OutOfBounds),
{
    let hi = match buf.next() {
        Ok(b) => b,
        Err(e) => {
            return Err(e);
        },
    };
    let lo = match buf.next() {
        Ok(b) => b,
        Err(e) => {
            return Err(e);
        },
    };
    Ok((hi as u16) * 256 + (lo as u16))
}

/// Reads a big-endian 32-bit field.
fn read_u32(buf: &mut Buffer) -> (r: Result<u32, DecodeError>)
    ensures
        final(buf).buffer == old(buf).buffer,
        old(buf).next_index + 4 <= old(buf).buffer@.len() ==> {
            &&& r matches Ok(v) && v == be32(old(buf).buffer@, old(buf).next_index as int)
            &&& final(buf).next_index == old(buf).next_index + 4
        },
        old(buf).next_index + 4 > old(buf).buffer@.len() ==> (r matches Err(e) && e
            == DecodeError::OutOfBounds),
{
    let b0 = match buf.next() {
        Ok(b) => b,
        Err(e) => {
            return Err(e);
        },
    };
    let b1 = match buf.next() {
        Ok(b) => b,
        Err(e) => {
            return Err(e);
        },
    };
    let b2 = match buf.next() {
        Ok(b) => b,
        Err(e) => {
            return Err(e);
        },
    };
    let b3 = match buf.next() {
        Ok(b) => b,
        Err(e) => {
            return Err(e);
        },
    };
    Ok((b0 as u32) * 16777216 + (b1 as u32) * 65536 + (b2 as u32) * 256 + (b3 as u32))
}

/// The label loop of name decoding: reads length-prefixed labels onto `acc`
/// until a zero byte ends the name or a compression pointer appends a cached
/// name whole and ends it.
fn name_labels(buf: &mut Buffer, names: &NameCache, acc: Vec<Vec<u8>>) -> (r: Result<
    Vec<Vec<u8>>,
    DecodeError,
>)
    ensures
        final(buf).buffer == old(buf).buffer,
        match spec_name_loop(
            old(buf).buffer@,
            old(buf).next_index as int,
            names@,
            labels_view(acc@),
        ) {
            Ok((labels, end)) => {
                &&& r matches Ok(v) && labels_view(v@) == labels
                &&& final(buf).next_index == end
            },
            Err(e) => r matches Err(e2) && e2 == e,
        },
    decreases buf.buffer@.len() - buf.next_index,
{
    let ghost s = buf.buffer@;
    let ghost pos = buf.next_index as int;
    let ghost acc0 = labels_view(acc@);
    let length = match buf.next() {
        Ok(b) => b,
        Err(e) => {
            return Err(e);
        },
    };
    if length == 0 {
        Ok(acc)
    } else if bits_set(length, 0xc0) {
        let b2 = match buf.next() {
            Ok(b) => b,
            Err(e) => {
                return Err(e);
            },
        };
        proof {
            assert(length & 0x3f < 64) by (bit_vector);
        }
        let target: usize = (length & 0x3f) as usize * 256 + b2 as usize;
        match names.get(target) {
            Some(cached) => {
                let mut out = acc;
                let mut i: usize = 0;
                proof {
                    assert(labels_view(out@) =~= acc0 + labels_view(cached@).take(0));
                }
                while i < cached.len()
                    invariant
                        i <= cached@.len(),
                        labels_view(out@) == acc0 + labels_view(cached@).take(i as int),
                    decreases cached@.len() - i,
                {
                    let item = slice_to_vec(cached[i].as_slice());
                    let ghost item_view = item@;
                    let ghost prev = out@;
                    out.push(item);
                    proof {
                        let target_view = acc0 + labels_view(cached@).take(i as int + 1);
                        assert(labels_view(prev).len() == prev.len());
                        assert(prev.len() == acc0.len() + i as int);
                        assert forall|k: int| 0 <= k < labels_view(out@).len() implies labels_view(
                            out@,
                        )[k] == target_view[k] by {
                            if k < prev.len() {
                                assert(out@[k] == prev[k]);
                                assert(labels_view(prev)[k] == (acc0 + labels_view(cached@).take(
                                    i as int,
                                ))[k]);
                                if k >= acc0.len() {
                                    assert((acc0 + labels_view(cached@).take(i as int))[k]
                                        == labels_view(cached@).take(i as int)[k - acc0.len()]);
                                    assert(labels_view(cached@).take(i as int)[k - acc0.len()]
                                        == labels_view(cached@)[k - acc0.len()]);
                                    assert(target_view[k] == labels_view(cached@).take(
                                        i as int + 1,
                                    )[k - acc0.len()]);
                                    assert(target_view[k] == labels_view(cached@)[k - acc0.len()]);
                                }
                            } else {
                                assert(k == acc0.len() + i as int);
                                assert(out@[k]@ == item_view);
                                assert(target_view[k] == labels_view(cached@).take(i as int + 1)[
                                    i as int
                                ]);
                                assert(target_view[k] == cached@[i as int]@);
                            }
                        }
                        assert(labels_view(out@) =~= target_view);
                    }
                    i = i + 1;
                }
                proof {
                    assert(labels_view(cached@).take(cached@.len() as int) =~= labels_view(
                        cached@,
                    ));
                }
                Ok(out)
            },
            None => Err(DecodeError::DanglingPointer),
        }
    } else {
        let label = match buf.next_n(length as usize) {
            Ok(l) => l,
            Err(e) => {
                return Err(e);
            },
        };
        let mut out = acc;
        out.push(slice_to_vec(label));
        proof {
            assert(labels_view(out@) =~= acc0.push(s.subrange(pos + 1, pos + 1 + length)));
        }
        name_labels(buf, names, out)
    }
}

/// Reads a possibly compressed domain name from the cursor's position and
/// returns its labels, lossily decoded to text. A non-empty name is recorded
/// in the cache under the offset where it began; an empty name (a bare root
/// byte) is never cached.
pub fn parse_name(buf: &mut Buffer, names: &mut NameCache) -> (r: Result<Vec<String>, DecodeError>)
    ensures
        final(buf).buffer == old(buf).buffer,
        match spec_name(old(buf).buffer@, old(buf).next_index as int, old(names)@) {
            Ok((labels, end, cache2)) => {
                &&& r matches Ok(v) && strings_view(v@) == decoded_labels(labels)
                &&& final(buf).next_index == end
                &&& final(names)@ == cache2
            },
            Err(e) => {
                &&& r matches Err(e2) && e2 == e
                &&& final(names)@ == old(names)@
            },
        },
{
    let ghost s = buf.buffer@;
    let ghost pos = buf.next_index as int;
    let offset = buf.peek_position();
    proof {
        assert(labels_view(Seq::<Vec<u8>>::empty()) =~= Seq::<Seq<u8>>::empty());
    }
    let raw = match name_labels(buf, &*names, Vec::new()) {
        Ok(v) => v,
        Err(e) => {
            return Err(e);
        },
    };
    let mut name: Vec<String> = Vec::new();
    let mut i: usize = 0;
    proof {
        assert(strings_view(name@) =~= decoded_labels(labels_view(raw@)).take(0));
    }
    while i < raw.len()
        invariant
            i <= raw@.len(),
            strings_view(name@) == decoded_labels(labels_view(raw@)).take(i as int),
        decreases raw@.len() - i,
    {
        let label = bytes_to_label(raw[i].as_slice());
        let ghost label_view = label@;
        let ghost prev = name@;
        name.push(label);
        proof {
            let target_view = decoded_labels(labels_view(raw@)).take(i as int + 1);
            assert forall|k: int| 0 <= k < strings_view(name@).len() implies strings_view(name@)[k]
                == target_view[k] by {
                if k < prev.len() {
                    assert(name@[k] == prev[k]);
                    assert(strings_view(prev)[k] == decoded_labels(labels_view(raw@)).take(
                        i as int,
                    )[k]);
                } else {
                    assert(strings_view(prev).len() == prev.len());
                    assert(prev.len() == i as int);
                    assert(k == i as int);
                    assert(name@[k]@ == label_view);
                    assert(target_view[k] == lossy_of(raw@[i as int]@));
                }
            }
            assert(strings_view(name@) =~= target_view);
        }
        i = i + 1;
    }
    proof {
        assert(decoded_labels(labels_view(raw@)).take(raw@.len() as int) =~= decoded_labels(
            labels_view(raw@),
        ));
    }
    if raw.len() > 0 {
        names.insert(offset, raw);
    }
    Ok(name)
}

/// Reads the fixed 12-byte header: transaction id, the flag byte, one
/// reserved byte retained only to advance the cursor, and the four counts.
pub fn parse_header(buf: &mut Buffer) -> (r: Result<Header, DecodeError>)
    ensures
        final(buf).buffer == old(buf).buffer,
        old(buf).next_index + 12 <= old(buf).buffer@.len() ==> {
            &&& r matches Ok(h) && h == spec_header(old(buf).buffer@, old(buf).next_index as int)
            &&& final(buf).next_index == old(buf).next_index + 12
        },
        old(buf).next_index + 12 > old(buf).buffer@.len() ==> (r matches Err(e) && e
            == DecodeError::OutOfBounds),
{
    let id = match read_u16(buf) {
        Ok(v) => v,
        Err(e) => {
            return Err(e);
        },
    };
    let flag_byte = match buf.next() {
        Ok(b) => b,
        Err(e) => {
            return Err(e);
        },
    };
    let q_type = (flag_byte >> 3) & 0x0f;
    let truncated = bits_set(flag_byte, 0x02);
    let recursion_desired = bits_set(flag_byte, 0x01);
    match buf.next() {
        // Recursion available, zeros and response code: read past, not decoded.
        Ok(_) => (),
        Err(e) => {
            return Err(e);
        },
    };
    let question_count = match read_u16(buf) {
        Ok(v) => v,
        Err(e) => {
            return Err(e);
        },
    };
    let answer_count = match read_u16(buf) {
        Ok(v) => v,
        Err(e) => {
            return Err(e);
        },
    };
    let authority_count = match read_u16(buf) {
        Ok(v) => v,
        Err(e) => {
            return Err(e);
        },
    };
    let additional_count = match read_u16(buf) {
        Ok(v) => v,
        Err(e) => {
            return Err(e);
        },
    };
    Ok(
        Header {
            id,
            q_type,
            truncated,
            recursion_desired,
            question_count,
            answer_count,
            authority_count,
            additional_count,
        },
    )
}

/// Reads one question entry: a name, then its query type and class.
pub fn parse_question(buf: &mut Buffer, names: &mut NameCache) -> (r: Result<
    Question,
    DecodeError,
>)
    ensures
        final(buf).buffer == old(buf).buffer,
        match spec_question(old(buf).buffer@, old(buf).next_index as int, old(names)@) {
            Ok((m, end, cache2)) => {
                &&& r matches Ok(q) && question_matches(q, m)
                &&& final(buf).next_index == end
                &&& final(names)@ == cache2
            },
            Err(e) => r matches Err(e2) && e2 == e,
        },
{
    let domain_name = match parse_name(buf, names) {
        Ok(v) => v,
        Err(e) => {
            return Err(e);
        },
    };
    let q_type = match read_u16(buf) {
        Ok(v) => v,
        Err(e) => {
            return Err(e);
        },
    };
    let q_class = match read_u16(buf) {
        Ok(v) => v,
        Err(e) => {
            return Err(e);
        },
    };
    Ok(Question { domain_name, q_type, q_class })
}

/// Reads `amt` resource records in wire order, sharing the name cache with
/// everything decoded before them. Returns `None`, not an empty sequence,
/// when `amt` is zero, so callers can tell an absent answers section from an
/// empty-but-present one. A record of unrecognized type or mismatched data
/// length keeps a zero placeholder payload while the cursor advances by the
/// declared data length, so the records after it stay aligned.
pub fn parse_resource_records(buf: &mut Buffer, amt: u16, names: &mut NameCache) -> (r: Result<
    Option<Vec<ResourceRecord>>,
    DecodeError,
>)
    ensures
        final(buf).buffer == old(buf).buffer,
        amt == 0 ==> {
            &&& r matches Ok(o) && o is None
            &&& *final(buf) == *old(buf)
            &&& final(names)@ == old(names)@
        },
        amt > 0 ==> match spec_records(
            old(buf).buffer@,
            old(buf).next_index as int,
            old(names)@,
            amt as int,
        ) {
            Ok((ms, end, cache2)) => {
                &&& r matches Ok(o) && o matches Some(v) && records_match(v@, ms)
                &&& final(buf).next_index == end
                &&& final(names)@ == cache2
            },
            Err(e) => r matches Err(e2) && e2 == e,
        },
{
    let ghost s = buf.buffer@;
    let ghost pos0 = buf.next_index as int;
    let ghost cache0 = names@;
    if amt == 0 {
        return Ok(None);
    }
    let ghost total = spec_records(s, pos0, cache0, amt as int);
    let mut records: Vec<ResourceRecord> = Vec::new();
    let ghost mut done: Seq<RecordModel> = Seq::empty();
    let mut i: u16 = 0;
    proof {
        if total is Ok {
            let (rest, end, cfin) = total->Ok_0;
            assert(Seq::<RecordModel>::empty() + rest =~= rest);
        }
    }
    while i < amt
        invariant
            i <= amt,
            buf.buffer == old(buf).buffer,
            buf.buffer@ == s,
            s == old(buf).buffer@,
            pos0 == old(buf).next_index as int,
            cache0 == old(names)@,
            records@.len() == i as int,
            done.len() == i as int,
            records_match(records@, done),
            total == spec_records(s, pos0, cache0, amt as int),
            match spec_records(s, buf.next_index as int, names@, amt as int - i as int) {
                Ok((rest, end, cfin)) => total == Ok::<(Seq<RecordModel>, int, NameMap), DecodeError>(
                    (done + rest, end, cfin),
                ),
                Err(e) => total == Err::<(Seq<RecordModel>, int, NameMap), DecodeError>(e),
            },
        decreases amt as int - i as int,
    {
        let ghost pos_cur = buf.next_index as int;
        let ghost cache_cur = names@;
        let ghost rem = amt as int - i as int;
        let name = match parse_name(buf, names) {
            Ok(v) => v,
            Err(e) => {
                return Err(e);
            },
        };
        let r_type = match read_u16(buf) {
            Ok(v) => v,
            Err(e) => {
                return Err(e);
            },
        };
        let class = match read_u16(buf) {
            Ok(v) => v,
            Err(e) => {
                return Err(e);
            },
        };
        let ttl = match read_u32(buf) {
            Ok(v) => v,
            Err(e) => {
                return Err(e);
            },
        };
        let data_length = match read_u16(buf) {
            Ok(v) => v,
            Err(e) => {
                return Err(e);
            },
        };
        let data = if r_type == 1 && data_length == 4 {
            let o0 = match buf.next() {
                Ok(b) => b,
                Err(e) => {
                    return Err(e);
                },
            };
            let o1 = match buf.next() {
                Ok(b) => b,
                Err(e) => {
                    return Err(e);
                },
            };
            let o2 = match buf.next() {
                Ok(b) => b,
                Err(e) => {
                    return Err(e);
                },
            };
            let o3 = match buf.next() {
                Ok(b) => b,
                Err(e) => {
                    return Err(e);
                },
            };
            ResourceData::A(Ipv4Address { o0, o1, o2, o3 })
        } else {
            match buf.next_n(data_length as usize) {
                Ok(_) => (),
                Err(e) => {
                    return Err(e);
                },
            };
            ResourceData::A(Ipv4Address { o0: 0, o1: 0, o2: 0, o3: 0 })
        };
        let ghost old_records = records@;
        let ghost old_done = done;
        records.push(ResourceRecord { name, r_type, class, ttl, data_length, data });
        proof {
            let (labels, p, cache2) = spec_name(s, pos_cur, cache_cur)->Ok_0;
            let body = p + 10;
            let rm = RecordModel {
                name: labels,
                r_type: be16(s, p) as u16,
                class: be16(s, p + 2) as u16,
                ttl: be32(s, p + 4) as u32,
                data_length: be16(s, p + 8) as u16,
                data: if be16(s, p) as u16 == 1 && be16(s, p + 8) as u16 == 4 {
                    s.subrange(body, body + 4)
                } else {
                    seq![0u8, 0u8, 0u8, 0u8]
                },
            };
            assert(spec_record(s, pos_cur, cache_cur) == Ok::<(RecordModel, int, NameMap), DecodeError>(
                (rm, body + rm.data_length, cache2),
            ));
            assert(record_matches(records@[i as int], rm));
            done = done.push(rm);
            assert forall|k: int| 0 <= k < done.len() implies record_matches(
                records@[k],
                done[k],
            ) by {
                if k < i as int {
                    assert(records@[k] == old_records[k]);
                    assert(done[k] == old_done[k]);
                }
            }
            let rem2 = spec_records(s, buf.next_index as int, names@, rem - 1);
            if rem2 is Ok {
                let (rest2, end2, cfin2) = rem2->Ok_0;
                assert(spec_records(s, pos_cur, cache_cur, rem) == Ok::<
                    (Seq<RecordModel>, int, NameMap),
                    DecodeError,
                >((seq![rm] + rest2, end2, cfin2)));
                assert(old_done + (seq![rm] + rest2) =~= done + rest2);
            }
        }
        i = i + 1;
    }
    proof {
        if total is Ok {
            let (ms, end, cfin) = total->Ok_0;
            assert(done + Seq::<RecordModel>::empty() =~= done);
            assert(records_match(records@, ms));
        }
    }
    Ok(Some(records))
}

/// Decodes one whole DNS message: the 12-byte header, exactly one question
/// (whatever the header's question count says), and as many answer records
/// as the header counts, all sharing one name cache that lives only for this
/// call. Raises the first error met and abandons the rest of the message.
pub fn parse_message(buf: &[u8]) -> (r: Result<Message, DecodeError>)
    ensures
        match spec_message(buf@) {
            Ok(m) => r matches Ok(msg) && message_matches(msg, m),
            Err(e) => r matches Err(e2) && e2 == e,
        },
{
    let mut cursor = Buffer::new(buf);
    let header = match parse_header(&mut cursor) {
        Ok(h) => h,
        Err(e) => {
            return Err(e);
        },
    };
    let mut names = NameCache::new();
    let question = match parse_question(&mut cursor, &mut names) {
        Ok(q) => q,
        Err(e) => {
            return Err(e);
        },
    };
    let answer_count = header.answer_count;
    let answers = match parse_resource_records(&mut cursor, answer_count, &mut names) {
        Ok(a) => a,
        Err(e) => {
            return Err(e);
        },
    };
    Ok(Message { header, question, answers })
}

/// Encodes a header back to its 12 wire bytes, the bits this decoder does
/// not extract left zero. Decoding a header and re-encoding it reproduces
/// the original bytes whenever those bits were zero
/// ([`crate::laws::lemma_header_round_trip`]).
pub fn encode_header(header: &Header) -> (r: Vec<u8>)
    requires
        header.q_type < 16,
    ensures
        r@ == spec_encode_header(*header),
{
    let mut flag: u8 = header.q_type * 8;
    if header.truncated {
        flag = flag + 2;
    }
    if header.recursion_desired {
        flag = flag + 1;
    }
    let mut out: Vec<u8> = Vec::new();
    out.push((header.id >> 8) as u8);
    out.push((header.id & 0xff) as u8);
    out.push(flag);
    out.push(0);
    out.push((header.question_count >> 8) as u8);
    out.push((header.question_count & 0xff) as u8);
    out.push((header.answer_count >> 8) as u8);
    out.push((header.answer_count & 0xff) as u8);
    out.push((header.authority_count >> 8) as u8);
    out.push((header.authority_count & 0xff) as u8);
    out.push((header.additional_count >> 8) as u8);
    out.push((header.additional_count & 0xff) as u8);
    proof {
        assert(out@ =~= spec_encode_header(*header));
    }
    out
}

} // verus!
