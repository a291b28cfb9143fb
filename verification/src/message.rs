use vstd::prelude::*;

verus! {

/// The fixed 12-byte message header, reduced to the fields this decoder
/// extracts. The bits of the flag byte that are not listed here (QR, AA, RA,
/// Z, RCODE) are deliberately not decoded.
#[derive(Clone, Copy, Debug, PartialEq, Eq, Structural)]
pub struct Header {
    /// 16-bit transaction id.
    pub id: u16,
    /// 4-bit opcode, bits 3-6 of the flag byte.
    pub q_type: u8,
    /// Bit 1 of the flag byte.
    pub truncated: bool,
    /// Bit 0 of the flag byte.
    pub recursion_desired: bool,
    pub question_count: u16,
    pub answer_count: u16,
    pub authority_count: u16,
    pub additional_count: u16,
}

/// One question entry: a domain name followed by a query type and class.
#[derive(Debug, PartialEq, Eq)]
pub struct Question {
    /// Ordered labels of the name, e.g. `["example", "com"]`.
    pub domain_name: Vec<String>,
    pub q_type: u16,
    pub q_class: u16,
}

/// A 4-byte IPv4 address, octet by octet in wire order.
#[derive(Clone, Copy, Debug, PartialEq, Eq, Structural)]
pub struct Ipv4Address {
    pub o0: u8,
    pub o1: u8,
    pub o2: u8,
    pub o3: u8,
}

impl Ipv4Address {
    pub fn new(o0: u8, o1: u8, o2: u8, o3: u8) -> (r: Ipv4Address)
        ensures
            r == (Ipv4Address { o0, o1, o2, o3 }),
    {
        Ipv4Address { o0, o1, o2, o3 }
    }
}

/// The decoded payload of a resource record. Only address records are
/// interpreted; a record of any other type, or with a data length other than
/// the 4 bytes an address takes, keeps a zero placeholder while its bytes are
/// skipped.
#[derive(Clone, Copy, Debug, PartialEq, Eq, Structural)]
pub enum ResourceData {
    A(Ipv4Address),
}

/// One resource record: name, type, class, time to live, declared data
/// length, and the decoded payload.
#[derive(Debug, PartialEq, Eq)]
pub struct ResourceRecord {
    pub name: Vec<String>,
    pub r_type: u16,
    pub class: u16,
    /// Time to live, in seconds.
    pub ttl: u32,
    /// The length the record declares for its payload; the cursor always
    /// advances by exactly this many bytes, whatever the record's type.
    pub data_length: u16,
    pub data: ResourceData,
}

/// A whole decoded message: the header, exactly one question, and the answer
/// records — `None` when the header counts zero answers, `Some` otherwise.
#[derive(Debug, PartialEq, Eq)]
pub struct Message {
    pub header: Header,
    pub question: Question,
    pub answers: Option<Vec<ResourceRecord>>,
}

} // verus!
