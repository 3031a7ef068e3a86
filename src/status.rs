//! The canonical status value and its trailer-metadata form.
use vstd::prelude::*;
use crate::bin_header::{b64_decode, b64_encode, decode_bin, encode_bin, lemma_b64_round_trip};

verus! {

/// The seventeen canonical status codes.
#[derive(Clone, Copy, Debug, PartialEq, Eq, Structural)]
pub enum Code {
    /// `OK`: the call succeeded.
    Success,
    Cancelled,
    Unknown,
    InvalidArgument,
    DeadlineExceeded,
    NotFound,
    AlreadyExists,
    PermissionDenied,
    ResourceExhausted,
    FailedPrecondition,
    Aborted,
    OutOfRange,
    Unimplemented,
    Internal,
    Unavailable,
    DataLoss,
    Unauthenticated,
}

/// The numeric value of a code on the wire.
pub open spec fn code_value(c: Code) -> u32 {
    match c {
        Code::Success => 0,
        Code::Cancelled => 1,
        Code::Unknown => 2,
        Code::InvalidArgument => 3,
        Code::DeadlineExceeded => 4,
        Code::NotFound => 5,
        Code::AlreadyExists => 6,
        Code::PermissionDenied => 7,
        Code::ResourceExhausted => 8,
        Code::FailedPrecondition => 9,
        Code::Aborted => 10,
        Code::OutOfRange => 11,
        Code::Unimplemented => 12,
        Code::Internal => 13,
        Code::Unavailable => 14,
        Code::DataLoss => 15,
        Code::Unauthenticated => 16,
    }
}

/// The code with a given numeric value, if there is one.
pub open spec fn code_from_value(v: int) -> Option<Code> {
    if v == 0 { Some(Code::Success) }
    else if v == 1 { Some(Code::Cancelled) }
    else if v == 2 { Some(Code::Unknown) }
    else if v == 3 { Some(Code::InvalidArgument) }
    else if v == 4 { Some(Code::DeadlineExceeded) }
    else if v == 5 { Some(Code::NotFound) }
    else if v == 6 { Some(Code::AlreadyExists) }
    else if v == 7 { Some(Code::PermissionDenied) }
    else if v == 8 { Some(Code::ResourceExhausted) }
    else if v == 9 { Some(Code::FailedPrecondition) }
    else if v == 10 { Some(Code::Aborted) }
    else if v == 11 { Some(Code::OutOfRange) }
    else if v == 12 { Some(Code::Unimplemented) }
    else if v == 13 { Some(Code::Internal) }
    else if v == 14 { Some(Code::Unavailable) }
    else if v == 15 { Some(Code::DataLoss) }
    else if v == 16 { Some(Code::Unauthenticated) }
    else { None }
}

impl Code {
    /// The numeric value of this code.
    pub fn value(&self) -> (r: u32)
        ensures
            r == code_value(*self),
    {
        match self {
            Code::Success => 0,
            Code::Cancelled => 1,
            Code::Unknown => 2,
            Code::InvalidArgument => 3,
            Code::DeadlineExceeded => 4,
            Code::NotFound => 5,
            Code::AlreadyExists => 6,
            Code::PermissionDenied => 7,
            Code::ResourceExhausted => 8,
            Code::FailedPrecondition => 9,
            Code::Aborted => 10,
            Code::OutOfRange => 11,
            Code::Unimplemented => 12,
            Code::Internal => 13,
            Code::Unavailable => 14,
            Code::DataLoss => 15,
            Code::Unauthenticated => 16,
        }
    }

    /// The code with numeric value `v`, or `None` when no code has it.
    pub fn from_value(v: u32) -> (r: Option<Code>)
        ensures
            r == code_from_value(v as int),
    {
        if v == 0 { Some(Code::Success) }
        else if v == 1 { Some(Code::Cancelled) }
        else if v == 2 { Some(Code::Unknown) }
        else if v == 3 { Some(Code::InvalidArgument) }
        else if v == 4 { Some(Code::DeadlineExceeded) }
        else if v == 5 { Some(Code::NotFound) }
        else if v == 6 { Some(Code::AlreadyExists) }
        else if v == 7 { Some(Code::PermissionDenied) }
        else if v == 8 { Some(Code::ResourceExhausted) }
        else if v == 9 { Some(Code::FailedPrecondition) }
        else if v == 10 { Some(Code::Aborted) }
        else if v == 11 { Some(Code::OutOfRange) }
        else if v == 12 { Some(Code::Unimplemented) }
        else if v == 13 { Some(Code::Internal) }
        else if v == 14 { Some(Code::Unavailable) }
        else if v == 15 { Some(Code::DataLoss) }
        else if v == 16 { Some(Code::Unauthenticated) }
        else { None }
    }
}

// ---------------------------------------------------------------------------
// Decimal text of a code
pub open spec fn is_digit(b: u8) -> bool {
    0x30 <= b <= 0x39
}

pub open spec fn all_digits(s: Seq<u8>) -> bool {
    forall|i: int| 0 <= i < s.len() ==> is_digit(#[trigger] s[i])
}

/// The number written by a string of decimal digits.
pub open spec fn decimal_value(s: Seq<u8>) -> int
    decreases s.len(),
{
    if s.len() == 0 {
        0
    } else {
        decimal_value(s.drop_last()) * 10 + (s.last() - 0x30)
    }
}

/// The decimal text of a code's numeric value.
pub open spec fn code_text(c: Code) -> Seq<u8> {
    let v = code_value(c);
    if v < 10 {
        seq![(0x30 + v) as u8]
    } else {
        seq![0x31u8, (0x30 + v - 10) as u8]
    }
}

/// The code that a `grpc-status` value names: anything but the decimal text of
/// a known code reads as `Unknown`.
pub open spec fn code_of_text(s: Seq<u8>) -> Code {
    if s.len() > 0 && all_digits(s) && decimal_value(s) <= 16 {
        code_from_value(decimal_value(s)).unwrap()
    } else {
        Code::Unknown
    }
}

proof fn lemma_decimal_nonneg(s: Seq<u8>)
    requires
        all_digits(s),
    ensures
        decimal_value(s) >= 0,
    decreases s.len(),
{
    if s.len() > 0 {
        assert(all_digits(s.drop_last())) by {
            assert forall|i: int| 0 <= i < s.drop_last().len() implies is_digit(
                #[trigger] s.drop_last()[i],
            ) by {
                assert(is_digit(s[i]));
            }
        }
        lemma_decimal_nonneg(s.drop_last());
        assert(is_digit(s[s.len() - 1]));
    }
}

pub proof fn lemma_code_text_round_trip(c: Code)
    ensures
        code_of_text(code_text(c)) == c,
{
    let t = code_text(c);
    reveal_with_fuel(decimal_value, 3);
    if code_value(c) < 10 {
        assert(t.drop_last() =~= Seq::<u8>::empty());
    } else {
        assert(t.drop_last() =~= seq![0x31u8]);
        assert(t.drop_last().drop_last() =~= Seq::<u8>::empty());
    }
    assert(all_digits(t));
}

/// The decimal text of a code, as sent in `grpc-status`.
pub fn code_to_text(c: Code) -> (r: Vec<u8>)
    ensures
        r@ == code_text(c),
{
    let v = c.value();
    let mut r: Vec<u8> = Vec::new();
    if v < 10 {
        r.push((0x30 + v) as u8);
    } else {
        r.push(0x31u8);
        r.push((0x30 + v - 10) as u8);
    }
    assert(r@ =~= code_text(c));
    r
}

/// Reads a `grpc-status` value.
pub fn code_from_text(s: &[u8]) -> (r: Code)
    ensures
        r == code_of_text(s@),
{
    if s.len() == 0 {
        return Code::Unknown;
    }
    let mut acc: u32 = 0;
    let mut i: usize = 0;
    while i < s.len()
        invariant
            i <= s.len(),
            all_digits(s@.subrange(0, i as int)),
            acc <= 17,
            acc < 17 ==> acc == decimal_value(s@.subrange(0, i as int)),
            acc == 17 ==> decimal_value(s@.subrange(0, i as int)) >= 17,
        decreases s.len() - i,
    {
        let b = s[i];
        if b < 0x30 || b > 0x39 {
            assert(!all_digits(s@)) by {
                assert(!is_digit(s@[i as int]));
            }
            return Code::Unknown;
        }
        let ghost p = s@.subrange(0, i as int);
        let ghost q = s@.subrange(0, i + 1);
        assert(q.drop_last() =~= p);
        assert(all_digits(q)) by {
            assert forall|j: int| 0 <= j < q.len() implies is_digit(#[trigger] q[j]) by {
                if j < i {
                    assert(q[j] == p[j]);
                }
            }
        }
        if acc < 17 {
            acc = acc * 10 + (b - 0x30) as u32;
            if acc > 17 {
                acc = 17;
            }
        }
        i += 1;
    }
    assert(s@.subrange(0, s.len() as int) =~= s@);
    if acc <= 16 {
        match Code::from_value(acc) {
            Some(c) => c,
            None => Code::Unknown,
        }
    } else {
        Code::Unknown
    }
}

// ---------------------------------------------------------------------------
// Percent-escaping of `grpc-message`
/// A byte that `grpc-message` carries as it is: printable ASCII but `%`.
pub open spec fn is_plain(b: u8) -> bool {
    0x20 <= b <= 0x7E && b != 0x25
}

pub open spec fn hex_digit(n: int) -> u8 {
    if n < 10 {
        (0x30 + n) as u8
    } else {
        (0x41 + n - 10) as u8
    }
}

pub open spec fn is_hex(c: u8) -> bool {
    (0x30 <= c <= 0x39) || (0x41 <= c <= 0x46) || (0x61 <= c <= 0x66)
}

pub open spec fn hex_val(c: u8) -> int {
    if 0x30 <= c <= 0x39 {
        c - 0x30
    } else if 0x41 <= c <= 0x46 {
        c - 0x41 + 10
    } else {
        c - 0x61 + 10
    }
}

pub open spec fn escape_byte(b: u8) -> Seq<u8> {
    if is_plain(b) {
        seq![b]
    } else {
        seq![0x25u8, hex_digit((b / 16) as int), hex_digit((b % 16) as int)]
    }
}

/// Each byte that is not plain becomes `%` and two upper-case hex digits.
pub open spec fn percent_escape(s: Seq<u8>) -> Seq<u8>
    decreases s.len(),
{
    if s.len() == 0 {
        Seq::empty()
    } else {
        escape_byte(s[0]) + percent_escape(s.skip(1))
    }
}

/// Each `%` followed by two hex digits becomes the byte they write; every other
/// byte stands for itself.
pub open spec fn percent_unescape(s: Seq<u8>) -> Seq<u8>
    decreases s.len(),
{
    if s.len() == 0 {
        Seq::empty()
    } else if s[0] == 0x25 && s.len() >= 3 && is_hex(s[1]) && is_hex(s[2]) {
        seq![(hex_val(s[1]) * 16 + hex_val(s[2])) as u8] + percent_unescape(s.skip(3))
    } else {
        seq![s[0]] + percent_unescape(s.skip(1))
    }
}

proof fn lemma_escape_push(s: Seq<u8>, b: u8)
    ensures
        percent_escape(s.push(b)) == percent_escape(s) + escape_byte(b),
    decreases s.len(),
{
    if s.len() == 0 {
        assert(s.push(b).skip(1) =~= Seq::<u8>::empty());
        assert(percent_escape(s.push(b).skip(1)) == Seq::<u8>::empty());
        assert(percent_escape(s.push(b)) =~= escape_byte(b));
    } else {
        assert(s.push(b).skip(1) =~= s.skip(1).push(b));
        lemma_escape_push(s.skip(1), b);
        assert(percent_escape(s.push(b)) =~= percent_escape(s) + escape_byte(b));
    }
}

/// Unescaping an escaped message gives the message back.
pub proof fn lemma_escape_round_trip(s: Seq<u8>)
    ensures
        percent_unescape(percent_escape(s)) == s,
    decreases s.len(),
{
    if s.len() > 0 {
        let b = s[0];
        let e = percent_escape(s);
        let rest = percent_escape(s.skip(1));
        lemma_escape_round_trip(s.skip(1));
        let k = escape_byte(b).len() as int;
        assert(e.skip(k) =~= rest);
        if is_plain(b) {
            assert(percent_unescape(e) =~= seq![b] + percent_unescape(rest));
        } else {
            assert(is_hex(e[1]) && is_hex(e[2]));
            assert(hex_val(e[1]) * 16 + hex_val(e[2]) == b as int);
            assert(percent_unescape(e) =~= seq![b] + percent_unescape(rest));
        }
        assert(s =~= seq![b] + s.skip(1));
    }
}

fn hex_digit_exec(n: u8) -> (r: u8)
    requires
        n < 16,
    ensures
        r == hex_digit(n as int),
{
    if n < 10 {
        0x30 + n
    } else {
        0x41 + n - 10
    }
}

fn hex_val_exec(c: u8) -> (r: u8)
    requires
        is_hex(c),
    ensures
        r as int == hex_val(c),
        r < 16,
{
    if 0x30 <= c && c <= 0x39 {
        c - 0x30
    } else if 0x41 <= c && c <= 0x46 {
        c - 0x41 + 10
    } else {
        c - 0x61 + 10
    }
}

fn is_hex_exec(c: u8) -> (r: bool)
    ensures
        r == is_hex(c),
{
    (0x30 <= c && c <= 0x39) || (0x41 <= c && c <= 0x46) || (0x61 <= c && c <= 0x66)
}

/// Escapes a message for `grpc-message`.
pub fn escape_message(s: &[u8]) -> (r: Vec<u8>)
    ensures
        r@ == percent_escape(s@),
{
    let mut out: Vec<u8> = Vec::new();
    let mut i: usize = 0;
    while i < s.len()
        invariant
            i <= s.len(),
            out@ == percent_escape(s@.subrange(0, i as int)),
        decreases s.len() - i,
    {
        let b = s[i];
        proof {
            lemma_escape_push(s@.subrange(0, i as int), b);
            assert(s@.subrange(0, i + 1) =~= s@.subrange(0, i as int).push(b));
        }
        let ghost before = out@;
        if 0x20 <= b && b <= 0x7E && b != 0x25 {
            out.push(b);
        } else {
            out.push(0x25);
            out.push(hex_digit_exec(b / 16));
            out.push(hex_digit_exec(b % 16));
        }
        assert(out@ =~= before + escape_byte(b));
        i += 1;
    }
    assert(s@.subrange(0, s.len() as int) =~= s@);
    out
}

/// Reads a `grpc-message` value back into the message.
pub fn unescape_message(s: &[u8]) -> (r: Vec<u8>)
    ensures
        r@ == percent_unescape(s@),
{
    let mut out: Vec<u8> = Vec::new();
    let mut i: usize = 0;
    assert(s@.subrange(0, s.len() as int) =~= s@);
    while i < s.len()
        invariant
            i <= s.len(),
            out@ + percent_unescape(s@.subrange(i as int, s.len() as int)) == percent_unescape(s@),
        decreases s.len() - i,
    {
        let ghost t = s@.subrange(i as int, s.len() as int);
        let ghost before = out@;
        if s[i] == 0x25 && s.len() - i >= 3 && is_hex_exec(s[i + 1]) && is_hex_exec(s[i + 2]) {
            let v = hex_val_exec(s[i + 1]) * 16 + hex_val_exec(s[i + 2]);
            out.push(v);
            assert(t.skip(3) =~= s@.subrange(i + 3, s.len() as int));
            i += 3;
        } else {
            out.push(s[i]);
            assert(t.skip(1) =~= s@.subrange(i + 1, s.len() as int));
            i += 1;
        }
        assert(out@ + percent_unescape(s@.subrange(i as int, s.len() as int)) =~= before + percent_unescape(t));
    }
    assert(s@.subrange(i as int, s.len() as int) =~= Seq::<u8>::empty());
    assert(out@ + Seq::<u8>::empty() =~= out@);
    out
}

// ---------------------------------------------------------------------------
// Status and its metadata
/// The outcome of a call: a code, a message (UTF-8 bytes), and optional
/// binary details.
#[derive(Debug)]
pub struct Status {
    pub code: Code,
    pub message: Vec<u8>,
    pub details: Option<Vec<u8>>,
}

/// What a status is, as a mathematical value.
pub struct StatusView {
    pub code: Code,
    pub message: Seq<u8>,
    pub details: Option<Seq<u8>>,
}

pub open spec fn opt_view(o: Option<Vec<u8>>) -> Option<Seq<u8>> {
    match o {
        Some(v) => Some(v@),
        None => None,
    }
}

impl View for Status {
    type V = StatusView;

    open spec fn view(&self) -> StatusView {
        StatusView { code: self.code, message: self.message@, details: opt_view(self.details) }
    }
}

/// The status with the given code and message, and no details.
pub open spec fn status_of(code: Code, message: Seq<u8>) -> StatusView {
    StatusView { code, message, details: None }
}

/// The trailer entries that carry a status: the values of `grpc-status`,
/// `grpc-message` and `grpc-status-details-bin`, each absent or present.
#[derive(Debug)]
pub struct StatusMetadata {
    pub grpc_status: Option<Vec<u8>>,
    pub grpc_message: Option<Vec<u8>>,
    pub grpc_status_details_bin: Option<Vec<u8>>,
}

/// The code that a possibly absent `grpc-status` entry names.
pub open spec fn header_code(h: Option<Vec<u8>>) -> Code {
    match h {
        Some(v) => code_of_text(v@),
        None => Code::Unknown,
    }
}

/// The message that a possibly absent `grpc-message` entry carries.
pub open spec fn header_message(h: Option<Vec<u8>>) -> Seq<u8> {
    match h {
        Some(v) => percent_unescape(v@),
        None => Seq::empty(),
    }
}

/// The details that a possibly absent `grpc-status-details-bin` entry
/// carries; an entry that is not padded base64 carries none.
pub open spec fn header_details(h: Option<Vec<u8>>) -> Option<Seq<u8>> {
    match h {
        Some(v) => b64_decode(v@),
        None => None,
    }
}

/// The status that trailer metadata reports.
pub open spec fn status_from_metadata(md: StatusMetadata) -> StatusView {
    StatusView {
        code: header_code(md.grpc_status),
        message: header_message(md.grpc_message),
        details: header_details(md.grpc_status_details_bin),
    }
}

fn copy_bytes(v: &[u8]) -> (r: Vec<u8>)
    ensures
        r@ == v@,
{
    let mut out: Vec<u8> = Vec::new();
    let mut i: usize = 0;
    while i < v.len()
        invariant
            i <= v.len(),
            out@ == v@.subrange(0, i as int),
        decreases v.len() - i,
    {
        out.push(v[i]);
        assert(out@ =~= v@.subrange(0, i + 1));
        i += 1;
    }
    assert(v@.subrange(0, v.len() as int) =~= v@);
    out
}

impl Status {
    pub fn new(code: Code, message: Vec<u8>) -> (r: Status)
        ensures
            r@ == status_of(code, message@),
    {
        Status { code, message, details: None }
    }

    /// This status with `details` attached.
    pub fn with_details(self, details: Vec<u8>) -> (r: Status)
        ensures
            r@ == (StatusView { details: Some(details@), ..self@ }),
    {
        Status { code: self.code, message: self.message, details: Some(details) }
    }

    /// The status of a call that succeeded, with an empty message.
    pub fn ok() -> (r: Status)
        ensures
            r@ == status_of(Code::Success, Seq::empty()),
    {
        Status { code: Code::Success, message: Vec::new(), details: None }
    }

    /// A status with the given code and an empty message.
    pub fn with_code(code: Code) -> (r: Status)
        ensures
            r@ == status_of(code, Seq::empty()),
    {
        Status { code, message: Vec::new(), details: None }
    }

    pub fn code(&self) -> (r: Code)
        ensures
            r == self.code,
    {
        self.code
    }

    pub fn is_ok(&self) -> (r: bool)
        ensures
            r == (self.code == Code::Success),
    {
        self.code == Code::Success
    }

    /// A copy of this status.
    pub fn duplicate(&self) -> (r: Status)
        ensures
            r@ == self@,
    {
        let details = match &self.details {
            Some(d) => Some(copy_bytes(d.as_slice())),
            None => None,
        };
        Status { code: self.code, message: copy_bytes(self.message.as_slice()), details }
    }

    /// The trailer entries that carry this status.
    pub fn to_metadata(&self) -> (r: StatusMetadata)
        ensures
            r.grpc_status matches Some(v) && v@ == code_text(self.code),
            r.grpc_message matches Some(v) && v@ == percent_escape(self.message@),
            match self.details {
                Some(d) => r.grpc_status_details_bin matches Some(v) && v@ == b64_encode(d@),
                None => r.grpc_status_details_bin is None,
            },
    {
        let details = match &self.details {
            Some(d) => Some(encode_bin(d.as_slice())),
            None => None,
        };
        StatusMetadata {
            grpc_status: Some(code_to_text(self.code)),
            grpc_message: Some(escape_message(self.message.as_slice())),
            grpc_status_details_bin: details,
        }
    }

    /// Reads a status from trailer entries; an absent or unreadable
    /// `grpc-status` reads as `Unknown`.
    pub fn from_metadata(md: &StatusMetadata) -> (r: Status)
        ensures
            r@ == status_from_metadata(*md),
    {
        let code = match &md.grpc_status {
            Some(v) => code_from_text(v.as_slice()),
            None => Code::Unknown,
        };
        let message = match &md.grpc_message {
            Some(v) => unescape_message(v.as_slice()),
            None => Vec::new(),
        };
        let details = match &md.grpc_status_details_bin {
            Some(v) => decode_bin(v.as_slice()),
            None => None,
        };
        Status { code, message, details }
    }
}

/// Writing a status to metadata and reading it back gives the same code,
/// message and details, for every code, message and details.
pub proof fn lemma_metadata_round_trip(s: StatusView, md: StatusMetadata)
    requires
        md.grpc_status matches Some(v) && v@ == code_text(s.code),
        md.grpc_message matches Some(v) && v@ == percent_escape(s.message),
        match s.details {
            Some(d) => md.grpc_status_details_bin matches Some(v) && v@ == b64_encode(d),
            None => md.grpc_status_details_bin is None,
        },
    ensures
        status_from_metadata(md) == s,
{
    lemma_code_text_round_trip(s.code);
    lemma_escape_round_trip(s.message);
    if let Some(d) = s.details {
        lemma_b64_round_trip(d);
    }
}

} // verus!
