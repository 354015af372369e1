//! The fixed-layout event record written by the kernel side, and its decoding.
use vstd::prelude::*;
use vstd::string::*;
use vstd::utf8::*;

verus! {

/// Size in bytes of one raw record.
pub const RECORD_SIZE: usize = 288;

/// Width of the command-name field.
pub const COMM_LEN: usize = 16;

/// Width of the file-path field.
pub const FILENAME_LEN: usize = 256;

/// Offset of the process identifier (little-endian `u32`).
pub const PID_OFFSET: usize = 0;

/// Offset of the command-name field.
pub const COMM_OFFSET: usize = 4;

/// Offset of the file-path field.
pub const FILENAME_OFFSET: usize = 20;

/// Offset of the result code (little-endian `i64`); bytes 276..280 are padding.
pub const RET_OFFSET: usize = 280;

/// Unsigned little-endian value of the `n` bytes of `b` starting at `o`.
pub open spec fn le_unsigned(b: Seq<u8>, o: int, n: nat) -> int
    decreases n,
{
    if n == 0 {
        0
    } else {
        b[o] as int + 256 * le_unsigned(b, o + 1, (n - 1) as nat)
    }
}

/// The `u32` stored little-endian at offset `o`.
pub open spec fn le_u32(b: Seq<u8>, o: int) -> u32 {
    le_unsigned(b, o, 4) as u32
}

/// The `i64` stored little-endian (two's complement) at offset `o`.
pub open spec fn le_i64(b: Seq<u8>, o: int) -> i64 {
    let u = le_unsigned(b, o, 8);
    if u >= 0x8000_0000_0000_0000 {
        (u - 0x1_0000_0000_0000_0000) as i64
    } else {
        u as i64
    }
}

/// Why a byte record could not be decoded.
#[derive(Debug, Clone, Copy, PartialEq, Eq, Structural)]
pub enum DecodeError {
    /// The record's length is not `RECORD_SIZE`.
    LengthMismatch,
}

/// A raw record, field for field as the kernel side lays it out.
#[derive(Debug)]
pub struct Event {
    pub pid: u32,
    pub comm: [u8; 16],
    pub filename: [u8; 256],
    pub ret: i64,
}

impl Default for Event {
    fn default() -> (r: Event)
        ensures
            r.pid == 0,
            r.comm@ == Seq::new(COMM_LEN as nat, |i: int| 0u8),
            r.filename@ == Seq::new(FILENAME_LEN as nat, |i: int| 0u8),
            r.ret == 0,
    {
        let e = Event { pid: 0, comm: [0; 16], filename: [0; 256], ret: 0 };
        assert(e.comm@ =~= Seq::new(COMM_LEN as nat, |i: int| 0u8));
        assert(e.filename@ =~= Seq::new(FILENAME_LEN as nat, |i: int| 0u8));
        e
    }
}

fn read_u32_le(data: &[u8], o: usize) -> (r: u32)
    requires
        o + 4 <= data@.len(),
    ensures
        r == le_u32(data@, o as int),
{
    let ghost b = data@;
    assert(le_unsigned(b, o as int, 4) == b[o as int] + 256 * (b[o + 1] + 256 * (b[o + 2] + 256 * (
    b[o + 3] + 256 * 0)))) by {
        reveal_with_fuel(le_unsigned, 5);
    }
    let v: u64 = data[o] as u64 + 256 * (data[o + 1] as u64 + 256 * (data[o + 2] as u64 + 256
        * (data[o + 3] as u64)));
    v as u32
}

fn read_i64_le(data: &[u8], o: usize) -> (r: i64)
    requires
        o + 8 <= data@.len(),
    ensures
        r == le_i64(data@, o as int),
{
    let ghost b = data@;
    assert(le_unsigned(b, o as int, 8) == b[o as int] + 256 * (b[o + 1] + 256 * (b[o + 2] + 256 * (
    b[o + 3] + 256 * (b[o + 4] + 256 * (b[o + 5] + 256 * (b[o + 6] + 256 * (b[o + 7] + 256
        * 0)))))))) by {
        reveal_with_fuel(le_unsigned, 9);
    }
    let lo: u64 = data[o] as u64 + 256 * (data[o + 1] as u64 + 256 * (data[o + 2] as u64 + 256
        * (data[o + 3] as u64)));
    let hi: u64 = data[o + 4] as u64 + 256 * (data[o + 5] as u64 + 256 * (data[o + 6] as u64
        + 256 * (data[o + 7] as u64)));
    let u: u64 = lo + 0x1_0000_0000 * hi;
    if u >= 0x8000_0000_0000_0000 {
        -((u64::MAX - u) as i64) - 1
    } else {
        u as i64
    }
}

impl Event {
    /// Copies a raw record out of `data`, which must be exactly one record long.
    pub fn from_bytes(data: &[u8]) -> (r: Result<Event, DecodeError>)
        ensures
            r is Err <==> data@.len() != RECORD_SIZE,
            r matches Err(e) ==> e == DecodeError::LengthMismatch,
            r matches Ok(e) ==> {
                &&& e.pid == le_u32(data@, PID_OFFSET as int)
                &&& e.comm@ == data@.subrange(
                    COMM_OFFSET as int,
                    COMM_OFFSET + COMM_LEN,
                )
                &&& e.filename@ == data@.subrange(
                    FILENAME_OFFSET as int,
                    FILENAME_OFFSET + FILENAME_LEN,
                )
                &&& e.ret == le_i64(data@, RET_OFFSET as int)
            },
    {
        if data.len() != RECORD_SIZE {
            return Err(DecodeError::LengthMismatch);
        }
        let mut e = Event::default();
        e.pid = read_u32_le(data, PID_OFFSET);
        e.ret = read_i64_le(data, RET_OFFSET);
        let mut i: usize = 0;
        while i < COMM_LEN
            invariant
                i <= COMM_LEN,
                data@.len() == RECORD_SIZE,
                e.comm@.len() == COMM_LEN,
                forall|k: int| 0 <= k < i ==> e.comm@[k] == data@[COMM_OFFSET + k],
                e.pid == le_u32(data@, PID_OFFSET as int),
                e.ret == le_i64(data@, RET_OFFSET as int),
            decreases COMM_LEN - i,
        {
            e.comm[i] = data[COMM_OFFSET + i];
            i = i + 1;
        }
        let mut j: usize = 0;
        while j < FILENAME_LEN
            invariant
                j <= FILENAME_LEN,
                data@.len() == RECORD_SIZE,
                e.comm@.len() == COMM_LEN,
                e.filename@.len() == FILENAME_LEN,
                forall|k: int| 0 <= k < COMM_LEN ==> e.comm@[k] == data@[COMM_OFFSET + k],
                forall|k: int| 0 <= k < j ==> e.filename@[k] == data@[FILENAME_OFFSET + k],
                e.pid == le_u32(data@, PID_OFFSET as int),
                e.ret == le_i64(data@, RET_OFFSET as int),
            decreases FILENAME_LEN - j,
        {
            e.filename[j] = data[FILENAME_OFFSET + j];
            j = j + 1;
        }
        assert(e.comm@ =~= data@.subrange(COMM_OFFSET as int, COMM_OFFSET + COMM_LEN));
        assert(e.filename@ =~= data@.subrange(FILENAME_OFFSET as int, FILENAME_OFFSET + FILENAME_LEN));
        Ok(e)
    }
}

/// `s` without its trailing NUL characters.
pub open spec fn trim_nul(s: Seq<char>) -> Seq<char>
    decreases s.len(),
{
    if s.len() > 0 && s.last() == '\0' {
        trim_nul(s.drop_last())
    } else {
        s
    }
}

/// The text shown for a field that is not valid UTF-8.
pub open spec fn marker() -> Seq<char> {
    seq!['?']
}

/// The text of a fixed-width string field: its UTF-8 decoding without the
/// trailing NUL padding, or the marker when the bytes are not UTF-8.
pub open spec fn field_text(b: Seq<u8>) -> Seq<char> {
    if valid_utf8(b) {
        trim_nul(decode_utf8(b))
    } else {
        marker()
    }
}

/// Relies on std::str::from_utf8: it succeeds exactly on well-formed UTF-8,
/// and then the string holds the characters that the bytes encode.
#[verifier::external_body]
fn utf8_str(b: &[u8]) -> (r: Option<&str>)
    ensures
        r is Some <==> valid_utf8(b@),
        r matches Some(s) ==> s@ == decode_utf8(b@),
{
    std::str::from_utf8(b).ok()
}

/// Strips the trailing NUL characters of `s`.
pub fn trim_trailing_nul(s: &str) -> (r: String)
    ensures
        r@ == trim_nul(s@),
{
    let mut n: usize = s.unicode_len();
    assert(s@.subrange(0, n as int) =~= s@);
    while n > 0 && s.get_char(n - 1) == '\0'
        invariant
            n <= s@.len(),
            trim_nul(s@) == trim_nul(s@.subrange(0, n as int)),
        decreases n,
    {
        assert(s@.subrange(0, n as int).drop_last() =~= s@.subrange(0, n - 1));
        n = n - 1;
    }
    s.substring_char(0, n).to_owned()
}

/// The text of a field from the outcome of its UTF-8 decoding: the decoded
/// text without trailing NULs, or the marker when decoding failed.
pub fn text_or_marker(decoded: Option<&str>) -> (r: String)
    ensures
        decoded matches Some(s) ==> r@ == trim_nul(s@),
        decoded is None ==> r@ == marker(),
{
    match decoded {
        Some(s) => trim_trailing_nul(s),
        None => {
            proof {
                reveal_strlit("?");
            }
            String::from_str("?")
        },
    }
}

/// Decodes a fixed-width string field permissively.
pub fn field_string(b: &[u8]) -> (r: String)
    ensures
        r@ == field_text(b@),
{
    text_or_marker(utf8_str(b))
}

/// A decoded event.
#[derive(Debug)]
pub struct EventRecord {
    pub process_id: u32,
    pub command_name: String,
    pub file_path: String,
    pub result_code: i64,
}

/// The mathematical value of an [`EventRecord`].
pub struct RecordView {
    pub process_id: u32,
    pub command_name: Seq<char>,
    pub file_path: Seq<char>,
    pub result_code: i64,
}

impl View for EventRecord {
    type V = RecordView;

    open spec fn view(&self) -> RecordView {
        RecordView {
            process_id: self.process_id,
            command_name: self.command_name@,
            file_path: self.file_path@,
            result_code: self.result_code,
        }
    }
}

/// What a byte record decodes to.
pub open spec fn decode_spec(b: Seq<u8>) -> Result<RecordView, DecodeError> {
    if b.len() != RECORD_SIZE {
        Err(DecodeError::LengthMismatch)
    } else {
        Ok(
            RecordView {
                process_id: le_u32(b, PID_OFFSET as int),
                command_name: field_text(b.subrange(COMM_OFFSET as int, COMM_OFFSET + COMM_LEN)),
                file_path: field_text(
                    b.subrange(FILENAME_OFFSET as int, FILENAME_OFFSET + FILENAME_LEN),
                ),
                result_code: le_i64(b, RET_OFFSET as int),
            },
        )
    }
}

/// `r` is the outcome that `decode_spec` gives for `b`.
pub open spec fn decodes_to(b: Seq<u8>, r: Result<EventRecord, DecodeError>) -> bool {
    match r {
        Ok(e) => decode_spec(b) == Ok::<RecordView, DecodeError>(e@),
        Err(x) => decode_spec(b) == Err::<RecordView, DecodeError>(x),
    }
}

/// Decodes one byte record: strict on its length, permissive on its text.
pub fn decode(data: &[u8]) -> (r: Result<EventRecord, DecodeError>)
    ensures
        decodes_to(data@, r),
{
    match Event::from_bytes(data) {
        Err(x) => Err(x),
        Ok(e) => {
            let command_name = field_string(e.comm.as_slice());
            let file_path = field_string(e.filename.as_slice());
            Ok(EventRecord { process_id: e.pid, command_name, file_path, result_code: e.ret })
        },
    }
}

/// The decimal digits.
pub open spec fn digits() -> Seq<char> {
    seq!['0', '1', '2', '3', '4', '5', '6', '7', '8', '9']
}

/// Decimal notation of `n`, without leading zeros.
pub open spec fn decimal(n: nat) -> Seq<char>
    decreases n,
{
    if n < 10 {
        seq![digits()[n as int]]
    } else {
        decimal(n / 10) + seq![digits()[(n % 10) as int]]
    }
}

fn push_decimal(out: &mut String, n: u32)
    ensures
        final(out)@ == old(out)@ + decimal(n as nat),
    decreases n,
{
    if n >= 10 {
        push_decimal(out, n / 10);
    }
    let d: usize = (n % 10) as usize;
    let all = "0123456789";
    proof {
        reveal_strlit("0123456789");
        assert(all@ =~= digits());
    }
    out.append(all.substring_char(d, d + 1));
    proof {
        assert(all@.subrange(d as int, d + 1) =~= seq![digits()[d as int]]);
        if n >= 10 {
            assert(final(out)@ =~= old(out)@ + decimal(n as nat));
        } else {
            assert(final(out)@ =~= old(out)@ + decimal(n as nat));
        }
    }
}

/// The text line shown for a record.
pub open spec fn line_text(r: RecordView) -> Seq<char> {
    seq!['P', 'I', 'D', ':', ' '] + decimal(r.process_id as nat) + seq![',', ' ', 'C', 'M', 'D', ':', ' ']
        + r.command_name + seq![',', ' ', 'F', 'I', 'L', 'E', ':', ' '] + r.file_path
}

/// Renders a record as `PID: <process_id>, CMD: <command_name>, FILE: <file_path>`.
pub fn render_line(e: &EventRecord) -> (r: String)
    ensures
        r@ == line_text(e@),
{
    proof {
        reveal_strlit("PID: ");
        reveal_strlit(", CMD: ");
        reveal_strlit(", FILE: ");
    }
    let mut out = String::from_str("PID: ");
    push_decimal(&mut out, e.process_id);
    out.append(", CMD: ");
    out.append(e.command_name.as_str());
    out.append(", FILE: ");
    out.append(e.file_path.as_str());
    assert(out@ =~= line_text(e@));
    out
}

/// Decodes a byte record and renders it as a line of text.
pub fn handle_event(data: &[u8]) -> (r: Result<String, DecodeError>)
    ensures
        match decode_spec(data@) {
            Ok(v) => r matches Ok(line) && line@ == line_text(v),
            Err(x) => r == Err::<String, DecodeError>(x),
        },
{
    match decode(data) {
        Ok(e) => Ok(render_line(&e)),
        Err(x) => Err(x),
    }
}

/// `k` NUL characters.
pub open spec fn nuls(k: nat) -> Seq<char> {
    Seq::new(k, |i: int| '\0')
}

/// `k` zero bytes.
pub open spec fn zeros(k: nat) -> Seq<u8> {
    Seq::new(k, |i: int| 0u8)
}

/// Decoding is a function of the bytes alone: two outcomes of `decode` on
/// the same bytes are the same record or the same error.
pub proof fn lemma_decode_is_deterministic(
    a: Seq<u8>,
    b: Seq<u8>,
    ra: Result<EventRecord, DecodeError>,
    rb: Result<EventRecord, DecodeError>,
)
    requires
        a == b,
        decodes_to(a, ra),
        decodes_to(b, rb),
    ensures
        ra is Ok <==> rb is Ok,
        ra matches Ok(x) ==> rb matches Ok(y) && x@ == y@,
        ra matches Err(x) ==> rb matches Err(y) && x == y,
{
}

/// Bytes of any length other than the record size decode to
/// `DecodeError::LengthMismatch`.
pub proof fn lemma_wrong_length_rejected(b: Seq<u8>)
    requires
        b.len() != RECORD_SIZE,
    ensures
        decode_spec(b) == Err::<RecordView, DecodeError>(DecodeError::LengthMismatch),
{
}

proof fn lemma_encode_concat(a: Seq<char>, b: Seq<char>)
    ensures
        encode_utf8(a + b) == encode_utf8(a) + encode_utf8(b),
    decreases a.len(),
{
    if a.len() > 0 {
        assert((a + b).drop_first() =~= a.drop_first() + b);
        lemma_encode_concat(a.drop_first(), b);
        assert(encode_utf8(a + b) =~= encode_utf8(a) + encode_utf8(b));
    } else {
        assert(a + b =~= b);
        assert(encode_utf8(a) + encode_utf8(b) =~= encode_utf8(b));
    }
}

proof fn lemma_encode_nuls(k: nat)
    ensures
        encode_utf8(nuls(k)) == zeros(k),
    decreases k,
{
    if k > 0 {
        assert(nuls(k).drop_first() =~= nuls((k - 1) as nat));
        lemma_encode_nuls((k - 1) as nat);
        assert(('\0' as u32) == 0u32);
        assert((0u32 & 0x7F) as u8 == 0u8) by (bit_vector);
        assert(encode_scalar(0u32) =~= seq![0u8]);
        assert(encode_utf8(nuls(k)) =~= zeros(k));
    } else {
        assert(encode_utf8(nuls(k)) =~= zeros(k));
    }
}

proof fn lemma_trim_padding(s: Seq<char>, k: nat)
    requires
        s.len() == 0 || s.last() != '\0',
    ensures
        trim_nul(s + nuls(k)) == s,
    decreases k,
{
    if k > 0 {
        assert((s + nuls(k)).drop_last() =~= s + nuls((k - 1) as nat));
        lemma_trim_padding(s, (k - 1) as nat);
    } else {
        assert(s + nuls(k) =~= s);
    }
}

/// A field that holds the UTF-8 text `s` and no padding, as a field filled
/// to its full width does, decodes to `s` unmodified.
pub proof fn lemma_unpadded_field_kept(s: Seq<char>)
    requires
        s.len() == 0 || s.last() != '\0',
    ensures
        field_text(encode_utf8(s)) == s,
{
    encode_utf8_valid_utf8(s);
    encode_utf8_decode_utf8(s);
}

/// A field that holds the UTF-8 text `s` followed by `k` zero bytes of
/// padding decodes to `s`: the padding is stripped.
pub proof fn lemma_padded_field_stripped(s: Seq<char>, k: nat)
    requires
        s.len() == 0 || s.last() != '\0',
    ensures
        field_text(encode_utf8(s) + zeros(k)) == s,
{
    lemma_encode_concat(s, nuls(k));
    lemma_encode_nuls(k);
    encode_utf8_valid_utf8(s + nuls(k));
    encode_utf8_decode_utf8(s + nuls(k));
    lemma_trim_padding(s, k);
}

/// A field whose bytes are not UTF-8 decodes to the marker, never to an error.
pub proof fn lemma_invalid_field_marked(b: Seq<u8>)
    requires
        !valid_utf8(b),
    ensures
        field_text(b) == marker(),
{
}

} // verus!
