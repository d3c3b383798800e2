//! The versioned envelope around a serialized container: three version
//! bytes, a four-byte magic signature, then the payload. Payloads written
//! before the envelope existed carry no header and are read as they are.

use vstd::prelude::*;
use vstd::string::*;
use crate::error::StoreError;
use crate::fman::{self, file_bytes, well_shaped, File, FileView};

verus! {

/// Number of version components stored in the header, one byte each.
pub const VERSION_PARTS: usize = 3;

/// Length of the whole header: version bytes followed by the signature.
pub const HEADER_LEN: usize = 7;

/// Last version that did not write the header.
pub const LAST_NONTRACKING_VERSION: &'static str = "0.8.5";

/// Components of this library's version, written into every header.
pub const VERSION_MAJOR: u8 = 0;
pub const VERSION_MINOR: u8 = 9;
pub const VERSION_PATCH: u8 = 0;

/// The magic signature that follows the version bytes.
pub open spec fn signature() -> Seq<u8> {
    seq![253u8, 7u8, 13u8, 147u8]
}

/// The version of this library, as written into the header.
pub open spec fn version() -> Seq<u8> {
    seq![VERSION_MAJOR, VERSION_MINOR, VERSION_PATCH]
}

/// Whether `content` starts with a header: it is longer than the header and
/// the signature stands right after the version bytes.
pub open spec fn signed(content: Seq<u8>) -> bool {
    content.len() > HEADER_LEN && content.subrange(VERSION_PARTS as int, HEADER_LEN as int)
        == signature()
}

/// The envelope of `payload`.
pub open spec fn framed(payload: Seq<u8>) -> Seq<u8> {
    version() + signature() + payload
}

/// The payload held by `content`: what follows the header, or the whole
/// input when there is no header.
pub open spec fn envelope_payload(content: Seq<u8>) -> Seq<u8> {
    if signed(content) {
        content.subrange(HEADER_LEN as int, content.len() as int)
    } else {
        content
    }
}

/// The two shapes an input can have, told apart once when it is read.
pub enum Envelope {
    /// A header was found: the version that wrote it and the payload after it.
    Signed { version: Vec<u8>, payload: Vec<u8> },
    /// No header: the whole input is a payload in the legacy layout.
    Legacy { payload: Vec<u8> },
}

impl Envelope {
    /// The payload, whichever shape the envelope has.
    pub open spec fn payload_view(&self) -> Seq<u8> {
        match self {
            Envelope::Signed { payload, .. } => payload@,
            Envelope::Legacy { payload } => payload@,
        }
    }

    pub fn payload(&self) -> (r: &Vec<u8>)
        ensures
            r@ == self.payload_view(),
    {
        match self {
            Envelope::Signed { payload, .. } => payload,
            Envelope::Legacy { payload } => payload,
        }
    }
}

fn get_version_bytes() -> (r: Vec<u8>)
    ensures
        r@ == version(),
{
    vec![VERSION_MAJOR, VERSION_MINOR, VERSION_PATCH]
}

fn get_signature_bytes() -> (r: Vec<u8>)
    ensures
        r@ == signature(),
{
    vec![253, 7, 13, 147]
}

/// Whether `file_contents` is longer than the version bytes and `signature`
/// together, and holds `signature` right after the version bytes.
pub fn has_signature(file_contents: &[u8], signature: &[u8]) -> (r: bool)
    ensures
        r == (file_contents@.len() > signature@.len() + VERSION_PARTS
            && file_contents@.subrange(
            VERSION_PARTS as int,
            VERSION_PARTS + signature@.len(),
        ) == signature@),
{
    if file_contents.len() <= VERSION_PARTS || file_contents.len() - VERSION_PARTS
        <= signature.len() {
        return false;
    }
    let n = file_contents.len();
    let mut i: usize = 0;
    while i < signature.len()
        invariant
            n == file_contents@.len(),
            i <= signature@.len(),
            file_contents@.len() > signature@.len() + VERSION_PARTS,
            forall|j: int| 0 <= j < i ==> file_contents@[VERSION_PARTS + j] == signature@[j],
        decreases signature@.len() - i,
    {
        if file_contents[VERSION_PARTS + i] != signature[i] {
            assert(file_contents@.subrange(
                VERSION_PARTS as int,
                VERSION_PARTS + signature@.len(),
            )[i as int] != signature@[i as int]);
            return false;
        }
        i = i + 1;
    }
    assert(file_contents@.subrange(VERSION_PARTS as int, VERSION_PARTS + signature@.len())
        =~= signature@);
    true
}

/// Copies `content[start..]` into a new vector.
fn copy_from(content: &[u8], start: usize) -> (r: Vec<u8>)
    requires
        start <= content@.len(),
    ensures
        r@ == content@.subrange(start as int, content@.len() as int),
{
    let mut r: Vec<u8> = Vec::new();
    let mut i: usize = start;
    while i < content.len()
        invariant
            start <= i <= content@.len(),
            r@ == content@.subrange(start as int, i as int),
        decreases content@.len() - i,
    {
        r.push(content[i]);
        i = i + 1;
        assert(r@ =~= content@.subrange(start as int, i as int));
    }
    r
}

/// Reads the header of `content`, if there is one, and separates it from
/// the payload.
pub fn parse_envelope(content: &[u8]) -> (r: Envelope)
    ensures
        signed(content@) ==> (r matches Envelope::Signed { version, payload } && version@
            == content@.subrange(0, VERSION_PARTS as int) && payload@ == content@.subrange(
            HEADER_LEN as int,
            content@.len() as int,
        )),
        !signed(content@) ==> (r matches Envelope::Legacy { payload } && payload@ == content@),
        r.payload_view() == envelope_payload(content@),
{
    let signature = get_signature_bytes();
    if has_signature(content, signature.as_slice()) {
        let mut version: Vec<u8> = Vec::new();
        version.push(content[0]);
        version.push(content[1]);
        version.push(content[2]);
        assert(version@ =~= content@.subrange(0, VERSION_PARTS as int));
        Envelope::Signed { version, payload: copy_from(content, HEADER_LEN) }
    } else {
        Envelope::Legacy { payload: copy_from(content, 0) }
    }
}

/// Puts the header of this library's version in front of `payload`.
pub fn frame(payload: &[u8]) -> (r: Vec<u8>)
    ensures
        r@ == framed(payload@),
{
    let mut bytes = get_version_bytes();
    let signature = get_signature_bytes();
    bytes.extend_from_slice(signature.as_slice());
    bytes.extend_from_slice(payload);
    assert(bytes@ =~= framed(payload@));
    bytes
}

/// The container in an envelope of this library's version.
pub fn encode(file: &File) -> (r: Result<Vec<u8>, StoreError>)
    ensures
        r is Ok && r->Ok_0@ == framed(file_bytes(file@)),
{
    let payload = fman::encode(file)?;
    Ok(frame(payload.as_slice()))
}

/// Reads a container from an envelope, or from a legacy payload without
/// a header.
pub fn decode(content: &[u8]) -> (r: Result<File, StoreError>)
    ensures
        forall|w: FileView|
            well_shaped(w) && envelope_payload(content@) == #[trigger] file_bytes(w) ==> (r is Ok
                && r->Ok_0@ == w),
        r matches Err(e) ==> e == StoreError::SerializationError,
{
    fman::decode(content)
}

/// Decoding what was encoded gives the same container back: the framed
/// encoding carries the header, its payload is the container's encoding,
/// and the container's view has the shape that decoding asks for.
pub proof fn lemma_decode_encode(file: File)
    ensures
        well_shaped(file@),
        signed(framed(file_bytes(file@))),
        envelope_payload(framed(file_bytes(file@))) == file_bytes(file@),
{
    fman::lemma_view_well_shaped(file);
    lemma_envelope_round_trip(file_bytes(file@), Seq::empty());
}

/// The character of a decimal digit.
pub open spec fn digit(d: nat) -> char {
    if d == 0 {
        '0'
    } else if d == 1 {
        '1'
    } else if d == 2 {
        '2'
    } else if d == 3 {
        '3'
    } else if d == 4 {
        '4'
    } else if d == 5 {
        '5'
    } else if d == 6 {
        '6'
    } else if d == 7 {
        '7'
    } else if d == 8 {
        '8'
    } else {
        '9'
    }
}

/// The decimal notation of `n`, without leading zeros.
pub open spec fn decimal(n: nat) -> Seq<char>
    decreases n,
{
    if n < 10 {
        seq![digit(n)]
    } else {
        decimal(n / 10) + seq![digit(n % 10)]
    }
}

/// What is shown for an input without a header.
pub open spec fn legacy_version_text() -> Seq<char> {
    seq!['<', '=', ' ', '0', '.', '8', '.', '5']
}

/// The version that wrote `content`, as `a.b.c`, or the legacy text when
/// there is no header.
pub open spec fn version_text(content: Seq<u8>) -> Seq<char> {
    if signed(content) {
        decimal(content[0] as nat) + seq!['.'] + decimal(content[1] as nat) + seq!['.'] + decimal(
            content[2] as nat,
        )
    } else {
        legacy_version_text()
    }
}

fn digit_str(d: u8) -> (r: &'static str)
    requires
        d < 10,
    ensures
        r@ == seq![digit(d as nat)],
{
    if d == 0 {
        proof { reveal_strlit("0"); }
        "0"
    } else if d == 1 {
        proof { reveal_strlit("1"); }
        "1"
    } else if d == 2 {
        proof { reveal_strlit("2"); }
        "2"
    } else if d == 3 {
        proof { reveal_strlit("3"); }
        "3"
    } else if d == 4 {
        proof { reveal_strlit("4"); }
        "4"
    } else if d == 5 {
        proof { reveal_strlit("5"); }
        "5"
    } else if d == 6 {
        proof { reveal_strlit("6"); }
        "6"
    } else if d == 7 {
        proof { reveal_strlit("7"); }
        "7"
    } else if d == 8 {
        proof { reveal_strlit("8"); }
        "8"
    } else {
        proof { reveal_strlit("9"); }
        "9"
    }
}

/// Appends the decimal notation of `n` to `s`.
fn push_decimal(s: &mut String, n: u8)
    ensures
        final(s)@ == old(s)@ + decimal(n as nat),
{
    proof {
        reveal_with_fuel(decimal, 3);
    }
    if n >= 100 {
        s.append(digit_str(n / 100));
    }
    if n >= 10 {
        s.append(digit_str((n / 10) % 10));
    }
    s.append(digit_str(n % 10));
    proof {
        if n >= 100 {
            assert(decimal((n / 10) as nat) =~= decimal((n / 100) as nat) + seq![
                digit(((n / 10) % 10) as nat),
            ]);
            assert(decimal(n as nat) =~= seq![digit((n / 100) as nat)] + seq![
                digit(((n / 10) % 10) as nat),
            ] + seq![digit((n % 10) as nat)]);
        } else if n >= 10 {
            assert(decimal(n as nat) =~= seq![digit(((n / 10) % 10) as nat)] + seq![
                digit((n % 10) as nat),
            ]);
        }
    }
}

/// The version of the library that wrote `file_contents`, or a text naming
/// the last version that wrote no header.
pub fn get_version(file_contents: &[u8]) -> (r: String)
    ensures
        r@ == version_text(file_contents@),
{
    let signature = get_signature_bytes();
    if has_signature(file_contents, signature.as_slice()) {
        let mut s = String::new();
        push_decimal(&mut s, file_contents[0]);
        s.append(".");
        push_decimal(&mut s, file_contents[1]);
        s.append(".");
        push_decimal(&mut s, file_contents[2]);
        proof {
            reveal_strlit(".");
        }
        assert(s@ =~= version_text(file_contents@));
        s
    } else {
        let mut s = String::from_str("<= ");
        s.append(LAST_NONTRACKING_VERSION);
        proof {
            reveal_strlit("<= ");
            reveal_strlit("0.8.5");
        }
        assert(s@ =~= legacy_version_text());
        s
    }
}

/// Framing then reading back gives the payload, for every non-empty
/// payload, and the version shown is this library's; an input without the
/// signature is its own payload, shown with the legacy version text.
pub proof fn lemma_envelope_round_trip(payload: Seq<u8>, legacy: Seq<u8>)
    requires
        payload.len() > 0,
        !signed(legacy),
    ensures
        signed(framed(payload)),
        envelope_payload(framed(payload)) == payload,
        framed(payload).subrange(0, VERSION_PARTS as int) == version(),
        version_text(framed(payload)) == decimal(VERSION_MAJOR as nat) + seq!['.'] + decimal(
            VERSION_MINOR as nat,
        ) + seq!['.'] + decimal(VERSION_PATCH as nat),
        envelope_payload(legacy) == legacy,
        version_text(legacy) == legacy_version_text(),
{
    let f = framed(payload);
    assert(f.subrange(VERSION_PARTS as int, HEADER_LEN as int) =~= signature());
    assert(f.subrange(HEADER_LEN as int, f.len() as int) =~= payload);
    assert(f.subrange(0, VERSION_PARTS as int) =~= version());
    assert(f[0] == VERSION_MAJOR && f[1] == VERSION_MINOR && f[2] == VERSION_PATCH);
}

} // verus!
