//! Document files: the `.pcdoc` frame (magic, format version, snapshot),
//! the decisions taken on a file's bytes when it is opened or imported, the
//! rules for library document names, and the errors of all of these.
use vstd::prelude::*;
use vstd::utf8::{valid_utf8, decode_utf8};
use crate::line_endings::{normalize_spec, has_crlf, normalize_line_endings, contains_crlf};
use crate::text::{push_decimal, decimal, to_chars, owned, ascii_upper_char, to_ascii_upper_char};

verus! {

/// The four bytes every `.pcdoc` file starts with: `PCDC`.
pub const MAGIC: [u8; 4] = [80u8, 67u8, 68u8, 67u8];

/// The `.pcdoc` format version this library writes and reads.
pub const FORMAT_VERSION: u8 = 1u8;

/// The extension of document files.
pub const FILE_EXTENSION: &'static str = "pcdoc";

/// The largest file that is opened.
pub const MAX_OPEN_BYTES: u64 = 10485760u64;

/// The largest file that is imported as text.
pub const MAX_IMPORT_BYTES: u64 = 10485760u64;

/// The chunk size, in characters, of text opened as a document.
pub const OPEN_CHUNK_CHARS: usize = 64usize;

/// The chunk size, in characters, of imported text.
pub const IMPORT_CHUNK_CHARS: usize = 10usize;

/// `MAGIC` as a sequence.
pub open spec fn magic() -> Seq<u8> {
    seq![80u8, 67u8, 68u8, 67u8]
}

/// Why a document could not be read, written or named.
#[derive(Debug)]
pub enum PersistError {
    Io(String),
    InvalidMagic,
    UnsupportedFormat(u8),
    Snapshot(String),
    NotUtf8,
    TooLarge(u64),
    IsPcdoc,
    InvalidName(String),
}

impl PersistError {
    /// The text shown to the user for this error.
    pub fn message(&self) -> (r: String)
        ensures
            r@ == match self {
                PersistError::Io(e) => "I/O error: "@ + e@,
                PersistError::InvalidMagic => "not a valid .pcdoc file"@,
                PersistError::UnsupportedFormat(v) => "unsupported file format version: "@ + decimal(
                    *v as nat,
                ),
                PersistError::Snapshot(e) => "snapshot error: "@ + e@,
                PersistError::NotUtf8 => "file is not readable UTF-8 text"@,
                PersistError::TooLarge(max) => "file is larger than the "@ + decimal(
                    (*max as nat) / 1048576,
                ) + " MB limit"@,
                PersistError::IsPcdoc => "file is a .pcdoc document, not text"@,
                PersistError::InvalidName(m) => m@,
            },
    {
        match self {
            PersistError::Io(e) => {
                let mut s = String::from_str("I/O error: ");
                s.append(e.as_str());
                s
            },
            PersistError::InvalidMagic => String::from_str("not a valid .pcdoc file"),
            PersistError::UnsupportedFormat(v) => {
                let mut s = String::from_str("unsupported file format version: ");
                push_decimal(&mut s, *v as u64);
                s
            },
            PersistError::Snapshot(e) => {
                let mut s = String::from_str("snapshot error: ");
                s.append(e.as_str());
                s
            },
            PersistError::NotUtf8 => String::from_str("file is not readable UTF-8 text"),
            PersistError::TooLarge(max) => {
                let mut s = String::from_str("file is larger than the ");
                let mb: u64 = *max >> 20u64;
                assert(mb == (*max as nat) / 1048576) by (bit_vector)
                    requires
                        mb == *max >> 20u64,
                ;
                push_decimal(&mut s, mb);
                s.append(" MB limit");
                s
            },
            PersistError::IsPcdoc => String::from_str("file is a .pcdoc document, not text"),
            PersistError::InvalidName(m) => owned(m.as_str()),
        }
    }
}

/// A file of `len` bytes may be read when it is at most `max` bytes long.
pub fn check_size(len: u64, max: u64) -> (r: Result<(), PersistError>)
    ensures
        r is Ok <==> len <= max,
        r matches Err(e) ==> e == PersistError::TooLarge(max),
{
    if len > max {
        Err(PersistError::TooLarge(max))
    } else {
        Ok(())
    }
}

/// The bytes of a `.pcdoc` file holding `payload`.
pub open spec fn pcdoc_frame(payload: Seq<u8>) -> Seq<u8> {
    magic().push(FORMAT_VERSION) + payload
}

/// Whether `data` starts with `MAGIC`.
pub open spec fn starts_with_magic(data: Seq<u8>) -> bool {
    data.len() >= 4 && data.subrange(0, 4) == magic()
}

/// What the header check of a `.pcdoc` file finds.
pub enum PcdocHeader {
    Payload(Seq<u8>),
    InvalidMagic,
    UnsupportedFormat(u8),
}

/// The header check of a `.pcdoc` file's bytes: too short or wrong magic, then
/// wrong version, else the snapshot payload after the five header bytes.
pub open spec fn pcdoc_header(data: Seq<u8>) -> PcdocHeader {
    if data.len() < 5 || !starts_with_magic(data) {
        PcdocHeader::InvalidMagic
    } else if data[4] != FORMAT_VERSION {
        PcdocHeader::UnsupportedFormat(data[4])
    } else {
        PcdocHeader::Payload(data.subrange(5, data.len() as int))
    }
}

/// `build_pcdoc_bytes`: magic, version, then the snapshot payload.
pub fn build_pcdoc_bytes(payload: &[u8]) -> (r: Vec<u8>)
    ensures
        r@ == pcdoc_frame(payload@),
{
    let mut data: Vec<u8> = Vec::new();
    data.push(80u8);
    data.push(67u8);
    data.push(68u8);
    data.push(67u8);
    data.push(FORMAT_VERSION);
    let mut i: usize = 0;
    while i < payload.len()
        invariant
            i <= payload.len(),
            data@ == magic().push(FORMAT_VERSION) + payload@.take(i as int),
        decreases payload.len() - i,
    {
        data.push(payload[i]);
        assert(payload@.take(i + 1) == payload@.take(i as int).push(payload@[i as int]));
        i = i + 1;
    }
    assert(payload@.take(payload@.len() as int) == payload@);
    data
}

/// Whether `data` starts with `MAGIC`.
pub fn has_magic(data: &[u8]) -> (r: bool)
    ensures
        r == starts_with_magic(data@),
{
    let r = data.len() >= 4 && data[0] == 80u8 && data[1] == 67u8 && data[2] == 68u8 && data[3]
        == 67u8;
    proof {
        if data@.len() >= 4 {
            if r {
                assert(data@.subrange(0, 4) =~= magic());
            }
            if data@.subrange(0, 4) == magic() {
                assert(data@[0] == data@.subrange(0, 4)[0]);
                assert(data@[1] == data@.subrange(0, 4)[1]);
                assert(data@[2] == data@.subrange(0, 4)[2]);
                assert(data@[3] == data@.subrange(0, 4)[3]);
            }
        }
    }
    r
}

/// The snapshot payload of a `.pcdoc` file, after its header is checked.
pub fn pcdoc_payload(data: &[u8]) -> (r: Result<Vec<u8>, PersistError>)
    ensures
        match pcdoc_header(data@) {
            PcdocHeader::Payload(p) => r matches Ok(v) && v@ == p,
            PcdocHeader::InvalidMagic => r matches Err(PersistError::InvalidMagic),
            PcdocHeader::UnsupportedFormat(v) => r matches Err(PersistError::UnsupportedFormat(w))
                && w == v,
        },
{
    if data.len() < 5 || !has_magic(data) {
        return Err(PersistError::InvalidMagic);
    }
    let version = data[4];
    if version != FORMAT_VERSION {
        return Err(PersistError::UnsupportedFormat(version));
    }
    let mut out: Vec<u8> = Vec::new();
    let mut i: usize = 5;
    while i < data.len()
        invariant
            5 <= i <= data.len(),
            out@ == data@.subrange(5, i as int),
        decreases data.len() - i,
    {
        out.push(data[i]);
        assert(data@.subrange(5, i + 1) == data@.subrange(5, i as int).push(data@[i as int]));
        i = i + 1;
    }
    Ok(out)
}

/// A frame built by `build_pcdoc_bytes` passes the header check
/// (`pcdoc_header`) and gives back its payload.
pub proof fn law_pcdoc_frame_round_trips(payload: Seq<u8>)
    ensures
        pcdoc_header(pcdoc_frame(payload)) == PcdocHeader::Payload(payload),
{
    let f = pcdoc_frame(payload);
    assert(f.subrange(0, 4) =~= magic());
    assert(f[4] == FORMAT_VERSION);
    assert(f.subrange(5, f.len() as int) =~= payload);
}

/// `String::from_utf8`, the error dropped.
#[verifier::external_body]
fn utf8_string(bytes: Vec<u8>) -> (r: Option<String>)
    ensures
        r is Some == valid_utf8(bytes@),
        r matches Some(s) ==> s@ == decode_utf8(bytes@),
{
    String::from_utf8(bytes).ok()
}

/// What an opened file holds.
pub enum FileContent {
    /// A `.pcdoc` document: the snapshot payload after the header.
    Pcdoc(Vec<u8>),
    /// Text, normalized to `\n`, and whether it had `\r\n` line breaks.
    Text { text: String, had_crlf: bool },
}

/// What an opened file's bytes hold: bytes that start with
/// `MAGIC` are a `.pcdoc` frame, whose header is checked; other bytes must be
/// UTF-8 text, which is normalized to `\n`, remembering whether it had
/// `\r\n`.
pub fn read_file_content(bytes: Vec<u8>) -> (r: Result<FileContent, PersistError>)
    ensures
        starts_with_magic(bytes@) ==> match pcdoc_header(bytes@) {
            PcdocHeader::Payload(p) => r matches Ok(FileContent::Pcdoc(v)) && v@ == p,
            PcdocHeader::InvalidMagic => r matches Err(PersistError::InvalidMagic),
            PcdocHeader::UnsupportedFormat(v) => r matches Err(PersistError::UnsupportedFormat(w))
                && w == v,
        },
        !starts_with_magic(bytes@) && !valid_utf8(bytes@) ==> r matches Err(PersistError::NotUtf8),
        !starts_with_magic(bytes@) && valid_utf8(bytes@) ==> (r matches Ok(
            FileContent::Text { text, had_crlf },
        ) && text@ == normalize_spec(decode_utf8(bytes@)) && had_crlf == has_crlf(
            decode_utf8(bytes@),
        )),
{
    if has_magic(bytes.as_slice()) {
        let payload = pcdoc_payload(bytes.as_slice())?;
        return Ok(FileContent::Pcdoc(payload));
    }
    match utf8_string(bytes) {
        Some(text) => {
            let had_crlf = contains_crlf(text.as_str());
            Ok(FileContent::Text { text: normalize_line_endings(text.as_str()), had_crlf })
        },
        None => Err(PersistError::NotUtf8),
    }
}

/// What a file's bytes give when imported as text: a `.pcdoc`
/// frame is refused, other bytes must be UTF-8 text, normalized to `\n`.
pub fn import_text_content(bytes: Vec<u8>) -> (r: Result<String, PersistError>)
    ensures
        starts_with_magic(bytes@) ==> r matches Err(PersistError::IsPcdoc),
        !starts_with_magic(bytes@) && !valid_utf8(bytes@) ==> r matches Err(PersistError::NotUtf8),
        !starts_with_magic(bytes@) && valid_utf8(bytes@) ==> (r matches Ok(text) && text@
            == normalize_spec(decode_utf8(bytes@))),
{
    if has_magic(bytes.as_slice()) {
        return Err(PersistError::IsPcdoc);
    }
    match utf8_string(bytes) {
        Some(text) => Ok(normalize_line_endings(text.as_str())),
        None => Err(PersistError::NotUtf8),
    }
}

/// Characters a library document name may not hold.
pub open spec fn is_forbidden_char(c: char) -> bool {
    c == '<' || c == '>' || c == ':' || c == '"' || c == '/' || c == '\\' || c == '|' || c == '?'
        || c == '*'
}

/// Names the system reserves: `CON`, `PRN`, `AUX`, `NUL`, `COM1`..`COM9`,
/// `LPT1`..`LPT9`.
pub open spec fn is_reserved_upper(u: Seq<char>) -> bool {
    ||| u == seq!['C', 'O', 'N']
    ||| u == seq!['P', 'R', 'N']
    ||| u == seq!['A', 'U', 'X']
    ||| u == seq!['N', 'U', 'L']
    ||| (u.len() == 4 && u[0] == 'C' && u[1] == 'O' && u[2] == 'M' && '1' <= u[3] && u[3] <= '9')
    ||| (u.len() == 4 && u[0] == 'L' && u[1] == 'P' && u[2] == 'T' && '1' <= u[3] && u[3] <= '9')
}

/// The message for an invalid library document name, or `None` when the
/// name is valid: it is empty; it holds a forbidden character; it starts
/// with `.` or ends with `.` or a space; or its upper case is a reserved
/// system name. (No character outside ASCII upper-cases into a reserved
/// name, so comparing the ASCII upper case is comparing `to_uppercase`.)
pub open spec fn name_problem(name: Seq<char>) -> Option<Seq<char>> {
    if name.len() == 0 {
        Some("name is empty"@)
    } else if exists|i: int| 0 <= i < name.len() && #[trigger] is_forbidden_char(name[i]) {
        Some("name contains forbidden characters: "@ + name)
    } else if name[0] == '.' || name.last() == '.' || name.last() == ' ' {
        Some("name has invalid leading/trailing characters: "@ + name)
    } else if is_reserved_upper(name.map_values(|c: char| ascii_upper_char(c))) {
        Some("name is a reserved system name: "@ + name)
    } else {
        None
    }
}

fn is_reserved(v: &Vec<char>) -> (r: bool)
    ensures
        r == is_reserved_upper(v@.map_values(|c: char| ascii_upper_char(c))),
{
    let ghost u = v@.map_values(|c: char| ascii_upper_char(c));
    assert(u.len() == v@.len());
    assert(seq!['C', 'O', 'N'].len() == 3);
    assert(seq!['P', 'R', 'N'].len() == 3);
    assert(seq!['A', 'U', 'X'].len() == 3);
    assert(seq!['N', 'U', 'L'].len() == 3);
    if v.len() == 3 {
        let a = to_ascii_upper_char(v[0]);
        let b = to_ascii_upper_char(v[1]);
        let c = to_ascii_upper_char(v[2]);
        assert(u[0] == a && u[1] == b && u[2] == c);
        let r = (a == 'C' && b == 'O' && c == 'N') || (a == 'P' && b == 'R' && c == 'N') || (a
            == 'A' && b == 'U' && c == 'X') || (a == 'N' && b == 'U' && c == 'L');
        proof {
            assert(u =~= seq![a, b, c]);
            let con = seq!['C', 'O', 'N'];
            let prn = seq!['P', 'R', 'N'];
            let aux = seq!['A', 'U', 'X'];
            let nul = seq!['N', 'U', 'L'];
            assert(con[0] == 'C' && con[1] == 'O' && con[2] == 'N');
            assert(prn[0] == 'P' && prn[1] == 'R' && prn[2] == 'N');
            assert(aux[0] == 'A' && aux[1] == 'U' && aux[2] == 'X');
            assert(nul[0] == 'N' && nul[1] == 'U' && nul[2] == 'L');
            if u == con { assert(u[0] == 'C' && u[1] == 'O' && u[2] == 'N'); }
            if u == prn { assert(u[0] == 'P' && u[1] == 'R' && u[2] == 'N'); }
            if u == aux { assert(u[0] == 'A' && u[1] == 'U' && u[2] == 'X'); }
            if u == nul { assert(u[0] == 'N' && u[1] == 'U' && u[2] == 'L'); }
            if r {
                assert(u == con || u == prn || u == aux || u == nul);
            }
        }
        r
    } else if v.len() == 4 {
        let a = to_ascii_upper_char(v[0]);
        let b = to_ascii_upper_char(v[1]);
        let c = to_ascii_upper_char(v[2]);
        let d = to_ascii_upper_char(v[3]);
        assert(u[0] == a && u[1] == b && u[2] == c && u[3] == d);
        ((a == 'C' && b == 'O' && c == 'M') || (a == 'L' && b == 'P' && c == 'T')) && '1' <= d
            && d <= '9'
    } else {
        assert(seq!['C', 'O', 'N'].len() == 3);
        assert(seq!['P', 'R', 'N'].len() == 3);
        assert(seq!['A', 'U', 'X'].len() == 3);
        assert(seq!['N', 'U', 'L'].len() == 3);
        false
    }
}

/// `validate_name`: a library document name is refused, with the message of
/// `name_problem`, exactly when `name_problem` finds one.
pub fn validate_name(name: &str) -> (r: Result<(), PersistError>)
    ensures
        r is Ok <==> name_problem(name@) is None,
        (exists|i: int|
            #![trigger name@[i]]
            0 <= i < name@.len() && (name@[i] == '<' || name@[i] == '>' || name@[i] == ':'
                || name@[i] == '"' || name@[i] == '/' || name@[i] == '\\' || name@[i] == '|'
                || name@[i] == '?' || name@[i] == '*')) ==> (r matches Err(
            PersistError::InvalidName(m),
        ) && m@ == "name contains forbidden characters: "@ + name@),
        r matches Err(e) ==> e matches PersistError::InvalidName(m) && Some(m@) == name_problem(
            name@,
        ),
{
    proof {
        if exists|i: int|
            #![trigger name@[i]]
            0 <= i < name@.len() && (name@[i] == '<' || name@[i] == '>' || name@[i] == ':'
                || name@[i] == '"' || name@[i] == '/' || name@[i] == '\\' || name@[i] == '|'
                || name@[i] == '?' || name@[i] == '*') {
            let i = choose|i: int|
                #![trigger name@[i]]
                0 <= i < name@.len() && (name@[i] == '<' || name@[i] == '>' || name@[i] == ':'
                    || name@[i] == '"' || name@[i] == '/' || name@[i] == '\\' || name@[i] == '|'
                    || name@[i] == '?' || name@[i] == '*');
            law_forbidden_chars_refused(name@, i);
        }
    }
    let v = to_chars(name);
    if v.len() == 0 {
        return Err(PersistError::InvalidName(String::from_str("name is empty")));
    }
    let mut i: usize = 0;
    while i < v.len()
        invariant
            v@ == name@,
            i <= v.len(),
            forall|j: int| 0 <= j < i ==> !#[trigger] is_forbidden_char(v@[j]),
        decreases v.len() - i,
    {
        let c = v[i];
        if c == '<' || c == '>' || c == ':' || c == '"' || c == '/' || c == '\\' || c == '|' || c
            == '?' || c == '*' {
            assert(is_forbidden_char(name@[i as int]));
            let mut m = String::from_str("name contains forbidden characters: ");
            m.append(name);
            return Err(PersistError::InvalidName(m));
        }
        i = i + 1;
    }
    let last = v[v.len() - 1];
    if v[0] == '.' || last == '.' || last == ' ' {
        let mut m = String::from_str("name has invalid leading/trailing characters: ");
        m.append(name);
        return Err(PersistError::InvalidName(m));
    }
    if is_reserved(&v) {
        let mut m = String::from_str("name is a reserved system name: ");
        m.append(name);
        return Err(PersistError::InvalidName(m));
    }
    Ok(())
}

/// Whether `name` is a valid library document name.
pub fn is_valid_name(name: &str) -> (r: bool)
    ensures
        r == (name_problem(name@) is None),
{
    validate_name(name).is_ok()
}

/// The file name of library document `name`: `{name}.pcdoc`.
pub fn pcdoc_file_name(name: &str) -> (r: String)
    ensures
        r@ == name@ + ".pcdoc"@,
{
    let mut s = owned(name);
    s.append(".pcdoc");
    s
}

/// The file name of library document `name`, once the name is validated.
pub fn document_file_name(name: &str) -> (r: Result<String, PersistError>)
    ensures
        r is Ok <==> name_problem(name@) is None,
        r matches Ok(f) ==> f@ == name@ + ".pcdoc"@,
        r matches Err(e) ==> e matches PersistError::InvalidName(m) && Some(m@) == name_problem(
            name@,
        ),
{
    validate_name(name)?;
    Ok(pcdoc_file_name(name))
}

/// A recently used file, as listed in the Open dialog.
#[derive(Debug, Clone)]
pub struct DocumentMeta {
    pub name: String,
    pub path: String,
    pub size_bytes: u64,
    pub modified: Option<u64>,
}

/// A library document name holding any of the characters
/// `< > : " / \ | ? *`, anywhere, is refused for that reason.
pub proof fn law_forbidden_chars_refused(name: Seq<char>, i: int)
    requires
        0 <= i < name.len(),
        name[i] == '<' || name[i] == '>' || name[i] == ':' || name[i] == '"' || name[i] == '/'
            || name[i] == '\\' || name[i] == '|' || name[i] == '?' || name[i] == '*',
    ensures
        name_problem(name) == Some("name contains forbidden characters: "@ + name),
{
    assert(is_forbidden_char(name[i]));
}

} // verus!
