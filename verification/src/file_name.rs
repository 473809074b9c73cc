//! The name under which a file is stored: its response header as text.
//!
//! A file name is five fields joined by `-`: forty hex digits of the SHA-1
//! hash, the payload length, the width, the height (each in decimal), and
//! the type (`gif`, `jpg`, `wbp` or `png`).

use vstd::prelude::*;

use vstd::string::StringSliceAdditionalSpecFns;

use crate::decimal::{decimal, parse_u32, parse_u32_spec};
use crate::hex::{all_hex, hex_decode, hex_encode, hex_to_bytes};
use crate::protocol::{FileType, HeaderModel, Resolution, ResponseHeader};

verus! {

/// Why a file name is not the name of a response header.
#[derive(Debug, Clone, Copy, PartialEq, Eq, Structural)]
pub enum ParseFileNameError {
    /// Fewer than five fields.
    FieldMissing,
    /// More than five fields.
    FieldExceed,
    /// The first field is not forty hex digits.
    InvalidHex,
    /// The second field is not a `u32`.
    InvalidFileSize,
    /// The third field is not a `u32`.
    InvalidResX,
    /// The fourth field is not a `u32`.
    InvalidResY,
    /// The fifth field names no file type.
    UnknownType,
}

/// The text of each error.
pub open spec fn parse_error_text(e: ParseFileNameError) -> &'static str {
    match e {
        ParseFileNameError::FieldMissing => "field missing",
        ParseFileNameError::FieldExceed => "field exceed",
        ParseFileNameError::InvalidHex => "invalid hex",
        ParseFileNameError::InvalidFileSize => "invalid file size",
        ParseFileNameError::InvalidResX => "invalid resolution.x",
        ParseFileNameError::InvalidResY => "invalid resolution.y",
        ParseFileNameError::UnknownType => "unknown type",
    }
}

impl ParseFileNameError {
    /// The text that describes the error.
    pub fn message(&self) -> (s: &'static str)
        ensures
            s@ == parse_error_text(*self)@,
    {
        match self {
            ParseFileNameError::FieldMissing => "field missing",
            ParseFileNameError::FieldExceed => "field exceed",
            ParseFileNameError::InvalidHex => "invalid hex",
            ParseFileNameError::InvalidFileSize => "invalid file size",
            ParseFileNameError::InvalidResX => "invalid resolution.x",
            ParseFileNameError::InvalidResY => "invalid resolution.y",
            ParseFileNameError::UnknownType => "unknown type",
        }
    }
}

/// The byte `-` that separates the fields.
pub open spec fn dash() -> u8 {
    0x2D
}

/// The fields of `s` between its `-` bytes, as `str::split('-')` gives
/// them: one more field than there are dashes, empty fields included.
pub open spec fn split_dash(s: Seq<u8>) -> Seq<Seq<u8>>
    decreases s.len(),
{
    if s.len() == 0 {
        seq![Seq::<u8>::empty()]
    } else {
        let r = split_dash(s.drop_last());
        if s.last() == dash() {
            r.push(Seq::<u8>::empty())
        } else {
            r.update(r.len() - 1, r.last().push(s.last()))
        }
    }
}

/// The name of each file type.
pub open spec fn file_type_name(t: FileType) -> Seq<u8> {
    match t {
        FileType::Gif => seq![0x67u8, 0x69, 0x66],
        FileType::Jpg => seq![0x6Au8, 0x70, 0x67],
        FileType::Webp => seq![0x77u8, 0x62, 0x70],
        FileType::Png => seq![0x70u8, 0x6E, 0x67],
    }
}

/// The file type that a name names, if any.
pub open spec fn file_type_of_name(s: Seq<u8>) -> Option<FileType> {
    if s == file_type_name(FileType::Gif) {
        Some(FileType::Gif)
    } else if s == file_type_name(FileType::Jpg) {
        Some(FileType::Jpg)
    } else if s == file_type_name(FileType::Webp) {
        Some(FileType::Webp)
    } else if s == file_type_name(FileType::Png) {
        Some(FileType::Png)
    } else {
        None
    }
}

/// The text of a resolution: width, `-`, height.
pub open spec fn resolution_text(r: (u32, u32)) -> Seq<u8> {
    decimal(r.0 as nat) + seq![dash()] + decimal(r.1 as nat)
}

/// The file name of a header.
pub open spec fn file_name_spec(h: HeaderModel) -> Seq<u8> {
    hex_encode(h.file_hash) + seq![dash()] + decimal(h.payload_len as nat) + seq![dash()]
        + resolution_text(h.resolution) + seq![dash()] + file_type_name(h.file_type)
}

/// What parsing a file name gives.
pub open spec fn parse_file_name_spec(s: Seq<u8>) -> Result<HeaderModel, ParseFileNameError> {
    let f = split_dash(s);
    if f.len() < 5 {
        Err(ParseFileNameError::FieldMissing)
    } else if f.len() > 5 {
        Err(ParseFileNameError::FieldExceed)
    } else if f[0].len() != 40 || !all_hex(f[0]) {
        Err(ParseFileNameError::InvalidHex)
    } else {
        match parse_u32_spec(f[1]) {
            None => Err(ParseFileNameError::InvalidFileSize),
            Some(size) => match parse_u32_spec(f[2]) {
                None => Err(ParseFileNameError::InvalidResX),
                Some(x) => match parse_u32_spec(f[3]) {
                    None => Err(ParseFileNameError::InvalidResY),
                    Some(y) => match file_type_of_name(f[4]) {
                        None => Err(ParseFileNameError::UnknownType),
                        Some(t) => Ok(
                            HeaderModel {
                                file_type: t,
                                file_hash: hex_decode(f[0]),
                                resolution: (x, y),
                                payload_len: size,
                            },
                        ),
                    },
                },
            },
        }
    }
}

/// The model of what `ResponseHeader::try_from` returns.
pub open spec fn parsed_model(r: Result<ResponseHeader, ParseFileNameError>) -> Result<
    HeaderModel,
    ParseFileNameError,
> {
    match r {
        Ok(h) => Ok(h@),
        Err(e) => Err(e),
    }
}

proof fn lemma_split_dash_nonempty(s: Seq<u8>)
    ensures
        split_dash(s).len() >= 1,
    decreases s.len(),
{
    if s.len() > 0 {
        lemma_split_dash_nonempty(s.drop_last());
    }
}

/// The views of a vector of fields.
pub open spec fn field_views(f: Seq<Vec<u8>>) -> Seq<Seq<u8>> {
    f.map_values(|v: Vec<u8>| v@)
}

/// Splits `s` at its `-` bytes.
fn split_fields(s: &[u8]) -> (r: Vec<Vec<u8>>)
    ensures
        field_views(r@) == split_dash(s@),
{
    let mut fields: Vec<Vec<u8>> = Vec::new();
    let mut cur: Vec<u8> = Vec::new();
    let mut i: usize = 0;
    assert(s@.subrange(0, 0) =~= Seq::<u8>::empty());
    assert(field_views(fields@).push(cur@) =~= split_dash(s@.subrange(0, 0)));
    while i < s.len()
        invariant
            0 <= i <= s@.len(),
            field_views(fields@).push(cur@) == split_dash(s@.subrange(0, i as int)),
        decreases s@.len() - i,
    {
        let c = s[i];
        let ghost prev = s@.subrange(0, i as int);
        let ghost next = s@.subrange(0, i + 1);
        assert(next.drop_last() =~= prev);
        proof {
            lemma_split_dash_nonempty(prev);
        }
        if c == 0x2D {
            let done = cur;
            fields.push(done);
            cur = Vec::new();
            assert(field_views(fields@).push(cur@) =~= split_dash(next));
        } else {
            cur.push(c);
            assert(field_views(fields@).push(cur@) =~= split_dash(next));
        }
        i += 1;
    }
    let ghost before = fields@;
    fields.push(cur);
    assert(field_views(fields@) =~= field_views(before).push(fields@.last()@));
    assert(s@.subrange(0, s@.len() as int) =~= s@);
    fields
}

fn file_type_from_name(s: &[u8]) -> (r: Option<FileType>)
    ensures
        r == file_type_of_name(s@),
{
    if s.len() != 3 {
        proof {
            assert(s@.len() != file_type_name(FileType::Gif).len());
            assert(s@.len() != file_type_name(FileType::Jpg).len());
            assert(s@.len() != file_type_name(FileType::Webp).len());
            assert(s@.len() != file_type_name(FileType::Png).len());
        }
        return None;
    }
    let (a, b, c) = (s[0], s[1], s[2]);
    assert(s@ =~= seq![a, b, c]);
    if a == 0x67 && b == 0x69 && c == 0x66 {
        Some(FileType::Gif)
    } else if a == 0x6A && b == 0x70 && c == 0x67 {
        Some(FileType::Jpg)
    } else if a == 0x77 && b == 0x62 && c == 0x70 {
        Some(FileType::Webp)
    } else if a == 0x70 && b == 0x6E && c == 0x67 {
        Some(FileType::Png)
    } else {
        proof {
            if s@ == file_type_name(FileType::Gif) {
                assert(s@[0] == 0x67 && s@[1] == 0x69 && s@[2] == 0x66);
            }
            if s@ == file_type_name(FileType::Jpg) {
                assert(s@[0] == 0x6A && s@[1] == 0x70 && s@[2] == 0x67);
            }
            if s@ == file_type_name(FileType::Webp) {
                assert(s@[0] == 0x77 && s@[1] == 0x62 && s@[2] == 0x70);
            }
            if s@ == file_type_name(FileType::Png) {
                assert(s@[0] == 0x70 && s@[1] == 0x6E && s@[2] == 0x67);
            }
        }
        None
    }
}

impl ResponseHeader {
    /// Parses a file name of the form
    /// `<hash hex>-<payload len>-<width>-<height>-<type>`.
    pub fn try_from(file_name: &str) -> (r: Result<ResponseHeader, ParseFileNameError>)
        ensures
            parsed_model(r) == parse_file_name_spec(file_name.spec_bytes()),
    {
        let bytes = file_name.as_bytes();
        let fields = split_fields(bytes);
        let ghost f = split_dash(bytes@);
        assert(fields@.len() == f.len());
        if fields.len() < 5 {
            return Err(ParseFileNameError::FieldMissing);
        }
        if fields.len() > 5 {
            return Err(ParseFileNameError::FieldExceed);
        }
        assert(fields@[0]@ == f[0]);
        assert(fields@[1]@ == f[1]);
        assert(fields@[2]@ == f[2]);
        assert(fields@[3]@ == f[3]);
        assert(fields@[4]@ == f[4]);
        let hex_field = fields[0].as_slice();
        if hex_field.len() != 40 {
            return Err(ParseFileNameError::InvalidHex);
        }
        let mut hex = [0u8; 40];
        let mut i: usize = 0;
        while i < 40
            invariant
                0 <= i <= 40,
                hex_field@.len() == 40,
                hex@.len() == 40,
                forall|j: int| 0 <= j < i ==> #[trigger] hex@[j] == hex_field@[j],
            decreases 40 - i,
        {
            hex[i] = hex_field[i];
            i += 1;
        }
        assert(hex@ =~= hex_field@);
        let hash = match hex_to_bytes(&hex) {
            Some(h) => h,
            None => {
                return Err(ParseFileNameError::InvalidHex);
            },
        };
        let file_size = match parse_u32(fields[1].as_slice()) {
            Some(v) => v,
            None => {
                return Err(ParseFileNameError::InvalidFileSize);
            },
        };
        let x = match parse_u32(fields[2].as_slice()) {
            Some(v) => v,
            None => {
                return Err(ParseFileNameError::InvalidResX);
            },
        };
        let y = match parse_u32(fields[3].as_slice()) {
            Some(v) => v,
            None => {
                return Err(ParseFileNameError::InvalidResY);
            },
        };
        let typ = match file_type_from_name(fields[4].as_slice()) {
            Some(t) => t,
            None => {
                return Err(ParseFileNameError::UnknownType);
            },
        };
        Ok(ResponseHeader::new(typ, hash, Resolution::new(x, y), file_size))
    }
}

/// No byte of `s` is a `-`.
pub open spec fn dash_free(s: Seq<u8>) -> bool {
    forall|i: int| 0 <= i < s.len() ==> #[trigger] s[i] != dash()
}

/// Text without a `-` is one field.
pub proof fn lemma_split_dash_free(q: Seq<u8>)
    requires
        dash_free(q),
    ensures
        split_dash(q) == seq![q],
    decreases q.len(),
{
    if q.len() > 0 {
        let init = q.drop_last();
        assert(dash_free(init)) by {
            assert forall|i: int| 0 <= i < init.len() implies #[trigger] init[i] != dash() by {
                assert(init[i] == q[i]);
            }
        }
        lemma_split_dash_free(init);
        assert(q.last() != dash());
        assert(init.push(q.last()) =~= q);
        assert(split_dash(q) =~= seq![q]);
    } else {
        assert(q =~= Seq::<u8>::empty());
    }
}

/// The fields of two texts joined by a `-` are the fields of the first
/// followed by the fields of the second.
pub proof fn lemma_split_dash_join(p: Seq<u8>, q: Seq<u8>)
    ensures
        split_dash(p + seq![dash()] + q) == split_dash(p) + split_dash(q),
    decreases q.len(),
{
    let s = p + seq![dash()] + q;
    if q.len() == 0 {
        assert(s.drop_last() =~= p);
        assert(q =~= Seq::<u8>::empty());
        assert(split_dash(s) =~= split_dash(p) + split_dash(q));
    } else {
        let qi = q.drop_last();
        lemma_split_dash_join(p, qi);
        lemma_split_dash_nonempty(qi);
        lemma_split_dash_nonempty(p);
        assert(s.drop_last() =~= p + seq![dash()] + qi);
        assert(s.last() == q.last());
        assert(split_dash(s) =~= split_dash(p) + split_dash(q));
    }
}

/// The names of the file types hold no `-`, are ASCII, and name their type.
pub proof fn lemma_names_ascii(t: FileType)
    ensures
        dash_free(file_type_name(t)),
        crate::text::is_ascii_bytes(file_type_name(t)),
        file_type_of_name(file_type_name(t)) == Some(t),
{
    let n = file_type_name(t);
    assert(n.len() == 3);
    assert(dash_free(n)) by {
        assert forall|i: int| 0 <= i < n.len() implies #[trigger] n[i] != dash() by {
            assert(i == 0 || i == 1 || i == 2);
        }
    }
    assert(crate::text::is_ascii_bytes(n)) by {
        assert forall|i: int| 0 <= i < n.len() implies #[trigger] n[i] < 128 by {
            assert(i == 0 || i == 1 || i == 2);
        }
    }
    let g = file_type_name(FileType::Gif);
    let j = file_type_name(FileType::Jpg);
    let w = file_type_name(FileType::Webp);
    assert(g[0] != j[0] && g[0] != w[0] && j[0] != w[0]);
    assert(file_type_name(FileType::Png)[0] != w[0]);
    assert(g[0] != file_type_name(FileType::Png)[0] || g[1] != file_type_name(FileType::Png)[1]);
    assert(j[0] != file_type_name(FileType::Png)[0] || j[1] != file_type_name(FileType::Png)[1]);
}

/// Decimal text holds no `-` and is ASCII.
pub proof fn lemma_decimal_dash_free(n: nat)
    ensures
        dash_free(decimal(n)),
        crate::text::is_ascii_bytes(decimal(n)),
{
    crate::decimal::lemma_decimal_value(n);
    let d = decimal(n);
    assert forall|i: int| 0 <= i < d.len() implies #[trigger] d[i] != dash() && d[i] < 128 by {
        assert(crate::decimal::is_digit(d[i]));
    }
}

/// Hex text holds no `-` and is ASCII.
pub proof fn lemma_hex_dash_free(b: Seq<u8>)
    ensures
        dash_free(hex_encode(b)),
        crate::text::is_ascii_bytes(hex_encode(b)),
{
    let h = hex_encode(b);
    assert forall|i: int| 0 <= i < h.len() implies #[trigger] h[i] != dash() && h[i] < 128 by {
        let v = if i % 2 == 0 { b[i / 2] / 16 } else { b[i / 2] % 16 };
        assert(h[i] == crate::hex::hex_digit(v));
    }
}

/// Two ASCII texts joined are ASCII.
pub proof fn lemma_ascii_concat(a: Seq<u8>, b: Seq<u8>)
    requires
        crate::text::is_ascii_bytes(a),
        crate::text::is_ascii_bytes(b),
    ensures
        crate::text::is_ascii_bytes(a + b),
{
    assert forall|i: int| 0 <= i < (a + b).len() implies #[trigger] (a + b)[i] < 128 by {
        if i < a.len() {
            assert((a + b)[i] == a[i]);
        } else {
            assert((a + b)[i] == b[i - a.len()]);
        }
    }
}

/// The text of a resolution is ASCII.
pub proof fn lemma_resolution_text_ascii(r: (u32, u32))
    ensures
        crate::text::is_ascii_bytes(resolution_text(r)),
{
    lemma_decimal_dash_free(r.0 as nat);
    lemma_decimal_dash_free(r.1 as nat);
    let d = seq![dash()];
    assert(crate::text::is_ascii_bytes(d));
    lemma_ascii_concat(decimal(r.0 as nat), d);
    lemma_ascii_concat(decimal(r.0 as nat) + d, decimal(r.1 as nat));
}

/// A file name is ASCII, and its hash field holds twice as many digits as
/// the hash has bytes.
pub proof fn lemma_file_name_ascii(h: HeaderModel)
    ensures
        crate::text::is_ascii_bytes(file_name_spec(h)),
        file_name_spec(h).len() >= hex_encode(h.file_hash).len(),
        file_name_spec(h).subrange(0, hex_encode(h.file_hash).len() as int) == hex_encode(h.file_hash),
{
    let hx = hex_encode(h.file_hash);
    let p = decimal(h.payload_len as nat);
    let r = resolution_text(h.resolution);
    let t = file_type_name(h.file_type);
    lemma_hex_dash_free(h.file_hash);
    lemma_decimal_dash_free(h.payload_len as nat);
    lemma_resolution_text_ascii(h.resolution);
    lemma_names_ascii(h.file_type);
    let s = file_name_spec(h);
    let d = seq![dash()];
    assert(s =~= hx + (d + (p + (d + (r + (d + t))))));
    assert(crate::text::is_ascii_bytes(d));
    lemma_ascii_concat(d, t);
    lemma_ascii_concat(r, d + t);
    lemma_ascii_concat(d, r + (d + t));
    lemma_ascii_concat(p, d + (r + (d + t)));
    lemma_ascii_concat(d, p + (d + (r + (d + t))));
    lemma_ascii_concat(hx, d + (p + (d + (r + (d + t)))));
    assert(s.subrange(0, hx.len() as int) =~= hx);
}

/// Parsing the file name of a header gives the header back.
pub proof fn lemma_file_name_roundtrip(h: HeaderModel)
    requires
        h.file_hash.len() == 20,
    ensures
        parse_file_name_spec(file_name_spec(h)) == Ok::<HeaderModel, ParseFileNameError>(h),
{
    let hx = hex_encode(h.file_hash);
    let p = decimal(h.payload_len as nat);
    let x = decimal(h.resolution.0 as nat);
    let y = decimal(h.resolution.1 as nat);
    let t = file_type_name(h.file_type);
    let d = seq![dash()];
    lemma_hex_dash_free(h.file_hash);
    lemma_decimal_dash_free(h.payload_len as nat);
    lemma_decimal_dash_free(h.resolution.0 as nat);
    lemma_decimal_dash_free(h.resolution.1 as nat);
    lemma_names_ascii(h.file_type);
    let s1 = hx + d + p;
    let s2 = s1 + d + x;
    let s3 = s2 + d + y;
    let s4 = s3 + d + t;
    assert(file_name_spec(h) =~= s4);
    lemma_split_dash_free(hx);
    lemma_split_dash_free(p);
    lemma_split_dash_free(x);
    lemma_split_dash_free(y);
    lemma_split_dash_free(t);
    lemma_split_dash_join(hx, p);
    lemma_split_dash_join(s1, x);
    lemma_split_dash_join(s2, y);
    lemma_split_dash_join(s3, t);
    let f = split_dash(s4);
    assert(f =~= seq![hx, p, x, y, t]);
    crate::hex::lemma_hex_roundtrip(h.file_hash);
    crate::decimal::lemma_parse_decimal(h.payload_len);
    crate::decimal::lemma_parse_decimal(h.resolution.0);
    crate::decimal::lemma_parse_decimal(h.resolution.1);
}

/// The text that `ResponseHeader::to_string` gives for a header parses,
/// through its UTF-8 bytes as `ResponseHeader::try_from` reads them, back to
/// that header.
pub proof fn lemma_file_name_text_roundtrip(h: HeaderModel)
    requires
        h.file_hash.len() == 20,
    ensures
        parse_file_name_spec(vstd::utf8::encode_utf8(crate::text::ascii_chars(file_name_spec(h))))
            == Ok::<HeaderModel, ParseFileNameError>(h),
{
    lemma_file_name_ascii(h);
    crate::text::lemma_ascii_encoding(file_name_spec(h));
    lemma_file_name_roundtrip(h);
}

/// The fields of a header's file name, in order: the hash in lower-case
/// hex, the payload length, the width, the height, and the type's name.
pub proof fn lemma_file_name_fields(h: HeaderModel)
    ensures
        split_dash(file_name_spec(h)) == seq![
            hex_encode(h.file_hash),
            decimal(h.payload_len as nat),
            decimal(h.resolution.0 as nat),
            decimal(h.resolution.1 as nat),
            file_type_name(h.file_type),
        ],
{
    let hx = hex_encode(h.file_hash);
    let p = decimal(h.payload_len as nat);
    let x = decimal(h.resolution.0 as nat);
    let y = decimal(h.resolution.1 as nat);
    let t = file_type_name(h.file_type);
    let d = seq![dash()];
    lemma_hex_dash_free(h.file_hash);
    lemma_decimal_dash_free(h.payload_len as nat);
    lemma_decimal_dash_free(h.resolution.0 as nat);
    lemma_decimal_dash_free(h.resolution.1 as nat);
    lemma_names_ascii(h.file_type);
    let s1 = hx + d + p;
    let s2 = s1 + d + x;
    let s3 = s2 + d + y;
    let s4 = s3 + d + t;
    assert(file_name_spec(h) =~= s4);
    lemma_split_dash_free(hx);
    lemma_split_dash_free(p);
    lemma_split_dash_free(x);
    lemma_split_dash_free(y);
    lemma_split_dash_free(t);
    lemma_split_dash_join(hx, p);
    lemma_split_dash_join(s1, x);
    lemma_split_dash_join(s2, y);
    lemma_split_dash_join(s3, t);
    assert(split_dash(s4) =~= seq![hx, p, x, y, t]);
}

/// A parsed header takes each value from its own field of the name: the
/// hash is the first field (in any case), the payload length the second,
/// the width the third, the height the fourth and the type the fifth.
pub proof fn lemma_parsed_fields(s: Seq<u8>)
    ensures
        parse_file_name_spec(s) matches Ok(h) ==> {
            let f = split_dash(s);
            &&& f.len() == 5
            &&& f[0].len() == 40
            &&& hex_encode(h.file_hash) == crate::hex::hex_lower(f[0])
            &&& parse_u32_spec(f[1]) == Some(h.payload_len)
            &&& parse_u32_spec(f[2]) == Some(h.resolution.0)
            &&& parse_u32_spec(f[3]) == Some(h.resolution.1)
            &&& file_type_name(h.file_type) == f[4]
        },
{
    if let Ok(h) = parse_file_name_spec(s) {
        let f = split_dash(s);
        crate::hex::lemma_hex_canonical(f[0]);
    }
}

/// Fields joined back with a `-` between each two.
pub open spec fn join_dash(fs: Seq<Seq<u8>>) -> Seq<u8>
    decreases fs.len(),
{
    if fs.len() == 0 {
        Seq::empty()
    } else if fs.len() == 1 {
        fs[0]
    } else {
        join_dash(fs.drop_last()) + seq![dash()] + fs.last()
    }
}

/// Splitting cuts a text exactly at its dashes: no field holds a `-`, and
/// joining the fields with `-` gives the text back.
pub proof fn lemma_split_dash_inverse(s: Seq<u8>)
    ensures
        split_dash(s).len() >= 1,
        forall|i: int| 0 <= i < split_dash(s).len() ==> dash_free(#[trigger] split_dash(s)[i]),
        join_dash(split_dash(s)) == s,
    decreases s.len(),
{
    if s.len() == 0 {
        assert(split_dash(s) =~= seq![Seq::<u8>::empty()]);
        assert(dash_free(Seq::<u8>::empty()));
        assert(s =~= Seq::<u8>::empty());
    } else {
        let init = s.drop_last();
        let c = s.last();
        lemma_split_dash_inverse(init);
        let r = split_dash(init);
        let f = split_dash(s);
        if c == dash() {
            assert(f == r.push(Seq::<u8>::empty()));
            assert(f.drop_last() =~= r);
            assert forall|i: int| 0 <= i < f.len() implies dash_free(#[trigger] f[i]) by {
                if i < r.len() {
                    assert(f[i] == r[i]);
                } else {
                    assert(f[i] =~= Seq::<u8>::empty());
                }
            }
            assert(join_dash(f) == join_dash(r) + seq![dash()] + Seq::<u8>::empty());
            assert(join_dash(f) =~= s);
        } else {
            let last = r.last().push(c);
            assert(f == r.update(r.len() - 1, last));
            assert forall|i: int| 0 <= i < f.len() implies dash_free(#[trigger] f[i]) by {
                if i < r.len() - 1 {
                    assert(f[i] == r[i]);
                } else {
                    assert(f[i] == last);
                    assert(dash_free(r[r.len() - 1]));
                    assert forall|j: int| 0 <= j < last.len() implies #[trigger] last[j] != dash() by {
                        if j < r.last().len() {
                            assert(last[j] == r.last()[j]);
                        }
                    }
                }
            }
            if r.len() == 1 {
                assert(join_dash(f) == f[0]);
                assert(join_dash(r) == r[0]);
                assert(f[0] == r[0].push(c));
                assert(r[0] == init);
                assert(f[0] == init.push(c));
                assert(init.push(c) =~= s);
                assert(f.len() == 1);
                assert(join_dash(f) == init.push(c));
            } else {
                assert(f.drop_last() =~= r.drop_last());
                assert(join_dash(f) == join_dash(r.drop_last()) + seq![dash()] + last);
                assert(join_dash(r) == join_dash(r.drop_last()) + seq![dash()] + r.last());
                assert(join_dash(f) =~= join_dash(r).push(c));
                assert(init.push(c) =~= s);
            }
        }
    }
}

/// Parsing a name fails at the first field that is wrong: too few or too
/// many fields, then the hash, the payload length, the width, the height
/// and the type, in that order.
pub proof fn lemma_parse_errors(s: Seq<u8>)
    ensures
        ({
            let f = split_dash(s);
            let r = parse_file_name_spec(s);
            &&& f.len() < 5 ==> r == Err::<HeaderModel, ParseFileNameError>(
                ParseFileNameError::FieldMissing,
            )
            &&& f.len() > 5 ==> r == Err::<HeaderModel, ParseFileNameError>(
                ParseFileNameError::FieldExceed,
            )
            &&& f.len() == 5 && !(f[0].len() == 40 && all_hex(f[0])) ==> r == Err::<
                HeaderModel,
                ParseFileNameError,
            >(ParseFileNameError::InvalidHex)
            &&& f.len() == 5 && f[0].len() == 40 && all_hex(f[0]) && parse_u32_spec(f[1]) is None
                ==> r == Err::<HeaderModel, ParseFileNameError>(ParseFileNameError::InvalidFileSize)
            &&& f.len() == 5 && f[0].len() == 40 && all_hex(f[0]) && parse_u32_spec(f[1]) is Some
                && parse_u32_spec(f[2]) is None ==> r == Err::<HeaderModel, ParseFileNameError>(
                ParseFileNameError::InvalidResX,
            )
            &&& f.len() == 5 && f[0].len() == 40 && all_hex(f[0]) && parse_u32_spec(f[1]) is Some
                && parse_u32_spec(f[2]) is Some && parse_u32_spec(f[3]) is None ==> r == Err::<
                HeaderModel,
                ParseFileNameError,
            >(ParseFileNameError::InvalidResY)
            &&& f.len() == 5 && f[0].len() == 40 && all_hex(f[0]) && parse_u32_spec(f[1]) is Some
                && parse_u32_spec(f[2]) is Some && parse_u32_spec(f[3]) is Some
                && file_type_of_name(f[4]) is None ==> r == Err::<HeaderModel, ParseFileNameError>(
                ParseFileNameError::UnknownType,
            )
            &&& f.len() == 5 && f[0].len() == 40 && all_hex(f[0]) && parse_u32_spec(f[1]) is Some
                && parse_u32_spec(f[2]) is Some && parse_u32_spec(f[3]) is Some
                && file_type_of_name(f[4]) is Some ==> r is Ok
        }),
{
}

} // verus!
