//! The multipart/form-data wire format: field headers, delimiters, and the
//! byte-level layout of a whole body, as specification functions, together
//! with verified serializers.
use vstd::prelude::*;

use crate::scan::append_vec;
use crate::scan::subvec;

verus! {

/// Carriage return / line feed, the line terminator of the format.
pub open spec fn spec_crlf() -> Seq<u8> {
    seq![13u8, 10u8]
}

/// Two dashes, the marker that opens every delimiter line.
pub open spec fn spec_dashdash() -> Seq<u8> {
    seq![45u8, 45u8]
}

/// A double quote.
pub open spec fn spec_quote() -> Seq<u8> {
    seq![34u8]
}

/// An empty line: the terminator of a header block.
pub open spec fn spec_crlf2() -> Seq<u8> {
    spec_crlf() + spec_crlf()
}

/// The delimiter that ends a part's payload: a line break followed by
/// `--` and the boundary token.
pub open spec fn spec_delim(b: Seq<u8>) -> Seq<u8> {
    spec_crlf() + spec_dashdash() + b
}

/// The literal bytes of `Content-Disposition: `.
pub open spec fn spec_cd_prefix() -> Seq<u8> {
    seq![67u8, 111u8, 110u8, 116u8, 101u8, 110u8, 116u8, 45u8, 68u8, 105u8, 115u8, 112u8, 111u8, 115u8, 105u8, 116u8, 105u8, 111u8, 110u8, 58u8, 32u8]
}

/// Builds the literal bytes of `Content-Disposition: `.
pub fn cd_prefix_vec() -> (r: Vec<u8>)
    ensures
        r@ == spec_cd_prefix(),
{
    let mut r: Vec<u8> = Vec::new();
    r.push(67u8);
    r.push(111u8);
    r.push(110u8);
    r.push(116u8);
    r.push(101u8);
    r.push(110u8);
    r.push(116u8);
    r.push(45u8);
    r.push(68u8);
    r.push(105u8);
    r.push(115u8);
    r.push(112u8);
    r.push(111u8);
    r.push(115u8);
    r.push(105u8);
    r.push(116u8);
    r.push(105u8);
    r.push(111u8);
    r.push(110u8);
    r.push(58u8);
    r.push(32u8);
    assert(r@ =~= spec_cd_prefix());
    r
}

/// The literal bytes of `form-data; name="`.
pub open spec fn spec_fd_name() -> Seq<u8> {
    seq![102u8, 111u8, 114u8, 109u8, 45u8, 100u8, 97u8, 116u8, 97u8, 59u8, 32u8, 110u8, 97u8, 109u8, 101u8, 61u8, 34u8]
}

/// Builds the literal bytes of `form-data; name="`.
pub fn fd_name_vec() -> (r: Vec<u8>)
    ensures
        r@ == spec_fd_name(),
{
    let mut r: Vec<u8> = Vec::new();
    r.push(102u8);
    r.push(111u8);
    r.push(114u8);
    r.push(109u8);
    r.push(45u8);
    r.push(100u8);
    r.push(97u8);
    r.push(116u8);
    r.push(97u8);
    r.push(59u8);
    r.push(32u8);
    r.push(110u8);
    r.push(97u8);
    r.push(109u8);
    r.push(101u8);
    r.push(61u8);
    r.push(34u8);
    assert(r@ =~= spec_fd_name());
    r
}

/// The literal bytes of `; filename="`.
pub open spec fn spec_filename_mid() -> Seq<u8> {
    seq![59u8, 32u8, 102u8, 105u8, 108u8, 101u8, 110u8, 97u8, 109u8, 101u8, 61u8, 34u8]
}

/// Builds the literal bytes of `; filename="`.
pub fn filename_mid_vec() -> (r: Vec<u8>)
    ensures
        r@ == spec_filename_mid(),
{
    let mut r: Vec<u8> = Vec::new();
    r.push(59u8);
    r.push(32u8);
    r.push(102u8);
    r.push(105u8);
    r.push(108u8);
    r.push(101u8);
    r.push(110u8);
    r.push(97u8);
    r.push(109u8);
    r.push(101u8);
    r.push(61u8);
    r.push(34u8);
    assert(r@ =~= spec_filename_mid());
    r
}

/// The literal bytes of `Content-Type: `.
pub open spec fn spec_ct_prefix() -> Seq<u8> {
    seq![67u8, 111u8, 110u8, 116u8, 101u8, 110u8, 116u8, 45u8, 84u8, 121u8, 112u8, 101u8, 58u8, 32u8]
}

/// Builds the literal bytes of `Content-Type: `.
pub fn ct_prefix_vec() -> (r: Vec<u8>)
    ensures
        r@ == spec_ct_prefix(),
{
    let mut r: Vec<u8> = Vec::new();
    r.push(67u8);
    r.push(111u8);
    r.push(110u8);
    r.push(116u8);
    r.push(101u8);
    r.push(110u8);
    r.push(116u8);
    r.push(45u8);
    r.push(84u8);
    r.push(121u8);
    r.push(112u8);
    r.push(101u8);
    r.push(58u8);
    r.push(32u8);
    assert(r@ =~= spec_ct_prefix());
    r
}

/// The full prefix of a disposition line, up to where the field name starts.
pub open spec fn spec_disposition_prefix() -> Seq<u8> {
    spec_cd_prefix() + spec_fd_name()
}

/// `s` holds no line break bytes.
pub open spec fn line_clean(s: Seq<u8>) -> bool {
    forall|i: int| 0 <= i < s.len() ==> s[i] != 13u8 && s[i] != 10u8
}

/// `s` holds no line break and no quote: fit for a quoted attribute value.
pub open spec fn token_clean(s: Seq<u8>) -> bool {
    forall|i: int| 0 <= i < s.len() ==> s[i] != 13u8 && s[i] != 10u8 && s[i] != 34u8
}

/// A usable boundary token: nonempty, of letters, digits and dashes.
pub open spec fn boundary_token_ok(s: Seq<u8>) -> bool {
    &&& 1 <= s.len() <= 70
    &&& forall|i: int| 0 <= i < s.len() ==> is_alnum_or_dash(s[i])
}

/// A letter, a digit, or a dash.
pub open spec fn is_alnum_or_dash(c: u8) -> bool {
    (48 <= c <= 57) || (65 <= c <= 90) || (97 <= c <= 122) || c == 45
}

/// The fixed pieces of a header line hold no line break.
pub proof fn lemma_literals_clean()
    ensures
        line_clean(spec_cd_prefix()),
        line_clean(spec_fd_name()),
        line_clean(spec_filename_mid()),
        line_clean(spec_ct_prefix()),
        line_clean(spec_quote()),
        line_clean(spec_disposition_prefix()),
{
    assert forall|i: int| 0 <= i < spec_cd_prefix().len() implies spec_cd_prefix()[i] != 13u8
        && spec_cd_prefix()[i] != 10u8 by {}
    assert forall|i: int| 0 <= i < spec_fd_name().len() implies spec_fd_name()[i] != 13u8
        && spec_fd_name()[i] != 10u8 by {}
    assert forall|i: int| 0 <= i < spec_filename_mid().len() implies spec_filename_mid()[i] != 13u8
        && spec_filename_mid()[i] != 10u8 by {}
    assert forall|i: int| 0 <= i < spec_ct_prefix().len() implies spec_ct_prefix()[i] != 13u8
        && spec_ct_prefix()[i] != 10u8 by {}
    assert forall|i: int| 0 <= i < spec_disposition_prefix().len() implies
        spec_disposition_prefix()[i] != 13u8 && spec_disposition_prefix()[i] != 10u8 by {
        if i < spec_cd_prefix().len() {
            assert(spec_disposition_prefix()[i] == spec_cd_prefix()[i]);
        } else {
            assert(spec_disposition_prefix()[i] == spec_fd_name()[i - spec_cd_prefix().len()]);
        }
    }
}

/// The header triple of one part: a required field name, an optional file
/// name, an optional content type, all as raw bytes.
pub struct HeaderView {
    pub name: Seq<u8>,
    pub filename: Option<Seq<u8>>,
    pub content_type: Option<Seq<u8>>,
}

impl HeaderView {
    /// The header can be framed and read back: its name and file name fit a
    /// quoted attribute, its content type fits a header line.
    pub open spec fn wf(self) -> bool {
        &&& token_clean(self.name)
        &&& match self.filename {
            Some(f) => token_clean(f),
            None => true,
        }
        &&& match self.content_type {
            Some(c) => token_clean(c),
            None => true,
        }
    }
}

/// One part of a body: its header and its raw payload bytes.
pub struct PartView {
    pub header: HeaderView,
    pub payload: Seq<u8>,
}

/// The disposition line of a header block (without its line break).
pub open spec fn spec_disposition_line(h: HeaderView) -> Seq<u8> {
    spec_disposition_prefix() + h.name + spec_quote() + (match h.filename {
        Some(f) => spec_filename_mid() + f + spec_quote(),
        None => Seq::<u8>::empty(),
    })
}

/// The header lines of one part, each terminated by a line break; the
/// closing empty line is not included.
pub open spec fn spec_hdr_lines(h: HeaderView) -> Seq<u8> {
    spec_disposition_line(h) + spec_crlf() + (match h.content_type {
        Some(c) => spec_ct_prefix() + c + spec_crlf(),
        None => Seq::<u8>::empty(),
    })
}

/// Everything one part contributes to the body: delimiter line, header
/// block, empty line, payload, and the payload's closing line break.
pub open spec fn spec_part_chunk(b: Seq<u8>, h: HeaderView, p: Seq<u8>) -> Seq<u8> {
    spec_dashdash() + b + spec_crlf() + spec_hdr_lines(h) + spec_crlf() + p + spec_crlf()
}

/// The terminal delimiter line of a body.
pub open spec fn spec_close(b: Seq<u8>) -> Seq<u8> {
    spec_dashdash() + b + spec_dashdash() + spec_crlf()
}

/// The chunks of a sequence of parts, in order.
pub open spec fn spec_chunks(b: Seq<u8>, parts: Seq<PartView>) -> Seq<u8>
    decreases parts.len(),
{
    if parts.len() == 0 {
        Seq::<u8>::empty()
    } else {
        spec_chunks(b, parts.drop_last()) + spec_part_chunk(
            b,
            parts.last().header,
            parts.last().payload,
        )
    }
}

/// A whole serialized body: every part's chunk, then the terminal line.
pub open spec fn spec_body(b: Seq<u8>, parts: Seq<PartView>) -> Seq<u8>
    decreases parts.len(),
{
    if parts.len() == 0 {
        spec_close(b)
    } else {
        spec_part_chunk(b, parts[0].header, parts[0].payload) + spec_body(b, parts.drop_first())
    }
}

/// Prepending a part puts its chunk first.
pub proof fn lemma_chunks_prepend(b: Seq<u8>, p: PartView, parts: Seq<PartView>)
    ensures
        spec_chunks(b, seq![p] + parts) == spec_part_chunk(b, p.header, p.payload) + spec_chunks(
            b,
            parts,
        ),
    decreases parts.len(),
{
    if parts.len() == 0 {
        assert(seq![p] + parts =~= seq![p]);
        assert(spec_chunks(b, seq![p]) == spec_chunks(b, seq![p].drop_last()) + spec_part_chunk(
            b,
            p.header,
            p.payload,
        ));
        assert(seq![p].drop_last() =~= Seq::<PartView>::empty());
        assert(spec_chunks(b, Seq::<PartView>::empty() ) =~= Seq::<u8>::empty());
        assert(spec_chunks(b, seq![p] + parts) =~= spec_part_chunk(b, p.header, p.payload)
            + spec_chunks(b, parts));
    } else {
        let whole = seq![p] + parts;
        assert(whole.drop_last() =~= seq![p] + parts.drop_last());
        assert(whole.last() == parts.last());
        lemma_chunks_prepend(b, p, parts.drop_last());
        assert(spec_chunks(b, whole) == spec_chunks(b, seq![p] + parts.drop_last())
            + spec_part_chunk(b, parts.last().header, parts.last().payload));
        assert(spec_chunks(b, whole) =~= spec_part_chunk(b, p.header, p.payload) + spec_chunks(
            b,
            parts,
        ));
    }
}

/// A body is the chunks of its parts followed by the terminal line.
pub proof fn lemma_body_is_chunks_close(b: Seq<u8>, parts: Seq<PartView>)
    ensures
        spec_body(b, parts) == spec_chunks(b, parts) + spec_close(b),
    decreases parts.len(),
{
    if parts.len() == 0 {
        assert(spec_chunks(b, parts) + spec_close(b) =~= spec_close(b));
    } else {
        lemma_body_is_chunks_close(b, parts.drop_first());
        lemma_chunks_prepend(b, parts[0], parts.drop_first());
        assert(seq![parts[0]] + parts.drop_first() =~= parts);
        assert(spec_body(b, parts) =~= spec_chunks(b, parts) + spec_close(b));
    }
}

/// The field headers of one part, as owned values.
pub struct FieldHeaders {
    pub name: Vec<u8>,
    pub filename: Option<Vec<u8>>,
    pub content_type: Option<Vec<u8>>,
}

impl View for FieldHeaders {
    type V = HeaderView;

    open spec fn view(&self) -> HeaderView {
        HeaderView {
            name: self.name@,
            filename: match self.filename {
                Some(f) => Some(f@),
                None => None,
            },
            content_type: match self.content_type {
                Some(c) => Some(c@),
                None => None,
            },
        }
    }
}

impl FieldHeaders {
    /// The content type the field is treated as: the declared one, else the
    /// binary default.
    pub fn content_type_or_default(&self) -> (r: Vec<u8>)
        ensures
            r@ == match self@.content_type {
                Some(c) => c,
                None => spec_octet_stream(),
            },
    {
        match &self.content_type {
            Some(c) => subvec(c, 0, c.len()),
            None => octet_stream(),
        }
    }
}

/// The default content type of a binary field, `application/octet-stream`.
pub fn octet_stream() -> (r: Vec<u8>)
    ensures
        r@ == spec_octet_stream(),
{
    let mut r: Vec<u8> = Vec::new();
    r.push(97u8);
    r.push(112u8);
    r.push(112u8);
    r.push(108u8);
    r.push(105u8);
    r.push(99u8);
    r.push(97u8);
    r.push(116u8);
    r.push(105u8);
    r.push(111u8);
    r.push(110u8);
    r.push(47u8);
    r.push(111u8);
    r.push(99u8);
    r.push(116u8);
    r.push(101u8);
    r.push(116u8);
    r.push(45u8);
    r.push(115u8);
    r.push(116u8);
    r.push(114u8);
    r.push(101u8);
    r.push(97u8);
    r.push(109u8);
    assert(r@ =~= spec_octet_stream());
    r
}

/// The literal bytes of `application/octet-stream`.
pub open spec fn spec_octet_stream() -> Seq<u8> {
    seq![97u8, 112u8, 112u8, 108u8, 105u8, 99u8, 97u8, 116u8, 105u8, 111u8, 110u8, 47u8, 111u8,
        99u8, 116u8, 101u8, 116u8, 45u8, 115u8, 116u8, 114u8, 101u8, 97u8, 109u8]
}

/// Appends a line break.
pub fn append_crlf(out: &mut Vec<u8>)
    ensures
        final(out)@ == old(out)@ + spec_crlf(),
{
    out.push(13u8);
    out.push(10u8);
    assert(out@ =~= old(out)@ + spec_crlf());
}

/// Appends the header lines of `h` (without the closing empty line).
pub fn append_hdr_lines(out: &mut Vec<u8>, h: &FieldHeaders)
    ensures
        final(out)@ == old(out)@ + spec_hdr_lines(h@),
{
    let cd = cd_prefix_vec();
    append_vec(out, &cd);
    let fd = fd_name_vec();
    append_vec(out, &fd);
    append_vec(out, &h.name);
    out.push(34u8);
    match &h.filename {
        Some(f) => {
            let mid = filename_mid_vec();
            append_vec(out, &mid);
            append_vec(out, f);
            out.push(34u8);
        },
        None => {},
    }
    assert(out@ =~= old(out)@ + spec_disposition_line(h@));
    append_crlf(out);
    match &h.content_type {
        Some(c) => {
            let ct = ct_prefix_vec();
            append_vec(out, &ct);
            append_vec(out, c);
            append_crlf(out);
        },
        None => {},
    }
    assert(out@ =~= old(out)@ + spec_hdr_lines(h@));
}

/// Appends the whole chunk of one part: delimiter line, header block, empty
/// line, payload, closing line break.
pub fn append_part_chunk(out: &mut Vec<u8>, b: &Vec<u8>, h: &FieldHeaders, p: &Vec<u8>)
    ensures
        final(out)@ == old(out)@ + spec_part_chunk(b@, h@, p@),
{
    out.push(45u8);
    out.push(45u8);
    append_vec(out, b);
    append_crlf(out);
    append_hdr_lines(out, h);
    append_crlf(out);
    append_vec(out, p);
    append_crlf(out);
    assert(out@ =~= old(out)@ + spec_part_chunk(b@, h@, p@));
}

/// Appends the terminal delimiter line.
pub fn append_close(out: &mut Vec<u8>, b: &Vec<u8>)
    ensures
        final(out)@ == old(out)@ + spec_close(b@),
{
    out.push(45u8);
    out.push(45u8);
    append_vec(out, b);
    out.push(45u8);
    out.push(45u8);
    append_crlf(out);
    assert(out@ =~= old(out)@ + spec_close(b@));
}

/// Builds the payload-end delimiter `\r\n--` + boundary.
pub fn delim_vec(b: &Vec<u8>) -> (r: Vec<u8>)
    ensures
        r@ == spec_delim(b@),
{
    let mut r: Vec<u8> = Vec::new();
    r.push(13u8);
    r.push(10u8);
    r.push(45u8);
    r.push(45u8);
    append_vec(&mut r, b);
    assert(r@ =~= spec_delim(b@));
    r
}

/// Builds an empty line marker `\r\n\r\n`.
pub fn crlf2_vec() -> (r: Vec<u8>)
    ensures
        r@ == spec_crlf2(),
{
    let mut r: Vec<u8> = Vec::new();
    r.push(13u8);
    r.push(10u8);
    r.push(13u8);
    r.push(10u8);
    assert(r@ =~= spec_crlf2());
    r
}

/// Builds a line break `\r\n`.
pub fn crlf_vec() -> (r: Vec<u8>)
    ensures
        r@ == spec_crlf(),
{
    let mut r: Vec<u8> = Vec::new();
    r.push(13u8);
    r.push(10u8);
    assert(r@ =~= spec_crlf());
    r
}

/// Whether every byte of `s` is a letter, a digit or a dash.
pub fn check_boundary_token(s: &Vec<u8>) -> (r: bool)
    ensures
        r == boundary_token_ok(s@),
{
    if s.len() < 1 || s.len() > 70 {
        return false;
    }
    let mut i: usize = 0;
    while i < s.len()
        invariant
            0 <= i <= s@.len(),
            forall|k: int| 0 <= k < i ==> is_alnum_or_dash(s@[k]),
        decreases s@.len() - i,
    {
        let c = s[i];
        if !((48 <= c && c <= 57) || (65 <= c && c <= 90) || (97 <= c && c <= 122) || c == 45) {
            return false;
        }
        i += 1;
    }
    true
}

} // verus!
