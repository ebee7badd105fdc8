//! The streaming decoder: walks a byte source, locates boundary delimiters,
//! parses each part's header block, and hands payloads out through bounded
//! sequential readers.
use vstd::prelude::*;

use crate::MultipartError;
use crate::scan::append_vec;
use crate::scan::find_spec;
use crate::scan::find_sub;
use crate::scan::lemma_find_skip;
use crate::scan::match_at;
use crate::scan::matches_at;
use crate::scan::subvec;
use crate::wire::FieldHeaders;
use crate::wire::HeaderView;
use crate::wire::PartView;
use crate::wire::boundary_token_ok;
use crate::wire::cd_prefix_vec;
use crate::wire::check_boundary_token;
use crate::wire::crlf2_vec;
use crate::wire::crlf_vec;
use crate::wire::ct_prefix_vec;
use crate::wire::delim_vec;
use crate::wire::fd_name_vec;
use crate::wire::filename_mid_vec;
use crate::wire::spec_cd_prefix;
use crate::wire::spec_crlf;
use crate::wire::spec_crlf2;
use crate::wire::spec_ct_prefix;
use crate::wire::spec_dashdash;
use crate::wire::spec_delim;
use crate::wire::spec_fd_name;
use crate::wire::spec_quote;

verus! {

/// What the attributes of a disposition line parse to: the field name and
/// the optional file name.
pub type DispoView = (Seq<u8>, Option<Seq<u8>>);

/// Parses what follows `Content-Disposition: ` on a disposition line: it
/// must read `form-data; name="N"`, optionally followed by
/// `; filename="F"`.
pub open spec fn spec_parse_dispo(s: Seq<u8>) -> Option<DispoView> {
    if !matches_at(s, spec_fd_name(), 0) {
        None
    } else {
        match find_spec(s, spec_quote(), 17) {
            None => None,
            Some(q) => {
                let n = s.subrange(17, q);
                let rem = s.skip(q + 1);
                if rem.len() == 0 {
                    Some((n, None))
                } else if matches_at(rem, crate::wire::spec_filename_mid(), 0) {
                    match find_spec(rem, spec_quote(), 12) {
                        None => None,
                        Some(q2) => if q2 == rem.len() - 1 {
                            Some((n, Some(rem.subrange(12, q2))))
                        } else {
                            None
                        },
                    }
                } else {
                    None
                }
            },
        }
    }
}

/// Parses the lines of a header block, carrying what has been found so far:
/// a disposition line must yield the name; a content-type line yields the
/// content type; unknown lines are ignored.
pub open spec fn spec_parse_lines(
    r: Seq<u8>,
    dispo: Option<DispoView>,
    ct: Option<Seq<u8>>,
) -> Option<HeaderView>
    decreases r.len(),
{
    if r.len() == 0 {
        match dispo {
            Some((n, f)) => Some(HeaderView { name: n, filename: f, content_type: ct }),
            None => None,
        }
    } else {
        match find_spec(r, spec_crlf(), 0) {
            None => None,
            Some(e) => if !(0 <= e && e + 2 <= r.len()) {
                None
            } else {
                let line = r.subrange(0, e);
                let tail = r.skip(e + 2);
                if matches_at(line, spec_cd_prefix(), 0) {
                    match spec_parse_dispo(line.skip(21)) {
                        None => None,
                        Some(nf) => spec_parse_lines(tail, Some(nf), ct),
                    }
                } else if matches_at(line, spec_ct_prefix(), 0) {
                    spec_parse_lines(tail, dispo, Some(line.skip(14)))
                } else {
                    spec_parse_lines(tail, dispo, ct)
                }
            },
        }
    }
}

/// Parses a whole header block (all lines with their line breaks, without
/// the closing empty line).
pub open spec fn spec_parse_hdr_lines(r: Seq<u8>) -> Option<HeaderView> {
    spec_parse_lines(r, None, None)
}

/// One step of the decoder at a delimiter: what it sees after `--boundary`.
pub enum ScanStep {
    /// A part: its header, its payload, and the offset of the next step.
    Part { header: HeaderView, payload: Seq<u8>, next: int },
    /// The terminal `--`: the body is over.
    End,
    /// The body is malformed here.
    Fail,
}

/// Scans the suffix of the body that follows a consumed `--boundary`: the
/// terminal `--`, or a line break, a header block, an empty line, and a
/// payload running to the next delimiter.
pub open spec fn spec_scan(rest: Seq<u8>, b: Seq<u8>) -> ScanStep {
    if rest.len() >= 2 && rest[0] == 45u8 && rest[1] == 45u8 {
        ScanStep::End
    } else if rest.len() >= 2 && rest[0] == 13u8 && rest[1] == 10u8 {
        match find_spec(rest, spec_crlf2(), 2) {
            None => ScanStep::Fail,
            Some(f) => match spec_parse_hdr_lines(rest.subrange(2, f + 2)) {
                None => ScanStep::Fail,
                Some(h) => match find_spec(rest, spec_delim(b), f + 4) {
                    None => ScanStep::Fail,
                    Some(e) => ScanStep::Part {
                        header: h,
                        payload: rest.subrange(f + 4, e),
                        next: e + 4 + b.len(),
                    },
                },
            },
        }
    } else {
        ScanStep::Fail
    }
}

/// All parts that follow a consumed `--boundary`, or `None` on a malformed
/// suffix.
pub open spec fn spec_parts_from(rest: Seq<u8>, b: Seq<u8>) -> Option<Seq<PartView>>
    decreases rest.len(),
{
    match spec_scan(rest, b) {
        ScanStep::End => Some(Seq::<PartView>::empty()),
        ScanStep::Fail => None,
        ScanStep::Part { header, payload, next } => if 1 <= next <= rest.len() {
            match spec_parts_from(rest.skip(next), b) {
                None => None,
                Some(t) => Some(seq![PartView { header, payload }] + t),
            }
        } else {
            None
        },
    }
}

/// All parts of a whole body: it must open with `--boundary`, and every
/// delimiter step must succeed.
pub open spec fn spec_decode(data: Seq<u8>, b: Seq<u8>) -> Option<Seq<PartView>> {
    if matches_at(data, spec_dashdash() + b, 0) {
        spec_parts_from(data.skip(2 + b.len() as int), b)
    } else {
        None
    }
}

/// Builds a single quote character.
fn quote_vec() -> (r: Vec<u8>)
    ensures
        r@ == spec_quote(),
{
    let mut r: Vec<u8> = Vec::new();
    r.push(34u8);
    assert(r@ =~= spec_quote());
    r
}

/// Parses the attributes of a disposition line (everything after
/// `Content-Disposition: `).
fn parse_dispo(s: &Vec<u8>) -> (r: Option<(Vec<u8>, Option<Vec<u8>>)>)
    ensures
        match r {
            Some((n, f)) => spec_parse_dispo(s@) == Some(
                (
                    n@,
                    match f {
                        Some(fv) => Some(fv@),
                        None => None,
                    },
                ),
            ),
            None => spec_parse_dispo(s@) is None,
        },
{
    let fd = fd_name_vec();
    if s.len() < 17 || !match_at(s, &fd, 0) {
        return None;
    }
    let q = quote_vec();
    match find_sub(s, &q, 17) {
        None => None,
        Some(qi) => {
            proof {
                crate::scan::lemma_find_spec_props(s@, q@, 17);
            }
            let name = subvec(s, 17, qi);
            if qi + 1 == s.len() {
                assert(s@.skip(qi + 1).len() == 0);
                Some((name, None))
            } else {
                let rem = subvec(s, qi + 1, s.len());
                assert(rem@ =~= s@.skip(qi as int + 1));
                let mid = filename_mid_vec();
                if rem.len() < 12 || !match_at(&rem, &mid, 0) {
                    return None;
                }
                match find_sub(&rem, &q, 12) {
                    None => None,
                    Some(q2) => {
                        proof {
                            crate::scan::lemma_find_spec_props(rem@, q@, 12);
                        }
                        if q2 == rem.len() - 1 {
                            let fname = subvec(&rem, 12, q2);
                            Some((name, Some(fname)))
                        } else {
                            None
                        }
                    },
                }
            }
        },
    }
}

/// Parses a whole header block into field headers; `None` where the block
/// cannot be parsed or yields no field name.
pub fn parse_hdr_lines(region: &Vec<u8>) -> (r: Option<FieldHeaders>)
    ensures
        match r {
            Some(fh) => spec_parse_hdr_lines(region@) == Some(fh@),
            None => spec_parse_hdr_lines(region@) is None,
        },
{
    let crlf = crlf_vec();
    let cd = cd_prefix_vec();
    let ctp = ct_prefix_vec();
    let mut off: usize = 0;
    let mut dispo: Option<(Vec<u8>, Option<Vec<u8>>)> = None;
    let mut ct: Option<Vec<u8>> = None;
    proof {
        assert(region@.skip(0) =~= region@);
    }
    while off < region.len()
        invariant
            0 <= off <= region@.len(),
            crlf@ == spec_crlf(),
            cd@ == spec_cd_prefix(),
            ctp@ == spec_ct_prefix(),
            spec_parse_lines(region@.skip(off as int), dispo_view(dispo), ct_view(ct))
                == spec_parse_hdr_lines(region@),
        decreases region@.len() - off,
    {
        let ghost rest = region@.skip(off as int);
        match find_sub(region, &crlf, off) {
            None => {
                proof {
                    lemma_find_skip(region@, crlf@, off as int, off as int);
                    assert(find_spec(rest, spec_crlf(), 0) is None);
                }
                return None;
            },
            Some(e_abs) => {
                proof {
                    crate::scan::lemma_find_spec_props(region@, crlf@, off as int);
                    lemma_find_skip(region@, crlf@, off as int, off as int);
                }
                let ghost e = e_abs - off;
                assert(find_spec(rest, spec_crlf(), 0) == Some(e));
                assert(e + 2 <= rest.len());
                let line = subvec(region, off, e_abs);
                assert(line@ =~= rest.subrange(0, e));
                let mut advanced = false;
                if line.len() >= 21 && match_at(&line, &cd, 0) {
                    let attrs = subvec(&line, 21, line.len());
                    assert(attrs@ =~= line@.skip(21));
                    match parse_dispo(&attrs) {
                        None => {
                            return None;
                        },
                        Some(nf) => {
                            dispo = Some(nf);
                        },
                    }
                } else if line.len() >= 14 && match_at(&line, &ctp, 0) {
                    let v = subvec(&line, 14, line.len());
                    assert(v@ =~= line@.skip(14));
                    ct = Some(v);
                } else {
                    assert(!matches_at(line@, spec_cd_prefix(), 0));
                    assert(!matches_at(line@, spec_ct_prefix(), 0));
                }
                off = e_abs + 2;
                assert(region@.skip(off as int) =~= rest.skip(e + 2));
            },
        }
    }
    assert(region@.skip(off as int).len() == 0);
    match dispo {
        Some((n, f)) => Some(FieldHeaders { name: n, filename: f, content_type: ct }),
        None => None,
    }
}

/// The ghost value of an optional owned disposition result.
pub open spec fn dispo_view(d: Option<(Vec<u8>, Option<Vec<u8>>)>) -> Option<DispoView> {
    match d {
        Some((n, f)) => Some(
            (
                n@,
                match f {
                    Some(x) => Some(x@),
                    None => None,
                },
            ),
        ),
        None => None,
    }
}

/// The ghost value of an optional owned content type.
pub open spec fn ct_view(c: Option<Vec<u8>>) -> Option<Seq<u8>> {
    match c {
        Some(x) => Some(x@),
        None => None,
    }
}

/// The decoder's position in its state machine.
#[derive(Clone, Copy)]
enum DecState {
    /// Nothing read yet: the opening delimiter is still unchecked.
    Start,
    /// An entry boundary was just consumed; the next step is a scan.
    Awaiting,
    /// A live entry reader exists over `pos..entry_end`.
    InEntry,
    /// The terminal delimiter was seen.
    Ended,
    /// A fatal error happened; the decoder is unusable.
    Failed,
}

/// A streaming multipart decoder over an in-memory byte source.
///
/// Entries come strictly in order; at most one entry is live at a time, and
/// asking for the next entry discards whatever of the current one was left
/// unread, by skipping to the delimiter without handing the bytes out.
pub struct Multipart {
    data: Vec<u8>,
    boundary: Vec<u8>,
    pos: usize,
    entry_end: usize,
    state: DecState,
}

impl Multipart {
    /// The whole body being decoded.
    pub closed spec fn data_spec(self) -> Seq<u8> {
        self.data@
    }

    /// The boundary token in use.
    pub closed spec fn boundary_spec(self) -> Seq<u8> {
        self.boundary@
    }

    /// The decoder hit a fatal error.
    pub closed spec fn is_failed(self) -> bool {
        self.state is Failed
    }

    /// The decoder saw the terminal delimiter.
    pub closed spec fn is_ended(self) -> bool {
        self.state is Ended
    }

    /// A live entry reader exists.
    pub closed spec fn in_entry(self) -> bool {
        self.state is InEntry
    }

    /// Nothing has been read yet: the opening delimiter is still unchecked.
    pub closed spec fn is_fresh(self) -> bool {
        self.state is Start
    }

    /// Where the next delimiter scan starts.
    closed spec fn scan_pos(self) -> int {
        match self.state {
            DecState::Start => 2 + self.boundary@.len() as int,
            DecState::Awaiting => self.pos as int,
            DecState::InEntry => self.entry_end + 4 + self.boundary@.len() as int,
            DecState::Ended => 0,
            DecState::Failed => 0,
        }
    }

    /// The positions make sense for the state.
    pub closed spec fn wf(self) -> bool {
        &&& boundary_token_ok(self.boundary@)
        &&& match self.state {
            DecState::Start => self.pos == 0,
            DecState::Awaiting => self.pos <= self.data@.len(),
            DecState::InEntry => self.pos <= self.entry_end && self.entry_end + 4
                + self.boundary@.len() <= self.data@.len(),
            DecState::Ended => true,
            DecState::Failed => true,
        }
    }

    /// The parts still to be delivered, or `None` when what is ahead is
    /// malformed somewhere.
    pub closed spec fn remaining_parts(self) -> Option<Seq<PartView>> {
        match self.state {
            DecState::Start => spec_decode(self.data@, self.boundary@),
            DecState::Awaiting => spec_parts_from(
                self.data@.skip(self.scan_pos()),
                self.boundary@,
            ),
            DecState::InEntry => spec_parts_from(
                self.data@.skip(self.scan_pos()),
                self.boundary@,
            ),
            DecState::Ended => Some(Seq::<PartView>::empty()),
            DecState::Failed => None,
        }
    }

    /// The unread bytes of the live entry.
    pub closed spec fn entry_remaining(self) -> Seq<u8> {
        self.data@.subrange(self.pos as int, self.entry_end as int)
    }

    /// Where the live entry's payload ends: its delimiter's position.
    pub closed spec fn live_entry_end(self) -> int {
        self.entry_end as int
    }

    /// Opens a decode session over a whole in-memory body, given the
    /// boundary token told out-of-band and, when the transport supplied
    /// one, the declared content length, which must equal the body's size.
    pub fn new(data: Vec<u8>, boundary: Vec<u8>, content_len: Option<u64>) -> (r: Result<
        Multipart,
        MultipartError,
    >)
        ensures
            match r {
                Ok(d) => {
                    &&& d.wf()
                    &&& boundary_token_ok(boundary@)
                    &&& d.data_spec() == data@
                    &&& d.boundary_spec() == boundary@
                    &&& !d.is_failed()
                    &&& !d.is_ended()
                    &&& !d.in_entry()
                    &&& d.is_fresh()
                    &&& (content_len matches Some(n) ==> n == data@.len())
                    &&& d.remaining_parts() == spec_decode(data@, boundary@)
                },
                Err(e) => {
                    &&& (e == MultipartError::NotMultipart || e == MultipartError::LengthMismatch)
                    &&& (e == MultipartError::NotMultipart <==> !boundary_token_ok(boundary@))
                    &&& (e == MultipartError::LengthMismatch ==> (boundary_token_ok(boundary@)
                        && (content_len matches Some(n) && n != data@.len())))
                },
            },
            r is Err <==> (!boundary_token_ok(boundary@) || (content_len matches Some(n) && n
                != data@.len())),
    {
        if !check_boundary_token(&boundary) {
            return Err(MultipartError::NotMultipart);
        }
        match content_len {
            Some(n) => {
                if n != data.len() as u64 {
                    return Err(MultipartError::LengthMismatch);
                }
            },
            None => {},
        }
        Ok(Multipart { data, boundary, pos: 0, entry_end: 0, state: DecState::Start })
    }

    /// Scans the next delimiter step, from an awaiting position.
    fn scan_next(&mut self) -> (r: Result<Option<FieldHeaders>, MultipartError>)
        requires
            old(self).wf(),
            old(self).state is Awaiting,
        ensures
            final(self).wf(),
            final(self).data_spec() == old(self).data_spec(),
            final(self).boundary_spec() == old(self).boundary_spec(),
            match spec_scan(old(self).data@.skip(old(self).pos as int), old(self).boundary@) {
                ScanStep::Part { header, payload, next } => {
                    &&& r matches Ok(Some(fh)) && fh@ == header
                    &&& final(self).in_entry()
                    &&& final(self).entry_remaining() == payload
                    &&& final(self).scan_pos() == old(self).pos + next
                },
                ScanStep::End => r matches Ok(None) && final(self).is_ended(),
                ScanStep::Fail => r == Err::<Option<FieldHeaders>, MultipartError>(
                    MultipartError::MalformedHeader,
                ) && final(self).is_failed(),
            },
    {
        let sp = self.pos;
        let dl = self.data.len();
        let ghost rest = self.data@.skip(sp as int);
        if dl - sp >= 2 && self.data[sp] == 45u8 && self.data[sp + 1] == 45u8 {
            proof {
                assert(rest[0] == self.data@[sp as int]);
                assert(rest[1] == self.data@[sp as int + 1]);
            }
            self.state = DecState::Ended;
            return Ok(None);
        }
        if !(dl - sp >= 2 && self.data[sp] == 13u8 && self.data[sp + 1] == 10u8) {
            proof {
                if rest.len() >= 2 {
                    assert(rest[0] == self.data@[sp as int]);
                    assert(rest[1] == self.data@[sp as int + 1]);
                }
            }
            self.state = DecState::Failed;
            return Err(MultipartError::MalformedHeader);
        }
        proof {
            assert(rest[0] == self.data@[sp as int]);
            assert(rest[1] == self.data@[sp as int + 1]);
        }
        let c2 = crlf2_vec();
        let found_blank = find_sub(&self.data, &c2, sp + 2);
        proof {
            lemma_find_skip(self.data@, c2@, sp as int, sp as int + 2);
        }
        match found_blank {
            None => {
                self.state = DecState::Failed;
                return Err(MultipartError::MalformedHeader);
            },
            Some(f_abs) => {
                proof {
                    crate::scan::lemma_find_spec_props(self.data@, c2@, sp as int + 2);
                }
                let ghost f = f_abs - sp;
                assert(find_spec(rest, spec_crlf2(), 2) == Some(f));
                let region = subvec(&self.data, sp + 2, f_abs + 2);
                assert(region@ =~= rest.subrange(2, f + 2));
                let parsed = parse_hdr_lines(&region);
                match parsed {
                    None => {
                        self.state = DecState::Failed;
                        return Err(MultipartError::MalformedHeader);
                    },
                    Some(fh) => {
                        let dlm = delim_vec(&self.boundary);
                        let found_end = find_sub(&self.data, &dlm, f_abs + 4);
                        proof {
                            lemma_find_skip(self.data@, dlm@, sp as int, f_abs as int + 4);
                        }
                        match found_end {
                            None => {
                                self.state = DecState::Failed;
                                return Err(MultipartError::MalformedHeader);
                            },
                            Some(e_abs) => {
                                proof {
                                    crate::scan::lemma_find_spec_props(
                                        self.data@,
                                        dlm@,
                                        f_abs as int + 4,
                                    );
                                }
                                let ghost e = e_abs - sp;
                                assert(find_spec(rest, spec_delim(self.boundary@), f + 4)
                                    == Some(e));
                                self.pos = f_abs + 4;
                                self.entry_end = e_abs;
                                self.state = DecState::InEntry;
                                proof {
                                    assert(self.entry_remaining() =~= rest.subrange(f + 4, e));
                                }
                                return Ok(Some(fh));
                            },
                        }
                    },
                }
            },
        }
    }

    /// Delivers the next entry's headers, or `None` at the end of the body.
    ///
    /// Whatever is left unread of the current entry is discarded first, by
    /// skipping forward to its delimiter; those bytes are never folded into
    /// a later entry.
    pub fn read_entry(&mut self) -> (r: Result<Option<FieldHeaders>, MultipartError>)
        requires
            old(self).wf(),
        ensures
            final(self).wf(),
            final(self).data_spec() == old(self).data_spec(),
            final(self).boundary_spec() == old(self).boundary_spec(),
            old(self).is_failed() ==> r == Err::<Option<FieldHeaders>, MultipartError>(
                MultipartError::InvalidState,
            ) && final(self).is_failed(),
            old(self).is_ended() ==> (r matches Ok(None) && final(self).is_ended()),
            old(self).remaining_parts() matches Some(ps) ==> ((ps.len() > 0 ==> (r matches Ok(
                Some(fh),
            ) && fh@ == ps[0].header && final(self).in_entry() && final(self).entry_remaining()
                == ps[0].payload && final(self).remaining_parts() == Some(ps.drop_first())))
                && (ps.len() == 0 ==> (r matches Ok(None) && final(self).is_ended()))),
            r matches Err(e) ==> (!old(self).is_failed() ==> (old(self).remaining_parts()
                is None && final(self).is_failed() && (e == MultipartError::NotMultipart
                || e == MultipartError::MalformedHeader))),
            r matches Ok(Some(fh)) ==> final(self).in_entry(),
            r matches Ok(None) ==> final(self).is_ended() && old(self).remaining_parts() == Some(
                Seq::<PartView>::empty(),
            ),
            (old(self).is_fresh() && !matches_at(
                old(self).data_spec(),
                spec_dashdash() + old(self).boundary_spec(),
                0,
            )) ==> r == Err::<Option<FieldHeaders>, MultipartError>(MultipartError::NotMultipart),
            r matches Err(e) ==> (e == MultipartError::NotMultipart ==> (old(self).is_fresh()
                && !matches_at(
                old(self).data_spec(),
                spec_dashdash() + old(self).boundary_spec(),
                0,
            ))),
    {
        match self.state {
            DecState::Failed => {
                return Err(MultipartError::InvalidState);
            },
            DecState::Ended => {
                return Ok(None);
            },
            DecState::Start => {
                let mut ddb: Vec<u8> = Vec::new();
                ddb.push(45u8);
                ddb.push(45u8);
                append_vec(&mut ddb, &self.boundary);
                proof {
                    assert(ddb@ =~= spec_dashdash() + self.boundary@);
                }
                if self.data.len() < ddb.len() || !match_at(&self.data, &ddb, 0) {
                    self.state = DecState::Failed;
                    return Err(MultipartError::NotMultipart);
                }
                self.pos = ddb.len();
                self.state = DecState::Awaiting;
            },
            DecState::Awaiting => {},
            DecState::InEntry => {
                let dl = self.data.len();
                assert(self.entry_end + 4 + self.boundary@.len() <= dl);
                self.pos = self.entry_end + 4 + self.boundary.len();
                self.state = DecState::Awaiting;
            },
        }
        let ghost rest = self.data@.skip(self.pos as int);
        let ghost b = self.boundary@;
        let ghost pre_parts = spec_parts_from(rest, b);
        let r = self.scan_next();
        proof {
            if pre_parts is Some {
                let ps = pre_parts->Some_0;
                match spec_scan(rest, b) {
                    ScanStep::Part { header, payload, next } => {
                        assert(1 <= next <= rest.len());
                        let t = spec_parts_from(rest.skip(next), b);
                        assert(t is Some);
                        assert(ps == seq![PartView { header, payload }] + t->Some_0);
                        assert(ps.len() > 0);
                        assert(ps[0] == PartView { header, payload });
                        assert(ps.drop_first() =~= t->Some_0);
                        assert(self.data@.skip(self.scan_pos()) =~= rest.skip(next));
                    },
                    ScanStep::End => {
                        assert(ps.len() == 0);
                    },
                    ScanStep::Fail => {},
                }
            }
        }
        r
    }

    /// Reads all remaining bytes of the live entry; without one, nothing.
    pub fn read_to_end(&mut self) -> (r: Vec<u8>)
        requires
            old(self).wf(),
        ensures
            final(self).wf(),
            final(self).data_spec() == old(self).data_spec(),
            final(self).boundary_spec() == old(self).boundary_spec(),
            final(self).remaining_parts() == old(self).remaining_parts(),
            old(self).in_entry() ==> r@ == old(self).entry_remaining() && final(self).in_entry()
                && final(self).entry_remaining() == Seq::<u8>::empty(),
            !old(self).in_entry() ==> r@ == Seq::<u8>::empty() && *final(self) == *old(self),
    {
        match self.state {
            DecState::InEntry => {
                let r = subvec(&self.data, self.pos, self.entry_end);
                self.pos = self.entry_end;
                proof {
                    assert(self.entry_remaining() =~= Seq::<u8>::empty());
                }
                r
            },
            _ => Vec::new(),
        }
    }

    /// Reads up to `max` of the live entry's remaining bytes.
    pub fn read_chunk(&mut self, max: usize) -> (r: Vec<u8>)
        requires
            old(self).wf(),
        ensures
            final(self).wf(),
            final(self).data_spec() == old(self).data_spec(),
            final(self).boundary_spec() == old(self).boundary_spec(),
            final(self).remaining_parts() == old(self).remaining_parts(),
            old(self).in_entry() ==> {
                &&& r@.len() == vstd::math::min(max as int, old(self).entry_remaining().len() as int)
                &&& r@ == old(self).entry_remaining().take(r@.len() as int)
                &&& final(self).in_entry()
                &&& final(self).entry_remaining() == old(self).entry_remaining().skip(
                    r@.len() as int,
                )
            },
            !old(self).in_entry() ==> r@ == Seq::<u8>::empty() && *final(self) == *old(self),
    {
        match self.state {
            DecState::InEntry => {
                let avail = self.entry_end - self.pos;
                let t = if max < avail {
                    max
                } else {
                    avail
                };
                let r = subvec(&self.data, self.pos, self.pos + t);
                let ghost pre = self.entry_remaining();
                self.pos = self.pos + t;
                proof {
                    assert(r@ =~= pre.take(t as int));
                    assert(self.entry_remaining() =~= pre.skip(t as int));
                }
                r
            },
            _ => Vec::new(),
        }
    }

    /// Hands the first entry out, consuming the decoder into the entry
    /// chain; each entry owns the session until it is consumed in turn.
    pub fn into_entry(self) -> (r: Result<Option<Entry>, MultipartError>)
        requires
            self.wf(),
            !self.is_failed(),
        ensures
            self.remaining_parts() matches Some(ps) ==> ((ps.len() > 0 ==> (r matches Ok(
                Some(e),
            ) && e.wf() && e.headers_spec() == ps[0].header && e.remaining() == ps[0].payload
                && e.parts_after() == Some(ps.drop_first()))) && (ps.len() == 0 ==> r matches Ok(
                None,
            ))),
            r matches Err(e) ==> (self.remaining_parts() is None && (e
                == MultipartError::NotMultipart || e == MultipartError::MalformedHeader)),
    {
        let mut m = self;
        match m.read_entry() {
            Ok(Some(fh)) => Ok(Some(Entry { headers: fh, m })),
            Ok(None) => Ok(None),
            Err(e) => Err(e),
        }
    }
}

/// One decoded entry: its headers and a bounded reader over its payload.
///
/// The entry owns the decode session: the next entry can only be had by
/// consuming this one, so two live readers can never exist at once.
pub struct Entry {
    headers: FieldHeaders,
    m: Multipart,
}

impl Entry {
    /// The session is live on this very entry.
    pub closed spec fn wf(self) -> bool {
        self.m.wf() && self.m.in_entry()
    }

    /// This entry's header triple.
    pub closed spec fn headers_spec(self) -> HeaderView {
        self.headers@
    }

    /// The unread payload bytes of this entry.
    pub closed spec fn remaining(self) -> Seq<u8> {
        self.m.entry_remaining()
    }

    /// The parts that follow this entry.
    pub closed spec fn parts_after(self) -> Option<Seq<PartView>> {
        self.m.remaining_parts()
    }

    /// This entry's headers.
    pub fn headers(&self) -> (r: &FieldHeaders)
        ensures
            r@ == self.headers_spec(),
    {
        &self.headers
    }

    /// Reads all remaining bytes of this entry's payload.
    pub fn read_to_end(&mut self) -> (r: Vec<u8>)
        requires
            old(self).wf(),
        ensures
            final(self).wf(),
            r@ == old(self).remaining(),
            final(self).remaining() == Seq::<u8>::empty(),
            final(self).headers_spec() == old(self).headers_spec(),
            final(self).parts_after() == old(self).parts_after(),
    {
        self.m.read_to_end()
    }

    /// Reads up to `max` bytes of this entry's payload.
    pub fn read_chunk(&mut self, max: usize) -> (r: Vec<u8>)
        requires
            old(self).wf(),
        ensures
            final(self).wf(),
            r@.len() == vstd::math::min(max as int, old(self).remaining().len() as int),
            r@ == old(self).remaining().take(r@.len() as int),
            final(self).remaining() == old(self).remaining().skip(r@.len() as int),
            final(self).headers_spec() == old(self).headers_spec(),
            final(self).parts_after() == old(self).parts_after(),
    {
        self.m.read_chunk(max)
    }

    /// Consumes this entry — reading whatever of it was left unread past —
    /// and delivers the next one, or `None` at the end of the body.
    pub fn next_entry(self) -> (r: Result<Option<Entry>, MultipartError>)
        requires
            self.wf(),
        ensures
            self.parts_after() matches Some(ps) ==> ((ps.len() > 0 ==> (r matches Ok(Some(e))
                && e.wf() && e.headers_spec() == ps[0].header && e.remaining() == ps[0].payload
                && e.parts_after() == Some(ps.drop_first()))) && (ps.len() == 0 ==> r matches Ok(
                None,
            ))),
            r matches Err(e) ==> (self.parts_after() is None && (e == MultipartError::NotMultipart
                || e == MultipartError::MalformedHeader)),
    {
        let mut m = self.m;
        match m.read_entry() {
            Ok(Some(fh)) => Ok(Some(Entry { headers: fh, m })),
            Ok(None) => Ok(None),
            Err(e) => Err(e),
        }
    }
}

/// The exclusivity invariant, as a law: two decoders over the same body
/// and boundary whose live entry ends at the same delimiter agree on every
/// later entry, however far each one's reader has advanced — so the unread
/// bytes of an abandoned entry can never surface in a later entry's output.
pub proof fn lemma_live_reader_isolated(d1: Multipart, d2: Multipart)
    requires
        d1.wf(),
        d2.wf(),
        d1.in_entry(),
        d2.in_entry(),
        d1.data_spec() == d2.data_spec(),
        d1.boundary_spec() == d2.boundary_spec(),
        d1.live_entry_end() == d2.live_entry_end(),
    ensures
        d1.remaining_parts() == d2.remaining_parts(),
{
}

} // verus!
