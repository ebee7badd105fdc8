//! The lazy builder and its prepared stream: fields are recorded first, laid
//! out on `prepare`, and only then produced as one sequential stream whose
//! total length is known ahead of time whenever every payload declared one.
use vstd::prelude::*;

use crate::MultipartError;
use crate::boundary::Boundary;
use crate::scan::append_vec;
use crate::scan::subvec;
use crate::wire::FieldHeaders;
use crate::wire::HeaderView;
use crate::wire::PartView;
use crate::wire::append_close;
use crate::wire::append_crlf;
use crate::wire::append_hdr_lines;
use crate::wire::spec_body;
use crate::wire::spec_chunks;
use crate::wire::spec_part_chunk;
use crate::wire::lemma_body_is_chunks_close;
use crate::wire::token_clean;

verus! {

/// The views of a run of owned segments.
pub open spec fn seg_views(s: Seq<Vec<u8>>) -> Seq<Seq<u8>> {
    Seq::new(s.len(), |i: int| s[i]@)
}

/// The concatenation of a sequence of segments.
pub open spec fn flat(s: Seq<Seq<u8>>) -> Seq<u8>
    decreases s.len(),
{
    if s.len() == 0 {
        Seq::<u8>::empty()
    } else {
        s[0] + flat(s.drop_first())
    }
}

/// Appending a segment appends its bytes.
pub proof fn lemma_flat_push(s: Seq<Seq<u8>>, x: Seq<u8>)
    ensures
        flat(s.push(x)) == flat(s) + x,
    decreases s.len(),
{
    assert(flat(s.push(x)) == s.push(x)[0] + flat(s.push(x).drop_first()));
    if s.len() == 0 {
        assert(s.push(x).drop_first() =~= Seq::<Seq<u8>>::empty());
        assert(flat(s.push(x).drop_first()) == Seq::<u8>::empty());
        assert(s.push(x)[0] == x);
        assert(flat(s.push(x)) =~= flat(s) + x);
    } else {
        assert(s.push(x).drop_first() =~= s.drop_first().push(x));
        lemma_flat_push(s.drop_first(), x);
        assert(flat(s.push(x)) == s[0] + (flat(s.drop_first()) + x));
        assert(flat(s) == s[0] + flat(s.drop_first()));
        assert(flat(s.push(x)) =~= flat(s) + x);
    }
}

/// Walking one segment forward keeps the concatenation of what is left.
pub proof fn lemma_flat_skip_unfold(s: Seq<Seq<u8>>, i: int)
    requires
        0 <= i < s.len(),
    ensures
        flat(s.skip(i)) == s[i] + flat(s.skip(i + 1)),
{
    assert(s.skip(i).len() > 0);
    assert(s.skip(i)[0] == s[i]);
    assert(s.skip(i).drop_first() =~= s.skip(i + 1));
}

/// A caller-supplied payload source: bytes plus whether their total length
/// was declared up front.
pub struct PayloadStream {
    data: Vec<u8>,
    sized: bool,
}

impl PayloadStream {
    /// The payload bytes.
    pub closed spec fn data_spec(self) -> Seq<u8> {
        self.data@
    }

    /// Whether the source declared its length.
    pub closed spec fn has_len(self) -> bool {
        self.sized
    }

    /// A source whose length is declared: the length of its bytes.
    pub fn with_len(data: Vec<u8>) -> (r: PayloadStream)
        ensures
            r.data_spec() == data@,
            r.has_len(),
    {
        PayloadStream { data, sized: true }
    }

    /// A source of undeclared length.
    pub fn without_len(data: Vec<u8>) -> (r: PayloadStream)
        ensures
            r.data_spec() == data@,
            !r.has_len(),
    {
        PayloadStream { data, sized: false }
    }
}

struct LazyField {
    headers: FieldHeaders,
    payload: Vec<u8>,
    sized: bool,
}

impl LazyField {
    /// The part this field will become on the wire.
    spec fn part_view(self) -> PartView {
        PartView { header: self.headers@, payload: self.payload@ }
    }
}

/// A multipart builder that only records descriptors until `prepare`.
pub struct Multipart {
    fields: Vec<LazyField>,
    prepared: bool,
}

impl Multipart {
    /// The fields recorded so far, in the order they were added.
    pub closed spec fn parts(self) -> Seq<PartView> {
        self.fields@.map_values(|f: LazyField| f.part_view())
    }

    /// Whether every recorded payload declared its length.
    pub closed spec fn all_sized(self) -> bool {
        forall|i: int| 0 <= i < self.fields@.len() ==> self.fields@[i].sized
    }

    /// Whether `prepare` has already run.
    pub closed spec fn is_prepared(self) -> bool {
        self.prepared
    }

    /// Every recorded header can be framed.
    pub closed spec fn wf(self) -> bool {
        forall|i: int| 0 <= i < self.fields@.len() ==> (#[trigger] self.fields@[i]).headers@.wf()
    }

    /// Opens a lazy build session.
    pub fn new() -> (r: Multipart)
        ensures
            r.wf(),
            !r.is_prepared(),
            r.parts() == Seq::<PartView>::empty(),
    {
        let r = Multipart { fields: Vec::new(), prepared: false };
        assert(r.parts() =~= Seq::<PartView>::empty());
        r
    }

    /// Records one text field; no bytes move yet.
    pub fn add_text(&mut self, name: Vec<u8>, value: Vec<u8>) -> (r: Result<(), MultipartError>)
        requires
            old(self).wf(),
            token_clean(name@),
        ensures
            final(self).wf(),
            final(self).is_prepared() == old(self).is_prepared(),
            match r {
                Ok(()) => !old(self).is_prepared() && final(self).parts() == old(self).parts().push(
                    PartView {
                        header: HeaderView { name: name@, filename: None, content_type: None },
                        payload: value@,
                    },
                ) && (final(self).all_sized() == old(self).all_sized()),
                Err(e) => e == MultipartError::InvalidState && old(self).is_prepared() && *final(self) == *old(self),
            },
    {
        if self.prepared {
            return Err(MultipartError::InvalidState);
        }
        let ghost nm = name@;
        let ghost vl = value@;
        let headers = FieldHeaders { name, filename: None, content_type: None };
        let f = LazyField { headers, payload: value, sized: true };
        let ghost fv = f.part_view();
        self.fields.push(f);
        proof {
            assert(fv.header == HeaderView { name: nm, filename: None, content_type: None });
            assert(fv.payload == vl);
            assert(fv == PartView {
                header: HeaderView { name: nm, filename: None, content_type: None },
                payload: vl,
            });
            assert(self.parts() =~= old(self).parts().push(fv));
            assert forall|i: int| 0 <= i < self.fields@.len() implies (#[trigger] self.fields@[i])
                .headers@.wf() by {
                if i < old(self).fields@.len() {
                    assert(old(self).fields@[i].headers@.wf());
                }
            }
            if self.all_sized() {
                assert forall|i: int| 0 <= i < old(self).fields@.len() implies old(
                    self,
                ).fields@[i].sized by {
                    assert(self.fields@[i].sized);
                }
            }
            if old(self).all_sized() {
                assert forall|i: int| 0 <= i < self.fields@.len() implies self.fields@[i]
                    .sized by {
                    if i < old(self).fields@.len() {
                        assert(old(self).fields@[i].sized);
                    }
                }
            }
        }
        Ok(())
    }

    /// Records one stream field; no bytes move yet.
    pub fn add_stream(
        &mut self,
        name: Vec<u8>,
        stream: PayloadStream,
        filename: Option<Vec<u8>>,
        content_type: Option<Vec<u8>>,
    ) -> (r: Result<(), MultipartError>)
        requires
            old(self).wf(),
            token_clean(name@),
            filename matches Some(f) ==> token_clean(f@),
            content_type matches Some(c) ==> token_clean(c@),
        ensures
            final(self).wf(),
            final(self).is_prepared() == old(self).is_prepared(),
            match r {
                Ok(()) => !old(self).is_prepared() && final(self).parts() == old(self).parts().push(
                    PartView {
                        header: HeaderView {
                            name: name@,
                            filename: match filename {
                                Some(f) => Some(f@),
                                None => None,
                            },
                            content_type: match content_type {
                                Some(c) => Some(c@),
                                None => None,
                            },
                        },
                        payload: stream.data_spec(),
                    },
                ) && (final(self).all_sized() == (old(self).all_sized() && stream.has_len())),
                Err(e) => e == MultipartError::InvalidState && old(self).is_prepared() && *final(self) == *old(self),
            },
    {
        if self.prepared {
            return Err(MultipartError::InvalidState);
        }
        let headers = FieldHeaders { name, filename, content_type };
        let f = LazyField { headers, payload: stream.data, sized: stream.sized };
        let ghost fv = f.part_view();
        let ghost fsized = f.sized;
        self.fields.push(f);
        proof {
            assert(self.parts() =~= old(self).parts().push(fv));
            assert forall|i: int| 0 <= i < self.fields@.len() implies (#[trigger] self.fields@[i])
                .headers@.wf() by {
                if i < old(self).fields@.len() {
                    assert(old(self).fields@[i].headers@.wf());
                }
            }
            if self.all_sized() {
                assert(old(self).fields@[0 as int] == self.fields@[0 as int] || true);
                assert forall|i: int| 0 <= i < old(self).fields@.len() implies old(
                    self,
                ).fields@[i].sized by {
                    assert(self.fields@[i].sized);
                }
                assert(self.fields@[self.fields@.len() - 1].sized);
            }
            if old(self).all_sized() && fsized {
                assert forall|i: int| 0 <= i < self.fields@.len() implies self.fields@[i]
                    .sized by {
                    if i < old(self).fields@.len() {
                        assert(old(self).fields@[i].sized);
                    }
                }
            }
        }
        Ok(())
    }

    /// Lays the whole output out, with a fresh random boundary.
    pub fn prepare(&mut self) -> (r: Result<PreparedStream, MultipartError>)
        requires
            old(self).wf(),
        ensures
            final(self).wf(),
            match r {
                Ok(ps) => {
                    &&& !old(self).is_prepared()
                    &&& final(self).is_prepared()
                    &&& ps.wf()
                    &&& ps.full() == spec_body(ps.boundary_spec(), old(self).parts())
                    &&& ps.remaining() == ps.full()
                    &&& ps.len_known() == old(self).all_sized()
                },
                Err(e) => e == MultipartError::InvalidState && old(self).is_prepared() && *final(self) == *old(self),
            },
    {
        let b = Boundary::generate();
        self.prepare_with_boundary(b)
    }

    /// Lays the whole output out with a caller-chosen boundary:
    /// one literal segment per header block, one per payload, one per
    /// delimiter, in the exact order the fields were added.
    pub fn prepare_with_boundary(&mut self, b: Boundary) -> (r: Result<
        PreparedStream,
        MultipartError,
    >)
        requires
            old(self).wf(),
            b.wf(),
        ensures
            final(self).wf(),
            match r {
                Ok(ps) => {
                    &&& !old(self).is_prepared()
                    &&& final(self).is_prepared()
                    &&& ps.wf()
                    &&& ps.boundary_spec() == b@
                    &&& ps.full() == spec_body(b@, old(self).parts())
                    &&& ps.remaining() == ps.full()
                    &&& ps.len_known() == old(self).all_sized()
                },
                Err(e) => e == MultipartError::InvalidState && old(self).is_prepared() && *final(self) == *old(self),
            },
    {
        if self.prepared {
            return Err(MultipartError::InvalidState);
        }
        self.prepared = true;
        let boundary = b.into_bytes();
        let ghost parts = self.parts();
        let mut segments: Vec<Vec<u8>> = Vec::new();
        let mut all_sized = true;
        let mut i: usize = 0;
        while i < self.fields.len()
            invariant
                self.wf(),
                parts == self.parts(),
                0 <= i <= self.fields@.len(),
                flat(seg_views(segments@)) == spec_chunks(
                    boundary@,
                    parts.subrange(0, i as int),
                ),
                all_sized == (forall|k: int| 0 <= k < i ==> self.fields@[k].sized),
            decreases self.fields@.len() - i,
        {
            let ghost segs0 = seg_views(segments@);
            let f = &self.fields[i];
            let mut head: Vec<u8> = Vec::new();
            head.push(45u8);
            head.push(45u8);
            append_vec(&mut head, &boundary);
            append_crlf(&mut head);
            append_hdr_lines(&mut head, &f.headers);
            append_crlf(&mut head);
            let payload = subvec(&f.payload, 0, f.payload.len());
            let mut tail: Vec<u8> = Vec::new();
            append_crlf(&mut tail);
            let ghost hv = head@;
            let ghost pv = payload@;
            let ghost tv = tail@;
            segments.push(head);
            segments.push(payload);
            segments.push(tail);
            if !f.sized {
                all_sized = false;
            }
            proof {
                    assert(seg_views(segments@) =~= segs0.push(hv).push(pv).push(tv));
                lemma_flat_push(segs0, hv);
                lemma_flat_push(segs0.push(hv), pv);
                lemma_flat_push(segs0.push(hv).push(pv), tv);
                let pview = parts[i as int];
                assert(pview == self.fields@[i as int].part_view());
                assert(hv + pv + tv =~= spec_part_chunk(boundary@, pview.header, pview.payload));
                assert(parts.subrange(0, i + 1).drop_last() =~= parts.subrange(0, i as int));
                assert(parts.subrange(0, i + 1).last() == pview);
                assert(flat(seg_views(segments@)) =~= spec_chunks(
                    boundary@,
                    parts.subrange(0, i + 1),
                ));
            }
            i += 1;
        }
        let ghost segs_open = seg_views(segments@);
        let mut close: Vec<u8> = Vec::new();
        append_close(&mut close, &boundary);
        let ghost cl = close@;
        segments.push(close);
        proof {
            assert(seg_views(segments@) =~= segs_open.push(cl));
            lemma_flat_push(segs_open, cl);
            assert(parts.subrange(0, parts.len() as int) =~= parts);
            lemma_body_is_chunks_close(boundary@, parts);
            assert(flat(seg_views(segments@)) =~= spec_body(boundary@, parts));
        }
        let total = sum_len(&segments);
        let ps = PreparedStream {
            segments,
            idx: 0,
            off: 0,
            boundary,
            sized: all_sized,
            total,
        };
        proof {
            assert(ps.segments@.len() > 0);
            lemma_flat_skip_unfold(seg_views(ps.segments@), 0);
            assert(seg_views(ps.segments@).skip(0) =~= seg_views(ps.segments@));
            assert(ps.remaining() =~= ps.full());
        }
        Ok(ps)
    }
}

/// The total length of all segments, as an unbounded count.
fn sum_len(segments: &Vec<Vec<u8>>) -> (r: u128)
    ensures
        r == flat(seg_views(segments@)).len(),
{
    let mut sum: u128 = 0;
    let mut i: usize = 0;
    while i < segments.len()
        invariant
            0 <= i <= segments@.len(),
            sum == flat(seg_views(segments@).subrange(0, i as int)).len(),
            sum <= (i as int) * 0x10000000000000000,
        decreases segments@.len() - i,
    {
        let l = segments[i].len();
        proof {
            let pre = seg_views(segments@).subrange(0, i as int);
            assert(seg_views(segments@)[i as int] =~= segments@[i as int]@);
            assert(seg_views(segments@).subrange(0, i + 1) =~= pre.push(
                seg_views(segments@)[i as int],
            ));
            lemma_flat_push(pre, seg_views(segments@)[i as int]);
            assert(flat(seg_views(segments@).subrange(0, i + 1)).len() == flat(pre).len()
                + l);
            assert((i as int) * 0x10000000000000000 + 0x10000000000000000 == (i + 1)
                * 0x10000000000000000) by (nonlinear_arith);
            assert((i + 1) * 0x10000000000000000 <= 0x10000000000000000 * 0x10000000000000000)
                by (nonlinear_arith)
                requires
                    0 <= i + 1 <= 0x10000000000000000,
            ;
        }
        sum = sum + (l as u128);
        i += 1;
    }
    proof {
        assert(seg_views(segments@).subrange(0, segments@.len() as int) =~= seg_views(segments@));
    }
    sum
}

/// The laid-out body: an ordered run of segments read strictly in sequence.
pub struct PreparedStream {
    segments: Vec<Vec<u8>>,
    idx: usize,
    off: usize,
    boundary: Vec<u8>,
    sized: bool,
    total: u128,
}

impl PreparedStream {
    /// The segment views.
    closed spec fn segs(self) -> Seq<Seq<u8>> {
        seg_views(self.segments@)
    }

    /// All bytes this stream was laid out with.
    pub closed spec fn full(self) -> Seq<u8> {
        flat(self.segs())
    }

    /// The bytes not yet read.
    pub closed spec fn remaining(self) -> Seq<u8> {
        if self.idx < self.segs().len() {
            self.segs()[self.idx as int].skip(self.off as int) + flat(
                self.segs().skip(self.idx + 1),
            )
        } else {
            Seq::<u8>::empty()
        }
    }

    /// Whether every payload source declared its length.
    pub closed spec fn len_known(self) -> bool {
        self.sized
    }

    /// The boundary token the layout used.
    pub closed spec fn boundary_spec(self) -> Seq<u8> {
        self.boundary@
    }

    /// The read cursor is inside the segment run and the recorded total is
    /// the laid-out length.
    pub closed spec fn wf(self) -> bool {
        &&& self.idx <= self.segs().len()
        &&& (self.idx < self.segs().len() ==> self.off <= self.segs()[self.idx as int].len())
        &&& (self.idx == self.segs().len() ==> self.off == 0)
        &&& self.total == self.full().len()
    }

    /// The boundary token, for the transport's content-type parameter.
    pub fn boundary(&self) -> (r: &Vec<u8>)
        ensures
            r@ == self.boundary_spec(),
    {
        &self.boundary
    }

    /// The total length to declare up front: known exactly when every
    /// payload source declared one (and the total fits the wire's integer).
    pub fn content_len(&self) -> (r: Option<u64>)
        requires
            self.wf(),
        ensures
            match r {
                Some(n) => self.len_known() && n == self.full().len(),
                None => !self.len_known() || self.full().len() > u64::MAX,
            },
    {
        if self.sized && self.total <= 0xFFFFFFFFFFFFFFFF {
            Some(self.total as u64)
        } else {
            None
        }
    }

    /// Reads up to `max` bytes: the next bytes of the current segment.
    pub fn read_chunk(&mut self, max: usize) -> (r: Vec<u8>)
        requires
            old(self).wf(),
        ensures
            final(self).wf(),
            final(self).full() == old(self).full(),
            final(self).len_known() == old(self).len_known(),
            final(self).boundary_spec() == old(self).boundary_spec(),
            r@.len() <= max,
            r@ == old(self).remaining().take(r@.len() as int),
            final(self).remaining() == old(self).remaining().skip(r@.len() as int),
            old(self).remaining().len() > 0 && max > 0 ==> r@.len() > 0,
    {
        self.normalize();
        if self.idx == self.segments.len() {
            let r: Vec<u8> = Vec::new();
            assert(r@ =~= self.remaining().take(0));
            assert(self.remaining() =~= self.remaining().skip(0));
            return r;
        }
        let seg_len = self.segments[self.idx].len();
        let avail = seg_len - self.off;
        let t = if max < avail {
            max
        } else {
            avail
        };
        let r = subvec(&self.segments[self.idx], self.off, self.off + t);
        let ghost pre = self.remaining();
        self.off = self.off + t;
        proof {
            let cur = self.segs()[self.idx as int];
            let rest = flat(self.segs().skip(self.idx + 1));
            assert(r@ =~= pre.take(t as int));
            assert(self.remaining() =~= pre.skip(t as int));
        }
        r
    }

    /// Reads everything that is left, to the very end.
    pub fn read_to_end(&mut self) -> (r: Vec<u8>)
        requires
            old(self).wf(),
        ensures
            final(self).wf(),
            final(self).full() == old(self).full(),
            final(self).len_known() == old(self).len_known(),
            final(self).boundary_spec() == old(self).boundary_spec(),
            r@ == old(self).remaining(),
            final(self).remaining() == Seq::<u8>::empty(),
    {
        let mut out: Vec<u8> = Vec::new();
        while self.idx < self.segments.len()
            invariant
                self.wf(),
                self.full() == old(self).full(),
                self.len_known() == old(self).len_known(),
                self.boundary_spec() == old(self).boundary_spec(),
                out@ + self.remaining() == old(self).remaining(),
            decreases self.segs().len() - self.idx, self.segs()[self.idx as int].len() - self.off,
        {
            let ghost pre_out = out@;
            let ghost pre_rem = self.remaining();
            let seg_len = self.segments[self.idx].len();
            let piece = subvec(&self.segments[self.idx], self.off, seg_len);
            append_vec(&mut out, &piece);
            proof {
                lemma_flat_skip_unfold(self.segs(), self.idx as int);
                if self.idx + 1 < self.segs().len() {
                    lemma_flat_skip_unfold(self.segs(), self.idx + 1);
                } else {
                    assert(self.segs().skip(self.idx + 1) =~= Seq::<Seq<u8>>::empty());
                }
            }
            self.idx = self.idx + 1;
            self.off = 0;
            proof {
                assert(out@ =~= pre_out + pre_rem.take(piece@.len() as int));
                if self.idx < self.segs().len() {
                    assert(self.remaining() =~= pre_rem.skip(piece@.len() as int));
                } else {
                    assert(flat(self.segs().skip(self.idx as int)) =~= Seq::<u8>::empty());
                    assert(self.remaining() =~= pre_rem.skip(piece@.len() as int));
                }
                assert(out@ + self.remaining() =~= old(self).remaining());
            }
        }
        assert(out@ =~= old(self).remaining());
        out
    }

    /// Steps past exhausted segments without giving any byte up.
    fn normalize(&mut self)
        requires
            old(self).wf(),
        ensures
            final(self).wf(),
            final(self).full() == old(self).full(),
            final(self).len_known() == old(self).len_known(),
            final(self).boundary_spec() == old(self).boundary_spec(),
            final(self).remaining() == old(self).remaining(),
            final(self).idx == final(self).segs().len() ==> final(self).remaining()
                == Seq::<u8>::empty(),
            final(self).idx < final(self).segs().len() ==> final(self).off < final(self).segs()[
                final(self).idx as int].len(),
    {
        while self.idx < self.segments.len() && self.off == self.segments[self.idx].len()
            invariant
                self.wf(),
                self.full() == old(self).full(),
                self.len_known() == old(self).len_known(),
                self.boundary_spec() == old(self).boundary_spec(),
                self.remaining() == old(self).remaining(),
            decreases self.segs().len() - self.idx,
        {
            let ghost pre = self.remaining();
            proof {
                lemma_flat_skip_unfold(self.segs(), self.idx as int);
            }
            self.idx = self.idx + 1;
            self.off = 0;
            proof {
                if self.idx < self.segs().len() {
                    lemma_flat_skip_unfold(self.segs(), self.idx as int);
                    assert(self.remaining() =~= pre);
                } else {
                    assert(self.segs().skip(self.idx as int) =~= Seq::<Seq<u8>>::empty());
                    assert(self.remaining() =~= pre);
                }
            }
        }
    }
}

} // verus!
