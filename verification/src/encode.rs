//! The eager encoder: writes each field to the output buffer the moment it
//! is added, and can never revise what it has written.
use vstd::prelude::*;

use crate::MultipartError;
use crate::boundary::Boundary;
use crate::wire::FieldHeaders;
use crate::wire::HeaderView;
use crate::wire::PartView;
use crate::wire::append_close;
use crate::wire::append_part_chunk;
use crate::wire::spec_body;
use crate::wire::spec_chunks;
use crate::wire::lemma_body_is_chunks_close;
use crate::wire::token_clean;

verus! {

/// A one-pass, write-through multipart encoder.
///
/// Every added field is immediately serialized into the in-memory output
/// sink; `finish` appends the terminal delimiter line, after which nothing
/// more may be added.
pub struct Multipart {
    boundary: Boundary,
    buf: Vec<u8>,
    finished: bool,
    parts: Ghost<Seq<PartView>>,
}

impl Multipart {
    /// The fields written so far, in order.
    pub closed spec fn parts(self) -> Seq<PartView> {
        self.parts@
    }

    /// The boundary token in use.
    pub closed spec fn boundary_spec(self) -> Seq<u8> {
        self.boundary@
    }

    /// Whether the terminal delimiter has been written.
    pub closed spec fn is_finished(self) -> bool {
        self.finished
    }

    /// The bytes written to the sink so far.
    pub closed spec fn written(self) -> Seq<u8> {
        self.buf@
    }

    /// The sink always holds exactly the serialization of the parts added
    /// so far, closed by the terminal line once finished.
    pub closed spec fn wf(self) -> bool {
        &&& self.boundary.wf()
        &&& if self.finished {
            self.buf@ == spec_body(self.boundary@, self.parts@)
        } else {
            self.buf@ == spec_chunks(self.boundary@, self.parts@)
        }
    }

    /// Opens an encode session with a fresh random boundary.
    pub fn new() -> (r: Multipart)
        ensures
            r.wf(),
            !r.is_finished(),
            r.parts() == Seq::<PartView>::empty(),
    {
        Self::with_boundary(Boundary::generate())
    }

    /// Opens an encode session with a caller-chosen boundary.
    pub fn with_boundary(boundary: Boundary) -> (r: Multipart)
        requires
            boundary.wf(),
        ensures
            r.wf(),
            !r.is_finished(),
            r.parts() == Seq::<PartView>::empty(),
            r.boundary_spec() == boundary@,
    {
        Multipart { boundary, buf: Vec::new(), finished: false, parts: Ghost(Seq::empty()) }
    }

    /// The boundary token, for the transport's content-type parameter.
    pub fn boundary(&self) -> (r: &Vec<u8>)
        ensures
            r@ == self.boundary_spec(),
    {
        self.boundary.as_bytes()
    }

    /// Writes one text field: a header block with neither filename nor
    /// content type, then the value.
    pub fn write_text(&mut self, name: Vec<u8>, value: Vec<u8>) -> (r: Result<
        (),
        MultipartError,
    >)
        requires
            old(self).wf(),
            token_clean(name@),
        ensures
            final(self).wf(),
            final(self).boundary_spec() == old(self).boundary_spec(),
            match r {
                Ok(()) => !old(self).is_finished() && !final(self).is_finished() && final(self).parts() == old(self).parts().push(
                    PartView {
                        header: HeaderView { name: name@, filename: None, content_type: None },
                        payload: value@,
                    },
                ),
                Err(e) => e == MultipartError::InvalidState && old(self).is_finished() && *final(self) == *old(self),
            },
    {
        let headers = FieldHeaders { name, filename: None, content_type: None };
        self.write_field(headers, value)
    }

    /// Writes one stream field: a header block carrying the filename and
    /// content type when present, then the payload bytes verbatim.
    pub fn write_stream(
        &mut self,
        name: Vec<u8>,
        data: Vec<u8>,
        filename: Option<Vec<u8>>,
        content_type: Option<Vec<u8>>,
    ) -> (r: Result<(), MultipartError>)
        requires
            old(self).wf(),
            token_clean(name@),
            filename matches Some(f) ==> token_clean(f@),
            content_type matches Some(c) ==> token_clean(c@),
        ensures
            final(self).wf(),
            final(self).boundary_spec() == old(self).boundary_spec(),
            match r {
                Ok(()) => !old(self).is_finished() && !final(self).is_finished() && final(self).parts() == old(self).parts().push(
                    PartView {
                        header: HeaderView {
                            name: name@,
                            filename: match filename {
                                Some(f) => Some(f@),
                                None => None,
                            },
                            content_type: match content_type {
                                Some(c) => Some(c@),
                                None => None,
                            },
                        },
                        payload: data@,
                    },
                ),
                Err(e) => e == MultipartError::InvalidState && old(self).is_finished() && *final(self) == *old(self),
            },
    {
        let headers = FieldHeaders { name, filename, content_type };
        self.write_field(headers, data)
    }

    /// Writes one field given its full header triple.
    pub fn write_field(&mut self, headers: FieldHeaders, data: Vec<u8>) -> (r: Result<
        (),
        MultipartError,
    >)
        requires
            old(self).wf(),
            headers@.wf(),
        ensures
            final(self).wf(),
            final(self).boundary_spec() == old(self).boundary_spec(),
            match r {
                Ok(()) => !old(self).is_finished() && !final(self).is_finished() && final(self).parts() == old(self).parts().push(
                    PartView { header: headers@, payload: data@ },
                ),
                Err(e) => e == MultipartError::InvalidState && old(self).is_finished() && *final(self) == *old(self),
            },
    {
        if self.finished {
            return Err(MultipartError::InvalidState);
        }
        append_part_chunk(&mut self.buf, self.boundary.as_bytes(), &headers, &data);
        proof {
            self.parts@ = self.parts@.push(PartView { header: headers@, payload: data@ });
            assert(self.parts@.drop_last() =~= old(self).parts@);
            assert(self.parts@.last() == PartView { header: headers@, payload: data@ });
        }
        Ok(())
    }

    /// Writes the terminal delimiter line; no field may follow it.
    pub fn finish(&mut self) -> (r: Result<(), MultipartError>)
        requires
            old(self).wf(),
        ensures
            final(self).wf(),
            final(self).boundary_spec() == old(self).boundary_spec(),
            final(self).parts() == old(self).parts(),
            match r {
                Ok(()) => !old(self).is_finished() && final(self).is_finished() && final(self).written() == spec_body(old(self).boundary_spec(), old(self).parts()),
                Err(e) => e == MultipartError::InvalidState && old(self).is_finished() && *final(self) == *old(self),
            },
    {
        if self.finished {
            return Err(MultipartError::InvalidState);
        }
        append_close(&mut self.buf, self.boundary.as_bytes());
        self.finished = true;
        proof {
            lemma_body_is_chunks_close(self.boundary@, self.parts@);
        }
        Ok(())
    }

    /// The serialized body written so far.
    pub fn body(&self) -> (r: &Vec<u8>)
        ensures
            r@ == self.written(),
    {
        &self.buf
    }

    /// Gives up the session and hands the written bytes out.
    pub fn into_body(self) -> (r: Vec<u8>)
        ensures
            r@ == self.written(),
    {
        self.buf
    }
}

} // verus!
