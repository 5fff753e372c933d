//! Bookkeeping of a multipart upload.

use vstd::prelude::*;
use crate::xml::{complete_upload_xml, create_xml, string_views};

verus! {

/// What the bookkeeping of a multipart upload holds.
pub struct UploadProgress {
    /// Number of the last part handed out (0 before the first).
    pub part_num: int,
    /// ETags recorded so far; `etags[k - 1]` answers the upload of part `k`.
    pub etags: Seq<Seq<char>>,
    /// Whether a part was handed out whose ETag is not recorded yet.
    pub awaiting: bool,
}

/// Bookkeeping of a multipart upload: parts are numbered from 1 as the file is read,
/// and the ETag that answers the upload of each part is kept for the final request.
pub struct UploadSession {
    part_num: i32,
    etags: Vec<String>,
}

impl View for UploadSession {
    type V = UploadProgress;

    closed spec fn view(&self) -> UploadProgress {
        UploadProgress {
            part_num: self.part_num as int,
            etags: string_views(self.etags@),
            awaiting: self.etags@.len() < self.part_num,
        }
    }
}

impl UploadSession {
    #[verifier::type_invariant]
    spec fn inv(self) -> bool {
        &&& self.etags@.len() <= self.part_num <= self.etags@.len() + 1
    }

    /// A session before the first part.
    pub fn new() -> (s: Self)
        ensures
            s@.part_num == 0,
            s@.etags == Seq::<Seq<char>>::empty(),
            !s@.awaiting,
    {
        let s = UploadSession { part_num: 0, etags: Vec::new() };
        assert(string_views(s.etags@) =~= Seq::<Seq<char>>::empty());
        s
    }

    /// Decides what to do with a chunk of `chunk_len` bytes just read from the file:
    /// an empty chunk ends the upload (`None`); any other chunk is sent as the next
    /// part, whose number is returned.
    pub fn next_part(&mut self, chunk_len: usize) -> (r: Option<i32>)
        requires
            !old(self)@.awaiting,
            chunk_len > 0 ==> old(self)@.part_num < i32::MAX,
        ensures
            chunk_len == 0 ==> r is None && final(self)@ == old(self)@,
            chunk_len > 0 ==> {
                &&& r == Some((old(self)@.part_num + 1) as i32)
                &&& final(self)@.part_num == old(self)@.part_num + 1
                &&& final(self)@.etags == old(self)@.etags
                &&& final(self)@.awaiting
            },
    {
        proof { use_type_invariant(&*self); }
        if chunk_len == 0 {
            return None;
        }
        let n = self.part_num + 1;
        self.part_num = n;
        Some(n)
    }

    /// Records the ETag that answered the upload of the part just handed out.
    pub fn record_etag(&mut self, etag: String)
        requires
            old(self)@.awaiting,
        ensures
            final(self)@.part_num == old(self)@.part_num,
            final(self)@.etags == old(self)@.etags.push(etag@),
            !final(self)@.awaiting,
            final(self)@.etags.len() == final(self)@.part_num,
            final(self)@.etags[final(self)@.part_num - 1] == etag@,
    {
        proof { use_type_invariant(&*self); }
        let ghost e = etag@;
        let mut current = UploadSession::new();
        std::mem::swap(self, &mut current);
        proof { use_type_invariant(&current); }
        let UploadSession { part_num, mut etags } = current;
        etags.push(etag);
        assert(string_views(etags@) =~= string_views(old(self).etags@).push(e));
        *self = UploadSession { part_num, etags };
    }

    /// Number of the last part handed out.
    pub fn part_num(&self) -> (n: i32)
        ensures
            n == self@.part_num,
    {
        self.part_num
    }

    /// The ETags recorded so far, in the order of their parts.
    pub fn etags(&self) -> (v: &Vec<String>)
        ensures
            string_views(v@) == self@.etags,
    {
        &self.etags
    }

    /// The body of the CompleteMultipartUpload request that ends the upload: part `k`
    /// carries the ETag recorded for it, for every part handed out.
    pub fn completion_xml(&self) -> (xml: String)
        requires
            !self@.awaiting,
        ensures
            xml@ == complete_upload_xml(self@.etags),
            self@.etags.len() == self@.part_num,
    {
        proof { use_type_invariant(self); }
        let etags = self.etags.clone();
        assert forall|i: int| 0 <= i < etags@.len() implies etags@[i] == self.etags@[i] by {
            assert(vstd::pervasive::cloned::<String>(self.etags[i], etags[i]));
        }
        assert(etags@ =~= self.etags@);
        create_xml(etags)
    }
}

} // verus!
