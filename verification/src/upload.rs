//! What an upload session names: the temporary copy of the video, the
//! directory and command line that cut it into segments, the tag of each clip
//! added to the blob store, the announcement sent back to the uploader and
//! the timing records.

use vstd::prelude::*;
use crate::text::{decimal, lemma_decimal_injective, push_decimal, signed_decimal, split_chars, split_on};

verus! {

/// Tag under which clip number `k` of the document `doc` is stored.
pub open spec fn clip_tag_text(doc: Seq<char>, k: nat) -> Seq<char> {
    doc + seq![':'] + decimal(k)
}

/// The message announced to the uploader once `count` clips were handed to
/// the store: the document and the number of the last clip, which is `-1`
/// when there was none.
pub open spec fn announcement_text(doc: Seq<char>, count: nat) -> Seq<char> {
    doc + seq![':'] + signed_decimal(count - 1)
}

/// Name of the file that receives the uploaded video.
pub open spec fn temp_file_text(doc: Seq<char>) -> Seq<char> {
    doc + ".mp4"@
}

/// Arguments line given to ffmpeg after the input file: cut into segments of
/// one second with fresh timestamps, written into the directory named after
/// the document.
pub open spec fn command_line_text(doc: Seq<char>) -> Seq<char> {
    "-f segment -segment_time 1 -reset_timestamps 1 -map 0 "@ + doc + "/output_%d.mp4"@
}

/// One line of a timing log: the document, a comma, the duration in
/// nanoseconds and a line break.
pub open spec fn timing_record_text(doc: Seq<char>, nanos: nat) -> Seq<char> {
    doc + seq![','] + decimal(nanos) + seq!['\n']
}

/// One line of a timing log for the document `doc_id`.
pub fn timing_record(doc_id: &str, nanos: u128) -> (r: String)
    ensures
        r@ == timing_record_text(doc_id@, nanos as nat),
{
    let mut r = String::from_str(doc_id);
    r.append(",");
    push_decimal(&mut r, nanos);
    r.append("\n");
    proof {
        reveal_strlit(",");
        reveal_strlit("\n");
    }
    assert(r@ =~= timing_record_text(doc_id@, nanos as nat));
    r
}

/// The state of one upload: the document that records who may watch the
/// video, and how many clips were tagged so far.
pub struct UploadSession {
    doc_id: String,
    clips: u64,
}

impl UploadSession {
    /// The document of this upload.
    pub closed spec fn doc(&self) -> Seq<char> {
        self.doc_id@
    }

    /// How many clips were tagged so far.
    pub closed spec fn clips_tagged(&self) -> nat {
        self.clips as nat
    }

    /// A session for the document `doc_id`, before any clip.
    pub fn new(doc_id: &str) -> (r: Self)
        ensures
            r.doc() == doc_id@,
            r.clips_tagged() == 0,
    {
        UploadSession { doc_id: String::from_str(doc_id), clips: 0 }
    }

    /// The document of this upload.
    pub fn doc_id(&self) -> (r: String)
        ensures
            r@ == self.doc(),
    {
        self.doc_id.clone()
    }

    /// How many clips were tagged so far.
    pub fn clip_count(&self) -> (r: u64)
        ensures
            r == self.clips_tagged(),
    {
        self.clips
    }

    /// Name of the file that receives the uploaded video.
    pub fn temp_file_name(&self) -> (r: String)
        ensures
            r@ == temp_file_text(self.doc()),
    {
        let mut r = self.doc_id.clone();
        r.append(".mp4");
        r
    }

    /// Directory that receives the segments.
    pub fn segment_dir(&self) -> (r: String)
        ensures
            r@ == self.doc(),
    {
        self.doc_id.clone()
    }

    /// The ffmpeg arguments after the input file: the command line cut at
    /// every space, as the original hands `split(' ')` of it to ffmpeg.
    pub fn segment_args(&self) -> (r: Vec<String>)
        ensures
            r@.map_values(|p: String| p@) == split_on(command_line_text(self.doc()), ' '),
    {
        let mut line = String::from_str("-f segment -segment_time 1 -reset_timestamps 1 -map 0 ");
        line.append(self.doc_id.as_str());
        line.append("/output_%d.mp4");
        split_chars(line.as_str(), ' ')
    }

    /// Tags the next segment file: the tag names the document and the
    /// number of files tagged before; the count grows by one, whether or not
    /// the store then accepts the clip.
    pub fn next_clip_tag(&mut self) -> (r: String)
        requires
            old(self).clips_tagged() < u64::MAX,
        ensures
            r@ == clip_tag_text(old(self).doc(), old(self).clips_tagged()),
            final(self).doc() == old(self).doc(),
            final(self).clips_tagged() == old(self).clips_tagged() + 1,
    {
        let mut r = self.doc_id.clone();
        r.append(":");
        push_decimal(&mut r, self.clips as u128);
        proof {
            reveal_strlit(":");
        }
        assert(r@ =~= clip_tag_text(self.doc(), self.clips_tagged()));
        self.clips = self.clips + 1;
        r
    }

    /// The announcement sent to the uploader after the clips were handed to
    /// the store.
    pub fn announcement(&self) -> (r: String)
        ensures
            r@ == announcement_text(self.doc(), self.clips_tagged()),
    {
        let mut r = self.doc_id.clone();
        r.append(":");
        if self.clips == 0 {
            r.append("-");
            push_decimal(&mut r, 1);
            proof {
                reveal_strlit("-");
            }
        } else {
            push_decimal(&mut r, (self.clips - 1) as u128);
        }
        proof {
            reveal_strlit(":");
        }
        assert(r@ =~= announcement_text(self.doc(), self.clips_tagged()));
        r
    }

    /// The line recording how long the upload took until the ticket was sent.
    pub fn send_time_record(&self, nanos: u128) -> (r: String)
        ensures
            r@ == timing_record_text(self.doc(), nanos as nat),
    {
        timing_record(self.doc_id.as_str(), nanos)
    }
}

/// Distinct clips of one document are stored under distinct tags.
pub proof fn lemma_clip_tags_distinct(doc: Seq<char>, i: nat, j: nat)
    requires
        i != j,
    ensures
        clip_tag_text(doc, i) != clip_tag_text(doc, j),
{
    let a = clip_tag_text(doc, i);
    let b = clip_tag_text(doc, j);
    if a == b {
        let start = doc.len() + 1;
        assert(a.subrange(start as int, a.len() as int) =~= decimal(i));
        assert(b.subrange(start as int, b.len() as int) =~= decimal(j));
        lemma_decimal_injective(i, j);
    }
}

/// Once at least one clip was tagged, the announcement is the tag of the
/// last clip.
pub proof fn lemma_announcement_names_last_clip(doc: Seq<char>, count: nat)
    requires
        count >= 1,
    ensures
        announcement_text(doc, count) == clip_tag_text(doc, (count - 1) as nat),
{
}

} // verus!
