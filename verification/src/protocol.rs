//! The text carried over the wire: the clip query a viewer sends, and the
//! replies an uploader receives.

use vstd::prelude::*;
use vstd::utf8::{decode_utf8, encode_utf8, encode_utf8_decode_utf8, encode_utf8_valid_utf8, valid_utf8};
use crate::text::{
    is_white_space, lemma_decimal_denotes, lemma_split_first_piece, lemma_trim_end_at,
    lemma_trim_start_at, split_chars, split_on, trim, trimmed, utf8_decode,
};
use crate::upload::clip_tag_text;

verus! {

/// Why received bytes could not be used.
#[derive(Debug, PartialEq, Eq, Structural)]
pub enum DecodeError {
    /// The bytes are not well-formed UTF-8.
    InvalidUtf8,
}

/// A query for a clip, as the query protocol reads it.
pub struct QueryRequest {
    /// The text received.
    pub query: String,
    /// The document whose access list is consulted: the text before the
    /// first `:`.
    pub namespace: String,
    /// The tag looked up in the blob store: the text without surrounding
    /// white space.
    pub tag: String,
}

/// The document part of a query: the first piece when it is cut at `:`.
pub open spec fn query_namespace(query: Seq<char>) -> Seq<char> {
    split_on(query, ':')[0]
}

/// Reads a clip query from the bytes received.
pub fn parse_query_request(bytes: Vec<u8>) -> (r: Result<QueryRequest, DecodeError>)
    ensures
        r is Ok <==> valid_utf8(bytes@),
        r matches Ok(q) ==> {
            &&& q.query@ == decode_utf8(bytes@)
            &&& q.namespace@ == query_namespace(q.query@)
            &&& q.tag@ == trimmed(q.query@)
        },
{
    match utf8_decode(bytes) {
        Some(query) => {
            let mut pieces = split_chars(query.as_str(), ':');
            proof {
                crate::text::lemma_split_nonempty(query@, ':');
                assert(pieces@.map_values(|p: String| p@)[0] == pieces@[0]@);
            }
            let namespace = pieces.swap_remove(0);
            let tag = trim(query.as_str());
            Ok(QueryRequest { query, namespace, tag })
        },
        None => Err(DecodeError::InvalidUtf8),
    }
}

/// Reads text received from the server.
pub fn decode_text(bytes: Vec<u8>) -> (r: Result<String, DecodeError>)
    ensures
        r is Ok <==> valid_utf8(bytes@),
        r matches Ok(t) ==> t@ == decode_utf8(bytes@),
{
    match utf8_decode(bytes) {
        Some(t) => Ok(t),
        None => Err(DecodeError::InvalidUtf8),
    }
}

/// Reads the document ticket the server replies with: the text received,
/// without surrounding white space.
pub fn decode_ticket_reply(bytes: Vec<u8>) -> (r: Result<String, DecodeError>)
    ensures
        r is Ok <==> valid_utf8(bytes@),
        r matches Ok(t) ==> t@ == trimmed(decode_utf8(bytes@)),
{
    match utf8_decode(bytes) {
        Some(t) => Ok(trim(t.as_str())),
        None => Err(DecodeError::InvalidUtf8),
    }
}

/// A viewer who sends the tag of a stored clip, encoded as UTF-8, has the
/// query read back as that very tag: its access list is looked up in the
/// clip's document and the tag is looked up unchanged. This holds for a
/// document name with no `:` that does not start with white space, as the
/// printed form of a document id is.
pub proof fn lemma_clip_query_resolves(doc: Seq<char>, k: nat)
    requires
        !doc.contains(':'),
        doc.len() == 0 || !is_white_space(doc[0]),
    ensures
        valid_utf8(encode_utf8(clip_tag_text(doc, k))),
        decode_utf8(encode_utf8(clip_tag_text(doc, k))) == clip_tag_text(doc, k),
        query_namespace(clip_tag_text(doc, k)) == doc,
        trimmed(clip_tag_text(doc, k)) == clip_tag_text(doc, k),
{
    let tag = clip_tag_text(doc, k);
    encode_utf8_valid_utf8(tag);
    encode_utf8_decode_utf8(tag);
    lemma_split_first_piece(doc, crate::text::decimal(k), ':');
    lemma_decimal_denotes(k);
    let d = crate::text::decimal(k);
    assert(tag[0] == if doc.len() == 0 { ':' } else { doc[0] });
    lemma_trim_start_at(tag, 0);
    assert(tag.subrange(0, tag.len() as int) =~= tag);
    assert(tag.last() == d[d.len() - 1]);
    assert(!is_white_space(tag[tag.len() - 1]));
    lemma_trim_end_at(tag, tag.len() as int);
}

} // verus!
