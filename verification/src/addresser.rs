//! Deriving a deterministic content handle from a snapshot, and the
//! value-level snapshot copy.

use vstd::prelude::*;
use vstd::string::*;

use crate::crypto::{hash_hex, sha256_hex_prefixed};
use crate::json::lex_lt;
use crate::scanner::entries_view;
use crate::FileEntry;

verus! {

broadcast use vstd::string::group_string_axioms;

/// Snapshot entries in canonical walk order: paths strictly ascending, so
/// the same tree is always presented the same way.
pub open spec fn paths_sorted(es: Seq<(Seq<char>, Seq<u8>)>) -> bool {
    forall|i: int, j: int| 0 <= i < j < es.len() ==> lex_lt(es[i].0, es[j].0)
}

/// The bytes fed to the content hash for the files: each file's relative
/// path (UTF-8) followed by its raw bytes, in snapshot order.
pub open spec fn files_bytes(es: Seq<(Seq<char>, Seq<u8>)>) -> Seq<u8>
    decreases es.len(),
{
    if es.len() == 0 {
        Seq::empty()
    } else {
        files_bytes(es.drop_last()) + vstd::utf8::encode_utf8(es.last().0) + es.last().1
    }
}

/// Everything fed to the content hash: the execution identity first, then
/// the files.
pub open spec fn addressing_bytes(execution_id: Seq<char>, es: Seq<(Seq<char>, Seq<u8>)>) -> Seq<
    u8,
> {
    vstd::utf8::encode_utf8(execution_id) + files_bytes(es)
}

/// The deterministic content handle of a snapshot under an execution
/// identity.
pub open spec fn handle_of(execution_id: Seq<char>, es: Seq<(Seq<char>, Seq<u8>)>) -> Seq<char> {
    "walrus://"@ + hash_hex(addressing_bytes(execution_id, es))
}

/// Append a byte slice to a buffer.
fn append_bytes(dst: &mut Vec<u8>, src: &[u8])
    ensures
        final(dst)@ == old(dst)@ + src@,
{
    let mut i: usize = 0;
    while i < src.len()
        invariant
            i <= src@.len(),
            dst@ == old(dst)@ + src@.take(i as int),
        decreases src@.len() - i,
    {
        dst.push(src[i]);
        proof {
            assert(src@.take(i as int + 1) =~= src@.take(i as int).push(src@[i as int]));
            assert(dst@ =~= old(dst)@ + src@.take(i as int + 1));
        }
        i += 1;
    }
    proof {
        assert(src@.take(src@.len() as int) =~= src@);
    }
}

/// Derive the content handle that stands in for a "re-encrypted" blob
/// reference: seed a hash with the execution identity, feed every file's
/// relative path and raw bytes in canonical (sorted-path) order, and render
/// the digest as a walrus-style identifier.  No file content is changed.
pub fn simulate_encrypt_blob_id(entries: &Vec<FileEntry>, execution_id: &str) -> (r: String)
    requires
        paths_sorted(entries_view(entries@)),
    ensures
        r@ == handle_of(execution_id@, entries_view(entries@)),
{
    let mut msg: Vec<u8> = Vec::new();
    append_bytes(&mut msg, execution_id.as_bytes());
    let ghost es = entries_view(entries@);
    let mut i: usize = 0;
    while i < entries.len()
        invariant
            i <= entries.len(),
            es == entries_view(entries@),
            msg@ == vstd::utf8::encode_utf8(execution_id@) + files_bytes(es.take(i as int)),
        decreases entries.len() - i,
    {
        let e = &entries[i];
        proof {
            assert(es.take(i as int + 1).drop_last() =~= es.take(i as int));
            assert(es.take(i as int + 1).last() == (e.path@, e.data@));
        }
        append_bytes(&mut msg, e.path.as_str().as_bytes());
        append_bytes(&mut msg, e.data.as_slice());
        proof {
            assert(msg@ =~= vstd::utf8::encode_utf8(execution_id@) + files_bytes(
                es.take(i as int + 1),
            ));
        }
        i += 1;
    }
    proof {
        assert(es.take(entries@.len() as int) =~= es);
    }
    let digest_hex = sha256_hex_prefixed(msg.as_slice());
    let mut out = String::from_str("walrus://");
    out.append(digest_hex.as_str());
    out
}

/// Copy a snapshot's entries into a fresh, independent value.  Once taken,
/// the copy is self-contained: later changes to the source cannot reach it.
pub fn snapshot_entries(source: &Vec<FileEntry>) -> (r: Vec<FileEntry>)
    ensures
        entries_view(r@) == entries_view(source@),
{
    let mut out: Vec<FileEntry> = Vec::new();
    let mut i: usize = 0;
    while i < source.len()
        invariant
            i <= source.len(),
            out@.len() == i,
            forall|k: int|
                0 <= k < i ==> (#[trigger] out@[k].path@, out@[k].data@) == (
                    source@[k].path@,
                    source@[k].data@,
                ),
        decreases source.len() - i,
    {
        let e = &source[i];
        let mut data: Vec<u8> = Vec::new();
        append_bytes(&mut data, e.data.as_slice());
        out.push(FileEntry { path: e.path.clone(), data });
        i += 1;
    }
    proof {
        assert(entries_view(out@) =~= entries_view(source@));
    }
    out
}

/// The content handle is a pure function of the execution identity and the
/// snapshot's own content: on the same pair it is the same on every
/// invocation, in every process.
pub proof fn lemma_handle_deterministic(
    id1: Seq<char>,
    es1: Seq<(Seq<char>, Seq<u8>)>,
    id2: Seq<char>,
    es2: Seq<(Seq<char>, Seq<u8>)>,
)
    requires
        id1 == id2,
        es1 == es2,
    ensures
        handle_of(id1, es1) == handle_of(id2, es2),
{
}

/// Snapshot isolation: the handle derived from a snapshot equals the handle
/// of the source content at the time the snapshot was taken, whatever
/// happens to the source afterwards — the handle never reads the source
/// again.
pub proof fn lemma_snapshot_isolation(
    execution_id: Seq<char>,
    snapshot: Seq<(Seq<char>, Seq<u8>)>,
    source_at_snapshot: Seq<(Seq<char>, Seq<u8>)>,
    source_later: Seq<(Seq<char>, Seq<u8>)>,
)
    requires
        snapshot == source_at_snapshot,
    ensures
        handle_of(execution_id, snapshot) == handle_of(execution_id, source_at_snapshot),
{
}

} // verus!
